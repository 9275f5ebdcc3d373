//! The workspace selector: which modpack the player picked in the menu.
use vstd::prelude::*;

use crate::path::{blen, chars_of, concat, join, join_paths, string_of};
use crate::remote::{parse_radix, parse_unsigned};

verus! {

/// The characters of a URL after `http://localhost/`, at most as many as
/// the URL has bytes past that prefix (which never cuts any off).
pub fn get_arguments_from_url(s: &str) -> (r: String)
    requires
        blen(s@) >= 17,
    ensures
        r@ == (if s@.len() >= 17 { s@.skip(17) } else { Seq::<char>::empty() }),
{
    let base_url_len: usize = 17;
    let n = s.unicode_len();
    if n >= base_url_len {
        let tail = s.substring_char(base_url_len, n);
        proof {
            assert(s@.subrange(17, n as int) =~= s@.skip(17));
        }
        tail.to_owned()
    } else {
        String::new()
    }
}

/// The workspaces offered in the selector.
pub struct Workspaces {
    pub workspace: Vec<Workspace>,
}

/// One workspace: its place in the list, its folder name, and whether it is
/// the one in use.
pub struct Workspace {
    pub index: u8,
    pub name: String,
    pub in_use: bool,
}

/// The number `str::parse::<u8>` reads: an optional `+`, then decimal
/// digits, with a value below 256.
pub open spec fn spec_parse_u8(s: Seq<char>) -> Option<u8> {
    match parse_unsigned(s, 10) {
        Some(v) => if v <= 255 {
            Some(v as u8)
        } else {
            None
        },
        None => None,
    }
}

/// The folder that holds the workspaces.
pub open spec fn workspaces_root() -> Seq<char> {
    "rom:/arcropolis/workspaces"@
}

/// The folder of the workspace the selector's last URL picks: the number
/// after `http://localhost/` is its place in the list. `None` where that is
/// no number or names no workspace.
pub open spec fn spec_selected_workspace(url: Seq<char>, names: Seq<Seq<char>>) -> Option<Seq<char>> {
    match spec_parse_u8(if url.len() >= 17 { url.skip(17) } else { Seq::empty() }) {
        Some(i) => if (i as int) < names.len() {
            Some(join(workspaces_root(), names[i as int]))
        } else {
            None
        },
        None => None,
    }
}

/// The folder of the workspace the selector's last URL picks (see
/// `spec_selected_workspace`).
pub fn selected_workspace(url: &str, workspaces: &Workspaces) -> (r: Option<String>)
    requires
        blen(url@) >= 17,
    ensures
        match r {
            Some(p) => spec_selected_workspace(url@, workspaces.workspace@.map_values(|w: Workspace| w.name@)) == Some(p@),
            None => spec_selected_workspace(url@, workspaces.workspace@.map_values(|w: Workspace| w.name@)) is None,
        },
{
    let args = get_arguments_from_url(url);
    let digits = chars_of(args.as_str());
    let index = match parse_radix(&digits, 10, 255) {
        Some(v) => v as usize,
        None => {
            return None;
        },
    };
    if index >= workspaces.workspace.len() {
        return None;
    }
    proof {
        reveal_strlit("rom:/arcropolis/workspaces");
    }
    let root = chars_of("rom:/arcropolis/workspaces");
    let name = chars_of(workspaces.workspace[index].name.as_str());
    let joined = join_paths(&root, &name);
    Some(string_of(&joined))
}

/// Where a workspace's mods go in the configuration: its `arc` and `umm`
/// folders, each where the workspace has it.
pub struct WorkspaceConfig {
    pub arc: Option<String>,
    pub umm: Option<String>,
}

impl WorkspaceConfig {
    /// Whether the configuration changes: the workspace has either folder.
    pub fn changed(&self) -> (r: bool)
        ensures
            r == (self.arc is Some || self.umm is Some),
    {
        self.arc.is_some() || self.umm.is_some()
    }
}

/// The configuration paths for workspace folder `path`: `path/arc` where
/// `has_arc`, `path/umm` where `has_umm`.
pub fn workspace_config(path: &str, has_arc: bool, has_umm: bool) -> (r: WorkspaceConfig)
    ensures
        r.arc matches Some(a) ==> has_arc && a@ == path@ + "/arc"@,
        r.arc is None ==> !has_arc,
        r.umm matches Some(u) ==> has_umm && u@ == path@ + "/umm"@,
        r.umm is None ==> !has_umm,
{
    let base = chars_of(path);
    let arc = if has_arc {
        let suffix = chars_of("/arc");
        Some(string_of(&concat(&base, &suffix)))
    } else {
        None
    };
    let umm = if has_umm {
        let suffix = chars_of("/umm");
        Some(string_of(&concat(&base, &suffix)))
    } else {
        None
    };
    WorkspaceConfig { arc, umm }
}

} // verus!
