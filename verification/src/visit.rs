//! Mod folders as lists of files, and the archive path each file replaces.
use vstd::prelude::*;

use crate::hashing::{spec_hash40, Hash40};
use crate::path::{
    blen, chars_of, concat, contains_chars, contains_run, ends_with_chars, extension,
    extension_of, file_name, file_name_of, find_first, first_index, join, join_paths, slice,
    span_chars, spans, starts_with_chars, string_of, lemma_spans_unique,
};
use crate::region::{spec_region_from_index, Region};
use crate::replacement_files::{get_region_id, is_region_id, region_codes};

verus! {

/// `str::to_lowercase` of a text.
pub uninterp spec fn spec_to_lowercase(s: Seq<char>) -> Seq<char>;

/// The text with `A`..`Z` mapped to `a`..`z`.
pub open spec fn ascii_lowercase(s: Seq<char>) -> Seq<char> {
    s.map_values(|c: char| if 'A' <= c <= 'Z' { ((c as u32) + 32) as char } else { c })
}

/// Calls `str::to_lowercase`, which maps each character to its Unicode
/// lowercase. Stated: the result is named by `spec_to_lowercase`, and for
/// ASCII text it maps `A`..`Z` to `a`..`z` and leaves the rest.
#[verifier::external_body]
fn to_lowercase(s: &str) -> (r: String)
    ensures
        r@ == spec_to_lowercase(s@),
        vstd::string::is_ascii(s) ==> r@ == ascii_lowercase(s@),
{
    s.to_lowercase()
}

/// The text with every `;` replaced by `:`.
pub open spec fn semicolons_to_colons(s: Seq<char>) -> Seq<char> {
    s.map_values(|c: char| if c == ';' { ':' } else { c })
}

/// The text without its first `+` and the five bytes after it.
pub open spec fn without_marker(s: Seq<char>) -> Seq<char> {
    match first_index(s, '+') {
        Some(i) => {
            let k = choose|k: int| spans(s, i, k, 6);
            s.subrange(0, i) + s.subrange(k, s.len() as int)
        },
        None => s,
    }
}

/// The text with a final `mp4` replaced by `webm`.
pub open spec fn mp4_to_webm(s: Seq<char>) -> Seq<char> {
    if s.len() >= 3 && s.subrange(s.len() - 3, s.len() as int) == "mp4"@ {
        s.subrange(0, s.len() - 3) + "webm"@
    } else {
        s
    }
}

/// The archive path of a mod file: `;` becomes `:`, the regional marker is
/// cut out, a final `mp4` becomes `webm`, and the whole is lowercased.
pub open spec fn spec_smash_path(p: Seq<char>) -> Seq<char> {
    spec_to_lowercase(mp4_to_webm(without_marker(semicolons_to_colons(p))))
}

/// Rewriting an ASCII path keeps it ASCII.
proof fn lemma_rewrite_keeps_ascii(p: Seq<char>)
    requires
        vstd::utf8::is_ascii_chars(p),
        marker_ok(p),
    ensures
        vstd::utf8::is_ascii_chars(mp4_to_webm(without_marker(semicolons_to_colons(p)))),
{
    let s = semicolons_to_colons(p);
    assert(vstd::utf8::is_ascii_chars(s)) by {
        assert forall|i: int| 0 <= i < s.len() implies '\0' <= #[trigger] s[i] <= '\u{7f}' by {
            assert('\0' <= p[i] <= '\u{7f}');
        }
    }
    let s2 = without_marker(s);
    assert(vstd::utf8::is_ascii_chars(s2)) by {
        match first_index(s, '+') {
            Some(i) => {
                let k = choose|k: int| spans(s, i, k, 6);
                assert(spans(s, i, k, 6));
                assert forall|j: int| 0 <= j < s2.len() implies '\0' <= #[trigger] s2[j] <= '\u{7f}' by {
                    if j < i {
                        assert(s2[j] == s[j]);
                    } else {
                        assert(s2[j] == s[k + j - i]);
                    }
                }
            },
            None => {},
        }
    }
    let s3 = mp4_to_webm(s2);
    reveal_strlit("webm");
    assert forall|j: int| 0 <= j < s3.len() implies '\0' <= #[trigger] s3[j] <= '\u{7f}' by {
        if s2.len() >= 3 && s2.subrange(s2.len() - 3, s2.len() as int) == "mp4"@ {
            if j < s2.len() - 3 {
                assert(s3[j] == s2[j]);
            } else {
                assert(s3[j] == "webm"@[j - (s2.len() - 3)]);
            }
        } else {
            assert(s3[j] == s2[j]);
        }
    }
}

/// The first `+` of the path has 6 bytes from it on that end at a
/// character boundary, when there is a `+` at all.
pub open spec fn marker_ok(p: Seq<char>) -> bool {
    let s = semicolons_to_colons(p);
    match first_index(s, '+') {
        Some(i) => exists|k: int| spans(s, i, k, 6),
        None => true,
    }
}

/// The region code that a file name holds after its first `+`, when the
/// path has an extension.
pub open spec fn region_code_of(p: Seq<char>) -> Option<Seq<char>> {
    match extension(p) {
        Some(_) => {
            let n = file_name(p).unwrap();
            match first_index(n, '+') {
                Some(i) => {
                    let k = choose|k: int| spans(n, i, k, 6);
                    Some(n.subrange(i + 1, k))
                },
                None => None,
            }
        },
        None => None,
    }
}

/// Reading the region code of a file name cannot split a character.
pub open spec fn region_marker_readable(p: Seq<char>) -> bool {
    match extension(p) {
        Some(_) => match first_index(file_name(p).unwrap(), '+') {
            Some(i) => exists|k: int| spans(file_name(p).unwrap(), i, k, 6),
            None => true,
        },
        None => true,
    }
}

/// The region a region code names: the code's place in the region table,
/// plus one, and the first region for an unknown code.
pub open spec fn region_for_code(code: Seq<char>) -> Region {
    if exists|i: int| is_region_id(code, i) {
        spec_region_from_index((choose|i: int| is_region_id(code, i)) as nat + 1)
    } else {
        spec_region_from_index(1)
    }
}

/// A file found in a mod folder: its path and size.
#[derive(Debug, Clone)]
pub struct ModFile {
    path: String,
    size: u32,
}

impl ModFile {
    pub closed spec fn spec_path(&self) -> Seq<char> {
        self.path@
    }

    pub closed spec fn spec_size(&self) -> u32 {
        self.size
    }

    /// An empty path of size 0.
    pub fn new() -> (r: Self)
        ensures
            r.spec_path() == Seq::<char>::empty(),
            r.spec_size() == 0,
    {
        ModFile { path: String::new(), size: 0 }
    }

    /// A file at the given path with the given size.
    pub fn with_size(path: String, size: u32) -> (r: Self)
        ensures
            r.spec_path() == path@,
            r.spec_size() == size,
    {
        ModFile { path, size }
    }

    pub fn path(&self) -> (r: &str)
        ensures
            r@ == self.spec_path(),
    {
        self.path.as_str()
    }

    pub fn set_path(&mut self, new_path: &str)
        ensures
            final(self).spec_path() == new_path@,
            final(self).spec_size() == old(self).spec_size(),
    {
        self.path = new_path.to_owned();
    }

    /// The path of the file in the archive.
    pub fn as_smash_path(&self) -> (r: String)
        requires
            marker_ok(self.spec_path()),
        ensures
            r@ == spec_smash_path(self.spec_path()),
            vstd::utf8::is_ascii_chars(self.spec_path()) ==> r@ == ascii_lowercase(
                mp4_to_webm(without_marker(semicolons_to_colons(self.spec_path())))),
    {
        let p = chars_of(self.path.as_str());
        // `;` becomes `:`
        let mut s: Vec<char> = Vec::new();
        let mut i: usize = 0;
        while i < p.len()
            invariant
                i <= p.len(),
                s@ == semicolons_to_colons(p@.subrange(0, i as int)),
            decreases p.len() - i,
        {
            let c = if p[i] == ';' { ':' } else { p[i] };
            s.push(c);
            proof {
                assert(semicolons_to_colons(p@.subrange(0, i + 1)) =~= semicolons_to_colons(p@.subrange(0, i as int)).push(c));
            }
            i = i + 1;
        }
        proof {
            assert(p@.subrange(0, p@.len() as int) =~= p@);
        }
        assert(s@ == semicolons_to_colons(self.spec_path()));
        // the regional marker is cut out
        let s2 = match find_first(&s, '+') {
            Some(m) => {
                let k = match span_chars(&s, m, 6) {
                    Some(k) => k,
                    None => {
                        proof {
                            let k = choose|k: int| spans(s@, m as int, k, 6);
                            assert(spans(s@, m as int, k, 6));
                        }
                        m
                    },
                };
                proof {
                    let kc = choose|k2: int| spans(s@, m as int, k2, 6);
                    lemma_spans_unique(s@, m as int, k as int, kc, 6);
                }
                let head = slice(&s, 0, m);
                let tail = slice(&s, k, s.len());
                concat(&head, &tail)
            },
            None => s,
        };
        assert(s2@ == without_marker(s@));
        // a final `mp4` becomes `webm`
        let mp4 = chars_of("mp4");
        proof {
            reveal_strlit("mp4");
        }
        let s3 = if ends_with_chars(&s2, &mp4) {
            let head = slice(&s2, 0, s2.len() - 3);
            let webm = chars_of("webm");
            concat(&head, &webm)
        } else {
            s2
        };
        assert(s3@ == mp4_to_webm(without_marker(semicolons_to_colons(self.spec_path()))));
        let joined = string_of(&s3);
        proof {
            if vstd::utf8::is_ascii_chars(self.spec_path()) {
                lemma_rewrite_keeps_ascii(self.spec_path());
            }
        }
        to_lowercase(joined.as_str())
    }

    /// The hash of the file's extension.
    pub fn extension(&self) -> (r: Hash40)
        requires
            extension(self.spec_path()) is Some,
        ensures
            r.0 == spec_hash40(extension(self.spec_path()).unwrap()),
    {
        let p = chars_of(self.path.as_str());
        match extension_of(&p) {
            Some(e) => {
                let s = string_of(&e);
                Hash40::from_str(s.as_str())
            },
            None => Hash40(0),
        }
    }

    /// The hash of the file's archive path.
    pub fn hash40(&self) -> (r: Result<Hash40, String>)
        requires
            marker_ok(self.spec_path()),
        ensures
            r matches Ok(h) && h.0 == spec_hash40(spec_smash_path(self.spec_path())),
    {
        let smash_path = self.as_smash_path();
        Ok(Hash40::from_str(smash_path.as_str()))
    }

    pub fn len(&self) -> (r: u32)
        ensures
            r == self.spec_size(),
    {
        self.size
    }

    /// Whether the path mentions `stream` anywhere.
    pub fn is_stream(&self) -> (r: bool)
        ensures
            r == contains_run(self.spec_path(), "stream"@),
    {
        let p = chars_of(self.path.as_str());
        let pat = chars_of("stream");
        contains_chars(&p, &pat)
    }

    /// The region that the file name's marker names, for files with an
    /// extension and a `+` in their name.
    pub fn get_region(&self) -> (r: Option<Region>)
        requires
            region_marker_readable(self.spec_path()),
        ensures
            match region_code_of(self.spec_path()) {
                Some(code) => r == Some(region_for_code(code)),
                None => r is None,
            },
    {
        let p = chars_of(self.path.as_str());
        match extension_of(&p) {
            Some(_) => {
                let n = match file_name_of(&p) {
                    Some(n) => n,
                    None => return None,
                };
                match find_first(&n, '+') {
                    Some(m) => {
                        let k = match span_chars(&n, m, 6) {
                            Some(k) => k,
                            None => {
                                proof {
                                    let k = choose|k: int| spans(n@, m as int, k, 6);
                                    assert(spans(n@, m as int, k, 6));
                                }
                                m
                            },
                        };
                        proof {
                            let kc = choose|k2: int| spans(n@, m as int, k2, 6);
                            lemma_spans_unique(n@, m as int, k as int, kc, 6);
                            // the `+` takes one byte, so the code starts after it
                            crate::path::lemma_blen_subrange_step(n@, m as int, m as int);
                            assert(n@.subrange(m as int, m as int) =~= Seq::<char>::empty());
                            crate::path::lemma_blen_single(n@[m as int]);
                            assert(k > m) by {
                                if k == m {
                                    assert(n@.subrange(m as int, k as int) =~= Seq::<char>::empty());
                                }
                            }
                        }
                        let code = string_of(&slice(&n, m + 1, k));
                        let id = match get_region_id(code.as_str()) {
                            Some(i) => {
                                proof {
                                    let c = choose|c: int| is_region_id(code@, c);
                                    assert(c == i as int);
                                }
                                i
                            },
                            None => 0,
                        };
                        Some(Region::from_index(id as usize + 1))
                    },
                    None => None,
                }
            },
            None => None,
        }
    }
}

/// A mod folder: its path and the files in it, by path relative to it.
#[derive(Debug, Clone)]
pub struct Modpack {
    pub path: String,
    pub mods: Vec<ModFile>,
}

impl Modpack {
    /// Every file with the hash of its archive path, its path made full.
    pub fn flatten(&self) -> (r: Vec<(Hash40, ModFile)>)
        requires
            forall|i: int| 0 <= i < self.mods@.len() ==> marker_ok(#[trigger] self.mods@[i].spec_path()),
        ensures
            r@.len() == self.mods@.len(),
            forall|i: int| 0 <= i < r@.len() ==> {
                &&& (#[trigger] r@[i]).0.0 == spec_hash40(spec_smash_path(self.mods@[i].spec_path()))
                &&& r@[i].1.spec_path() == join(self.path@, self.mods@[i].spec_path())
                &&& r@[i].1.spec_size() == self.mods@[i].spec_size()
            },
    {
        let root = chars_of(self.path.as_str());
        let mut out: Vec<(Hash40, ModFile)> = Vec::new();
        let mut i: usize = 0;
        while i < self.mods.len()
            invariant
                root@ == self.path@,
                i <= self.mods@.len(),
                out@.len() == i,
                forall|j: int| 0 <= j < self.mods@.len() ==> marker_ok(#[trigger] self.mods@[j].spec_path()),
                forall|j: int| 0 <= j < i ==> {
                    &&& (#[trigger] out@[j]).0.0 == spec_hash40(spec_smash_path(self.mods@[j].spec_path()))
                    &&& out@[j].1.spec_path() == join(self.path@, self.mods@[j].spec_path())
                    &&& out@[j].1.spec_size() == self.mods@[j].spec_size()
                },
            decreases self.mods@.len() - i,
        {
            let file = &self.mods[i];
            let local = chars_of(file.path());
            let full = string_of(&join_paths(&root, &local));
            let hash = match file.hash40() {
                Ok(h) => h,
                Err(_) => Hash40(0),
            };
            let new_file = ModFile { path: full, size: file.size };
            out.push((hash, new_file));
            i = i + 1;
        }
        out
    }
}

/// The path with the folder prefix taken off, component-wise: `None` when
/// the folder is not a prefix of it.
pub open spec fn strip_dir_prefix(p: Seq<char>, root: Seq<char>) -> Option<Seq<char>> {
    if root.len() == 0 {
        Some(p)
    } else if p == root {
        Some(Seq::empty())
    } else if p.len() > root.len() && p.subrange(0, root.len() as int) == root {
        if root.last() == '/' {
            Some(p.skip(root.len() as int))
        } else if p[root.len() as int] == '/' {
            Some(p.skip(root.len() as int + 1))
        } else {
            None
        }
    } else {
        None
    }
}

fn strip_dir_prefix_of(p: &Vec<char>, root: &Vec<char>) -> (r: Option<Vec<char>>)
    ensures
        match strip_dir_prefix(p@, root@) {
            Some(s) => r matches Some(v) && v@ == s,
            None => r is None,
        },
{
    if root.len() == 0 {
        return Some(p.clone());
    }
    if crate::path::chars_eq(p, root) {
        return Some(Vec::new());
    }
    if p.len() > root.len() && crate::path::starts_with_chars(p, root) {
        if root[root.len() - 1] == '/' {
            proof {
                assert(p@.subrange(root@.len() as int, p@.len() as int) =~= p@.skip(root@.len() as int));
            }
            Some(slice(p, root.len(), p.len()))
        } else if p[root.len()] == '/' {
            proof {
                assert(p@.subrange(root@.len() as int + 1, p@.len() as int) =~= p@.skip(root@.len() as int + 1));
            }
            Some(slice(p, root.len() + 1, p.len()))
        } else {
            None
        }
    } else {
        None
    }
}

/// A mod folder from the files found in it: each path is made relative to
/// the folder.
pub fn discover(path: &str, found: Vec<ModFile>) -> (r: Modpack)
    requires
        forall|i: int| 0 <= i < found@.len() ==> strip_dir_prefix(#[trigger] found@[i].spec_path(), path@) is Some,
    ensures
        r.path@ == path@,
        r.mods@.len() == found@.len(),
        forall|i: int| 0 <= i < found@.len() ==> {
            &&& Some((#[trigger] r.mods@[i]).spec_path()) == strip_dir_prefix(found@[i].spec_path(), path@)
            &&& r.mods@[i].spec_size() == found@[i].spec_size()
        },
{
    let root = chars_of(path);
    let mut mods: Vec<ModFile> = Vec::new();
    let mut i: usize = 0;
    while i < found.len()
        invariant
            root@ == path@,
            i <= found@.len(),
            mods@.len() == i,
            forall|j: int| 0 <= j < found@.len() ==> strip_dir_prefix(#[trigger] found@[j].spec_path(), path@) is Some,
            forall|j: int| 0 <= j < i ==> {
                &&& Some((#[trigger] mods@[j]).spec_path()) == strip_dir_prefix(found@[j].spec_path(), path@)
                &&& mods@[j].spec_size() == found@[j].spec_size()
            },
        decreases found@.len() - i,
    {
        let p = chars_of(found[i].path());
        let rel = match strip_dir_prefix_of(&p, &root) {
            Some(v) => v,
            None => Vec::new(),
        };
        mods.push(ModFile { path: string_of(&rel), size: found[i].size });
        i = i + 1;
    }
    Modpack { path: path.to_owned(), mods }
}

/// Whether a path found in a mod folder is a file to use: not a
/// directory, and with an extension.
pub fn file(path: &str, is_dir: bool) -> (r: Result<String, String>)
    ensures
        is_dir ==> (r matches Err(e) && e@ == "[ARC::Discovery] Not a file"@),
        !is_dir && extension(path@) is None ==> (r matches Err(e) && e@ == "[ARC::Discovery] File '"@ + path@ + "' does not have an extension, skipping"@),
        !is_dir && extension(path@) is Some ==> (r matches Ok(p) && p@ == path@),
{
    if is_dir {
        return Err("[ARC::Discovery] Not a file".to_owned());
    }
    let p = chars_of(path);
    match extension_of(&p) {
        None => {
            let a = chars_of("[ARC::Discovery] File '");
            let b = chars_of("' does not have an extension, skipping");
            let msg = concat(&concat(&a, &p), &b);
            Err(string_of(&msg))
        },
        Some(_) => Ok(path.to_owned()),
    }
}

/// What a mod folder walk does with an entry of a folder.
#[derive(Debug, Clone, Copy, PartialEq, Eq, Structural)]
pub enum EntryAction {
    /// Names starting with a period are left out.
    Skip,
    /// A folder whose name holds a period is a file of size 0.
    FolderAsFile,
    /// Any other folder is walked in turn.
    Descend,
    /// A file is kept where `file` accepts it.
    CheckFile,
}

/// What a mod folder walk does with an entry named `name`.
pub fn entry_action(name: &str, is_dir: bool) -> (r: EntryAction)
    ensures
        r == (if name@.len() > 0 && name@[0] == '.' {
            EntryAction::Skip
        } else if is_dir && name@.contains('.') {
            EntryAction::FolderAsFile
        } else if is_dir {
            EntryAction::Descend
        } else {
            EntryAction::CheckFile
        }),
{
    let chars = chars_of(name);
    if chars.len() > 0 && chars[0] == '.' {
        return EntryAction::Skip;
    }
    if !is_dir {
        return EntryAction::CheckFile;
    }
    let mut i: usize = 0;
    while i < chars.len()
        invariant
            chars@ == name@,
            is_dir,
            !(chars@.len() > 0 && chars@[0] == '.'),
            i <= chars@.len(),
            forall|j: int| 0 <= j < i ==> chars@[j] != '.',
        decreases chars@.len() - i,
    {
        if chars[i] == '.' {
            assert(name@.contains('.')) by {
                assert(name@[i as int] == '.');
            }
            return EntryAction::FolderAsFile;
        }
        i = i + 1;
    }
    EntryAction::Descend
}

/// Whether a mod folder walk keeps a top-level modpack folder: one whose
/// name does not start with a period.
pub fn is_visible_name(name: &str) -> (r: bool)
    ensures
        r == !(name@.len() > 0 && name@[0] == '.'),
{
    let chars = chars_of(name);
    !(chars.len() > 0 && chars[0] == '.')
}

proof fn lemma_marker_ok_intro(p: Seq<char>, i: int, k: int)
    requires
        first_index(semicolons_to_colons(p), '+') == Some(i),
        spans(semicolons_to_colons(p), i, k, 6),
    ensures
        marker_ok(p),
{
    let s = semicolons_to_colons(p);
    assert(spans(s, i, k, 6));
    assert(exists|k2: int| spans(s, i, k2, 6));
    assert(first_index(s, '+') is Some);
    assert(first_index(s, '+')->0 == i);
    assert(marker_ok(p) == (exists|k2: int| spans(s, i, k2, 6)));
}

/// Whether a mod path's regional marker ends at a character boundary, as
/// `as_smash_path` needs.
pub fn marker_fits(path: &str) -> (r: bool)
    ensures
        r == marker_ok(path@),
{
    let p = chars_of(path);
    let mut s: Vec<char> = Vec::new();
    let mut i: usize = 0;
    while i < p.len()
        invariant
            i <= p.len(),
            s@ == semicolons_to_colons(p@.subrange(0, i as int)),
        decreases p.len() - i,
    {
        let c = if p[i] == ';' { ':' } else { p[i] };
        s.push(c);
        proof {
            assert(semicolons_to_colons(p@.subrange(0, i + 1)) =~= semicolons_to_colons(p@.subrange(0, i as int)).push(c));
        }
        i = i + 1;
    }
    proof {
        assert(p@.subrange(0, p@.len() as int) =~= p@);
    }
    assert(s@ == semicolons_to_colons(path@));
    match find_first(&s, '+') {
        Some(m) => match span_chars(&s, m, 6) {
            Some(k) => {
                assert(first_index(s@, '+') == Some(m as int));
                assert(spans(semicolons_to_colons(path@), m as int, k as int, 6));
                proof {
                    lemma_marker_ok_intro(path@, m as int, k as int);
                }
                true
            },
            None => {
                assert(first_index(s@, '+') == Some(m as int));
                assert(!marker_ok(path@));
                false
            },
        },
        None => {
            assert(first_index(s@, '+') is None);
            true
        },
    }
}

/// A mod file as values: the hash of its archive path, its path and size.
pub open spec fn file_view(e: (Hash40, ModFile)) -> (u64, Seq<char>, u32) {
    (e.0.0, e.1.spec_path(), e.1.spec_size())
}

/// Whether a mod path lies in the streamed files: its archive path starts
/// with `stream:`.
pub open spec fn is_stream_path(p: Seq<char>) -> bool {
    spec_smash_path(p).len() >= 7 && spec_smash_path(p).subrange(0, 7) == "stream:"@
}

/// Every file of a mod folder can be placed: each regional marker ends at
/// a character boundary.
pub open spec fn pack_ok(pack: Modpack) -> bool {
    forall|i: int| 0 <= i < pack.mods@.len() ==> marker_ok(#[trigger] pack.mods@[i].spec_path())
}

/// The archive files and the streamed files of the first `n` files of a
/// mod folder, as values.
pub open spec fn pack_split(pack: Modpack, n: int) -> (Seq<(u64, Seq<char>, u32)>, Seq<(u64, Seq<char>, u32)>)
    decreases n,
{
    if n <= 0 {
        (Seq::empty(), Seq::empty())
    } else {
        let (reg, st) = pack_split(pack, n - 1);
        let m = pack.mods@[n - 1];
        let v = (spec_hash40(spec_smash_path(m.spec_path())), join(pack.path@, m.spec_path()), m.spec_size());
        if is_stream_path(m.spec_path()) { (reg, st.push(v)) } else { (reg.push(v), st) }
    }
}

/// The archive files and the streamed files of the first `n` mod folders,
/// in order; a folder with a file that cannot be placed is left out.
pub open spec fn packs_split(packs: Seq<Modpack>, n: int) -> (Seq<(u64, Seq<char>, u32)>, Seq<(u64, Seq<char>, u32)>)
    decreases n,
{
    if n <= 0 {
        (Seq::empty(), Seq::empty())
    } else {
        let (reg, st) = packs_split(packs, n - 1);
        let p = packs[n - 1];
        if pack_ok(p) {
            let (r2, s2) = pack_split(p, p.mods@.len() as int);
            (reg + r2, st + s2)
        } else {
            (reg, st)
        }
    }
}

/// The files of the mod folders with the hashes of their archive paths:
/// the archive files, then the streamed files (under `stream:`). A folder
/// holding a file whose regional marker would cut a character is left out.
pub fn split_mod_files(packs: &Vec<Modpack>) -> (r: (Vec<(Hash40, ModFile)>, Vec<(Hash40, ModFile)>))
    ensures
        r.0@.map_values(|e: (Hash40, ModFile)| file_view(e)) == packs_split(packs@, packs@.len() as int).0,
        r.1@.map_values(|e: (Hash40, ModFile)| file_view(e)) == packs_split(packs@, packs@.len() as int).1,
{
    let mut regular: Vec<(Hash40, ModFile)> = Vec::new();
    let mut stream: Vec<(Hash40, ModFile)> = Vec::new();
    let stream_prefix = chars_of("stream:");
    proof {
        reveal_strlit("stream:");
    }
    let mut k: usize = 0;
    while k < packs.len()
        invariant
            k <= packs@.len(),
            stream_prefix@ == "stream:"@,
            stream_prefix@.len() == 7,
            regular@.map_values(|e: (Hash40, ModFile)| file_view(e)) == packs_split(packs@, k as int).0,
            stream@.map_values(|e: (Hash40, ModFile)| file_view(e)) == packs_split(packs@, k as int).1,
        decreases packs@.len() - k,
    {
        let pack = &packs[k];
        let mut ok = true;
        let mut i: usize = 0;
        while i < pack.mods.len()
            invariant
                i <= pack.mods@.len(),
                ok == forall|j: int| 0 <= j < i ==> marker_ok(#[trigger] pack.mods@[j].spec_path()),
            decreases pack.mods@.len() - i,
        {
            if !marker_fits(pack.mods[i].path()) {
                ok = false;
            }
            i = i + 1;
        }
        let ghost reg0 = regular@.map_values(|e: (Hash40, ModFile)| file_view(e));
        let ghost st0 = stream@.map_values(|e: (Hash40, ModFile)| file_view(e));
        if ok {
            let flat = pack.flatten();
            let mut j: usize = 0;
            while j < flat.len()
                invariant
                    pack_ok(*pack),
                    j <= flat@.len(),
                    flat@.len() == pack.mods@.len(),
                    stream_prefix@ == "stream:"@,
                    stream_prefix@.len() == 7,
                    forall|x: int| 0 <= x < flat@.len() ==> {
                        &&& (#[trigger] flat@[x]).0.0 == spec_hash40(spec_smash_path(pack.mods@[x].spec_path()))
                        &&& flat@[x].1.spec_path() == join(pack.path@, pack.mods@[x].spec_path())
                        &&& flat@[x].1.spec_size() == pack.mods@[x].spec_size()
                    },
                    regular@.map_values(|e: (Hash40, ModFile)| file_view(e)) == reg0 + pack_split(*pack, j as int).0,
                    stream@.map_values(|e: (Hash40, ModFile)| file_view(e)) == st0 + pack_split(*pack, j as int).1,
                decreases flat@.len() - j,
            {
                let smash = chars_of(pack.mods[j].as_smash_path().as_str());
                let e = (flat[j].0, ModFile { path: flat[j].1.path.clone(), size: flat[j].1.size });
                let ghost ev = file_view(e);
                assert(ev == (spec_hash40(spec_smash_path(pack.mods@[j as int].spec_path())), join(pack.path@, pack.mods@[j as int].spec_path()),
                    pack.mods@[j as int].spec_size()));
                let ghost ps = pack_split(*pack, j as int);
                assert(smash@ == spec_smash_path(pack.mods@[j as int].spec_path()));
                if starts_with_chars(&smash, &stream_prefix) {
                    assert(is_stream_path(pack.mods@[j as int].spec_path()));
                    assert(pack_split(*pack, j + 1) == (ps.0, ps.1.push(ev)));
                    let ghost before = stream@;
                    stream.push(e);
                    assert(stream@.map_values(|e: (Hash40, ModFile)| file_view(e)) =~= before.map_values(|e: (Hash40, ModFile)| file_view(e)).push(ev));
                    assert(st0 + ps.1.push(ev) =~= (st0 + ps.1).push(ev));
                } else {
                    assert(!is_stream_path(pack.mods@[j as int].spec_path()));
                    assert(pack_split(*pack, j + 1) == (ps.0.push(ev), ps.1));
                    let ghost before = regular@;
                    regular.push(e);
                    assert(regular@.map_values(|e: (Hash40, ModFile)| file_view(e)) =~= before.map_values(|e: (Hash40, ModFile)| file_view(e)).push(ev));
                    assert(reg0 + ps.0.push(ev) =~= (reg0 + ps.0).push(ev));
                }
                j = j + 1;
            }
        }
        k = k + 1;
    }
    (regular, stream)
}

} // verus!
