//! Path rules shared by the file handlers, and the built-in handlers.
use vstd::prelude::*;

use super::registry::{names_view, HandlerId, HandlerInfo, HandlerRegistry};
use crate::hashing::{spec_hash40, Hash40};
use crate::path::{blen, chars_of, concat, contains_chars, contains_run, extension, extension_of, file_name, file_name_of, find_first, find_last, first_index, last_index, lemma_blen_single, lemma_blen_split, lemma_blen_subrange_step, lemma_spans_unique, slice, span_chars, spans, string_of, with_file_name, with_file_name_of};

verus! {

/// Holds when cutting a regional marker out of the file name cannot split a
/// character: if the name has a `+` with at least 6 bytes from it on, those
/// 6 bytes end at a character boundary.
pub open spec fn regional_marker_ok(p: Seq<char>) -> bool {
    match file_name(p) {
        Some(n) => match first_index(n, '+') {
            Some(i) => blen(n.subrange(i, n.len() as int)) >= 6 ==> exists|k: int| spans(n, i, k, 6),
            None => true,
        },
        None => true,
    }
}

/// The path without its regional marker, and the region it named. The
/// marker is the first `+` of the file name and the 5 bytes after it; a
/// name with fewer than 6 bytes from the `+` on has no marker.
pub open spec fn spec_strip_regional(p: Seq<char>) -> (Seq<char>, Option<Seq<char>>) {
    match file_name(p) {
        Some(n) => match first_index(n, '+') {
            Some(i) => if blen(n.subrange(i, n.len() as int)) < 6 {
                (p, None)
            } else {
                let k = choose|k: int| spans(n, i, k, 6);
                (
                    with_file_name(p, n.subrange(0, i) + n.subrange(k, n.len() as int)),
                    Some(n.subrange(i + 1, k)),
                )
            },
            None => (p, None),
        },
        None => (p, None),
    }
}

/// Cuts the regional marker (`+` and a five-byte region code such as
/// `us_en`) out of the file name, returning the region code.
pub fn strip_regional(path: &str) -> (r: (String, Option<String>))
    requires
        regional_marker_ok(path@),
    ensures
        r.0@ == spec_strip_regional(path@).0,
        match spec_strip_regional(path@).1 {
            Some(region) => r.1 matches Some(s) && s@ == region,
            None => r.1 is None,
        },
{
    let p = chars_of(path);
    let name = match file_name_of(&p) {
        Some(n) => n,
        None => return (path.to_owned(), None),
    };
    let idx = match find_first(&name, '+') {
        Some(i) => i,
        None => return (path.to_owned(), None),
    };
    match span_chars(&name, idx, 6) {
        None => {
            proof {
                assert(first_index(name@, '+') == Some(idx as int));
                if blen(name@.subrange(idx as int, name@.len() as int)) >= 6 {
                    let k = choose|k: int| spans(name@, idx as int, k, 6);
                    assert(spans(name@, idx as int, k, 6));
                }
            }
            (path.to_owned(), None)
        },
        Some(k) => {
            proof {
                let n = name@;
                assert(spans(n, idx as int, k as int, 6));
                lemma_blen_split(n, idx as int, k as int, n.len() as int);
                let kc = choose|k2: int| spans(n, idx as int, k2, 6);
                lemma_spans_unique(n, idx as int, k as int, kc, 6);
                // the `+` itself takes one byte, so the region starts right after it
                lemma_blen_subrange_step(n, idx as int, idx as int);
                assert(n.subrange(idx as int, idx as int) =~= Seq::<char>::empty());
                lemma_blen_single(n[idx as int]);
                assert(k > idx) by {
                    if k == idx {
                        assert(n.subrange(idx as int, k as int) =~= Seq::<char>::empty());
                    }
                }
            }
            let region = slice(&name, idx + 1, k);
            let head = slice(&name, 0, idx);
            let tail = slice(&name, k, name.len());
            let new_name = concat(&head, &tail);
            let new_path = with_file_name_of(&p, &new_name);
            (string_of(&new_path), Some(string_of(&region)))
        },
    }
}

/// The handler has this name, load patching, extensions, file names and
/// size multiplier.
pub open spec fn describes(h: HandlerInfo, name: Seq<char>, load: bool, exts: Seq<Seq<char>>, files: Seq<Seq<char>>, mult: u32) -> bool {
    &&& h.name@ == name
    &&& h.patches_load == load
    &&& names_view(h.extensions@) == exts
    &&& names_view(h.filenames@) == files
    &&& h.size_multiplier == mult
}

/// The built-in handlers stand from position `n` on, in order.
pub open spec fn builtins_at(hs: Seq<HandlerInfo>, n: int) -> bool {
    &&& describes(hs[n], "config"@, false, seq![], seq!["config.json"@], 10)
    &&& describes(hs[n + 1], "prc"@, true, seq!["prcx"@, "prcxml"@, "stdatx"@, "stdatxml"@, "stprmx"@, "stprmxml"@], seq![], 10)
    &&& describes(hs[n + 2], "msbt"@, true, seq!["xmsbt"@], seq![], 10)
    &&& describes(hs[n + 3], "nus3audio"@, true, seq!["patch3audio"@], seq![], 10)
    &&& describes(hs[n + 4], "motionlist"@, true, seq!["motdiff"@], seq!["motion_list.yml"@], 10)
    &&& describes(hs[n + 5], "bgm"@, true, seq![], seq!["bgm_property.bin"@], 30)
}

/// The handlers the loader registers at start, in order: merged mod
/// configuration, param patches, message patches, audio patches, motion
/// list patches and music property patches.
pub fn register_builtins(registry: &mut HandlerRegistry)
    requires
        old(registry).wf(),
    ensures
        final(registry).wf(),
        ({
            let n = old(registry).spec_handlers().len() as int;
            let hs = final(registry).spec_handlers();
            &&& hs.len() == n + 6
            &&& hs.subrange(0, n) == old(registry).spec_handlers()
            &&& builtins_at(hs, n)
            &&& forall|h: u64| #[trigger] final(registry).spec_bound(h) == old(registry).spec_bound(h)
        }),
{
    let ghost before = registry.spec_handlers();
    registry.register(HandlerInfo {
        name: "config".to_owned(),
        patches_load: false,
        extensions: Vec::new(),
        filenames: vec!["config.json".to_owned()],
        size_multiplier: 10,
    });
    registry.register(HandlerInfo {
        name: "prc".to_owned(),
        patches_load: true,
        extensions: vec![
            "prcx".to_owned(),
            "prcxml".to_owned(),
            "stdatx".to_owned(),
            "stdatxml".to_owned(),
            "stprmx".to_owned(),
            "stprmxml".to_owned(),
        ],
        filenames: Vec::new(),
        size_multiplier: 10,
    });
    registry.register(HandlerInfo {
        name: "msbt".to_owned(),
        patches_load: true,
        extensions: vec!["xmsbt".to_owned()],
        filenames: Vec::new(),
        size_multiplier: 10,
    });
    registry.register(HandlerInfo {
        name: "nus3audio".to_owned(),
        patches_load: true,
        extensions: vec!["patch3audio".to_owned()],
        filenames: Vec::new(),
        size_multiplier: 10,
    });
    registry.register(HandlerInfo {
        name: "motionlist".to_owned(),
        patches_load: true,
        extensions: vec!["motdiff".to_owned()],
        filenames: vec!["motion_list.yml".to_owned()],
        size_multiplier: 10,
    });
    registry.register(HandlerInfo {
        name: "bgm".to_owned(),
        patches_load: true,
        extensions: Vec::new(),
        filenames: vec!["bgm_property.bin".to_owned()],
        size_multiplier: 30,
    });
    proof {
        let n = before.len() as int;
        let hs = registry.spec_handlers();
        assert(hs.subrange(0, n) =~= before);
        assert(names_view(hs[n].extensions@) =~= seq![]);
        assert(names_view(hs[n].filenames@) =~= seq!["config.json"@]);
        assert(names_view(hs[n + 1].extensions@) =~= seq!["prcx"@, "prcxml"@, "stdatx"@, "stdatxml"@, "stprmx"@, "stprmxml"@]);
        assert(names_view(hs[n + 1].filenames@) =~= seq![]);
        assert(names_view(hs[n + 2].extensions@) =~= seq!["xmsbt"@]);
        assert(names_view(hs[n + 2].filenames@) =~= seq![]);
        assert(names_view(hs[n + 3].extensions@) =~= seq!["patch3audio"@]);
        assert(names_view(hs[n + 3].filenames@) =~= seq![]);
        assert(names_view(hs[n + 4].extensions@) =~= seq!["motdiff"@]);
        assert(names_view(hs[n + 4].filenames@) =~= seq!["motion_list.yml"@]);
        assert(names_view(hs[n + 5].extensions@) =~= seq![]);
        assert(names_view(hs[n + 5].filenames@) =~= seq!["bgm_property.bin"@]);
    }
}

/// A file name without its extension (what follows its last `.`, where
/// that `.` is not the first character).
pub open spec fn file_stem(n: Seq<char>) -> Seq<char> {
    match last_index(n, '.') {
        Some(k) => if k > 0 { n.subrange(0, k) } else { n },
        None => n,
    }
}

/// The path with the extension of its file name replaced by `e` (or added
/// where it has none); a path without a file name stays as it is.
pub open spec fn with_extension(p: Seq<char>, e: Seq<char>) -> Seq<char> {
    match file_name(p) {
        Some(n) => with_file_name(p, file_stem(n) + seq!['.'] + e),
        None => p,
    }
}

/// Replaces the extension of a path's file name.
pub fn with_extension_of(p: &Vec<char>, e: &Vec<char>) -> (r: Vec<char>)
    ensures
        r@ == with_extension(p@, e@),
{
    match file_name_of(p) {
        Some(n) => {
            let stem = match find_last(&n, '.') {
                Some(k) => if k > 0 { slice(&n, 0, k) } else { n.clone() },
                None => n.clone(),
            };
            proof {
                assert(stem@ == file_stem(n@));
            }
            let mut dot: Vec<char> = Vec::new();
            dot.push('.');
            let name = concat(&concat(&stem, &dot), e);
            assert(dot@ =~= seq!['.']);
            with_file_name_of(p, &name)
        },
        None => p.clone(),
    }
}

/// The parameter file a parameter patch stands for, by extension: `prcx`
/// and `prcxml` patch a `prc`, `stdatx` and `stdatxml` a `stdat`, `stprmx`
/// and `stprmxml` a `stprm`.
pub open spec fn param_base_ext(local: Seq<char>) -> Option<Seq<char>> {
    match extension(local) {
        Some(x) => if x == "prcx"@ || x == "prcxml"@ {
            Some("prc"@)
        } else if x == "stdatx"@ || x == "stdatxml"@ {
            Some("stdat"@)
        } else if x == "stprmx"@ || x == "stprmxml"@ {
            Some("stprm"@)
        } else {
            None
        },
        None => None,
    }
}

/// The path whose regional marker is cut out before a built-in handler
/// hashes it: the local path with the extension of the file it patches.
pub open spec fn discover_base(handler: HandlerId, local: Seq<char>) -> Option<Seq<char>> {
    if handler.0 == 1 {
        match param_base_ext(local) {
            Some(e) => Some(with_extension(local, e)),
            None => None,
        }
    } else if handler.0 == 2 {
        Some(with_extension(local, "msbt"@))
    } else if handler.0 == 3 {
        Some(with_extension(local, "nus3audio"@))
    } else if handler.0 == 4 {
        Some(with_extension(local, "bin"@))
    } else if handler.0 == 5 {
        Some(local)
    } else {
        None
    }
}

/// Cutting the regional marker out of the path a built-in handler hashes
/// cannot split a character.
pub open spec fn builtin_discover_ok(handler: HandlerId, local: Seq<char>) -> bool {
    match discover_base(handler, local) {
        Some(b) => regional_marker_ok(b),
        None => true,
    }
}

/// The archive hash a built-in handler binds a mod file to, by the
/// handler's number in the built-in order (config, prc, msbt, nus3audio,
/// motionlist, bgm): the hash of the patched file's path without its
/// regional marker. The config handler binds none; the parameter handler
/// none for other extensions; the motion list handler none for a file
/// whose name does not hold `motion_list`; other numbers none.
pub open spec fn spec_builtin_discover(handler: HandlerId, local: Seq<char>) -> Option<u64> {
    match discover_base(handler, local) {
        Some(b) => {
            let base = spec_strip_regional(b).0;
            if handler.0 == 4 {
                match file_name(base) {
                    Some(n) => if contains_run(n, "motion_list"@) { Some(spec_hash40(base)) } else { None },
                    None => None,
                }
            } else {
                Some(spec_hash40(base))
            }
        },
        None => None,
    }
}

fn text_is(s: &Vec<char>, t: &str) -> (r: bool)
    ensures
        r == (s@ == t@),
{
    crate::path::chars_eq(s, &chars_of(t))
}

/// Finds the archive hash a built-in handler binds a mod file to.
pub fn builtin_discover(handler: HandlerId, local: &str) -> (r: Option<Hash40>)
    requires
        builtin_discover_ok(handler, local@),
    ensures
        match r {
            Some(h) => spec_builtin_discover(handler, local@) == Some(h.0),
            None => spec_builtin_discover(handler, local@) is None,
        },
{
    let p = chars_of(local);
    let base = if handler.0 == 1 {
        let ext = match extension_of(&p) {
            Some(x) => x,
            None => return None,
        };
        let e = if text_is(&ext, "prcx") || text_is(&ext, "prcxml") {
            "prc"
        } else if text_is(&ext, "stdatx") || text_is(&ext, "stdatxml") {
            "stdat"
        } else if text_is(&ext, "stprmx") || text_is(&ext, "stprmxml") {
            "stprm"
        } else {
            return None;
        };
        with_extension_of(&p, &chars_of(e))
    } else if handler.0 == 2 {
        with_extension_of(&p, &chars_of("msbt"))
    } else if handler.0 == 3 {
        with_extension_of(&p, &chars_of("nus3audio"))
    } else if handler.0 == 4 {
        with_extension_of(&p, &chars_of("bin"))
    } else if handler.0 == 5 {
        p
    } else {
        return None;
    };
    assert(discover_base(handler, local@) == Some(base@));
    let base_text = string_of(&base);
    let (stripped, _region) = strip_regional(base_text.as_str());
    if handler.0 == 4 {
        let sp = chars_of(stripped.as_str());
        match file_name_of(&sp) {
            Some(n) => {
                if !contains_chars(&n, &chars_of("motion_list")) {
                    return None;
                }
            },
            None => return None,
        }
    }
    Some(Hash40::from_str(stripped.as_str()))
}

} // verus!
