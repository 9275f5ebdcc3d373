//! The remote command line: argument parsing and command dispatch. What a
//! command reads from the running game is looked up by the caller; this
//! module decides which command runs and with which arguments.
use vstd::prelude::*;

use crate::hashing::{spec_hash40, Hash40};
use crate::path::chars_of;

pub mod arc;
pub mod search;
pub mod table;

verus! {

/// The value of a digit character in bases up to 36, as `char::to_digit` reads it.
pub open spec fn digit_of(c: char) -> Option<nat> {
    if '0' <= c <= '9' {
        Some((c as nat - '0' as nat) as nat)
    } else if 'a' <= c <= 'z' {
        Some((c as nat - 'a' as nat + 10) as nat)
    } else if 'A' <= c <= 'Z' {
        Some((c as nat - 'A' as nat + 10) as nat)
    } else {
        None
    }
}

/// Every character is a digit of the base.
pub open spec fn all_digits(s: Seq<char>, radix: nat) -> bool {
    forall|i: int| 0 <= i < s.len() ==> (#[trigger] digit_of(s[i]) matches Some(d) && d < radix)
}

/// The number the digits spell.
pub open spec fn digits_value(s: Seq<char>, radix: nat) -> nat
    decreases s.len(),
{
    if s.len() == 0 {
        0
    } else {
        digits_value(s.drop_last(), radix) * radix + digit_of(s.last()).unwrap_or(0)
    }
}

/// The number an unsigned integer parse of the given base reads: an
/// optional `+`, then one or more digits, with no bound on the value.
pub open spec fn parse_unsigned(s: Seq<char>, radix: nat) -> Option<nat> {
    let body = if s.len() > 0 && s[0] == '+' {
        s.drop_first()
    } else {
        s
    };
    if body.len() > 0 && all_digits(body, radix) {
        Some(digits_value(body, radix))
    } else {
        None
    }
}

/// `u32::from_str_radix`: the number, when it fits in 32 bits.
pub open spec fn parse_u32(s: Seq<char>, radix: nat) -> Option<u32> {
    match parse_unsigned(s, radix) {
        Some(v) => if v <= u32::MAX {
            Some(v as u32)
        } else {
            None
        },
        None => None,
    }
}

/// `u64::from_str_radix`: the number, when it fits in 64 bits.
pub open spec fn parse_u64(s: Seq<char>, radix: nat) -> Option<u64> {
    match parse_unsigned(s, radix) {
        Some(v) => if v <= u64::MAX {
            Some(v as u64)
        } else {
            None
        },
        None => None,
    }
}

/// The text with every leading `0x` removed.
pub open spec fn trim_0x(s: Seq<char>) -> Seq<char>
    decreases s.len(),
{
    if s.len() >= 2 && s[0] == '0' && s[1] == 'x' {
        trim_0x(s.skip(2))
    } else {
        s
    }
}

/// An index: decimal, or else hexadecimal after any leading `0x`.
pub open spec fn spec_parse_index(s: Seq<char>) -> Option<u32> {
    match parse_u32(s, 10) {
        Some(v) => Some(v),
        None => parse_u32(trim_0x(s), 16),
    }
}

/// A hash: a hexadecimal number after `0x`, or else the hash of the text.
pub open spec fn spec_parse_hash(s: Seq<char>) -> u64 {
    if s.len() >= 2 && s[0] == '0' && s[1] == 'x' {
        match parse_u64(trim_0x(s), 16) {
            Some(v) => v,
            None => spec_hash40(s),
        }
    } else {
        spec_hash40(s)
    }
}

proof fn lemma_digits_value_mono(s: Seq<char>, radix: nat, i: int)
    requires
        radix >= 1,
        0 <= i <= s.len(),
    ensures
        digits_value(s.subrange(0, i), radix) <= digits_value(s, radix),
    decreases s.len() - i,
{
    if i < s.len() {
        lemma_digits_value_mono(s, radix, i + 1);
        let p = s.subrange(0, i + 1);
        assert(p.drop_last() =~= s.subrange(0, i));
        let a = digits_value(s.subrange(0, i), radix);
        assert(a * radix >= a) by (nonlinear_arith)
            requires radix >= 1;
    } else {
        assert(s.subrange(0, i) =~= s);
    }
}

fn digit_value(c: char) -> (r: Option<u32>)
    ensures
        match digit_of(c) {
            Some(d) => r == Some(d as u32),
            None => r is None,
        },
{
    if '0' <= c && c <= '9' {
        Some((c as u32) - ('0' as u32))
    } else if 'a' <= c && c <= 'z' {
        Some((c as u32) - ('a' as u32) + 10)
    } else if 'A' <= c && c <= 'Z' {
        Some((c as u32) - ('A' as u32) + 10)
    } else {
        None
    }
}

/// Parses an unsigned number of the given base that must not exceed `max`.
pub(crate) fn parse_radix(s: &Vec<char>, radix: u32, max: u64) -> (r: Option<u64>)
    requires
        2 <= radix <= 36,
    ensures
        match parse_unsigned(s@, radix as nat) {
            Some(v) => if v <= max {
                r == Some(v as u64)
            } else {
                r is None
            },
            None => r is None,
        },
{
    let start: usize = if s.len() > 0 && s[0] == '+' { 1 } else { 0 };
    let ghost body = if s@.len() > 0 && s@[0] == '+' {
        s@.drop_first()
    } else {
        s@
    };
    proof {
        assert(body =~= s@.subrange(start as int, s@.len() as int));
    }
    if start >= s.len() {
        return None;
    }
    let mut acc: u64 = 0;
    let mut i: usize = start;
    proof {
        assert(body.subrange(0, 0) =~= Seq::<char>::empty());
    }
    while i < s.len()
        invariant
            2 <= radix <= 36,
            start <= i <= s.len(),
            body =~= s@.subrange(start as int, s@.len() as int),
            body == (if s@.len() > 0 && s@[0] == '+' {
                s@.drop_first()
            } else {
                s@
            }),
            all_digits(body.subrange(0, i - start), radix as nat),
            acc == digits_value(body.subrange(0, i - start), radix as nat),
            acc <= max,
        decreases s.len() - i,
    {
        let d = match digit_value(s[i]) {
            Some(d) => d,
            None => {
                proof {
                    assert(body[i - start] == s@[i as int]);
                    assert(!all_digits(body, radix as nat)) by {
                        assert(!(digit_of(body[i - start]) matches Some(dd) && dd < radix as nat));
                    }
                }
                return None;
            },
        };
        if d >= radix {
            proof {
                assert(body[i - start] == s@[i as int]);
                assert(!all_digits(body, radix as nat)) by {
                    assert(!(digit_of(body[i - start]) matches Some(dd) && dd < radix as nat));
                }
            }
            return None;
        }
        let ghost prefix = body.subrange(0, i - start + 1);
        proof {
            assert(prefix.drop_last() =~= body.subrange(0, i - start));
            assert(prefix.last() == s@[i as int]);
            assert forall|j: int| 0 <= j < prefix.len() implies (#[trigger] digit_of(prefix[j]) matches Some(dd) && dd < radix as nat) by {
                if j < prefix.len() - 1 {
                    assert(prefix[j] == body.subrange(0, i - start)[j]);
                }
            }
        }
        let next = match acc.checked_mul(radix as u64) {
            Some(m) => m.checked_add(d as u64),
            None => None,
        };
        match next {
            Some(n) if n <= max => {
                acc = n;
            },
            _ => {
                // the value already exceeds the bound; more digits only make it larger
                proof {
                    assert(digits_value(prefix, radix as nat) > max);
                    if all_digits(body, radix as nat) {
                        lemma_digits_value_mono(body, radix as nat, i - start + 1);
                    }
                }
                return None;
            },
        }
        i = i + 1;
    }
    proof {
        assert(body.subrange(0, s@.len() - start) =~= body);
    }
    Some(acc)
}

/// Strips every leading `0x`.
fn trim_0x_chars(s: &Vec<char>) -> (r: Vec<char>)
    ensures
        r@ == trim_0x(s@),
{
    let mut i: usize = 0;
    proof {
        assert(s@.skip(0) =~= s@);
    }
    while s.len() >= 2 && i <= s.len() - 2 && s[i] == '0' && s[i + 1] == 'x'
        invariant
            i <= s.len(),
            trim_0x(s@) == trim_0x(s@.skip(i as int)),
        decreases s.len() - i,
    {
        proof {
            let t = s@.skip(i as int);
            assert(t.skip(2) =~= s@.skip(i + 2));
        }
        i = i + 2;
    }
    proof {
        assert(trim_0x(s@.skip(i as int)) == s@.skip(i as int));
    }
    crate::path::slice(s, i, s.len())
}

/// Parses an index, decimal or hexadecimal.
pub fn parse_index(arg: &str) -> (r: Option<u32>)
    ensures
        r == spec_parse_index(arg@),
{
    let s = chars_of(arg);
    match parse_radix(&s, 10, 0xFFFF_FFFF) {
        Some(v) => Some(v as u32),
        None => {
            let t = trim_0x_chars(&s);
            match parse_radix(&t, 16, 0xFFFF_FFFF) {
                Some(v) => Some(v as u32),
                None => None,
            }
        },
    }
}

/// Parses a hash: a raw hexadecimal hash after `0x`, or the hash of the text.
pub fn parse_hash(arg: &str) -> (r: Hash40)
    ensures
        r.0 == spec_parse_hash(arg@),
{
    let s = chars_of(arg);
    if s.len() >= 2 && s[0] == '0' && s[1] == 'x' {
        let t = trim_0x_chars(&s);
        match parse_radix(&t, 16, 0xFFFF_FFFF_FFFF_FFFF) {
            Some(v) => Hash40(v),
            None => Hash40::from_str(arg),
        }
    } else {
        Hash40::from_str(arg)
    }
}

/// `i` is the first argument equal to the flag.
pub open spec fn is_first_arg(args: Seq<String>, flag: Seq<char>, i: int) -> bool {
    0 <= i < args.len() && args[i]@ == flag && forall|j: int| 0 <= j < i ==> args[j]@ != flag
}

fn find_arg(flag: &str, args: &Vec<String>) -> (r: Option<usize>)
    ensures
        match r {
            Some(i) => is_first_arg(args@, flag@, i as int),
            None => forall|j: int| 0 <= j < args@.len() ==> args@[j]@ != flag@,
        },
{
    let f = chars_of(flag);
    let mut i: usize = 0;
    while i < args.len()
        invariant
            f@ == flag@,
            i <= args.len(),
            forall|j: int| 0 <= j < i ==> args@[j]@ != flag@,
        decreases args.len() - i,
    {
        if crate::path::str_eq(args[i].as_str(), &f) {
            return Some(i);
        }
        i = i + 1;
    }
    None
}

/// Removes the first occurrence of the flag; tells whether there was one.
pub fn check_for_flag(flag: &str, args: &mut Vec<String>) -> (r: bool)
    ensures
        r == exists|i: int| is_first_arg(old(args)@, flag@, i),
        forall|i: int| is_first_arg(old(args)@, flag@, i) ==> final(args)@ == old(args)@.remove(i),
        !r ==> final(args)@ == old(args)@,
{
    match find_arg(flag, args) {
        Some(i) => {
            let _ = args.remove(i);
            proof {
                assert forall|k: int| is_first_arg(old(args)@, flag@, k) implies final(args)@ == old(args)@.remove(k) by {
                    if k < i {
                    } else if k > i {
                        assert(!is_first_arg(old(args)@, flag@, k));
                    }
                }
            }
            true
        },
        None => false,
    }
}

/// Takes the flag and the argument after it out of the list and returns that
/// argument; when the flag is missing or is the last argument, nothing is taken.
pub fn get_flag_and_option(flag: &str, args: &mut Vec<String>) -> (r: Option<String>)
    ensures
        forall|i: int| #[trigger] is_first_arg(old(args)@, flag@, i) && i + 1 < old(args)@.len() ==> {
            &&& r matches Some(v) && v@ == old(args)@[i + 1]@
            &&& final(args)@ == old(args)@.remove(i).remove(i)
        },
        !(exists|i: int| #[trigger] is_first_arg(old(args)@, flag@, i) && i + 1 < old(args)@.len()) ==> {
            &&& r is None
            &&& final(args)@ == old(args)@
        },
{
    match find_arg(flag, args) {
        Some(i) => {
            if i != args.len() - 1 {
                let _ = args.remove(i);
                let v = args.remove(i);
                proof {
                    assert forall|k: int| #[trigger] is_first_arg(old(args)@, flag@, k) && k + 1 < old(args)@.len() implies k == i by {
                        if k < i {
                        } else if k > i {
                            assert(!is_first_arg(old(args)@, flag@, k));
                        }
                    }
                    assert(old(args)@.remove(i as int)[i as int] == old(args)@[i + 1]);
                }
                Some(v)
            } else {
                proof {
                    assert forall|k: int| #[trigger] is_first_arg(old(args)@, flag@, k) implies k == i by {
                        if k < i {
                        } else if k > i {
                            assert(!is_first_arg(old(args)@, flag@, k));
                        }
                    }
                }
                None
            }
        },
        None => None,
    }
}

/// Which part of the command line a request goes to.
#[derive(Debug)]
pub enum RemoteCommand {
    /// Print the help text.
    Usage,
    /// An archive lookup, with the arguments after `arc`.
    Arc(Vec<String>),
    /// A search-section lookup, with the arguments after `search`.
    Search(Vec<String>),
    /// A filesystem-table lookup, with the arguments after `table`.
    Table(Vec<String>),
}

/// Picks the part of the command line a request goes to: no argument or
/// `help` asks for the help text, so does an unknown category.
pub fn handle_command(args: Vec<String>) -> (r: RemoteCommand)
    ensures
        args@.len() == 0 || args@[0]@ == "help"@ ==> r is Usage,
        args@.len() > 0 && args@[0]@ != "help"@ ==> {
            let rest = args@.drop_first();
            if args@[0]@ == "arc"@ {
                r matches RemoteCommand::Arc(a) && a@ == rest
            } else if args@[0]@ == "search"@ {
                r matches RemoteCommand::Search(a) && a@ == rest
            } else if args@[0]@ == "table"@ {
                r matches RemoteCommand::Table(a) && a@ == rest
            } else {
                r is Usage
            }
        },
{
    let mut args = args;
    if args.len() == 0 || crate::path::str_eq(args[0].as_str(), &chars_of("help")) {
        return RemoteCommand::Usage;
    }
    let ghost before = args@;
    let category = args.remove(0);
    proof {
        assert(args@ =~= before.drop_first());
    }
    if crate::path::str_eq(category.as_str(), &chars_of("arc")) {
        RemoteCommand::Arc(args)
    } else if crate::path::str_eq(category.as_str(), &chars_of("search")) {
        RemoteCommand::Search(args)
    } else if crate::path::str_eq(category.as_str(), &chars_of("table")) {
        RemoteCommand::Table(args)
    } else {
        RemoteCommand::Usage
    }
}

/// What a lookup command was asked for: an entry by index or by hash, or
/// nothing usable (the caller answers with the command's usage line).
#[derive(Debug, Clone, Copy, PartialEq, Eq, Structural)]
pub enum LookupTarget {
    Index(u32),
    Hash(Hash40),
    Usage,
}

/// Reads the `-i <index>` or `-h <hashable>` argument of a lookup command,
/// `-i` first, taking what it reads out of the arguments.
pub fn lookup_target(args: &mut Vec<String>) -> (r: LookupTarget)
    ensures
        forall|i: int| #[trigger] is_first_arg(old(args)@, "-i"@, i) && i + 1 < old(args)@.len() ==> {
            &&& final(args)@ == old(args)@.remove(i).remove(i)
            &&& match spec_parse_index(old(args)@[i + 1]@) {
                Some(v) => r == LookupTarget::Index(v),
                None => r == LookupTarget::Usage,
            }
        },
        !(exists|i: int| #[trigger] is_first_arg(old(args)@, "-i"@, i) && i + 1 < old(args)@.len()) ==> {
            &&& forall|i: int| #[trigger] is_first_arg(old(args)@, "-h"@, i) && i + 1 < old(args)@.len() ==> {
                &&& final(args)@ == old(args)@.remove(i).remove(i)
                &&& r == LookupTarget::Hash(Hash40(spec_parse_hash(old(args)@[i + 1]@)))
            }
            &&& !(exists|i: int| #[trigger] is_first_arg(old(args)@, "-h"@, i) && i + 1 < old(args)@.len()) ==> {
                &&& r == LookupTarget::Usage
                &&& final(args)@ == old(args)@
            }
        },
{
    match get_flag_and_option("-i", args) {
        Some(idx) => match parse_index(idx.as_str()) {
            Some(v) => LookupTarget::Index(v),
            None => LookupTarget::Usage,
        },
        None => match get_flag_and_option("-h", args) {
            Some(h) => LookupTarget::Hash(parse_hash(h.as_str())),
            None => LookupTarget::Usage,
        },
    }
}

} // verus!
