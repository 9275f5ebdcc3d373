//! Deciding whether a release found online is an update worth offering, and
//! how its version and date are shown.
use vstd::prelude::*;

use crate::path::{char_width, chars_of, concat, find_first, first_index, slice, string_of};

verus! {

#[verifier::external_type_specification]
#[verifier::external_body]
pub struct ExVersion(semver::Version);

/// Whether a string is a valid semantic version.
pub uninterp spec fn semver_valid(s: Seq<char>) -> bool;

/// Whether a valid version text has no pre-release part: no `-` comes
/// before its build metadata (what follows the first `+`). The version
/// core holds digits and dots only, so a `-` there starts the pre-release.
pub open spec fn spec_pre_empty(s: Seq<char>) -> bool {
    let core_end = match first_index(s, '+') {
        Some(i) => i,
        None => s.len() as int,
    };
    !s.subrange(0, core_end).contains('-')
}

/// Whether the version the first string parses to comes before the one
/// the second parses to.
pub uninterp spec fn semver_lt(a: Seq<char>, b: Seq<char>) -> bool;


/// A version, with the text it was read from.
pub struct ParsedVersion {
    text: String,
    version: semver::Version,
}

impl View for ParsedVersion {
    type V = Seq<char>;

    closed spec fn view(&self) -> Seq<char> {
        self.text@
    }
}

/// Reads a semantic version with `semver::Version::parse`; `None` exactly
/// where the text is not a valid version.
#[verifier::external_body]
fn parse_version(s: &str) -> (r: Option<ParsedVersion>)
    ensures
        r is Some == semver_valid(s@),
        r matches Some(p) ==> p@ == s@,
{
    match semver::Version::parse(s) {
        Ok(version) => Some(ParsedVersion { text: s.to_owned(), version }),
        Err(_) => None,
    }
}

/// `Prerelease::is_empty` on the version's pre-release part: `parse`
/// keeps the pre-release as the text between the `-` after the patch
/// number and the `+` or the end, and takes no empty one.
#[verifier::external_body]
fn pre_is_empty(v: &ParsedVersion) -> (r: bool)
    requires
        semver_valid(v@),
    ensures
        r == spec_pre_empty(v@),
{
    v.version.pre.is_empty()
}

/// The `<` of `semver::Version`: major, minor, patch, then pre-release
/// (a version without one after any with one), then build metadata.
#[verifier::external_body]
fn version_lt(a: &ParsedVersion, b: &ParsedVersion) -> (r: bool)
    ensures
        r == semver_lt(a@, b@),
{
    a.version < b.version
}

/// The `Display` of `semver::Version`, which writes the numbers and the
/// pre-release and build texts as `parse` read them: the text the version
/// was read from.
#[verifier::external_body]
fn version_to_string(v: &ParsedVersion) -> (r: String)
    requires
        semver_valid(v@),
    ensures
        r@ == v@,
{
    v.version.to_string()
}

/// What kind of update a release is, with the version it brings.
#[derive(Debug)]
pub enum VersionDifference {
    ChangeToStable(String),
    ChangeToBeta(String),
    Regular(String),
}

/// A version string could not be read.
#[derive(Debug, Clone, Copy, PartialEq, Eq, Structural)]
pub enum VersionError {
    InvalidCurrent,
    InvalidTarget,
}

/// How an update is announced.
pub open spec fn spec_message(d: VersionDifference) -> Seq<char> {
    match d {
        VersionDifference::ChangeToStable(v) => "An uninstalled stable version of ARCropolis ("@ + v@ + ")"@,
        VersionDifference::ChangeToBeta(v) => "A new beta version of ARCropolis ("@ + v@ + ")"@,
        VersionDifference::Regular(v) => "A new update for ARCropolis ("@ + v@ + ")"@,
    }
}

impl VersionDifference {
    /// The sentence that announces the update.
    pub fn message(&self) -> (r: String)
        ensures
            r@ == spec_message(*self),
    {
        let (head, ver) = match self {
            VersionDifference::ChangeToStable(v) => (chars_of("An uninstalled stable version of ARCropolis ("), v),
            VersionDifference::ChangeToBeta(v) => (chars_of("A new beta version of ARCropolis ("), v),
            VersionDifference::Regular(v) => (chars_of("A new update for ARCropolis ("), v),
        };
        let body = concat(&head, &chars_of(ver.as_str()));
        let all = concat(&body, &chars_of(")"));
        string_of(&all)
    }
}

/// The update a target version is over the current one: leaving a stable
/// version for a pre-release is a change to beta; leaving a pre-release
/// for a later stable version is a change to stable; any later version is a
/// regular update; anything else is no update.
pub open spec fn spec_compare_tags(current: Seq<char>, target: Seq<char>) -> Option<(int, Seq<char>)> {
    spec_difference(spec_pre_empty(current), spec_pre_empty(target), semver_lt(current, target), target)
}

/// The update, by kind number and version text, from whether each version
/// is stable (has no pre-release part) and whether the current one comes
/// before the target.
pub open spec fn spec_difference(current_stable: bool, target_stable: bool, current_before: bool, text: Seq<char>) -> Option<(int, Seq<char>)> {
    if current_stable && !target_stable {
        Some((1, text))
    } else if !current_stable && target_stable && current_before {
        Some((0, text))
    } else if current_before {
        Some((2, text))
    } else {
        None
    }
}

/// The kind number of an update: stable, beta, regular.
pub open spec fn kind_of(d: VersionDifference) -> (int, Seq<char>) {
    match d {
        VersionDifference::ChangeToStable(v) => (0, v@),
        VersionDifference::ChangeToBeta(v) => (1, v@),
        VersionDifference::Regular(v) => (2, v@),
    }
}

/// The update a target version is, from what the comparison of the two
/// versions found: whether each is stable, whether the current one comes
/// first, and the target's text.
pub fn version_difference(current_stable: bool, target_stable: bool, current_before: bool, text: String) -> (r: Option<VersionDifference>)
    ensures
        match r {
            Some(diff) => spec_difference(current_stable, target_stable, current_before, text@) == Some(kind_of(diff)),
            None => spec_difference(current_stable, target_stable, current_before, text@) is None,
        },
{
    if current_stable && !target_stable {
        Some(VersionDifference::ChangeToBeta(text))
    } else if !current_stable && target_stable && current_before {
        Some(VersionDifference::ChangeToStable(text))
    } else if current_before {
        Some(VersionDifference::Regular(text))
    } else {
        None
    }
}

/// Compares the running version with a release's version.
pub fn compare_tags(current: &str, target: &str) -> (r: Result<Option<VersionDifference>, VersionError>)
    ensures
        !semver_valid(current@) ==> r == Err::<Option<VersionDifference>, VersionError>(VersionError::InvalidCurrent),
        semver_valid(current@) && !semver_valid(target@) ==> r == Err::<Option<VersionDifference>, VersionError>(VersionError::InvalidTarget),
        semver_valid(current@) && semver_valid(target@) ==> (r matches Ok(d) && match d {
            Some(diff) => spec_compare_tags(current@, target@) == Some(kind_of(diff)),
            None => spec_compare_tags(current@, target@) is None,
        }),
{
    let cur = match parse_version(current) {
        Some(v) => v,
        None => {
            return Err(VersionError::InvalidCurrent);
        },
    };
    let tgt = match parse_version(target) {
        Some(v) => v,
        None => {
            return Err(VersionError::InvalidTarget);
        },
    };
    let cp = pre_is_empty(&cur);
    let tp = pre_is_empty(&tgt);
    let before = version_lt(&cur, &tgt);
    let text = version_to_string(&tgt);
    Ok(version_difference(cp, tp, before, text))
}

/// The text without its leading `v`s.
pub open spec fn trim_v(s: Seq<char>) -> Seq<char>
    decreases s.len(),
{
    if s.len() > 0 && s[0] == 'v' {
        trim_v(s.drop_first())
    } else {
        s
    }
}

/// A release tag without its leading `v`s.
pub fn release_version_text(tag: &str) -> (r: String)
    ensures
        r@ == trim_v(tag@),
{
    let s = chars_of(tag);
    let mut i: usize = 0;
    assert(s@.subrange(0, s@.len() as int) =~= s@);
    while i < s.len() && s[i] == 'v'
        invariant
            i <= s@.len(),
            trim_v(s@) == trim_v(s@.subrange(i as int, s@.len() as int)),
        decreases s.len() - i,
    {
        assert(s@.subrange(i as int, s@.len() as int).drop_first() =~= s@.subrange(i + 1, s@.len() as int));
        i = i + 1;
    }
    let rest = slice(&s, i, s.len());
    string_of(&rest)
}

/// Which of the newest pre-release and the newest release to offer.
#[derive(Debug, Clone, Copy, PartialEq, Eq, Structural)]
pub enum ReleaseChoice {
    Prerelease,
    Release,
    NoRelease,
}

/// The choice between the newest pre-release and release, by their version
/// texts: none when there is neither, the pre-release when it is the later
/// (any version is later than none), the release otherwise.
pub open spec fn spec_select_release(pre: Option<Seq<char>>, rel: Option<Seq<char>>) -> ReleaseChoice {
    match (pre, rel) {
        (None, None) => ReleaseChoice::NoRelease,
        (Some(p), None) => ReleaseChoice::Prerelease,
        (None, Some(r)) => ReleaseChoice::Release,
        (Some(p), Some(r)) => if semver_lt(r, p) { ReleaseChoice::Prerelease } else { ReleaseChoice::Release },
    }
}

/// Picks the release to offer from the version texts of the newest
/// pre-release and release, where there are any.
pub fn select_release(pre: Option<&str>, rel: Option<&str>) -> (r: ReleaseChoice)
    requires
        pre matches Some(p) ==> semver_valid(p@),
        rel matches Some(x) ==> semver_valid(x@),
    ensures
        r == spec_select_release(
            match pre { Some(p) => Some(p@), None => None },
            match rel { Some(x) => Some(x@), None => None },
        ),
{
    match (pre, rel) {
        (None, None) => ReleaseChoice::NoRelease,
        (Some(_), None) => ReleaseChoice::Prerelease,
        (None, Some(_)) => ReleaseChoice::Release,
        (Some(p), Some(x)) => {
            let pv = match parse_version(p) {
                Some(v) => v,
                None => {
                    return ReleaseChoice::Release;
                },
            };
            let xv = match parse_version(x) {
                Some(v) => v,
                None => {
                    return ReleaseChoice::Release;
                },
            };
            if version_lt(&xv, &pv) {
                ReleaseChoice::Prerelease
            } else {
                ReleaseChoice::Release
            }
        },
    }
}

/// Picks the release to offer as `select_release` does, where every given
/// version text is a valid version; `None` where one is not.
pub fn choose_release(pre: Option<&str>, rel: Option<&str>) -> (r: Option<ReleaseChoice>)
    ensures
        ((pre matches Some(p) ==> semver_valid(p@)) && (rel matches Some(x) ==> semver_valid(x@))) ==> r == Some(spec_select_release(
            match pre { Some(p) => Some(p@), None => None },
            match rel { Some(x) => Some(x@), None => None },
        )),
        !((pre matches Some(p) ==> semver_valid(p@)) && (rel matches Some(x) ==> semver_valid(x@))) ==> r is None,
{
    let pre_ok = match pre {
        Some(p) => parse_version(p).is_some(),
        None => true,
    };
    let rel_ok = match rel {
        Some(x) => parse_version(x).is_some(),
        None => true,
    };
    if pre_ok && rel_ok {
        Some(select_release(pre, rel))
    } else {
        None
    }
}

/// The text after the first `-`.
pub open spec fn after_dash(s: Seq<char>) -> Seq<char> {
    s.subrange(first_index(s, '-')->0 + 1, s.len() as int)
}

/// The text before the first `-`, or all of it.
pub open spec fn before_dash(s: Seq<char>) -> Seq<char> {
    match first_index(s, '-') {
        Some(i) => s.subrange(0, i),
        None => s,
    }
}

/// The first two bytes of a text, as characters, where they end on a
/// character boundary.
pub open spec fn first_two_bytes(s: Seq<char>) -> Option<Seq<char>> {
    if s.len() >= 1 && char_width(s[0]) == 2 {
        Some(s.subrange(0, 1))
    } else if s.len() >= 2 && char_width(s[0]) == 1 && char_width(s[1]) == 1 {
        Some(s.subrange(0, 2))
    } else {
        None
    }
}

/// A publication time whose first three `-`-separated parts give a year
/// after one leading byte, a month, and a day in the first two bytes.
pub open spec fn date_readable(s: Seq<char>) -> bool {
    &&& first_index(s, '-') is Some
    &&& first_index(after_dash(s), '-') is Some
    &&& first_index(s, '-')->0 >= 1 && char_width(s[0]) == 1
    &&& first_two_bytes(before_dash(after_dash(after_dash(s)))) is Some
}

/// The date shown for a publication time: month/day/year.
pub open spec fn spec_release_date(s: Seq<char>) -> Seq<char> {
    let year = before_dash(s).drop_first();
    let month = before_dash(after_dash(s));
    let day = first_two_bytes(before_dash(after_dash(after_dash(s))))->0;
    month + "/"@ + day + "/"@ + year
}

fn split_dash(s: &Vec<char>) -> (r: (Vec<char>, Option<Vec<char>>))
    ensures
        r.0@ == before_dash(s@),
        match first_index(s@, '-') {
            Some(i) => r.1 matches Some(rest) && rest@ == after_dash(s@),
            None => r.1 is None,
        },
{
    match find_first(s, '-') {
        Some(i) => (slice(s, 0, i), Some(slice(s, i + 1, s.len()))),
        None => (slice(s, 0, s.len()), None),
    }
}

/// Shows the publication time of a release (as its quoted JSON text) as
/// month/day/year.
pub fn format_release_date(published_at: &str) -> (r: String)
    requires
        date_readable(published_at@),
    ensures
        r@ == spec_release_date(published_at@),
{
    let s = chars_of(published_at);
    assert(s@.subrange(0, s@.len() as int) =~= s@);
    let (part0, rest0) = split_dash(&s);
    let rest0 = match rest0 {
        Some(x) => x,
        None => {
            return String::new();
        },
    };
    let (part1, rest1) = split_dash(&rest0);
    let rest1 = match rest1 {
        Some(x) => x,
        None => {
            return String::new();
        },
    };
    let (part2, _) = split_dash(&rest1);
    let year = slice(&part0, 1, part0.len());
    let day = if part2.len() >= 1 && (part2[0] as u32) > 0x7F && (part2[0] as u32) <= 0x7FF {
        slice(&part2, 0, 1)
    } else {
        slice(&part2, 0, 2)
    };
    let slash = chars_of("/");
    let a = concat(&part1, &slash);
    let b = concat(&a, &day);
    let c = concat(&b, &slash);
    let d = concat(&c, &year);
    proof {
        assert(year@ == before_dash(s@).drop_first());
    }
    string_of(&d)
}

} // verus!
