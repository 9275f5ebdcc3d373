//! Paths as the mod loader sees them: `/`-separated strings, handled as
//! character vectors, with byte lengths taken from their UTF-8 encoding.
use vstd::prelude::*;
use vstd::utf8::*;

verus! {

broadcast use vstd::seq::group_seq_axioms;

/// Byte length of the UTF-8 encoding of `s`.
pub open spec fn blen(s: Seq<char>) -> nat {
    encode_utf8(s).len()
}

/// Number of UTF-8 bytes of one character.
pub open spec fn char_width(c: char) -> nat {
    if (c as u32) <= 0x7F {
        1
    } else if (c as u32) <= 0x7FF {
        2
    } else if (c as u32) <= 0xFFFF {
        3
    } else {
        4
    }
}

pub proof fn lemma_blen_single(c: char)
    ensures
        blen(seq![c]) == char_width(c),
        1 <= char_width(c) <= 4,
{
    vstd::utf8::char_is_scalar(c);
    assert(seq![c].drop_first() =~= Seq::<char>::empty());
    assert(encode_utf8(seq![c]) == encode_scalar(seq![c][0] as u32) + encode_utf8(
        seq![c].drop_first(),
    ));
    assert(encode_utf8(Seq::<char>::empty()) =~= Seq::<u8>::empty());
}

pub proof fn lemma_blen_concat(a: Seq<char>, b: Seq<char>)
    ensures
        blen(a + b) == blen(a) + blen(b),
    decreases a.len(),
{
    if a.len() == 0 {
        assert(a + b =~= b);
    } else {
        assert((a + b).drop_first() =~= a.drop_first() + b);
        lemma_blen_concat(a.drop_first(), b);
        assert((a + b)[0] == a[0]);
    }
}

pub proof fn lemma_blen_empty()
    ensures
        blen(Seq::<char>::empty()) == 0,
{
}

/// Byte length of one more character.
pub proof fn lemma_blen_push(a: Seq<char>, c: char)
    ensures
        blen(a.push(c)) == blen(a) + char_width(c),
{
    assert(a.push(c) =~= a + seq![c]);
    lemma_blen_concat(a, seq![c]);
    lemma_blen_single(c);
}

/// The characters are at most as many as the bytes.
pub proof fn lemma_len_le_blen(a: Seq<char>)
    ensures
        a.len() <= blen(a),
    decreases a.len(),
{
    if a.len() > 0 {
        let d = a.drop_last();
        assert(a =~= d.push(a.last()));
        lemma_len_le_blen(d);
        lemma_blen_push(d, a.last());
    }
}

/// Byte lengths of subranges grow with the end point.
pub proof fn lemma_blen_subrange_step(s: Seq<char>, a: int, k: int)
    requires
        0 <= a <= k < s.len(),
    ensures
        blen(s.subrange(a, k + 1)) == blen(s.subrange(a, k)) + char_width(s[k]),
{
    assert(s.subrange(a, k + 1) =~= s.subrange(a, k).push(s[k]));
    lemma_blen_push(s.subrange(a, k), s[k]);
}

pub proof fn lemma_blen_subrange_mono(s: Seq<char>, a: int, k1: int, k2: int)
    requires
        0 <= a <= k1 <= k2 <= s.len(),
    ensures
        blen(s.subrange(a, k1)) + (k2 - k1) <= blen(s.subrange(a, k2)),
    decreases k2 - k1,
{
    if k1 < k2 {
        lemma_blen_subrange_mono(s, a, k1, k2 - 1);
        lemma_blen_subrange_step(s, a, k2 - 1);
        lemma_blen_single(s[k2 - 1]);
    }
}

/// `k` ends a run of characters from `start` that takes exactly `n` bytes.
pub open spec fn spans(s: Seq<char>, start: int, k: int, n: nat) -> bool {
    start <= k <= s.len() && blen(s.subrange(start, k)) == n
}

/// At most one end point makes a run of exactly `n` bytes.
pub proof fn lemma_spans_unique(s: Seq<char>, start: int, k1: int, k2: int, n: nat)
    requires
        0 <= start,
        spans(s, start, k1, n),
        spans(s, start, k2, n),
    ensures
        k1 == k2,
{
    if k1 < k2 {
        lemma_blen_subrange_mono(s, start, k1, k2);
    } else if k2 < k1 {
        lemma_blen_subrange_mono(s, start, k2, k1);
    }
}

/// Splitting a run in two splits its byte length.
pub proof fn lemma_blen_split(s: Seq<char>, a: int, b: int, c: int)
    requires
        0 <= a <= b <= c <= s.len(),
    ensures
        blen(s.subrange(a, c)) == blen(s.subrange(a, b)) + blen(s.subrange(b, c)),
{
    assert(s.subrange(a, c) =~= s.subrange(a, b) + s.subrange(b, c));
    lemma_blen_concat(s.subrange(a, b), s.subrange(b, c));
}

/// Width of one character, computed.
pub fn char_width_of(c: char) -> (r: usize)
    ensures
        r == char_width(c),
{
    let v = c as u32;
    if v <= 0x7F {
        1
    } else if v <= 0x7FF {
        2
    } else if v <= 0xFFFF {
        3
    } else {
        4
    }
}

/// Finds the character index `k` such that the characters `start..k` take
/// exactly `n` bytes; `None` when the bytes from `start` are fewer than `n`
/// or when `n` bytes end inside a character.
pub fn span_chars(s: &Vec<char>, start: usize, n: usize) -> (r: Option<usize>)
    requires
        start <= s.len(),
        n <= 0x1000,
    ensures
        match r {
            Some(k) => spans(s@, start as int, k as int, n as nat),
            None => forall|k: int| !spans(s@, start as int, k, n as nat),
        },
{
    let mut k = start;
    let mut acc: usize = 0;
    proof {
        assert(s@.subrange(start as int, start as int) =~= Seq::<char>::empty());
    }
    while k < s.len() && acc < n
        invariant
            start <= k <= s.len(),
            acc == blen(s@.subrange(start as int, k as int)),
            n <= 0x1000,
            acc <= n + 4,
            forall|j: int| start <= j < k ==> !spans(s@, start as int, j, n as nat),
        decreases s.len() - k,
    {
        let w = char_width_of(s[k]);
        proof {
            lemma_blen_subrange_step(s@, start as int, k as int);
            lemma_blen_single(s@[k as int]);
        }
        k = k + 1;
        acc = acc + w;
    }
    if acc == n {
        Some(k)
    } else {
        proof {
            assert forall|j: int| !spans(s@, start as int, j, n as nat) by {
                if start <= j <= s.len() {
                    if j < k {
                    } else if j > k {
                        lemma_blen_subrange_mono(s@, start as int, k as int, j);
                    }
                }
            }
        }
        None
    }
}

/// Copies the characters of a string slice.
pub fn chars_of(s: &str) -> (r: Vec<char>)
    ensures
        r@ == s@,
{
    let n = s.unicode_len();
    let mut v: Vec<char> = Vec::new();
    let mut i: usize = 0;
    while i < n
        invariant
            n == s@.len(),
            i <= n,
            v@ == s@.subrange(0, i as int),
        decreases n - i,
    {
        let c = s.get_char(i);
        v.push(c);
        i = i + 1;
    }
    v
}

/// Builds a `String` from characters with `Iterator::collect`.
#[verifier::external_body]
fn collect_string(chars: &[char]) -> (r: String)
    ensures
        r@ == chars@,
{
    chars.iter().collect()
}

/// The string made of the given characters.
pub fn string_of(chars: &Vec<char>) -> (r: String)
    ensures
        r@ == chars@,
{
    collect_string(chars.as_slice())
}

/// `i` is the first position of `c` in `s`.
pub open spec fn is_first_index(s: Seq<char>, c: char, i: int) -> bool {
    0 <= i < s.len() && s[i] == c && forall|j: int| 0 <= j < i ==> s[j] != c
}

/// `i` is the last position of `c` in `s`.
pub open spec fn is_last_index(s: Seq<char>, c: char, i: int) -> bool {
    0 <= i < s.len() && s[i] == c && forall|j: int| i < j < s.len() ==> s[j] != c
}

/// The first position of `c` in `s`, if any.
pub open spec fn first_index(s: Seq<char>, c: char) -> Option<int> {
    if exists|i: int| is_first_index(s, c, i) {
        Some(choose|i: int| is_first_index(s, c, i))
    } else {
        None
    }
}

/// The last position of `c` in `s`, if any.
pub open spec fn last_index(s: Seq<char>, c: char) -> Option<int> {
    if exists|i: int| is_last_index(s, c, i) {
        Some(choose|i: int| is_last_index(s, c, i))
    } else {
        None
    }
}

pub fn find_first(s: &Vec<char>, c: char) -> (r: Option<usize>)
    ensures
        match r {
            Some(i) => i < s.len() && first_index(s@, c) == Some(i as int),
            None => first_index(s@, c) == None::<int> && !s@.contains(c),
        },
{
    let mut i: usize = 0;
    while i < s.len()
        invariant
            i <= s.len(),
            forall|j: int| 0 <= j < i ==> s@[j] != c,
        decreases s.len() - i,
    {
        if s[i] == c {
            proof {
                assert(is_first_index(s@, c, i as int));
                let k = choose|k: int| is_first_index(s@, c, k);
                assert(k == i);
            }
            return Some(i);
        }
        i = i + 1;
    }
    proof {
        assert(!exists|k: int| is_first_index(s@, c, k));
        assert forall|k: int| 0 <= k < s@.len() implies s@[k] != c by {}
    }
    None
}

pub fn find_last(s: &Vec<char>, c: char) -> (r: Option<usize>)
    ensures
        match r {
            Some(i) => i < s.len() && last_index(s@, c) == Some(i as int),
            None => last_index(s@, c) == None::<int> && !s@.contains(c),
        },
{
    let mut i: usize = s.len();
    while i > 0
        invariant
            i <= s.len(),
            forall|j: int| i <= j < s.len() ==> s@[j] != c,
        decreases i,
    {
        if s[i - 1] == c {
            proof {
                assert(is_last_index(s@, c, i - 1));
                let k = choose|k: int| is_last_index(s@, c, k);
                assert(k == i - 1);
            }
            return Some(i - 1);
        }
        i = i - 1;
    }
    proof {
        assert(!exists|k: int| is_last_index(s@, c, k));
    }
    None
}

/// Where the last component of the path starts.
pub open spec fn name_start(p: Seq<char>) -> int {
    match last_index(p, '/') {
        Some(k) => k + 1,
        None => 0,
    }
}

/// The last component of the path, whether or not it is a file name.
pub open spec fn last_component(p: Seq<char>) -> Seq<char> {
    p.subrange(name_start(p), p.len() as int)
}

/// The path without the separators and `.` components at its end, which a
/// path's components leave out.
pub open spec fn trim_end(p: Seq<char>) -> Seq<char>
    decreases p.len(),
{
    if p.len() > 0 && p.last() == '/' {
        trim_end(p.drop_last())
    } else if p.len() >= 2 && p.last() == '.' && p[p.len() - 2] == '/' {
        trim_end(p.drop_last())
    } else {
        p
    }
}

/// The file name: the last component once trailing separators and `.`
/// components are left out, unless it is empty, `.` or `..`.
pub open spec fn file_name(p: Seq<char>) -> Option<Seq<char>> {
    let n = last_component(trim_end(p));
    if n.len() == 0 || n == seq!['.'] || n == seq!['.', '.'] {
        None
    } else {
        Some(n)
    }
}

/// The extension: what follows the last `.` of the file name, where that
/// `.` is not its first character.
pub open spec fn extension(p: Seq<char>) -> Option<Seq<char>> {
    match file_name(p) {
        Some(n) => match last_index(n, '.') {
            Some(k) => if k > 0 {
                Some(n.subrange(k + 1, n.len() as int))
            } else {
                None
            },
            None => None,
        },
        None => None,
    }
}

/// `root` joined with `local`: `local` when it is absolute or `root` is
/// empty, otherwise the two with one `/` between them.
pub open spec fn join(root: Seq<char>, local: Seq<char>) -> Seq<char> {
    if local.len() > 0 && local[0] == '/' {
        local
    } else if root.len() == 0 {
        local
    } else if root.last() == '/' {
        root + local
    } else {
        root + seq!['/'] + local
    }
}

/// The parent a file name is cut from: the path before the last component,
/// without its trailing separators unless it is the root.
pub open spec fn parent_of(p: Seq<char>) -> Seq<char> {
    let q = trim_end(p);
    let head = q.subrange(0, name_start(q));
    if head.len() > 0 && trim_slashes(head).len() == 0 {
        seq!['/']
    } else {
        trim_slashes(head)
    }
}

/// The path without the separators at its end.
pub open spec fn trim_slashes(p: Seq<char>) -> Seq<char>
    decreases p.len(),
{
    if p.len() > 0 && p.last() == '/' {
        trim_slashes(p.drop_last())
    } else {
        p
    }
}

/// The path with its file name replaced: the name joined to the parent
/// where there is a file name, else to the path itself.
pub open spec fn with_file_name(p: Seq<char>, name: Seq<char>) -> Seq<char> {
    if file_name(p) is Some {
        join(parent_of(p), name)
    } else {
        join(p, name)
    }
}

pub fn slice(s: &Vec<char>, a: usize, b: usize) -> (r: Vec<char>)
    requires
        a <= b <= s.len(),
    ensures
        r@ == s@.subrange(a as int, b as int),
{
    let mut v: Vec<char> = Vec::new();
    let mut i = a;
    while i < b
        invariant
            a <= i <= b <= s.len(),
            v@ == s@.subrange(a as int, i as int),
        decreases b - i,
    {
        v.push(s[i]);
        i = i + 1;
    }
    v
}

pub fn concat(x: &Vec<char>, y: &Vec<char>) -> (r: Vec<char>)
    ensures
        r@ == x@ + y@,
{
    let mut v = x.clone();
    let mut i: usize = 0;
    proof {
        assert(v@ == x@);
    }
    while i < y.len()
        invariant
            i <= y.len(),
            v@ == x@ + y@.subrange(0, i as int),
        decreases y.len() - i,
    {
        v.push(y[i]);
        i = i + 1;
    }
    v
}

pub fn chars_eq(x: &Vec<char>, y: &Vec<char>) -> (r: bool)
    ensures
        r == (x@ == y@),
{
    if x.len() != y.len() {
        return false;
    }
    let mut i: usize = 0;
    while i < x.len()
        invariant
            x.len() == y.len(),
            i <= x.len(),
            forall|j: int| 0 <= j < i ==> x@[j] == y@[j],
        decreases x.len() - i,
    {
        if x[i] != y[i] {
            return false;
        }
        i = i + 1;
    }
    assert(x@ =~= y@);
    true
}

/// Whether the string and the characters are the same text.
pub fn str_eq(x: &str, y: &Vec<char>) -> (r: bool)
    ensures
        r == (x@ == y@),
{
    let xs = chars_of(x);
    chars_eq(&xs, y)
}

pub fn name_start_of(p: &Vec<char>) -> (r: usize)
    ensures
        r == name_start(p@),
        r <= p.len(),
{
    match find_last(p, '/') {
        Some(k) => k + 1,
        None => 0,
    }
}

/// The path without the separators and `.` components at its end.
pub fn trim_end_of(p: &Vec<char>) -> (r: Vec<char>)
    ensures
        r@ == trim_end(p@),
{
    let mut n = p.len();
    assert(p@.subrange(0, n as int) =~= p@);
    while n > 0 && (p[n - 1] == '/' || (n >= 2 && p[n - 1] == '.' && p[n - 2] == '/'))
        invariant
            n <= p@.len(),
            trim_end(p@) == trim_end(p@.subrange(0, n as int)),
        decreases n,
    {
        assert(p@.subrange(0, n as int).drop_last() =~= p@.subrange(0, n - 1));
        n = n - 1;
    }
    slice(p, 0, n)
}

fn trim_slashes_of(p: &Vec<char>) -> (r: Vec<char>)
    ensures
        r@ == trim_slashes(p@),
{
    let mut n = p.len();
    assert(p@.subrange(0, n as int) =~= p@);
    while n > 0 && p[n - 1] == '/'
        invariant
            n <= p@.len(),
            trim_slashes(p@) == trim_slashes(p@.subrange(0, n as int)),
        decreases n,
    {
        assert(p@.subrange(0, n as int).drop_last() =~= p@.subrange(0, n - 1));
        n = n - 1;
    }
    slice(p, 0, n)
}

pub fn file_name_of(p: &Vec<char>) -> (r: Option<Vec<char>>)
    ensures
        match r {
            Some(n) => file_name(p@) == Some(n@),
            None => file_name(p@) == None::<Seq<char>>,
        },
{
    let q = trim_end_of(p);
    let s = name_start_of(&q);
    let n = slice(&q, s, q.len());
    let dot = vec!['.'];
    let dotdot = vec!['.', '.'];
    if n.len() == 0 || chars_eq(&n, &dot) || chars_eq(&n, &dotdot) {
        proof {
            assert(dot@ =~= seq!['.']);
            assert(dotdot@ =~= seq!['.', '.']);
        }
        None
    } else {
        proof {
            assert(dot@ =~= seq!['.']);
            assert(dotdot@ =~= seq!['.', '.']);
        }
        Some(n)
    }
}

pub fn extension_of(p: &Vec<char>) -> (r: Option<Vec<char>>)
    ensures
        match r {
            Some(e) => extension(p@) == Some(e@),
            None => extension(p@) == None::<Seq<char>>,
        },
{
    match file_name_of(p) {
        Some(n) => match find_last(&n, '.') {
            Some(k) => {
                if k > 0 {
                    Some(slice(&n, k + 1, n.len()))
                } else {
                    None
                }
            },
            None => None,
        },
        None => None,
    }
}

pub fn join_paths(root: &Vec<char>, local: &Vec<char>) -> (r: Vec<char>)
    ensures
        r@ == join(root@, local@),
{
    if local.len() > 0 && local[0] == '/' {
        local.clone()
    } else if root.len() == 0 {
        local.clone()
    } else if root[root.len() - 1] == '/' {
        concat(root, local)
    } else {
        let sep = vec!['/'];
        let with_sep = concat(root, &sep);
        let r = concat(&with_sep, local);
        proof {
            assert(sep@ =~= seq!['/']);
        }
        r
    }
}

pub fn with_file_name_of(p: &Vec<char>, name: &Vec<char>) -> (r: Vec<char>)
    ensures
        r@ == with_file_name(p@, name@),
{
    match file_name_of(p) {
        Some(_) => {
            let q = trim_end_of(p);
            let s = name_start_of(&q);
            let head = slice(&q, 0, s);
            let head_trimmed = trim_slashes_of(&head);
            let parent = if head.len() > 0 && head_trimmed.len() == 0 {
                let root = vec!['/'];
                proof {
                    assert(root@ =~= seq!['/']);
                }
                root
            } else {
                head_trimmed
            };
            join_paths(&parent, name)
        },
        None => join_paths(p, name),
    }
}

/// Whether `s` contains `pat` as a contiguous run.
pub open spec fn contains_run(s: Seq<char>, pat: Seq<char>) -> bool {
    exists|i: int| 0 <= i && i + pat.len() <= s.len() && #[trigger] s.subrange(i, i + pat.len()) == pat
}

pub fn contains_chars(s: &Vec<char>, pat: &Vec<char>) -> (r: bool)
    ensures
        r == contains_run(s@, pat@),
{
    if pat.len() > s.len() {
        proof {
            assert(!contains_run(s@, pat@));
        }
        return false;
    }
    let last = s.len() - pat.len();
    let mut i: usize = 0;
    loop
        invariant
            pat.len() <= s.len(),
            last == s.len() - pat.len(),
            i <= last,
            forall|j: int| 0 <= j < i ==> #[trigger] s@.subrange(j, j + pat.len()) != pat@,
        ensures
            forall|j: int| 0 <= j <= last ==> #[trigger] s@.subrange(j, j + pat.len()) != pat@,
        decreases last - i,
    {
        let w = slice(s, i, i + pat.len());
        if chars_eq(&w, pat) {
            return true;
        }
        if i == last {
            break;
        }
        i = i + 1;
    }
    proof {
        assert forall|j: int| 0 <= j && j + pat.len() <= s.len() implies #[trigger] s@.subrange(j, j + pat.len()) != pat@ by {
            assert(j <= last);
        }
    }
    false
}

pub fn ends_with_chars(s: &Vec<char>, pat: &Vec<char>) -> (r: bool)
    ensures
        r == (pat.len() <= s.len() && s@.subrange(s.len() - pat.len(), s.len() as int) == pat@),
{
    if pat.len() > s.len() {
        return false;
    }
    let w = slice(s, s.len() - pat.len(), s.len());
    chars_eq(&w, pat)
}

pub fn starts_with_chars(s: &Vec<char>, pat: &Vec<char>) -> (r: bool)
    ensures
        r == (pat.len() <= s.len() && s@.subrange(0, pat.len() as int) == pat@),
{
    if pat.len() > s.len() {
        return false;
    }
    let w = slice(s, 0, pat.len());
    chars_eq(&w, pat)
}

} // verus!
