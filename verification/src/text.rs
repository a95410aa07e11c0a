//! Text primitives over character sequences.
//!
//! Every routine of the library that reads or writes text goes through these
//! functions. Each one is specified over `Seq<char>`, the view of `str`, `String`
//! and `Vec<char>`, so that the rules above can be stated over plain sequences.
use vstd::prelude::*;

verus! {

// ------------------------------------------------------------------
// Characters
// ------------------------------------------------------------------

/// Unicode `White_Space`, the property behind `char::is_whitespace`.
pub open spec fn is_ws(c: char) -> bool {
    let u = c as u32;
    ||| 0x09 <= u <= 0x0D
    ||| u == 0x20
    ||| u == 0x85
    ||| u == 0xA0
    ||| u == 0x1680
    ||| 0x2000 <= u <= 0x200A
    ||| u == 0x2028
    ||| u == 0x2029
    ||| u == 0x202F
    ||| u == 0x205F
    ||| u == 0x3000
}

pub fn is_whitespace(c: char) -> (b: bool)
    ensures
        b == is_ws(c),
{
    let u = c as u32;
    (0x09 <= u && u <= 0x0D) || u == 0x20 || u == 0x85 || u == 0xA0 || u == 0x1680 || (0x2000
        <= u && u <= 0x200A) || u == 0x2028 || u == 0x2029 || u == 0x202F || u == 0x205F || u
        == 0x3000
}

pub open spec fn is_ascii_alnum(c: char) -> bool {
    ||| '0' <= c <= '9'
    ||| 'a' <= c <= 'z'
    ||| 'A' <= c <= 'Z'
}

pub open spec fn is_ascii_hex(c: char) -> bool {
    ||| '0' <= c <= '9'
    ||| 'a' <= c <= 'f'
    ||| 'A' <= c <= 'F'
}

/// `char::to_ascii_lowercase`: `A`..`Z` become `a`..`z`, everything else stays.
pub open spec fn lower_char(c: char) -> char {
    if 'A' <= c <= 'Z' {
        ((c as u32) + 32) as char
    } else {
        c
    }
}

pub fn to_ascii_lower(c: char) -> (r: char)
    ensures
        r == lower_char(c),
{
    if 'A' <= c && c <= 'Z' {
        let u = (c as u32) + 32;
        proof {
            assert(0x61 <= u <= 0x7a);
        }
        char_from_ascii(u)
    } else {
        c
    }
}

/// A code point below 128 as a `char`.
fn char_from_ascii(u: u32) -> (c: char)
    requires
        u < 128,
    ensures
        c == u as char,
{
    let b = u as u8;
    let c = b as char;
    c
}

pub fn is_ascii_alphanumeric(c: char) -> (b: bool)
    ensures
        b == is_ascii_alnum(c),
{
    ('0' <= c && c <= '9') || ('a' <= c && c <= 'z') || ('A' <= c && c <= 'Z')
}

pub fn is_ascii_hexdigit(c: char) -> (b: bool)
    ensures
        b == is_ascii_hex(c),
{
    ('0' <= c && c <= '9') || ('a' <= c && c <= 'f') || ('A' <= c && c <= 'F')
}

// ------------------------------------------------------------------
// Conversions between `str`, `String` and `Vec<char>`
// ------------------------------------------------------------------

/// The characters of a string slice, in order.
pub fn chars_of(s: &str) -> (v: Vec<char>)
    ensures
        v@ == s@,
{
    let mut v: Vec<char> = Vec::new();
    for c in it: s.chars()
        invariant
            v@ == it.seq().take(it.index() as int),
            it.seq() == s@,
    {
        v.push(c);
    }
    v
}

/// `String::push`: appends one character.
#[verifier::external_body]
fn push_char(s: &mut String, c: char)
    ensures
        final(s)@ == old(s)@.push(c),
{
    s.push(c);
}

/// Appends every character of `v`.
pub fn push_chars(s: &mut String, v: &Vec<char>)
    ensures
        final(s)@ == old(s)@ + v@,
{
    let ghost s0 = s@;
    let n = v.len();
    let mut i: usize = 0;
    while i < n
        invariant
            n == v@.len(),
            i <= n,
            s@ == s0 + v@.take(i as int),
        decreases n - i,
    {
        push_char(s, v[i]);
        i = i + 1;
        assert(v@.take(i as int) =~= v@.take(i - 1 as int).push(v@[i - 1 as int]));
    }
    assert(v@.take(n as int) =~= v@);
}

/// A `String` holding exactly the characters of `v`.
pub fn string_of(v: &Vec<char>) -> (s: String)
    ensures
        s@ == v@,
{
    let mut s = String::new();
    push_chars(&mut s, v);
    s
}

/// Appends the characters of a string slice to `v`.
pub fn extend_str(v: &mut Vec<char>, t: &str)
    ensures
        final(v)@ == old(v)@ + t@,
{
    let w = chars_of(t);
    extend(v, &w);
}

/// Appends the characters of `w` to `v`.
pub fn extend(v: &mut Vec<char>, w: &Vec<char>)
    ensures
        final(v)@ == old(v)@ + w@,
{
    let ghost v0 = v@;
    let n = w.len();
    let mut i: usize = 0;
    while i < n
        invariant
            n == w@.len(),
            i <= n,
            v@ == v0 + w@.take(i as int),
        decreases n - i,
    {
        v.push(w[i]);
        i = i + 1;
        assert(w@.take(i as int) =~= w@.take(i - 1 as int).push(w@[i - 1 as int]));
    }
    assert(w@.take(n as int) =~= w@);
}

/// `v@.subrange(a, b)` as a new vector.
pub fn subvec(v: &Vec<char>, a: usize, b: usize) -> (r: Vec<char>)
    requires
        a <= b <= v@.len(),
    ensures
        r@ == v@.subrange(a as int, b as int),
{
    let mut r: Vec<char> = Vec::new();
    let mut i = a;
    while i < b
        invariant
            a <= i <= b,
            b <= v@.len(),
            r@ == v@.subrange(a as int, i as int),
        decreases b - i,
    {
        r.push(v[i]);
        i = i + 1;
        assert(r@ =~= v@.subrange(a as int, i as int));
    }
    r
}

/// Character-by-character equality.
pub fn vec_eq(a: &Vec<char>, b: &Vec<char>) -> (r: bool)
    ensures
        r == (a@ == b@),
{
    if a.len() != b.len() {
        return false;
    }
    let n = a.len();
    let mut i: usize = 0;
    while i < n
        invariant
            n == a@.len(),
            n == b@.len(),
            i <= n,
            forall|k: int| 0 <= k < i ==> a@[k] == b@[k],
        decreases n - i,
    {
        if a[i] != b[i] {
            return false;
        }
        i = i + 1;
    }
    assert(a@ =~= b@);
    true
}

/// Equality of two strings by their characters.
pub fn str_eq(a: &str, b: &str) -> (r: bool)
    ensures
        r == (a@ == b@),
{
    let x = chars_of(a);
    let y = chars_of(b);
    vec_eq(&x, &y)
}

// ------------------------------------------------------------------
// Trimming
// ------------------------------------------------------------------

/// The first index at or after `i` that does not hold whitespace.
pub open spec fn skip_ws(s: Seq<char>, i: int) -> int
    decreases s.len() - i,
{
    if 0 <= i < s.len() && is_ws(s[i]) {
        skip_ws(s, i + 1)
    } else {
        i
    }
}

/// Just past the last index before `j` that does not hold whitespace.
pub open spec fn rskip_ws(s: Seq<char>, j: int) -> int
    decreases j,
{
    if 0 < j <= s.len() && is_ws(s[j - 1]) {
        rskip_ws(s, j - 1)
    } else {
        j
    }
}

/// `str::trim_start`.
pub open spec fn trim_start(s: Seq<char>) -> Seq<char> {
    s.skip(skip_ws(s, 0))
}

/// `str::trim_end`.
pub open spec fn trim_end(s: Seq<char>) -> Seq<char> {
    s.take(rskip_ws(s, s.len() as int))
}

/// `str::trim`.
pub open spec fn trim(s: Seq<char>) -> Seq<char> {
    trim_end(trim_start(s))
}

pub proof fn lemma_skip_ws_bounds(s: Seq<char>, i: int)
    requires
        0 <= i <= s.len(),
    ensures
        i <= skip_ws(s, i) <= s.len(),
    decreases s.len() - i,
{
    if i < s.len() && is_ws(s[i]) {
        lemma_skip_ws_bounds(s, i + 1);
    }
}

pub proof fn lemma_rskip_ws_bounds(s: Seq<char>, j: int)
    requires
        0 <= j <= s.len(),
    ensures
        0 <= rskip_ws(s, j) <= j,
    decreases j,
{
    if 0 < j && is_ws(s[j - 1]) {
        lemma_rskip_ws_bounds(s, j - 1);
    }
}

pub fn skip_ws_from(v: &Vec<char>, i: usize) -> (r: usize)
    requires
        i <= v@.len(),
    ensures
        r as int == skip_ws(v@, i as int),
        i <= r <= v@.len(),
{
    let mut k = i;
    while k < v.len() && is_whitespace(v[k])
        invariant
            i <= k <= v@.len(),
            skip_ws(v@, i as int) == skip_ws(v@, k as int),
        decreases v@.len() - k,
    {
        k = k + 1;
    }
    k
}

pub fn rskip_ws_from(v: &Vec<char>, j: usize) -> (r: usize)
    requires
        j <= v@.len(),
    ensures
        r as int == rskip_ws(v@, j as int),
        r <= j,
{
    let mut k = j;
    while k > 0 && is_whitespace(v[k - 1])
        invariant
            k <= j <= v@.len(),
            rskip_ws(v@, j as int) == rskip_ws(v@, k as int),
        decreases k,
    {
        k = k - 1;
    }
    k
}

pub fn trim_start_v(v: &Vec<char>) -> (r: Vec<char>)
    ensures
        r@ == trim_start(v@),
{
    let a = skip_ws_from(v, 0);
    let r = subvec(v, a, v.len());
    assert(r@ =~= v@.skip(a as int));
    r
}

pub fn trim_end_v(v: &Vec<char>) -> (r: Vec<char>)
    ensures
        r@ == trim_end(v@),
{
    let b = rskip_ws_from(v, v.len());
    let r = subvec(v, 0, b);
    assert(r@ =~= v@.take(b as int));
    r
}

pub fn trim_v(v: &Vec<char>) -> (r: Vec<char>)
    ensures
        r@ == trim(v@),
{
    let t = trim_start_v(v);
    trim_end_v(&t)
}

// ------------------------------------------------------------------
// Prefixes, suffixes, searching
// ------------------------------------------------------------------

pub open spec fn starts_with(s: Seq<char>, p: Seq<char>) -> bool {
    p.len() <= s.len() && s.take(p.len() as int) == p
}

pub open spec fn ends_with(s: Seq<char>, p: Seq<char>) -> bool {
    p.len() <= s.len() && s.skip(s.len() - p.len()) == p
}

/// `str::strip_prefix`.
pub open spec fn strip_prefix(s: Seq<char>, p: Seq<char>) -> Option<Seq<char>> {
    if starts_with(s, p) {
        Some(s.skip(p.len() as int))
    } else {
        None
    }
}

/// `str::strip_suffix`.
pub open spec fn strip_suffix(s: Seq<char>, p: Seq<char>) -> Option<Seq<char>> {
    if ends_with(s, p) {
        Some(s.take(s.len() - p.len()))
    } else {
        None
    }
}

/// Whether `p` occurs in `s` starting at index `i`.
pub open spec fn occurs_at(s: Seq<char>, p: Seq<char>, i: int) -> bool {
    0 <= i && i + p.len() <= s.len() && s.subrange(i, i + p.len()) == p
}

/// `str::contains` with a string pattern.
pub open spec fn contains_sub(s: Seq<char>, p: Seq<char>) -> bool {
    exists|i: int| #[trigger] occurs_at(s, p, i)
}

/// The first index at or after `i` where `p` occurs, or `-1`.
pub open spec fn find_sub_from(s: Seq<char>, p: Seq<char>, i: int) -> int
    decreases s.len() - i,
{
    if i < 0 || i + p.len() > s.len() {
        -1
    } else if occurs_at(s, p, i) {
        i
    } else if i >= s.len() {
        -1
    } else {
        find_sub_from(s, p, i + 1)
    }
}

/// The first index at or after `i` holding `c`, or `s.len()` when there is none.
pub open spec fn index_of(s: Seq<char>, c: char, i: int) -> int
    decreases s.len() - i,
{
    if 0 <= i < s.len() {
        if s[i] == c {
            i
        } else {
            index_of(s, c, i + 1)
        }
    } else {
        s.len() as int
    }
}

/// `str::split_once` with a character pattern.
pub open spec fn split_once(s: Seq<char>, c: char) -> Option<(Seq<char>, Seq<char>)> {
    let k = index_of(s, c, 0);
    if k < s.len() {
        Some((s.take(k), s.skip(k + 1)))
    } else {
        None
    }
}

pub proof fn lemma_index_of(s: Seq<char>, c: char, i: int)
    requires
        0 <= i <= s.len(),
    ensures
        i <= index_of(s, c, i) <= s.len(),
        forall|k: int| i <= k < index_of(s, c, i) ==> s[k] != c,
        index_of(s, c, i) < s.len() ==> s[index_of(s, c, i)] == c,
    decreases s.len() - i,
{
    if i < s.len() && s[i] != c {
        lemma_index_of(s, c, i + 1);
    }
}

pub proof fn lemma_index_of_contains(s: Seq<char>, c: char)
    ensures
        (index_of(s, c, 0) < s.len()) == s.contains(c),
{
    lemma_index_of(s, c, 0);
    if s.contains(c) {
        let k = choose|k: int| 0 <= k < s.len() && s[k] == c;
        assert(k >= index_of(s, c, 0));
    }
}

pub proof fn lemma_find_sub(s: Seq<char>, p: Seq<char>, i: int)
    requires
        0 <= i,
    ensures
        find_sub_from(s, p, i) == -1 || (i <= find_sub_from(s, p, i) && occurs_at(
            s,
            p,
            find_sub_from(s, p, i),
        )),
        forall|k: int|
            i <= k && (find_sub_from(s, p, i) == -1 || k < find_sub_from(s, p, i))
                ==> !occurs_at(s, p, k),
    decreases s.len() - i,
{
    if i + p.len() <= s.len() && !occurs_at(s, p, i) && i < s.len() {
        lemma_find_sub(s, p, i + 1);
    }
}

pub proof fn lemma_find_sub_contains(s: Seq<char>, p: Seq<char>)
    ensures
        (find_sub_from(s, p, 0) >= 0) == contains_sub(s, p),
{
    lemma_find_sub(s, p, 0);
    if find_sub_from(s, p, 0) >= 0 {
        assert(occurs_at(s, p, find_sub_from(s, p, 0)));
    }
}

pub fn starts_with_v(v: &Vec<char>, p: &Vec<char>) -> (b: bool)
    ensures
        b == starts_with(v@, p@),
{
    occurs_at_v(v, p, 0)
}

pub fn ends_with_v(v: &Vec<char>, p: &Vec<char>) -> (b: bool)
    ensures
        b == ends_with(v@, p@),
{
    if p.len() > v.len() {
        return false;
    }
    let r = occurs_at_v(v, p, v.len() - p.len());
    assert(v@.subrange(v@.len() - p@.len(), v@.len() as int) =~= v@.skip(v@.len() - p@.len()));
    r
}

/// Whether `p` occurs in `v` at index `i`.
pub fn occurs_at_v(v: &Vec<char>, p: &Vec<char>, i: usize) -> (b: bool)
    ensures
        b == occurs_at(v@, p@, i as int),
{
    if i > v.len() || p.len() > v.len() - i {
        return false;
    }
    let n = p.len();
    let mut k: usize = 0;
    while k < n
        invariant
            n == p@.len(),
            i + n <= v@.len(),
            i <= v@.len(),
            k <= n,
            forall|j: int| 0 <= j < k ==> v@[i + j] == p@[j],
        decreases n - k,
    {
        assert(i + k < v.len());
        let idx: usize = i + k;
        if v[idx] != p[k] {
            assert(v@.subrange(i as int, i + n)[k as int] != p@[k as int]);
            return false;
        }
        k = k + 1;
    }
    assert(v@.subrange(i as int, i + n) =~= p@);
    true
}

pub fn strip_prefix_v(v: &Vec<char>, p: &Vec<char>) -> (r: Option<Vec<char>>)
    ensures
        match r {
            Some(w) => strip_prefix(v@, p@) == Some(w@),
            None => strip_prefix(v@, p@) is None,
        },
{
    if starts_with_v(v, p) {
        let w = subvec(v, p.len(), v.len());
        assert(w@ =~= v@.skip(p@.len() as int));
        Some(w)
    } else {
        None
    }
}

pub fn strip_suffix_v(v: &Vec<char>, p: &Vec<char>) -> (r: Option<Vec<char>>)
    ensures
        match r {
            Some(w) => strip_suffix(v@, p@) == Some(w@),
            None => strip_suffix(v@, p@) is None,
        },
{
    if ends_with_v(v, p) {
        let w = subvec(v, 0, v.len() - p.len());
        assert(w@ =~= v@.take(v@.len() - p@.len()));
        Some(w)
    } else {
        None
    }
}

/// The first index at or after `i` holding `c`, or `v.len()`.
pub fn index_of_v(v: &Vec<char>, c: char, i: usize) -> (r: usize)
    requires
        i <= v@.len(),
    ensures
        r as int == index_of(v@, c, i as int),
        i <= r <= v@.len(),
{
    let mut k = i;
    while k < v.len() && v[k] != c
        invariant
            i <= k <= v@.len(),
            index_of(v@, c, i as int) == index_of(v@, c, k as int),
        decreases v@.len() - k,
    {
        k = k + 1;
    }
    k
}

pub fn contains_char_v(v: &Vec<char>, c: char) -> (b: bool)
    ensures
        b == v@.contains(c),
{
    proof {
        lemma_index_of_contains(v@, c);
    }
    index_of_v(v, c, 0) < v.len()
}

/// The first index where `p` occurs in `v`, or `None`.
pub fn find_sub_v(v: &Vec<char>, p: &Vec<char>) -> (r: Option<usize>)
    ensures
        match r {
            Some(k) => find_sub_from(v@, p@, 0) == k as int,
            None => find_sub_from(v@, p@, 0) == -1,
        },
{
    if p.len() > v.len() {
        return None;
    }
    let last = v.len() - p.len();
    let mut k: usize = 0;
    while k <= last
        invariant
            last + p@.len() == v@.len(),
            find_sub_from(v@, p@, 0) == find_sub_from(v@, p@, k as int),
        decreases last + 1 - k,
    {
        if occurs_at_v(v, p, k) {
            return Some(k);
        }
        if k == last {
            assert(find_sub_from(v@, p@, k + 1) == -1);
            return None;
        }
        k = k + 1;
    }
    None
}

pub fn contains_sub_v(v: &Vec<char>, p: &Vec<char>) -> (b: bool)
    ensures
        b == contains_sub(v@, p@),
{
    proof {
        lemma_find_sub_contains(v@, p@);
    }
    match find_sub_v(v, p) {
        Some(_) => true,
        None => false,
    }
}

/// Whether the text of `v` contains the string literal `p`.
pub fn contains_str(v: &Vec<char>, p: &str) -> (b: bool)
    ensures
        b == contains_sub(v@, p@),
{
    let pv = chars_of(p);
    contains_sub_v(v, &pv)
}

pub fn starts_with_str(v: &Vec<char>, p: &str) -> (b: bool)
    ensures
        b == starts_with(v@, p@),
{
    let pv = chars_of(p);
    starts_with_v(v, &pv)
}

pub fn ends_with_str(v: &Vec<char>, p: &str) -> (b: bool)
    ensures
        b == ends_with(v@, p@),
{
    let pv = chars_of(p);
    ends_with_v(v, &pv)
}

pub fn strip_prefix_str(v: &Vec<char>, p: &str) -> (r: Option<Vec<char>>)
    ensures
        match r {
            Some(w) => strip_prefix(v@, p@) == Some(w@),
            None => strip_prefix(v@, p@) is None,
        },
{
    let pv = chars_of(p);
    strip_prefix_v(v, &pv)
}

pub fn strip_suffix_str(v: &Vec<char>, p: &str) -> (r: Option<Vec<char>>)
    ensures
        match r {
            Some(w) => strip_suffix(v@, p@) == Some(w@),
            None => strip_suffix(v@, p@) is None,
        },
{
    let pv = chars_of(p);
    strip_suffix_v(v, &pv)
}

pub fn eq_str(v: &Vec<char>, p: &str) -> (b: bool)
    ensures
        b == (v@ == p@),
{
    let pv = chars_of(p);
    vec_eq(v, &pv)
}

/// `str::split_once` with a character pattern.
pub fn split_once_v(v: &Vec<char>, c: char) -> (r: Option<(Vec<char>, Vec<char>)>)
    ensures
        match r {
            Some((a, b)) => split_once(v@, c) == Some((a@, b@)),
            None => split_once(v@, c) is None,
        },
{
    let k = index_of_v(v, c, 0);
    if k < v.len() {
        let a = subvec(v, 0, k);
        let b = subvec(v, k + 1, v.len());
        assert(a@ =~= v@.take(k as int));
        assert(b@ =~= v@.skip(k + 1));
        Some((a, b))
    } else {
        None
    }
}

// ------------------------------------------------------------------
// ASCII case
// ------------------------------------------------------------------

/// `str::to_ascii_lowercase`.
pub open spec fn ascii_lower(s: Seq<char>) -> Seq<char> {
    s.map_values(|c: char| lower_char(c))
}

/// `str::eq_ignore_ascii_case`.
pub open spec fn eq_ignore_case(a: Seq<char>, b: Seq<char>) -> bool {
    ascii_lower(a) == ascii_lower(b)
}

pub fn ascii_lower_v(v: &Vec<char>) -> (r: Vec<char>)
    ensures
        r@ == ascii_lower(v@),
{
    let mut r: Vec<char> = Vec::new();
    let n = v.len();
    let mut i: usize = 0;
    while i < n
        invariant
            n == v@.len(),
            i <= n,
            r@ == ascii_lower(v@.take(i as int)),
        decreases n - i,
    {
        r.push(to_ascii_lower(v[i]));
        i = i + 1;
        assert(r@ =~= ascii_lower(v@.take(i as int)));
    }
    assert(v@.take(n as int) =~= v@);
    r
}

pub fn eq_ignore_case_v(a: &Vec<char>, b: &Vec<char>) -> (r: bool)
    ensures
        r == eq_ignore_case(a@, b@),
{
    let x = ascii_lower_v(a);
    let y = ascii_lower_v(b);
    vec_eq(&x, &y)
}

// ------------------------------------------------------------------
// Lines
// ------------------------------------------------------------------

/// Drops one trailing `'\r'`.
pub open spec fn strip_cr(s: Seq<char>) -> Seq<char> {
    if s.len() > 0 && s.last() == '\r' {
        s.drop_last()
    } else {
        s
    }
}

/// `str::lines`, reading from index `start`: lines end at `'\n'` (a `'\r'` just
/// before it is dropped) and a final line ending is optional.
pub open spec fn lines_from(s: Seq<char>, start: int) -> Seq<Seq<char>>
    decreases s.len() - start,
{
    if start < 0 || start >= s.len() {
        Seq::empty()
    } else {
        let k = index_of(s, '\n', start);
        proof {
            lemma_index_of(s, '\n', start);
        }
        if k >= s.len() {
            seq![s.subrange(start, s.len() as int)]
        } else {
            seq![strip_cr(s.subrange(start, k))] + lines_from(s, k + 1)
        }
    }
}

/// `str::lines`.
pub open spec fn lines(s: Seq<char>) -> Seq<Seq<char>> {
    lines_from(s, 0)
}

/// A line that survives `str::lines` unchanged: no line break in it and no
/// carriage return at its end.
pub open spec fn plain_line(x: Seq<char>) -> bool {
    (forall|k: int| 0 <= k < x.len() ==> #[trigger] x[k] != '\n') && !(x.len() > 0 && x.last()
        == '\r')
}

/// Lines, each followed by a line break.
pub open spec fn text_of_lines(xs: Seq<Seq<char>>) -> Seq<char>
    decreases xs.len(),
{
    if xs.len() == 0 {
        Seq::empty()
    } else {
        xs[0].push('\n') + text_of_lines(xs.skip(1))
    }
}

pub proof fn lemma_index_of_shift(p: Seq<char>, s: Seq<char>, c: char, i: int)
    requires
        0 <= i,
    ensures
        index_of(p + s, c, p.len() + i) == p.len() + index_of(s, c, i),
    decreases s.len() - i,
{
    if i < s.len() {
        assert((p + s)[p.len() + i] == s[i]);
        if s[i] != c {
            lemma_index_of_shift(p, s, c, i + 1);
        }
    }
}

pub proof fn lemma_lines_from_shift(p: Seq<char>, s: Seq<char>, i: int)
    requires
        0 <= i,
    ensures
        lines_from(p + s, p.len() + i) == lines_from(s, i),
    decreases s.len() - i,
{
    let t = p + s;
    if i < s.len() {
        lemma_index_of_shift(p, s, '\n', i);
        lemma_index_of(s, '\n', i);
        let k = index_of(s, '\n', i);
        if k >= s.len() {
            assert(t.subrange(p.len() + i, t.len() as int) =~= s.subrange(i, s.len() as int));
        } else {
            assert(t.subrange(p.len() + i, p.len() + k) =~= s.subrange(i, k));
            lemma_lines_from_shift(p, s, k + 1);
            assert(p.len() + (k + 1) == p.len() + k + 1);
        }
    }
}

/// A plain line followed by a line break comes out of `str::lines` first.
pub proof fn lemma_lines_cons(x: Seq<char>, rest: Seq<char>)
    requires
        plain_line(x),
    ensures
        lines(x.push('\n') + rest) == seq![x] + lines(rest),
{
    let h = x.push('\n');
    let t = h + rest;
    assert forall|k: int| 0 <= k < x.len() implies t[k] != '\n' by {
        assert(t[k] == x[k]);
    }
    assert(t[x.len() as int] == '\n');
    lemma_index_of(t, '\n', 0);
    let k = index_of(t, '\n', 0);
    if k < x.len() {
        assert(t[k] == '\n');
    }
    assert(k == x.len());
    assert(t.subrange(0, k) =~= x);
    lemma_lines_from_shift(h, rest, 0);
    assert(h.len() + 0 == k + 1);
}

/// The lines of lines written one after another are those lines.
pub proof fn lemma_lines_of_text(xs: Seq<Seq<char>>)
    requires
        forall|i: int| 0 <= i < xs.len() ==> plain_line(#[trigger] xs[i]),
    ensures
        lines(text_of_lines(xs)) == xs,
    decreases xs.len(),
{
    if xs.len() == 0 {
        assert(lines(Seq::<char>::empty()) =~= Seq::<Seq<char>>::empty());
    } else {
        let r = xs.skip(1);
        assert forall|i: int| 0 <= i < r.len() implies plain_line(#[trigger] r[i]) by {
            assert(r[i] == xs[i + 1]);
        }
        lemma_lines_of_text(r);
        lemma_lines_cons(xs[0], text_of_lines(r));
        assert(seq![xs[0]] + r =~= xs);
    }
}

/// Lines written one after another, after some text.
pub proof fn lemma_text_of_lines_append(xs: Seq<Seq<char>>, ys: Seq<Seq<char>>)
    ensures
        text_of_lines(xs + ys) == text_of_lines(xs) + text_of_lines(ys),
    decreases xs.len(),
{
    if xs.len() == 0 {
        assert(xs + ys =~= ys);
    } else {
        assert((xs + ys).skip(1) =~= xs.skip(1) + ys);
        lemma_text_of_lines_append(xs.skip(1), ys);
        assert((xs + ys)[0] == xs[0]);
    }
}

/// One more line written.
pub proof fn lemma_text_of_lines_step(xs: Seq<Seq<char>>, i: int)
    requires
        0 <= i < xs.len(),
    ensures
        text_of_lines(xs.take(i + 1)) == text_of_lines(xs.take(i)) + xs[i].push('\n'),
{
    let one = seq![xs[i]];
    lemma_text_of_lines_append(xs.take(i), one);
    assert(xs.take(i) + one =~= xs.take(i + 1));
    assert(one.skip(1) =~= Seq::<Seq<char>>::empty());
    assert(text_of_lines(one) =~= xs[i].push('\n') + text_of_lines(Seq::<Seq<char>>::empty()));
    assert(text_of_lines(one) =~= xs[i].push('\n'));
}

/// A text with no whitespace at either end is its own trim.
pub proof fn lemma_trim_id(s: Seq<char>)
    requires
        s.len() > 0,
        !is_ws(s[0]),
        !is_ws(s.last()),
    ensures
        trim(s) == s,
{
    assert(skip_ws(s, 0) == 0);
    assert(trim_start(s) =~= s);
    assert(rskip_ws(s, s.len() as int) == s.len());
    assert(trim_end(s) =~= s);
}

proof fn lemma_skip_ws_stop(s: Seq<char>, i: int)
    requires
        0 <= i <= s.len(),
    ensures
        skip_ws(s, i) < s.len() ==> !is_ws(s[skip_ws(s, i)]),
    decreases s.len() - i,
{
    if i < s.len() && is_ws(s[i]) {
        lemma_skip_ws_stop(s, i + 1);
    }
}

proof fn lemma_rskip_ws_stop(s: Seq<char>, j: int)
    requires
        0 <= j <= s.len(),
    ensures
        rskip_ws(s, j) > 0 ==> !is_ws(s[rskip_ws(s, j) - 1]),
    decreases j,
{
    if 0 < j && is_ws(s[j - 1]) {
        lemma_rskip_ws_stop(s, j - 1);
    }
}

/// `trim` keeps a stretch of the text, and what it keeps neither starts nor
/// ends with whitespace.
pub proof fn lemma_trim_shape(s: Seq<char>)
    ensures
        skip_ws(s, 0) + trim(s).len() <= s.len(),
        0 <= skip_ws(s, 0),
        forall|k: int| 0 <= k < trim(s).len() ==> #[trigger] trim(s)[k] == s[skip_ws(s, 0) + k],
        trim(s).len() > 0 ==> !is_ws(trim(s)[0]) && !is_ws(trim(s).last()),
{
    let a = skip_ws(s, 0);
    lemma_skip_ws_bounds(s, 0);
    lemma_skip_ws_stop(s, 0);
    let t = trim_start(s);
    let b = rskip_ws(t, t.len() as int);
    lemma_rskip_ws_bounds(t, t.len() as int);
    lemma_rskip_ws_stop(t, t.len() as int);
    assert(trim(s) =~= t.take(b));
    if b > 0 {
        assert(trim(s)[0] == t[0]);
        assert(t[0] == s[a]);
        assert(trim(s).last() == t[b - 1]);
    }
}

/// No line that `str::lines` gives holds a line break.
pub proof fn lemma_lines_have_no_break(s: Seq<char>, start: int)
    requires
        0 <= start,
    ensures
        forall|i: int, k: int|
            0 <= i < lines_from(s, start).len() && 0 <= k < lines_from(s, start)[i].len()
                ==> #[trigger] lines_from(s, start)[i][k] != '\n',
    decreases s.len() - start,
{
    if start < s.len() {
        lemma_index_of(s, '\n', start);
        let k = index_of(s, '\n', start);
        let ls = lines_from(s, start);
        if k >= s.len() {
            let seg = s.subrange(start, s.len() as int);
            assert forall|i: int, q: int| 0 <= i < ls.len() && 0 <= q < ls[i].len() implies #[trigger] ls[i][q]
                != '\n' by {
                assert(ls[i] == seg);
                assert(seg[q] == s[start + q]);
            }
        } else {
            lemma_lines_have_no_break(s, k + 1);
            let seg = strip_cr(s.subrange(start, k));
            let rest = lines_from(s, k + 1);
            assert forall|i: int, q: int| 0 <= i < ls.len() && 0 <= q < ls[i].len() implies #[trigger] ls[i][q]
                != '\n' by {
                if i == 0 {
                    assert(ls[0] == seg);
                    assert(seg[q] == s[start + q]);
                } else {
                    assert(ls[i] == rest[i - 1]);
                }
            }
        }
    }
}

/// Where skipping whitespace from `i` stops, told by the characters.
pub proof fn lemma_skip_ws_at(s: Seq<char>, i: int, k: int)
    requires
        0 <= i <= k <= s.len(),
        forall|j: int| i <= j < k ==> is_ws(#[trigger] s[j]),
        k == s.len() || !is_ws(s[k]),
    ensures
        skip_ws(s, i) == k,
    decreases k - i,
{
    if i < k {
        lemma_skip_ws_at(s, i + 1, k);
    }
}

/// What skipping whitespace from `i` passed over.
pub proof fn lemma_skip_ws_all(s: Seq<char>, i: int)
    requires
        0 <= i <= s.len(),
    ensures
        i <= skip_ws(s, i) <= s.len(),
        forall|j: int| i <= j < skip_ws(s, i) ==> is_ws(#[trigger] s[j]),
        skip_ws(s, i) < s.len() ==> !is_ws(s[skip_ws(s, i)]),
    decreases s.len() - i,
{
    if i < s.len() && is_ws(s[i]) {
        lemma_skip_ws_all(s, i + 1);
    }
}

/// Where the search for `c` from `i` stops, told by the characters.
pub proof fn lemma_index_of_at(s: Seq<char>, c: char, i: int, k: int)
    requires
        0 <= i <= k <= s.len(),
        forall|j: int| i <= j < k ==> #[trigger] s[j] != c,
        k == s.len() || s[k] == c,
    ensures
        index_of(s, c, i) == k,
    decreases k - i,
{
    if i < k {
        lemma_index_of_at(s, c, i + 1, k);
    }
}

pub fn strip_cr_v(v: Vec<char>) -> (r: Vec<char>)
    ensures
        r@ == strip_cr(v@),
{
    let mut v = v;
    if v.len() > 0 && v[v.len() - 1] == '\r' {
        v.pop();
    }
    v
}

/// The character sequences held by a sequence of vectors.
pub open spec fn vviews(v: Seq<Vec<char>>) -> Seq<Seq<char>> {
    v.map_values(|x: Vec<char>| x@)
}

/// The lines of `v`.
pub fn lines_v(v: &Vec<char>) -> (r: Vec<Vec<char>>)
    ensures
        vviews(r@) == lines(v@),
{
    let mut out: Vec<Vec<char>> = Vec::new();
    let mut start: usize = 0;
    while start < v.len()
        invariant
            start <= v@.len(),
            lines(v@) == vviews(out@) + lines_from(v@, start as int),
        decreases v@.len() - start,
    {
        let k = index_of_v(v, '\n', start);
        proof {
            lemma_index_of(v@, '\n', start as int);
        }
        let seg = subvec(v, start, k);
        let line = if k < v.len() {
            strip_cr_v(seg)
        } else {
            seg
        };
        let ghost before = vviews(out@);
        out.push(line);
        proof {
            assert(vviews(out@) =~= before.push(line@));
        }
        if k >= v.len() {
            assert(lines_from(v@, k as int) =~= Seq::<Seq<char>>::empty());
            start = k;
        } else {
            start = k + 1;
        }
        assert(lines(v@) =~= vviews(out@) + lines_from(v@, start as int));
    }
    assert(lines_from(v@, start as int) =~= Seq::<Seq<char>>::empty());
    assert(vviews(out@) + Seq::<Seq<char>>::empty() =~= vviews(out@));
    out
}

// ------------------------------------------------------------------
// Decimal numbers
// ------------------------------------------------------------------

pub open spec fn digit(d: nat) -> char {
    ((d % 10) + 48) as char
}

/// Decimal notation of a natural number, as `Display` writes it.
pub open spec fn dec(n: nat) -> Seq<char>
    decreases n,
{
    if n < 10 {
        seq![digit(n)]
    } else {
        dec(n / 10).push(digit(n % 10))
    }
}

/// Decimal notation of an integer, with a leading `-` when negative.
pub open spec fn dec_int(n: int) -> Seq<char> {
    if n < 0 {
        seq!['-'] + dec((-n) as nat)
    } else {
        dec(n as nat)
    }
}

fn digit_char(d: u64) -> (c: char)
    requires
        d < 10,
    ensures
        c == digit(d as nat),
{
    char_from_ascii((d + 48) as u32)
}

/// Decimal notation of `n`.
pub fn dec_u64(n: u64) -> (r: Vec<char>)
    ensures
        r@ == dec(n as nat),
    decreases n,
{
    if n < 10 {
        let mut r: Vec<char> = Vec::new();
        r.push(digit_char(n));
        proof {
            assert(r@ =~= seq![digit(n as nat)]);
        }
        r
    } else {
        let mut r = dec_u64(n / 10);
        r.push(digit_char(n % 10));
        r
    }
}

pub fn dec_usize(n: usize) -> (r: Vec<char>)
    ensures
        r@ == dec(n as nat),
{
    dec_u64(n as u64)
}

/// Decimal notation of a signed `n`.
pub fn dec_i64(n: i64) -> (r: Vec<char>)
    ensures
        r@ == dec_int(n as int),
{
    if n < 0 {
        let m: u64 = if n == i64::MIN {
            9223372036854775808u64
        } else {
            (-n) as u64
        };
        let d = dec_u64(m);
        let mut r: Vec<char> = Vec::new();
        r.push('-');
        extend(&mut r, &d);
        proof {
            assert(r@ =~= seq!['-'] + dec((-n) as nat));
        }
        r
    } else {
        dec_u64(n as u64)
    }
}

/// Whether `s` is one or more ASCII digits.
pub open spec fn is_decimal(s: Seq<char>) -> bool {
    s.len() > 0 && forall|i: int| 0 <= i < s.len() ==> '0' <= #[trigger] s[i] <= '9'
}

/// The number that a run of ASCII digits writes.
pub open spec fn decimal_value(s: Seq<char>) -> nat
    decreases s.len(),
{
    if s.len() == 0 {
        0
    } else {
        decimal_value(s.drop_last()) * 10 + ((s.last() as int) - 48) as nat
    }
}

proof fn lemma_decimal_grows(s: Seq<char>, i: int)
    requires
        0 <= i <= s.len(),
        forall|k: int| 0 <= k < s.len() ==> '0' <= #[trigger] s[k] <= '9',
    ensures
        decimal_value(s.take(i)) <= decimal_value(s),
    decreases s.len() - i,
{
    if i < s.len() {
        lemma_decimal_grows(s, i + 1);
        assert(s.take(i + 1).drop_last() =~= s.take(i));
    } else {
        assert(s.take(i) =~= s);
    }
}

/// Reads a number of days written in decimal: `None` unless `s` is one or
/// more ASCII digits whose value fits in a `u32`.
pub fn parse_u32(s: &Vec<char>) -> (r: Option<u32>)
    ensures
        r == (if is_decimal(s@) && decimal_value(s@) <= u32::MAX {
            Some(decimal_value(s@) as u32)
        } else {
            None
        }),
{
    if s.len() == 0 {
        return None;
    }
    let mut v: u64 = 0;
    let mut i: usize = 0;
    while i < s.len()
        invariant
            i <= s@.len(),
            s@.len() > 0,
            v == decimal_value(s@.take(i as int)),
            v <= u32::MAX,
            forall|k: int| 0 <= k < i ==> '0' <= #[trigger] s@[k] <= '9',
        decreases s@.len() - i,
    {
        let c = s[i];
        if !('0' <= c && c <= '9') {
            return None;
        }
        let d = (c as u32 - 48) as u64;
        assert(s@.take(i as int + 1).drop_last() =~= s@.take(i as int));
        assert(v * 10 + d <= u32::MAX as u64 * 10 + 9) by (nonlinear_arith)
            requires
                v <= u32::MAX,
                d <= 9,
        ;
        let w = v * 10 + d;
        if w > u32::MAX as u64 {
            proof {
                assert forall|k: int| 0 <= k < i + 1 implies '0' <= #[trigger] s@.take(i as int + 1)[k] <= '9' by {}
                if is_decimal(s@) {
                    lemma_decimal_grows(s@, i as int + 1);
                }
            }
            return None;
        }
        v = w;
        i = i + 1;
    }
    assert(s@.take(i as int) =~= s@);
    Some(v as u32)
}

// ------------------------------------------------------------------
// Splitting
// ------------------------------------------------------------------
/// `str::split` with a character separator, reading from index `start`.
pub open spec fn split_from(s: Seq<char>, c: char, start: int) -> Seq<Seq<char>>
    decreases s.len() - start,
{
    if start < 0 || start > s.len() {
        Seq::empty()
    } else {
        let k = index_of(s, c, start);
        proof {
            lemma_index_of(s, c, start);
        }
        if k >= s.len() {
            seq![s.subrange(start, s.len() as int)]
        } else {
            seq![s.subrange(start, k)] + split_from(s, c, k + 1)
        }
    }
}

/// `str::split` with a character separator.
pub open spec fn split_char(s: Seq<char>, c: char) -> Seq<Seq<char>> {
    split_from(s, c, 0)
}

pub fn split_char_v(v: &Vec<char>, c: char) -> (r: Vec<Vec<char>>)
    ensures
        vviews(r@) == split_char(v@, c),
{
    let mut out: Vec<Vec<char>> = Vec::new();
    let mut start: usize = 0;
    loop
        invariant
            start <= v@.len(),
            split_char(v@, c) == vviews(out@) + split_from(v@, c, start as int),
        decreases v@.len() - start,
    {
        let k = index_of_v(v, c, start);
        proof {
            lemma_index_of(v@, c, start as int);
        }
        let seg = subvec(v, start, k);
        let ghost before = vviews(out@);
        out.push(seg);
        assert(vviews(out@) =~= before.push(seg@));
        if k >= v.len() {
            assert(split_char(v@, c) =~= vviews(out@));
            return out;
        }
        start = k + 1;
        assert(split_char(v@, c) =~= vviews(out@) + split_from(v@, c, start as int));
    }
}

/// The first index at or after `i` that holds whitespace, or `s.len()`.
pub open spec fn ws_from(s: Seq<char>, i: int) -> int
    decreases s.len() - i,
{
    if 0 <= i < s.len() {
        if is_ws(s[i]) {
            i
        } else {
            ws_from(s, i + 1)
        }
    } else {
        s.len() as int
    }
}

pub proof fn lemma_ws_from(s: Seq<char>, i: int)
    requires
        0 <= i <= s.len(),
    ensures
        i <= ws_from(s, i) <= s.len(),
    decreases s.len() - i,
{
    if i < s.len() && !is_ws(s[i]) {
        lemma_ws_from(s, i + 1);
    }
}

/// The first whitespace-separated token, or empty when there is none.
pub open spec fn first_token(s: Seq<char>) -> Seq<char> {
    let a = skip_ws(s, 0);
    s.subrange(a, ws_from(s, a))
}

pub fn first_token_v(v: &Vec<char>) -> (r: Vec<char>)
    ensures
        r@ == first_token(v@),
{
    let a = skip_ws_from(v, 0);
    let mut k = a;
    while k < v.len() && !is_whitespace(v[k])
        invariant
            a <= k <= v@.len(),
            ws_from(v@, a as int) == ws_from(v@, k as int),
        decreases v@.len() - k,
    {
        k = k + 1;
    }
    subvec(v, a, k)
}

// ------------------------------------------------------------------
// UTF-8 lengths
// ------------------------------------------------------------------
/// How many bytes UTF-8 uses for `c`.
pub open spec fn char_bytes(c: char) -> nat {
    let u = c as u32;
    if u < 0x80 {
        1
    } else if u < 0x800 {
        2
    } else if u < 0x10000 {
        3
    } else {
        4
    }
}

/// The UTF-8 length of `s` in bytes, as `str::len` counts it.
pub open spec fn byte_len(s: Seq<char>) -> nat
    decreases s.len(),
{
    if s.len() == 0 {
        0
    } else {
        byte_len(s.drop_last()) + char_bytes(s.last())
    }
}

pub fn utf8_len(c: char) -> (n: u128)
    ensures
        n == char_bytes(c),
{
    let u = c as u32;
    if u < 0x80 {
        1
    } else if u < 0x800 {
        2
    } else if u < 0x10000 {
        3
    } else {
        4
    }
}

/// The UTF-8 length of the first `k` characters of `raw`.
pub fn prefix_bytes(raw: &Vec<char>, k: usize) -> (n: u128)
    requires
        k <= raw@.len(),
    ensures
        n == byte_len(raw@.take(k as int)),
{
    let mut acc: u128 = 0;
    let mut i: usize = 0;
    assert(raw@.take(0) =~= Seq::<char>::empty());
    while i < k
        invariant
            i <= k <= raw@.len(),
            acc == byte_len(raw@.take(i as int)),
            acc <= 4 * i,
        decreases k - i,
    {
        assert(raw@.take(i + 1).drop_last() =~= raw@.take(i as int));
        acc = acc + utf8_len(raw[i]);
        i = i + 1;
    }
    acc
}

/// Removes every trailing `c`, as `trim_end_matches` does.
pub open spec fn rstrip_char(s: Seq<char>, c: char) -> Seq<char>
    decreases s.len(),
{
    if s.len() > 0 && s.last() == c {
        rstrip_char(s.drop_last(), c)
    } else {
        s
    }
}

/// Removes every trailing `c`.
pub fn rstrip_char_v(v: &Vec<char>, c: char) -> (r: Vec<char>)
    ensures
        r@ == rstrip_char(v@, c),
{
    let mut k = v.len();
    assert(v@.take(k as int) =~= v@);
    while k > 0 && v[k - 1] == c
        invariant
            k <= v@.len(),
            rstrip_char(v@, c) == rstrip_char(v@.take(k as int), c),
        decreases k,
    {
        assert(v@.take(k as int).drop_last() =~= v@.take(k - 1));
        k = k - 1;
    }
    let r = subvec(v, 0, k);
    assert(r@ =~= v@.take(k as int));
    r
}

} // verus!
