//! Character-level helpers shared by the parsers of the crate.
//!
//! Strings are modelled by their view, a `Seq<char>`; these functions move
//! between `String`/`&str` and `Vec<char>` and search character sequences.

use vstd::prelude::*;

verus! {

/// The characters of `s`, in order.
pub fn chars_of(s: &str) -> (res: Vec<char>)
    ensures
        res@ == s@,
{
    broadcast use vstd::string::group_string_axioms;

    let mut out: Vec<char> = Vec::new();
    for c in it: s.chars()
        invariant
            it.seq() == s@,
            out@ == s@.take(it.index() as int),
    {
        out.push(c);
    }
    assert(s@.take(s@.len() as int) =~= s@);
    out
}

/// Appends one character to a `String` (`String::push`).
#[verifier::external_body]
pub(crate) fn push_char(s: &mut String, c: char)
    ensures
        final(s)@ == old(s)@.push(c),
{
    s.push(c);
}

/// Appends a string slice to a `String`.
pub(crate) fn push_str(s: &mut String, t: &str)
    ensures
        final(s)@ == old(s)@ + t@,
{
    s.append(t);
}

/// Copies a string slice into a new `String`.
pub(crate) fn to_owned_string(s: &str) -> (res: String)
    ensures
        res@ == s@,
{
    s.to_owned()
}

/// Builds a `String` from the characters `v[lo..hi]`.
pub fn string_from_range(v: &Vec<char>, lo: usize, hi: usize) -> (res: String)
    requires
        lo <= hi <= v.len(),
    ensures
        res@ == v@.subrange(lo as int, hi as int),
{
    let mut s = String::new();
    let mut i = lo;
    while i < hi
        invariant
            lo <= i <= hi <= v.len(),
            s@ == v@.subrange(lo as int, i as int),
        decreases hi - i,
    {
        push_char(&mut s, v[i]);
        i = i + 1;
        assert(s@ =~= v@.subrange(lo as int, i as int));
    }
    s
}

/// Builds a `String` holding exactly the characters of `v`.
pub fn string_from_chars(v: &Vec<char>) -> (res: String)
    ensures
        res@ == v@,
{
    let s = string_from_range(v, 0, v.len());
    assert(v@.subrange(0, v@.len() as int) =~= v@);
    s
}

/// Appends the characters `v[lo..hi]` to `out`.
pub fn push_range(out: &mut String, v: &Vec<char>, lo: usize, hi: usize)
    requires
        lo <= hi <= v.len(),
    ensures
        final(out)@ == old(out)@ + v@.subrange(lo as int, hi as int),
{
    let ghost start = out@;
    let mut i = lo;
    while i < hi
        invariant
            lo <= i <= hi <= v.len(),
            out@ == start + v@.subrange(lo as int, i as int),
        decreases hi - i,
    {
        push_char(out, v[i]);
        i = i + 1;
        assert(out@ =~= start + v@.subrange(lo as int, i as int));
    }
}

/// `p` occurs in `s` starting at index `i`.
pub open spec fn occurs_at(s: Seq<char>, p: Seq<char>, i: int) -> bool {
    &&& 0 <= i
    &&& i + p.len() <= s.len()
    &&& s.subrange(i, i + p.len()) == p
}

/// The first index at or after `i` where `p` occurs in `s`.
pub open spec fn first_occurrence_from(s: Seq<char>, p: Seq<char>, i: int) -> Option<int>
    decreases s.len() + 1 - i,
{
    if i < 0 || i + p.len() > s.len() {
        None
    } else if occurs_at(s, p, i) {
        Some(i)
    } else {
        first_occurrence_from(s, p, i + 1)
    }
}

/// The first index where `p` occurs in `s` (`str::find`, counted in characters).
pub open spec fn first_occurrence(s: Seq<char>, p: Seq<char>) -> Option<int> {
    first_occurrence_from(s, p, 0)
}

/// `p` occurs somewhere in `s` (`str::contains`).
pub open spec fn contains_seq(s: Seq<char>, p: Seq<char>) -> bool {
    first_occurrence(s, p) is Some
}

/// `s` begins with `p` (`str::starts_with`).
pub open spec fn has_prefix(s: Seq<char>, p: Seq<char>) -> bool {
    p.len() <= s.len() && s.take(p.len() as int) == p
}

/// `s` ends with `p` (`str::ends_with`).
pub open spec fn has_suffix(s: Seq<char>, p: Seq<char>) -> bool {
    p.len() <= s.len() && s.skip(s.len() - p.len()) == p
}

/// What a found occurrence is: a match with no earlier match after `i`.
pub proof fn lemma_first_occurrence_from(s: Seq<char>, p: Seq<char>, i: int)
    requires
        0 <= i,
    ensures
        first_occurrence_from(s, p, i) matches Some(k) ==> {
            &&& i <= k
            &&& occurs_at(s, p, k)
            &&& forall|j: int| i <= j < k ==> !occurs_at(s, p, j)
        },
        first_occurrence_from(s, p, i) is None ==> forall|j: int| i <= j ==> !occurs_at(s, p, j),
    decreases s.len() + 1 - i,
{
    if i + p.len() > s.len() {
    } else if occurs_at(s, p, i) {
    } else {
        lemma_first_occurrence_from(s, p, i + 1);
    }
}

/// Occurrences in a suffix `s.skip(d)` are occurrences in `s` shifted by `d`.
pub proof fn lemma_occurs_skip(s: Seq<char>, p: Seq<char>, d: int, j: int)
    requires
        0 <= d <= s.len(),
        0 <= j,
    ensures
        occurs_at(s.skip(d), p, j) <==> occurs_at(s, p, j + d),
{
    if j + p.len() <= s.len() - d {
        assert(s.skip(d).subrange(j, j + p.len()) =~= s.subrange(j + d, j + d + p.len()));
    }
}

/// The search in a suffix starting after the first `d` characters.
pub proof fn lemma_first_occurrence_skip(s: Seq<char>, p: Seq<char>, d: int, i: int)
    requires
        0 <= d <= s.len(),
        0 <= i,
    ensures
        first_occurrence_from(s.skip(d), p, i) == (match first_occurrence_from(s, p, i + d) {
            Some(k) => Some(k - d),
            None => None::<int>,
        }),
    decreases s.len() + 1 - d - i,
{
    lemma_occurs_skip(s, p, d, i);
    if i + p.len() > s.len() - d {
    } else if occurs_at(s, p, i + d) {
    } else {
        lemma_first_occurrence_skip(s, p, d, i + 1);
    }
}

/// Whether `pat` occurs in `s` at index `i`.
pub fn matches_at(s: &Vec<char>, pat: &Vec<char>, i: usize) -> (res: bool)
    ensures
        res == occurs_at(s@, pat@, i as int),
{
    if i > s.len() || pat.len() > s.len() - i {
        return false;
    }
    let mut k: usize = 0;
    while k < pat.len()
        invariant
            i + pat.len() <= s.len(),
            k <= pat.len(),
            forall|m: int| 0 <= m < k ==> s@[i + m] == pat@[m],
        decreases pat.len() - k,
    {
        if s[i + k] != pat[k] {
            assert(s@.subrange(i as int, i + pat.len())[k as int] != pat@[k as int]);
            return false;
        }
        k = k + 1;
    }
    assert(s@.subrange(i as int, i + pat.len()) =~= pat@);
    true
}

/// The first index at or after `start` where `pat` occurs in `s`.
pub fn find_from(s: &Vec<char>, pat: &Vec<char>, start: usize) -> (res: Option<usize>)
    ensures
        res == (match first_occurrence_from(s@, pat@, start as int) {
            Some(k) => Some(k as usize),
            None => None::<usize>,
        }),
        res matches Some(k) ==> start <= k && k + pat.len() <= s.len(),
{
    let mut i = start;
    proof {
        lemma_first_occurrence_from(s@, pat@, start as int);
    }
    while i <= s.len() && pat.len() <= s.len() - i
        invariant
            start <= i,
            first_occurrence_from(s@, pat@, start as int) == first_occurrence_from(
                s@,
                pat@,
                i as int,
            ),
        decreases s.len() + 1 - i,
    {
        if matches_at(s, pat, i) {
            return Some(i);
        }
        if i == s.len() {
            assert(first_occurrence_from(s@, pat@, i + 1) is None);
            return None;
        }
        i = i + 1;
    }
    None
}

/// Whether `pat` occurs anywhere in `s`.
pub fn contains_chars(s: &Vec<char>, pat: &Vec<char>) -> (res: bool)
    ensures
        res == contains_seq(s@, pat@),
{
    find_from(s, pat, 0).is_some()
}

/// Whether the characters of `s` from index `i` begin with `pat`.
pub fn has_prefix_at(s: &Vec<char>, i: usize, pat: &Vec<char>) -> (res: bool)
    requires
        i <= s.len(),
    ensures
        res == has_prefix(s@.skip(i as int), pat@),
{
    let r = matches_at(s, pat, i);
    proof {
        if r {
            assert(s@.skip(i as int).take(pat@.len() as int) =~= s@.subrange(
                i as int,
                i + pat@.len(),
            ));
        }
        if has_prefix(s@.skip(i as int), pat@) {
            assert(s@.skip(i as int).take(pat@.len() as int) =~= s@.subrange(
                i as int,
                i + pat@.len(),
            ));
        }
    }
    r
}

/// ASCII lower-casing of one character (`char::to_ascii_lowercase`).
pub open spec fn ascii_lower(c: char) -> char {
    if 'A' <= c && c <= 'Z' {
        ((c as u32) + 32) as char
    } else {
        c
    }
}

/// ASCII lower-casing of a sequence (`str::to_ascii_lowercase`).
pub open spec fn ascii_lower_seq(s: Seq<char>) -> Seq<char> {
    Seq::new(s.len(), |i: int| ascii_lower(s[i]))
}

/// Lower-cases the ASCII letters of `s`, leaving every other character as it is.
pub fn to_ascii_lowercase(s: &Vec<char>) -> (res: Vec<char>)
    ensures
        res@ == ascii_lower_seq(s@),
{
    let mut out: Vec<char> = Vec::new();
    let mut i: usize = 0;
    while i < s.len()
        invariant
            i <= s.len(),
            out@ == ascii_lower_seq(s@.take(i as int)),
        decreases s.len() - i,
    {
        let c = s[i];
        let l = if 'A' <= c && c <= 'Z' {
            let u = (c as u32) + 32;
            assert(u <= 0x7f);
            char_from_ascii(u)
        } else {
            c
        };
        out.push(l);
        i = i + 1;
        assert(out@ =~= ascii_lower_seq(s@.take(i as int)));
    }
    assert(s@.take(s@.len() as int) =~= s@);
    out
}

/// The character with code point `u`, for an ASCII code point.
pub fn char_from_ascii(u: u32) -> (c: char)
    requires
        u <= 0x7f,
    ensures
        c == u as char,
        c as u32 == u,
{
    let b: u8 = u as u8;
    let c = b as char;
    c
}

/// Unicode `White_Space` (`char::is_whitespace`).
pub open spec fn is_ws(c: char) -> bool {
    let u = c as u32;
    ||| (0x09 <= u && u <= 0x0d)
    ||| u == 0x20
    ||| u == 0x85
    ||| u == 0xa0
    ||| u == 0x1680
    ||| (0x2000 <= u && u <= 0x200a)
    ||| u == 0x2028
    ||| u == 0x2029
    ||| u == 0x202f
    ||| u == 0x205f
    ||| u == 0x3000
}

/// Whether `c` is Unicode white space.
pub fn is_whitespace(c: char) -> (res: bool)
    ensures
        res == is_ws(c),
{
    let u = c as u32;
    (0x09 <= u && u <= 0x0d) || u == 0x20 || u == 0x85 || u == 0xa0 || u == 0x1680 || (0x2000
        <= u && u <= 0x200a) || u == 0x2028 || u == 0x2029 || u == 0x202f || u == 0x205f || u
        == 0x3000
}

/// The number of leading white-space characters of `s`.
pub open spec fn leading_ws(s: Seq<char>) -> nat
    decreases s.len(),
{
    if s.len() > 0 && is_ws(s[0]) {
        1 + leading_ws(s.drop_first())
    } else {
        0
    }
}

/// The number of trailing white-space characters of `s`.
pub open spec fn trailing_ws(s: Seq<char>) -> nat
    decreases s.len(),
{
    if s.len() > 0 && is_ws(s.last()) {
        1 + trailing_ws(s.drop_last())
    } else {
        0
    }
}

/// `s` with its leading white space removed (`str::trim_start`).
pub open spec fn trim_start_seq(s: Seq<char>) -> Seq<char> {
    s.skip(leading_ws(s) as int)
}

/// `s` with its trailing white space removed (`str::trim_end`).
pub open spec fn trim_end_seq(s: Seq<char>) -> Seq<char> {
    s.take(s.len() - trailing_ws(s))
}

/// `s` with leading and trailing white space removed (`str::trim`).
pub open spec fn trim_seq(s: Seq<char>) -> Seq<char> {
    trim_end_seq(trim_start_seq(s))
}

pub proof fn lemma_leading_ws(s: Seq<char>)
    ensures
        leading_ws(s) <= s.len(),
        forall|j: int| 0 <= j < leading_ws(s) ==> is_ws(s[j]),
        leading_ws(s) < s.len() ==> !is_ws(s[leading_ws(s) as int]),
    decreases s.len(),
{
    if s.len() > 0 && is_ws(s[0]) {
        lemma_leading_ws(s.drop_first());
        assert forall|j: int| 0 <= j < leading_ws(s) implies is_ws(s[j]) by {
            if j > 0 {
                assert(s[j] == s.drop_first()[j - 1]);
            }
        }
    }
}

pub proof fn lemma_leading_ws_from(s: Seq<char>, i: int)
    requires
        0 <= i <= s.len(),
        forall|j: int| 0 <= j < i ==> is_ws(s[j]),
    ensures
        leading_ws(s) == i + leading_ws(s.skip(i)),
    decreases i,
{
    if i > 0 {
        assert(s.drop_first().skip(i - 1) =~= s.skip(i));
        assert forall|j: int| 0 <= j < i - 1 implies is_ws(s.drop_first()[j]) by {
            assert(s.drop_first()[j] == s[j + 1]);
        }
        lemma_leading_ws_from(s.drop_first(), i - 1);
    } else {
        assert(s.skip(0) =~= s);
    }
}

pub proof fn lemma_trailing_ws_from(s: Seq<char>, n: int)
    requires
        0 <= n <= s.len(),
        forall|j: int| s.len() - n <= j < s.len() ==> is_ws(s[j]),
    ensures
        trailing_ws(s) == n + trailing_ws(s.take(s.len() - n)),
    decreases n,
{
    if n > 0 {
        assert(s.drop_last().take(s.len() - 1 - (n - 1)) =~= s.take(s.len() - n));
        assert forall|j: int| s.drop_last().len() - (n - 1) <= j < s.drop_last().len() implies is_ws(
            s.drop_last()[j],
        ) by {
            assert(s.drop_last()[j] == s[j]);
        }
        lemma_trailing_ws_from(s.drop_last(), n - 1);
    } else {
        assert(s.take(s.len() as int) =~= s);
    }
}

pub proof fn lemma_trailing_ws(s: Seq<char>)
    ensures
        trailing_ws(s) <= s.len(),
        trailing_ws(s) < s.len() ==> !is_ws(s[s.len() - trailing_ws(s) - 1]),
    decreases s.len(),
{
    if s.len() > 0 && is_ws(s.last()) {
        lemma_trailing_ws(s.drop_last());
        if trailing_ws(s) < s.len() {
            assert(s[s.len() - trailing_ws(s) - 1] == s.drop_last()[s.drop_last().len()
                - trailing_ws(s.drop_last()) - 1]);
        }
    }
}

/// Trimming twice is trimming once.
pub proof fn lemma_trim_idempotent(s: Seq<char>)
    ensures
        trim_seq(trim_seq(s)) == trim_seq(s),
{
    let a = trim_start_seq(s);
    let t = trim_seq(s);
    lemma_leading_ws(s);
    lemma_trailing_ws(a);
    if t.len() > 0 {
        assert(t[0] == a[0]);
        assert(a[0] == s[leading_ws(s) as int]);
        assert(t.last() == a[a.len() - trailing_ws(a) - 1]);
        assert(leading_ws(t) == 0);
        assert(t.skip(0) =~= t);
        assert(trim_start_seq(t) == t);
        assert(trailing_ws(t) == 0);
        assert(t.take(t.len() as int) =~= t);
    } else {
        assert(trim_start_seq(t) =~= t);
    }
}

/// The index of the first non-white-space character of `s[lo..hi]`, or `hi`.
pub fn skip_ws_forward(s: &Vec<char>, lo: usize, hi: usize) -> (res: usize)
    requires
        lo <= hi <= s.len(),
    ensures
        lo <= res <= hi,
        res == lo + leading_ws(s@.subrange(lo as int, hi as int)),
{
    let ghost sub = s@.subrange(lo as int, hi as int);
    let mut i = lo;
    while i < hi && is_whitespace(s[i])
        invariant
            lo <= i <= hi <= s.len(),
            sub == s@.subrange(lo as int, hi as int),
            forall|j: int| lo <= j < i ==> is_ws(s@[j]),
        decreases hi - i,
    {
        i = i + 1;
    }
    proof {
        assert forall|j: int| 0 <= j < i - lo implies is_ws(sub[j]) by {
            assert(sub[j] == s@[lo + j]);
        }
        lemma_leading_ws_from(sub, i - lo);
        let rest = sub.skip(i - lo);
        if rest.len() > 0 {
            assert(rest[0] == s@[i as int]);
        }
    }
    i
}

/// The index just after the last non-white-space character of `s[lo..hi]`, or `lo`.
pub fn skip_ws_backward(s: &Vec<char>, lo: usize, hi: usize) -> (res: usize)
    requires
        lo <= hi <= s.len(),
    ensures
        lo <= res <= hi,
        res == hi - trailing_ws(s@.subrange(lo as int, hi as int)),
{
    let ghost sub = s@.subrange(lo as int, hi as int);
    let mut i = hi;
    while i > lo && is_whitespace(s[i - 1])
        invariant
            lo <= i <= hi <= s.len(),
            sub == s@.subrange(lo as int, hi as int),
            forall|j: int| i <= j < hi ==> is_ws(s@[j]),
        decreases i - lo,
    {
        i = i - 1;
    }
    proof {
        let n = hi - i;
        assert forall|j: int| sub.len() - n <= j < sub.len() implies is_ws(sub[j]) by {
            assert(sub[j] == s@[lo + j]);
        }
        lemma_trailing_ws_from(sub, n);
        let rest = sub.take(sub.len() - n);
        if rest.len() > 0 {
            assert(rest.last() == s@[i - 1]);
        }
    }
    i
}

/// The bounds `(a, b)` of `s[lo..hi]` with surrounding white space removed.
pub fn trim_range(s: &Vec<char>, lo: usize, hi: usize) -> (res: (usize, usize))
    requires
        lo <= hi <= s.len(),
    ensures
        lo <= res.0 <= res.1 <= hi,
        s@.subrange(res.0 as int, res.1 as int) == trim_seq(s@.subrange(lo as int, hi as int)),
{
    let a = skip_ws_forward(s, lo, hi);
    let b = skip_ws_backward(s, a, hi);
    proof {
        let sub = s@.subrange(lo as int, hi as int);
        assert(trim_start_seq(sub) =~= s@.subrange(a as int, hi as int));
        assert(trim_end_seq(s@.subrange(a as int, hi as int)) =~= s@.subrange(a as int, b as int));
    }
    (a, b)
}

/// The characters of `s` with surrounding white space removed (`str::trim`).
pub fn trim_chars(s: &Vec<char>) -> (res: Vec<char>)
    ensures
        res@ == trim_seq(s@),
{
    let (a, b) = trim_range(s, 0, s.len());
    assert(s@.subrange(0, s@.len() as int) =~= s@);
    let mut out: Vec<char> = Vec::new();
    let mut i = a;
    while i < b
        invariant
            a <= i <= b <= s.len(),
            out@ == s@.subrange(a as int, i as int),
        decreases b - i,
    {
        out.push(s[i]);
        i = i + 1;
        assert(out@ =~= s@.subrange(a as int, i as int));
    }
    out
}

/// A `String` holding `s` with surrounding white space removed.
pub fn trim_string(s: &str) -> (res: String)
    ensures
        res@ == trim_seq(s@),
{
    let v = chars_of(s);
    let (a, b) = trim_range(&v, 0, v.len());
    assert(v@.subrange(0, v@.len() as int) =~= v@);
    string_from_range(&v, a, b)
}

/// Whether two character vectors are equal.
pub fn chars_eq(a: &Vec<char>, b: &Vec<char>) -> (res: bool)
    ensures
        res == (a@ == b@),
{
    if a.len() != b.len() {
        return false;
    }
    let mut i: usize = 0;
    while i < a.len()
        invariant
            a.len() == b.len(),
            i <= a.len(),
            forall|j: int| 0 <= j < i ==> a@[j] == b@[j],
        decreases a.len() - i,
    {
        if a[i] != b[i] {
            return false;
        }
        i = i + 1;
    }
    assert(a@ =~= b@);
    true
}

/// Whether a string equals the characters of `b`.
pub fn str_eq_chars(a: &str, b: &Vec<char>) -> (res: bool)
    ensures
        res == (a@ == b@),
{
    let av = chars_of(a);
    chars_eq(&av, b)
}

/// Whether two strings are equal.
pub fn str_eq(a: &str, b: &str) -> (res: bool)
    ensures
        res == (a@ == b@),
{
    let av = chars_of(a);
    let bv = chars_of(b);
    chars_eq(&av, &bv)
}

/// Whether `s[lo..hi]` begins with `pat`.
pub fn has_prefix_in(s: &Vec<char>, lo: usize, hi: usize, pat: &Vec<char>) -> (res: bool)
    requires
        lo <= hi <= s.len(),
    ensures
        res == has_prefix(s@.subrange(lo as int, hi as int), pat@),
{
    if pat.len() > hi - lo {
        return false;
    }
    let r = matches_at(s, pat, lo);
    proof {
        assert(s@.subrange(lo as int, hi as int).take(pat@.len() as int) =~= s@.subrange(
            lo as int,
            lo + pat@.len(),
        ));
    }
    r
}

/// `s` with every leading `c` removed (`str::trim_start_matches` with a character).
pub open spec fn strip_leading_char(s: Seq<char>, c: char) -> Seq<char>
    decreases s.len(),
{
    if s.len() > 0 && s[0] == c {
        strip_leading_char(s.drop_first(), c)
    } else {
        s
    }
}

/// `s` with every trailing `c` removed (`str::trim_end_matches` with a character).
pub open spec fn strip_trailing_char(s: Seq<char>, c: char) -> Seq<char>
    decreases s.len(),
{
    if s.len() > 0 && s.last() == c {
        strip_trailing_char(s.drop_last(), c)
    } else {
        s
    }
}

/// `s` with every leading repetition of `p` removed (`str::trim_start_matches` with a string).
pub open spec fn strip_leading_pat(s: Seq<char>, p: Seq<char>) -> Seq<char>
    decreases s.len(),
{
    if p.len() > 0 && has_prefix(s, p) {
        strip_leading_pat(s.skip(p.len() as int), p)
    } else {
        s
    }
}

/// The index in `s[lo..hi]` after all leading copies of `c`.
pub fn skip_leading_char(s: &Vec<char>, lo: usize, hi: usize, c: char) -> (res: usize)
    requires
        lo <= hi <= s.len(),
    ensures
        lo <= res <= hi,
        s@.subrange(res as int, hi as int) == strip_leading_char(s@.subrange(lo as int, hi as int), c),
{
    let mut i = lo;
    while i < hi && s[i] == c
        invariant
            lo <= i <= hi <= s.len(),
            strip_leading_char(s@.subrange(lo as int, hi as int), c) == strip_leading_char(
                s@.subrange(i as int, hi as int),
                c,
            ),
        decreases hi - i,
    {
        assert(s@.subrange(i as int, hi as int).drop_first() =~= s@.subrange(i + 1, hi as int));
        i = i + 1;
    }
    i
}

/// The end index in `s[lo..hi]` before all trailing copies of `c`.
pub fn skip_trailing_char(s: &Vec<char>, lo: usize, hi: usize, c: char) -> (res: usize)
    requires
        lo <= hi <= s.len(),
    ensures
        lo <= res <= hi,
        s@.subrange(lo as int, res as int) == strip_trailing_char(s@.subrange(lo as int, hi as int), c),
{
    let mut j = hi;
    while j > lo && s[j - 1] == c
        invariant
            lo <= j <= hi <= s.len(),
            strip_trailing_char(s@.subrange(lo as int, hi as int), c) == strip_trailing_char(
                s@.subrange(lo as int, j as int),
                c,
            ),
        decreases j - lo,
    {
        assert(s@.subrange(lo as int, j as int).drop_last() =~= s@.subrange(lo as int, j - 1));
        j = j - 1;
    }
    j
}

/// The index in `s[lo..hi]` after all leading repetitions of `pat`.
pub fn skip_leading_pat(s: &Vec<char>, lo: usize, hi: usize, pat: &Vec<char>) -> (res: usize)
    requires
        lo <= hi <= s.len(),
    ensures
        lo <= res <= hi,
        s@.subrange(res as int, hi as int) == strip_leading_pat(s@.subrange(lo as int, hi as int), pat@),
{
    let mut i = lo;
    if pat.len() == 0 {
        return lo;
    }
    while has_prefix_in(s, i, hi, pat)
        invariant
            lo <= i <= hi <= s.len(),
            pat.len() > 0,
            strip_leading_pat(s@.subrange(lo as int, hi as int), pat@) == strip_leading_pat(
                s@.subrange(i as int, hi as int),
                pat@,
            ),
        decreases hi - i,
    {
        assert(s@.subrange(i as int, hi as int).skip(pat@.len() as int) =~= s@.subrange(
            i + pat@.len(),
            hi as int,
        ));
        i = i + pat.len();
    }
    i
}

/// Occurrences inside `s[lo..hi]` are the occurrences in `s` that end by `hi`.
pub proof fn lemma_occurs_in_range(s: Seq<char>, p: Seq<char>, lo: int, hi: int, j: int)
    requires
        0 <= lo <= hi <= s.len(),
        0 <= j,
    ensures
        occurs_at(s.subrange(lo, hi), p, j) <==> (occurs_at(s, p, lo + j) && lo + j + p.len() <= hi),
{
    if lo + j + p.len() <= hi {
        assert(s.subrange(lo, hi).subrange(j, j + p.len()) =~= s.subrange(lo + j, lo + j + p.len()));
    }
}

/// The first index `k` (counted from `lo`) where `pat` occurs inside `s[lo..hi]`;
/// returned as the absolute index `lo + k`.
pub fn find_in(s: &Vec<char>, pat: &Vec<char>, lo: usize, hi: usize) -> (res: Option<usize>)
    requires
        lo <= hi <= s.len(),
    ensures
        match first_occurrence(s@.subrange(lo as int, hi as int), pat@) {
            Some(k) => 0 <= k && lo + k + pat.len() <= hi && res == Some((lo + k) as usize),
            None => res is None,
        },
        res matches Some(k) ==> lo <= k && k + pat.len() <= hi,
{
    let ghost sub = s@.subrange(lo as int, hi as int);
    proof {
        lemma_first_occurrence_from(sub, pat@, 0);
        if let Some(k) = first_occurrence(sub, pat@) {
            assert(occurs_at(sub, pat@, k));
        }
    }
    let mut i = lo;
    proof {
        lemma_first_occurrence_from(sub, pat@, 0);
    }
    while pat.len() <= hi - i
        invariant
            lo <= i <= hi <= s.len(),
            sub == s@.subrange(lo as int, hi as int),
            first_occurrence(sub, pat@) == first_occurrence_from(sub, pat@, i - lo),
        decreases hi + 1 - i,
    {
        proof {
            lemma_occurs_in_range(s@, pat@, lo as int, hi as int, i - lo);
        }
        if matches_at(s, pat, i) {
            return Some(i);
        }
        if i == hi {
            assert(first_occurrence_from(sub, pat@, i - lo + 1) is None);
            return None;
        }
        i = i + 1;
    }
    None
}

/// The number of bytes UTF-8 uses for `c` (`char::len_utf8`).
pub open spec fn char_utf8_width(c: char) -> nat {
    let u = c as u32;
    if u < 0x80 {
        1
    } else if u < 0x800 {
        2
    } else if u < 0x10000 {
        3
    } else {
        4
    }
}

/// The number of bytes of the UTF-8 encoding of `s` (`str::len`).
pub open spec fn utf8_len(s: Seq<char>) -> nat
    decreases s.len(),
{
    if s.len() == 0 {
        0
    } else {
        utf8_len(s.drop_last()) + char_utf8_width(s.last())
    }
}

/// Whether the UTF-8 encoding of `v[lo..hi]` is longer than `limit` bytes.
pub fn utf8_len_exceeds(v: &Vec<char>, lo: usize, hi: usize, limit: usize) -> (res: bool)
    requires
        lo <= hi <= v.len(),
        limit <= 0x1_0000_0000,
    ensures
        res == (utf8_len(v@.subrange(lo as int, hi as int)) > limit),
{
    let mut total: u64 = 0;
    let mut i = lo;
    while i < hi
        invariant
            lo <= i <= hi <= v.len(),
            limit <= 0x1_0000_0000,
            total == utf8_len(v@.subrange(lo as int, i as int)),
            total <= limit,
        decreases hi - i,
    {
        let u = v[i] as u32;
        let w: u64 = if u < 0x80 {
            1
        } else if u < 0x800 {
            2
        } else if u < 0x10000 {
            3
        } else {
            4
        };
        proof {
            let t = v@.subrange(lo as int, i + 1);
            assert(t.drop_last() =~= v@.subrange(lo as int, i as int));
            assert(t.last() == v@[i as int]);
        }
        total = total + w;
        i = i + 1;
        if total > limit as u64 {
            proof {
                lemma_utf8_len_prefix_le(v@.subrange(lo as int, hi as int), (i - lo) as int);
                assert(v@.subrange(lo as int, hi as int).take((i - lo) as int) =~= v@.subrange(
                    lo as int,
                    i as int,
                ));
            }
            return true;
        }
    }
    false
}

/// A prefix is never longer in UTF-8 than the whole.
pub proof fn lemma_utf8_len_prefix_le(s: Seq<char>, k: int)
    requires
        0 <= k <= s.len(),
    ensures
        utf8_len(s.take(k)) <= utf8_len(s),
    decreases s.len() - k,
{
    if k < s.len() {
        lemma_utf8_len_prefix_le(s, k + 1);
        assert(s.take(k + 1).drop_last() =~= s.take(k));
    } else {
        assert(s.take(k) =~= s);
    }
}

/// The UTF-8 length of a concatenation is the sum of the parts' lengths.
pub proof fn lemma_utf8_len_concat(a: Seq<char>, b: Seq<char>)
    ensures
        utf8_len(a + b) == utf8_len(a) + utf8_len(b),
    decreases b.len(),
{
    if b.len() == 0 {
        assert(a + b =~= a);
    } else {
        lemma_utf8_len_concat(a, b.drop_last());
        assert((a + b).drop_last() =~= a + b.drop_last());
        assert((a + b).last() == b.last());
    }
}

/// With no match before `d`, the first match is the first match from `d`.
pub proof fn lemma_first_occurrence_shift(s: Seq<char>, p: Seq<char>, d: int)
    requires
        0 <= d,
        forall|j: int| 0 <= j < d ==> !occurs_at(s, p, j),
    ensures
        first_occurrence(s, p) == first_occurrence_from(s, p, d),
{
    lemma_first_occurrence_from(s, p, d);
    lemma_first_occurrence_from(s, p, 0);
    if let Some(k) = first_occurrence_from(s, p, d) {
        lemma_first_occurrence_is(s, p, 0, k);
    } else if let Some(k) = first_occurrence(s, p) {
        assert(occurs_at(s, p, k));
    }
}

/// A match at `k` with no match in `[i, k)` is the first match from `i`.
pub proof fn lemma_first_occurrence_is(s: Seq<char>, p: Seq<char>, i: int, k: int)
    requires
        0 <= i <= k,
        occurs_at(s, p, k),
        forall|j: int| i <= j < k ==> !occurs_at(s, p, j),
    ensures
        first_occurrence_from(s, p, i) == Some(k),
    decreases k - i,
{
    if i < k {
        lemma_first_occurrence_is(s, p, i + 1, k);
    }
}

/// A sequence that has no occurrence of `c` has no occurrence of any pattern
/// that begins with `c`.
pub proof fn lemma_no_char_no_pattern(s: Seq<char>, c: char, p: Seq<char>)
    requires
        first_occurrence(s, seq![c]) is None,
        p.len() > 0,
        p[0] == c,
    ensures
        first_occurrence(s, p) is None,
{
    lemma_first_occurrence_from(s, seq![c], 0);
    lemma_first_occurrence_from(s, p, 0);
    if let Some(k) = first_occurrence(s, p) {
        assert(s.subrange(k, k + p.len())[0] == s[k]);
        assert(s.subrange(k, k + 1) =~= seq![c]);
        assert(occurs_at(s, seq![c], k));
    }
}

/// ASCII upper-casing of one character (`char::to_ascii_uppercase`).
pub open spec fn ascii_upper(c: char) -> char {
    if 'a' <= c && c <= 'z' {
        ((c as u32) - 32) as char
    } else {
        c
    }
}

/// ASCII upper-casing of a sequence (`str::to_ascii_uppercase`).
pub open spec fn ascii_upper_seq(s: Seq<char>) -> Seq<char> {
    Seq::new(s.len(), |i: int| ascii_upper(s[i]))
}

/// Upper-cases the ASCII letters of `s[lo..hi]`, leaving every other character as it is.
pub fn to_ascii_uppercase_range(s: &Vec<char>, lo: usize, hi: usize) -> (res: Vec<char>)
    requires
        lo <= hi <= s.len(),
    ensures
        res@ == ascii_upper_seq(s@.subrange(lo as int, hi as int)),
{
    let ghost sub = s@.subrange(lo as int, hi as int);
    let mut out: Vec<char> = Vec::new();
    let mut i: usize = lo;
    while i < hi
        invariant
            lo <= i <= hi <= s.len(),
            sub == s@.subrange(lo as int, hi as int),
            out@ == ascii_upper_seq(sub.take(i - lo)),
        decreases hi - i,
    {
        let c = s[i];
        let u = if 'a' <= c && c <= 'z' {
            let x = (c as u32) - 32;
            char_from_ascii(x)
        } else {
            c
        };
        out.push(u);
        assert(sub[i - lo] == c);
        i = i + 1;
        assert(out@ =~= ascii_upper_seq(sub.take(i - lo)));
    }
    assert(sub.take(hi - lo) =~= sub);
    out
}

/// Lower-cases the ASCII letters of `s[lo..hi]`.
pub fn to_ascii_lowercase_range(s: &Vec<char>, lo: usize, hi: usize) -> (res: Vec<char>)
    requires
        lo <= hi <= s.len(),
    ensures
        res@ == ascii_lower_seq(s@.subrange(lo as int, hi as int)),
{
    let ghost sub = s@.subrange(lo as int, hi as int);
    let mut out: Vec<char> = Vec::new();
    let mut i: usize = lo;
    while i < hi
        invariant
            lo <= i <= hi <= s.len(),
            sub == s@.subrange(lo as int, hi as int),
            out@ == ascii_lower_seq(sub.take(i - lo)),
        decreases hi - i,
    {
        let c = s[i];
        let l = if 'A' <= c && c <= 'Z' {
            let x = (c as u32) + 32;
            char_from_ascii(x)
        } else {
            c
        };
        out.push(l);
        assert(sub[i - lo] == c);
        i = i + 1;
        assert(out@ =~= ascii_lower_seq(sub.take(i - lo)));
    }
    assert(sub.take(hi - lo) =~= sub);
    out
}

/// The lower-case hexadecimal digit for `d < 16`.
pub open spec fn hex_digit(d: int) -> char {
    if d < 10 {
        (('0' as int) + d) as char
    } else {
        (('a' as int) + d - 10) as char
    }
}

/// Lower-case hexadecimal encoding, two digits per byte (`hex::encode`).
pub open spec fn hex_lower(bytes: Seq<u8>) -> Seq<char>
    decreases bytes.len(),
{
    if bytes.len() == 0 {
        Seq::empty()
    } else {
        hex_lower(bytes.drop_last()) + seq![
            hex_digit(bytes.last() as int / 16),
            hex_digit(bytes.last() as int % 16),
        ]
    }
}

fn hex_digit_char(d: u8) -> (c: char)
    requires
        d < 16,
    ensures
        c == hex_digit(d as int),
{
    if d < 10 {
        char_from_ascii((d + 48) as u32)
    } else {
        char_from_ascii((d + 87) as u32)
    }
}

/// Lower-case hexadecimal encoding of `bytes`.
pub fn hex_encode(bytes: &[u8]) -> (res: String)
    ensures
        res@ == hex_lower(bytes@),
{
    let mut s = String::new();
    let mut i: usize = 0;
    while i < bytes.len()
        invariant
            i <= bytes.len(),
            s@ == hex_lower(bytes@.take(i as int)),
        decreases bytes.len() - i,
    {
        let b = bytes[i];
        let ghost before = s@;
        push_char(&mut s, hex_digit_char(b / 16));
        push_char(&mut s, hex_digit_char(b % 16));
        proof {
            let t = bytes@.take(i + 1);
            assert(t.drop_last() =~= bytes@.take(i as int));
            assert(t.last() == b);
            assert(s@ =~= before + seq![hex_digit(b as int / 16), hex_digit(b as int % 16)]);
        }
        i = i + 1;
    }
    assert(bytes@.take(bytes@.len() as int) =~= bytes@);
    s
}

/// The decimal digit character for `d < 10`.
pub open spec fn digit_char(d: nat) -> char {
    (('0' as nat) + d) as char
}

/// The decimal representation of `n` (`u64::to_string`).
pub open spec fn decimal(n: nat) -> Seq<char>
    decreases n,
{
    if n < 10 {
        seq![digit_char(n)]
    } else {
        decimal(n / 10) + seq![digit_char(n % 10)]
    }
}

/// The octal digits of `n`, without prefix or padding.
pub open spec fn octal(n: nat) -> Seq<char>
    decreases n,
{
    if n < 8 {
        seq![digit_char(n)]
    } else {
        octal(n / 8) + seq![digit_char(n % 8)]
    }
}

fn digit_of(d: u64) -> (c: char)
    requires
        d < 10,
    ensures
        c == digit_char(d as nat),
{
    char_from_ascii((d + 48) as u32)
}

/// The decimal digits of `n`.
pub fn decimal_chars(n: u64) -> (res: Vec<char>)
    ensures
        res@ == decimal(n as nat),
    decreases n,
{
    if n < 10 {
        vec![digit_of(n)]
    } else {
        let mut v = decimal_chars(n / 10);
        v.push(digit_of(n % 10));
        v
    }
}

/// The octal digits of `n`.
pub fn octal_chars(n: u64) -> (res: Vec<char>)
    ensures
        res@ == octal(n as nat),
    decreases n,
{
    if n < 8 {
        vec![digit_of(n)]
    } else {
        let mut v = octal_chars(n / 8);
        v.push(digit_of(n % 8));
        v
    }
}

/// The decimal text of `n` (`to_string` on an unsigned integer).
pub fn u64_to_string(n: u64) -> (res: String)
    ensures
        res@ == decimal(n as nat),
{
    string_from_chars(&decimal_chars(n))
}

/// The value of a digit character in base `radix`, if it is one.
pub open spec fn digit_value(c: char, radix: nat) -> Option<nat> {
    if '0' <= c && c <= '9' && (c as nat) - ('0' as nat) < radix {
        Some(((c as nat) - ('0' as nat)) as nat)
    } else {
        None
    }
}

/// The number that the digits `s` denote in base `radix`, if all are digits.
pub open spec fn digits_value(s: Seq<char>, radix: nat) -> Option<nat>
    decreases s.len(),
{
    if s.len() == 0 {
        Some(0)
    } else {
        match (digits_value(s.drop_last(), radix), digit_value(s.last(), radix)) {
            (Some(v), Some(d)) => Some(v * radix + d),
            _ => None,
        }
    }
}

/// What `from_str_radix` (radix 8 or 10) gives for an unsigned type whose
/// largest value is `max`: an optional `+` followed by at least one digit,
/// with a value no larger than `max`.
pub open spec fn parse_unsigned(s: Seq<char>, radix: nat, max: nat) -> Option<nat> {
    let digits = if s.len() > 0 && s[0] == '+' {
        s.drop_first()
    } else {
        s
    };
    if digits.len() == 0 {
        None
    } else {
        match digits_value(digits, radix) {
            Some(v) => if v <= max {
                Some(v)
            } else {
                None
            },
            None => None,
        }
    }
}

proof fn lemma_digits_value_grows(s: Seq<char>, radix: nat, k: int)
    requires
        radix >= 2,
        0 <= k <= s.len(),
        digits_value(s, radix) is Some,
    ensures
        digits_value(s.take(k), radix) is Some,
        digits_value(s.take(k), radix)->0 <= digits_value(s, radix)->0,
    decreases s.len() - k,
{
    if k < s.len() {
        lemma_digits_value_grows(s, radix, k + 1);
        let t = s.take(k + 1);
        assert(t.drop_last() =~= s.take(k));
        let v = digits_value(s.take(k), radix)->0;
        let d = digit_value(t.last(), radix)->0;
        assert(v * radix + d >= v) by (nonlinear_arith)
            requires
                radix >= 2,
                d >= 0,
                v >= 0,
        ;
    } else {
        assert(s.take(k) =~= s);
    }
}

/// Parses `v[lo..hi]` as an unsigned number in base `radix` no larger than
/// `max` (`from_str_radix` for unsigned types).
pub fn parse_unsigned_range(v: &Vec<char>, lo: usize, hi: usize, radix: u64, max: u64) -> (res: Option<u64>)
    requires
        lo <= hi <= v.len(),
        2 <= radix <= 10,
    ensures
        match parse_unsigned(v@.subrange(lo as int, hi as int), radix as nat, max as nat) {
            Some(n) => res == Some(n as u64),
            None => res is None,
        },
{
    let ghost s = v@.subrange(lo as int, hi as int);
    let start = if lo < hi && v[lo] == '+' {
        lo + 1
    } else {
        lo
    };
    let ghost digits = v@.subrange(start as int, hi as int);
    assert(s.len() > 0 ==> s[0] == v@[lo as int]);
    assert(digits =~= (if s.len() > 0 && s[0] == '+' { s.drop_first() } else { s }));
    if start == hi {
        return None;
    }
    let mut value: u64 = 0;
    let mut i = start;
    assert(digits.take(0) =~= Seq::<char>::empty());
    while i < hi
        invariant
            start <= i <= hi <= v.len(),
            2 <= radix <= 10,
            digits == v@.subrange(start as int, hi as int),
            s == v@.subrange(lo as int, hi as int),
            digits == (if s.len() > 0 && s[0] == '+' { s.drop_first() } else { s }),
            digits.len() > 0,
            digits_value(digits.take(i - start), radix as nat) == Some(value as nat),
            value <= max,
        decreases hi - i,
    {
        let c = v[i];
        let ghost t = digits.take(i - start + 1);
        assert(t.drop_last() =~= digits.take(i - start));
        assert(t.last() == c);
        if !('0' <= c && c <= '9') || (c as u64) - 48 >= radix {
            proof {
                assert(digits_value(t, radix as nat) is None);
                if digits_value(digits, radix as nat) is Some {
                    lemma_digits_value_grows(digits, radix as nat, i - start + 1);
                }
            }
            return None;
        }
        let d = (c as u64) - 48;
        if d > max {
            proof {
                assert(digits_value(t, radix as nat) == Some((value * radix + d) as nat));
                if digits_value(digits, radix as nat) is Some {
                    lemma_digits_value_grows(digits, radix as nat, i - start + 1);
                }
            }
            return None;
        }
        let q = (max - d) / radix;
        if value > q {
            proof {
                let vi = value as int;
                let ri = radix as int;
                let di = d as int;
                let mi = max as int;
                let qi = q as int;
                assert(vi * ri + di > mi) by (nonlinear_arith)
                    requires
                        vi > qi,
                        qi == (mi - di) / ri,
                        ri >= 2,
                        0 <= di <= mi,
                ;
                if digits_value(digits, radix as nat) is Some {
                    lemma_digits_value_grows(digits, radix as nat, i - start + 1);
                }
            }
            return None;
        }
        proof {
            let vi = value as int;
            let ri = radix as int;
            let di = d as int;
            let mi = max as int;
            let qi = q as int;
            assert(vi * ri + di <= mi) by (nonlinear_arith)
                requires
                    vi <= qi,
                    qi == (mi - di) / ri,
                    ri >= 2,
                    0 <= di <= mi,
                    vi >= 0,
            ;
        }
        value = value * radix + d;
        i = i + 1;
    }
    assert(digits.take(hi - start) =~= digits);
    Some(value)
}

} // verus!
