//! HTTP Digest authentication (RFC 7616) for WebDAV: challenge parsing and
//! the `Authorization` header answering it.

use vstd::prelude::*;
use crate::cloud::StorageErrorKind;
use md5::Md5;
use sha2::{Digest, Sha256};
use rand::RngCore;
use vstd::utf8::encode_utf8;
use crate::text::{
    chars_eq, chars_of, first_occurrence, find_in, is_whitespace, is_ws, lemma_first_occurrence_from,
    lemma_leading_ws, leading_ws, push_char, push_range, skip_leading_char, skip_ws_forward,
    string_from_chars, string_from_range, strip_leading_char, to_ascii_lowercase_range, trim_range,
    trim_seq, trim_start_seq, ascii_lower_seq, ascii_upper_seq, hex_encode, hex_lower, push_str,
    to_owned_string, to_ascii_uppercase_range, skip_trailing_char, strip_trailing_char,
    has_prefix,
};

verus! {

/// `c` separates challenge parameters: a comma or white space.
pub open spec fn is_param_sep(c: char) -> bool {
    c == ',' || is_ws(c)
}

/// The number of leading separators of `s`.
pub open spec fn leading_seps(s: Seq<char>) -> nat
    decreases s.len(),
{
    if s.len() > 0 && is_param_sep(s[0]) {
        1 + leading_seps(s.drop_first())
    } else {
        0
    }
}

pub proof fn lemma_leading_seps(s: Seq<char>)
    ensures
        leading_seps(s) <= s.len(),
    decreases s.len(),
{
    if s.len() > 0 && is_param_sep(s[0]) {
        lemma_leading_seps(s.drop_first());
    }
}

pub proof fn lemma_leading_seps_from(s: Seq<char>, i: int)
    requires
        0 <= i <= s.len(),
        forall|j: int| 0 <= j < i ==> is_param_sep(s[j]),
    ensures
        leading_seps(s) == i + leading_seps(s.skip(i)),
    decreases i,
{
    if i > 0 {
        assert(s.drop_first().skip(i - 1) =~= s.skip(i));
        assert forall|j: int| 0 <= j < i - 1 implies is_param_sep(s.drop_first()[j]) by {
            assert(s.drop_first()[j] == s[j + 1]);
        }
        lemma_leading_seps_from(s.drop_first(), i - 1);
    } else {
        assert(s.skip(0) =~= s);
    }
}

/// The text of a quoted value and how many characters (closing quote
/// included) it takes; a backslash escapes the next character.  An
/// unterminated value runs to the end.
pub open spec fn quoted_scan(s: Seq<char>, escaped: bool) -> (Seq<char>, nat)
    decreases s.len(),
{
    if s.len() == 0 {
        (Seq::empty(), 0)
    } else if escaped {
        let r = quoted_scan(s.drop_first(), false);
        (seq![s[0]] + r.0, r.1 + 1)
    } else if s[0] == '\\' {
        let r = quoted_scan(s.drop_first(), true);
        (r.0, r.1 + 1)
    } else if s[0] == '"' {
        (Seq::empty(), 1)
    } else {
        let r = quoted_scan(s.drop_first(), false);
        (seq![s[0]] + r.0, r.1 + 1)
    }
}

pub proof fn lemma_quoted_scan_len(s: Seq<char>, escaped: bool)
    ensures
        quoted_scan(s, escaped).1 <= s.len(),
    decreases s.len(),
{
    if s.len() > 0 {
        lemma_quoted_scan_len(s.drop_first(), false);
        lemma_quoted_scan_len(s.drop_first(), true);
    }
}

pub proof fn lemma_strip_leading_char_len(s: Seq<char>, c: char)
    ensures
        strip_leading_char(s, c).len() <= s.len(),
        exists|k: int| 0 <= k <= s.len() && strip_leading_char(s, c) == s.skip(k),
    decreases s.len(),
{
    if s.len() > 0 && s[0] == c {
        lemma_strip_leading_char_len(s.drop_first(), c);
        let k = choose|k: int|
            0 <= k <= s.drop_first().len() && strip_leading_char(s.drop_first(), c)
                == s.drop_first().skip(k);
        assert(s.drop_first().skip(k) =~= s.skip(k + 1));
    } else {
        assert(s.skip(0) =~= s);
    }
}

/// One parameter read from the front of `r` (which starts at a key):
/// `(key, value, rest)`, or `None` when no `=` follows.
pub open spec fn digest_param(r: Seq<char>) -> Option<(Seq<char>, Seq<char>, Seq<char>)> {
    match first_occurrence(r, seq!['=']) {
        None => None,
        Some(eq) => {
            let key = ascii_lower_seq(trim_seq(r.take(eq)));
            let after = trim_start_seq(r.skip(eq + 1));
            if after.len() > 0 && after[0] == '"' {
                let q = quoted_scan(after.skip(1), false);
                Some((key, q.0, after.skip(1).skip(q.1 as int)))
            } else {
                let split = match first_occurrence(after, seq![',']) {
                    Some(k) => k,
                    None => after.len() as int,
                };
                Some((key, trim_seq(after.take(split)), strip_leading_char(after.skip(split), ',')))
            }
        },
    }
}

pub proof fn lemma_digest_param_shrinks(r: Seq<char>)
    ensures
        digest_param(r) matches Some((k, v, next)) ==> next.len() < r.len(),
{
    lemma_first_occurrence_from(r, seq!['='], 0);
    if let Some(eq) = first_occurrence(r, seq!['=']) {
        let tail = r.skip(eq + 1);
        lemma_leading_ws(tail);
        let after = trim_start_seq(tail);
        lemma_quoted_scan_len(after.skip(1), false);
        lemma_first_occurrence_from(after, seq![','], 0);
        let split = match first_occurrence(after, seq![',']) {
            Some(k) => k,
            None => after.len() as int,
        };
        lemma_strip_leading_char_len(after.skip(split), ',');
    }
}

/// The parameters of a challenge, read from `rest` onto `acc`: separators
/// are skipped, each `key=value` (key trimmed and lower-cased, value quoted or
/// up to the next comma and trimmed) is recorded, a later key overriding an
/// earlier one; parsing stops at a fragment without `=`.
pub open spec fn digest_params_from(rest: Seq<char>, acc: Map<Seq<char>, Seq<char>>) -> Map<
    Seq<char>,
    Seq<char>,
>
    decreases rest.len(),
{
    if rest.len() == 0 {
        acc
    } else {
        proof {
            lemma_leading_seps(rest);
            lemma_digest_param_shrinks(rest.skip(leading_seps(rest) as int));
        }
        let r = rest.skip(leading_seps(rest) as int);
        match digest_param(r) {
            None => acc,
            Some((key, value, next)) => digest_params_from(
                next,
                if key.len() > 0 {
                    acc.insert(key, value)
                } else {
                    acc
                },
            ),
        }
    }
}

/// The parameters of a `Digest` challenge.
pub open spec fn digest_params(challenge: Seq<char>) -> Map<Seq<char>, Seq<char>> {
    digest_params_from(trim_seq(challenge), Map::empty())
}

/// The map that a list of `(key, value)` entries describes, later entries winning.
pub open spec fn entries_map(s: Seq<(Seq<char>, Seq<char>)>) -> Map<Seq<char>, Seq<char>>
    decreases s.len(),
{
    if s.len() == 0 {
        Map::empty()
    } else {
        entries_map(s.drop_last()).insert(s.last().0, s.last().1)
    }
}

pub proof fn lemma_entries_map_lookup(s: Seq<(Seq<char>, Seq<char>)>, k: Seq<char>, i: int)
    requires
        0 <= i < s.len(),
        s[i].0 == k,
        forall|j: int| i < j < s.len() ==> s[j].0 != k,
    ensures
        entries_map(s).dom().contains(k),
        entries_map(s)[k] == s[i].1,
    decreases s.len(),
{
    if i < s.len() - 1 {
        lemma_entries_map_lookup(s.drop_last(), k, i);
    }
}

pub proof fn lemma_entries_map_absent(s: Seq<(Seq<char>, Seq<char>)>, k: Seq<char>)
    requires
        forall|j: int| 0 <= j < s.len() ==> s[j].0 != k,
    ensures
        !entries_map(s).dom().contains(k),
    decreases s.len(),
{
    if s.len() > 0 {
        lemma_entries_map_absent(s.drop_last(), k);
    }
}

/// The parameters of a digest challenge, later keys overriding earlier ones.
pub struct DigestParams {
    entries: Vec<(String, String)>,
}

impl DigestParams {
    /// The parameters as a map from key to value.
    pub closed spec fn as_map(&self) -> Map<Seq<char>, Seq<char>> {
        entries_map(self.entries@.map_values(|e: (String, String)| (e.0@, e.1@)))
    }

    /// The value recorded for `key`.
    pub fn get(&self, key: &str) -> (res: Option<&String>)
        ensures
            match res {
                Some(v) => self.as_map().dom().contains(key@) && self.as_map()[key@] == v@,
                None => !self.as_map().dom().contains(key@),
            },
    {
        let ghost s = self.entries@.map_values(|e: (String, String)| (e.0@, e.1@));
        let k = chars_of(key);
        let mut i = self.entries.len();
        while i > 0
            invariant
                i <= self.entries.len(),
                s == self.entries@.map_values(|e: (String, String)| (e.0@, e.1@)),
                k@ == key@,
                forall|j: int| i <= j < s.len() ==> s[j].0 != key@,
            decreases i,
        {
            let ek = chars_of(self.entries[i - 1].0.as_str());
            if chars_eq(&ek, &k) {
                proof {
                    lemma_entries_map_lookup(s, key@, i - 1);
                }
                return Some(&self.entries[i - 1].1);
            }
            i = i - 1;
        }
        proof {
            lemma_entries_map_absent(s, key@);
        }
        None
    }
}

/// Reads a quoted value from `v[lo..hi]` (just after its opening quote):
/// the value and the index just after the closing quote.
fn parse_quoted_digest_value(v: &Vec<char>, lo: usize, hi: usize) -> (res: (String, usize))
    requires
        lo <= hi <= v.len(),
    ensures
        ({
            let q = quoted_scan(v@.subrange(lo as int, hi as int), false);
            res.0@ == q.0 && res.1 == lo + q.1
        }),
        lo <= res.1 <= hi,
{
    let ghost whole = v@.subrange(lo as int, hi as int);
    let mut value = String::new();
    let mut escaped = false;
    let mut i = lo;
    proof {
        lemma_quoted_scan_len(whole, false);
    }
    while i < hi
        invariant
            lo <= i <= hi <= v.len(),
            whole == v@.subrange(lo as int, hi as int),
            ({
                let q = quoted_scan(v@.subrange(i as int, hi as int), escaped);
                quoted_scan(whole, false).0 == value@ + q.0 && quoted_scan(whole, false).1 == (i - lo) + q.1
            }),
        decreases hi - i,
    {
        let ch = v[i];
        let ghost cur = v@.subrange(i as int, hi as int);
        assert(cur.drop_first() =~= v@.subrange(i + 1, hi as int));
        assert(cur[0] == ch);
        if escaped {
            push_char(&mut value, ch);
            escaped = false;
            assert(value@ + quoted_scan(cur.drop_first(), false).0 =~= (value@.drop_last() + (seq![ch] + quoted_scan(cur.drop_first(), false).0)));
        } else if ch == '\\' {
            escaped = true;
        } else if ch == '"' {
            proof {
                assert(value@ + Seq::<char>::empty() =~= value@);
            }
            return (value, i + 1);
        } else {
            let ghost before = value@;
            push_char(&mut value, ch);
            assert(before + (seq![ch] + quoted_scan(cur.drop_first(), false).0) =~= value@ + quoted_scan(cur.drop_first(), false).0);
        }
        i = i + 1;
    }
    proof {
        assert(v@.subrange(hi as int, hi as int) =~= Seq::<char>::empty());
        assert(value@ + Seq::<char>::empty() =~= value@);
    }
    (value, hi)
}

/// The index of the first character of `v[lo..hi]` that is not a separator.
fn skip_param_seps(v: &Vec<char>, lo: usize, hi: usize) -> (res: usize)
    requires
        lo <= hi <= v.len(),
    ensures
        res == lo + leading_seps(v@.subrange(lo as int, hi as int)),
        res <= hi,
{
    let ghost sub = v@.subrange(lo as int, hi as int);
    let mut i = lo;
    while i < hi && (v[i] == ',' || is_whitespace(v[i]))
        invariant
            lo <= i <= hi <= v.len(),
            sub == v@.subrange(lo as int, hi as int),
            forall|j: int| lo <= j < i ==> is_param_sep(v@[j]),
        decreases hi - i,
    {
        i = i + 1;
    }
    proof {
        assert forall|j: int| 0 <= j < i - lo implies is_param_sep(sub[j]) by {
            assert(sub[j] == v@[lo + j]);
        }
        lemma_leading_seps_from(sub, i - lo);
        let rest = sub.skip(i - lo);
        if rest.len() > 0 {
            assert(rest[0] == v@[i as int]);
        }
    }
    i
}

/// Reads the parameter at the front of `v[start..end]`.
fn parse_one_param(v: &Vec<char>, start: usize, end: usize) -> (res: Option<(Vec<char>, String, usize)>)
    requires
        start <= end <= v.len(),
    ensures
        match digest_param(v@.subrange(start as int, end as int)) {
            None => res is None,
            Some((k, val, next)) => res matches Some((rk, rv, rn)) && rk@ == k && rv@ == val
                && start <= rn <= end && next == v@.subrange(rn as int, end as int),
        },
{
    let ghost r = v@.subrange(start as int, end as int);
    let eq_sign = vec!['='];
    assert(eq_sign@ =~= seq!['=']);
    let comma = vec![','];
    assert(comma@ =~= seq![',']);
    match find_in(v, &eq_sign, start, end) {
        None => None,
        Some(eq) => {
            let ghost er = (eq - start) as int;
            let (ka, kb) = trim_range(v, start, eq);
            assert(r.take(er) =~= v@.subrange(start as int, eq as int));
            let key = to_ascii_lowercase_range(v, ka, kb);
            let a = skip_ws_forward(v, eq + 1, end);
            assert(r.skip(er + 1) =~= v@.subrange(eq + 1, end as int));
            let ghost after = v@.subrange(a as int, end as int);
            assert(trim_start_seq(r.skip(er + 1)) =~= after);
            if a < end && v[a] == '"' {
                assert(after[0] == v@[a as int]);
                let (value, next) = parse_quoted_digest_value(v, a + 1, end);
                proof {
                    assert(after.skip(1) =~= v@.subrange(a + 1, end as int));
                    let q = quoted_scan(after.skip(1), false);
                    assert(after.skip(1).skip(q.1 as int) =~= v@.subrange(next as int, end as int));
                }
                Some((key, value, next))
            } else {
                assert(a < end ==> after[0] == v@[a as int]);
                let split = match find_in(v, &comma, a, end) {
                    Some(k) => k,
                    None => end,
                };
                let ghost sr = (split - a) as int;
                assert(after.take(sr) =~= v@.subrange(a as int, split as int));
                assert(after.skip(sr) =~= v@.subrange(split as int, end as int));
                let (va, vb) = trim_range(v, a, split);
                let value = string_from_range(v, va, vb);
                let next = skip_leading_char(v, split, end, ',');
                Some((key, value, next))
            }
        },
    }
}

/// Parses the parameters of a digest challenge (the text after `Digest`).
pub fn parse_digest_challenge(challenge: &str) -> (res: DigestParams)
    ensures
        res.as_map() == digest_params(challenge@),
{
    let v = chars_of(challenge);
    let (mut pos, end) = trim_range(&v, 0, v.len());
    assert(v@.subrange(0, v@.len() as int) =~= v@);
    let mut params = DigestParams { entries: Vec::new() };
    let ghost target = digest_params(challenge@);
    assert(params.as_map() =~= Map::<Seq<char>, Seq<char>>::empty());
    loop
        invariant
            pos <= end <= v.len(),
            target == digest_params(challenge@),
            v@ == challenge@,
            target == digest_params_from(v@.subrange(pos as int, end as int), params.as_map()),
        decreases end - pos,
    {
        let ghost rest = v@.subrange(pos as int, end as int);
        if pos == end {
            return params;
        }
        let start = skip_param_seps(&v, pos, end);
        assert(rest.skip(leading_seps(rest) as int) =~= v@.subrange(start as int, end as int));
        proof {
            lemma_digest_param_shrinks(v@.subrange(start as int, end as int));
        }
        match parse_one_param(&v, start, end) {
            None => {
                return params;
            },
            Some((key, value, next)) => {
                if key.len() > 0 {
                    let ghost e0 = params.entries@;
                    let ks = string_from_chars(&key);
                    params.entries.push((ks, value));
                    proof {
                        let s1 = params.entries@.map_values(|e: (String, String)| (e.0@, e.1@));
                        let s0 = e0.map_values(|e: (String, String)| (e.0@, e.1@));
                        assert(s1.drop_last() =~= s0);
                    }
                }
                pos = next;
            },
        }
    }
}

// ---------------------------------------------------------------------------
// Authorization
// ---------------------------------------------------------------------------

/// A failure to answer a digest challenge: an opendal-style kind and message.
#[derive(Debug)]
pub struct DigestError {
    pub kind: StorageErrorKind,
    pub message: String,
}

/// The MD5 digest of `data` (md-5 `Md5`).
pub uninterp spec fn md5_digest(data: Seq<u8>) -> Seq<u8>;

/// The SHA-256 digest of `data` (sha2 `Sha256`).
pub uninterp spec fn sha256_digest(data: Seq<u8>) -> Seq<u8>;

/// Computes the MD5 digest of `data` with the md-5 crate
/// (`Md5::new`, `update`, `finalize`); the result is named `md5_digest`.
#[verifier::external_body]
fn md5_bytes(data: &[u8]) -> (res: Vec<u8>)
    ensures
        res@ == md5_digest(data@),
{
    let mut hasher = Md5::new();
    hasher.update(data);
    hasher.finalize().to_vec()
}

/// Computes the SHA-256 digest of `data` with the sha2 crate
/// (`Sha256::new`, `update`, `finalize`); the result is named `sha256_digest`
/// and, as every SHA-256 digest, is 32 bytes long.
#[verifier::external_body]
pub(crate) fn sha256_bytes(data: &[u8]) -> (res: Vec<u8>)
    ensures
        res@ == sha256_digest(data@),
        res@.len() == 32,
{
    let mut hasher = Sha256::new();
    hasher.update(data);
    hasher.finalize().to_vec()
}

/// The digest algorithm names the crate supports.
pub open spec fn digest_alg_supported(alg: Seq<char>) -> bool {
    alg == "MD5"@ || alg == "SHA-256"@ || alg == "SHA256"@
}

/// The lower-case hex digest of the UTF-8 bytes of `value` under `alg`.
pub open spec fn digest_hash_of(alg: Seq<char>, value: Seq<char>) -> Seq<char> {
    if alg == "MD5"@ {
        hex_lower(md5_digest(encode_utf8(value)))
    } else {
        hex_lower(sha256_digest(encode_utf8(value)))
    }
}

/// Hex encoding takes two digits per byte.
pub proof fn lemma_hex_lower_len(bytes: Seq<u8>)
    ensures
        hex_lower(bytes).len() == 2 * bytes.len(),
    decreases bytes.len(),
{
    if bytes.len() > 0 {
        lemma_hex_lower_len(bytes.drop_last());
    }
}

/// A challenge that names SHA-256 (as `SHA-256` or `SHA256`) is answered with
/// SHA-256 hashes and one that names MD5 with MD5 hashes: for every value,
/// the hash is the lower-case hex SHA-256 (or MD5) digest of its UTF-8 bytes,
/// two hex digits per digest byte.
pub proof fn law_digest_hash_follows_the_algorithm(value: Seq<char>)
    ensures
        digest_hash_of("SHA-256"@, value) == hex_lower(sha256_digest(encode_utf8(value))),
        digest_hash_of("SHA256"@, value) == hex_lower(sha256_digest(encode_utf8(value))),
        digest_hash_of("MD5"@, value) == hex_lower(md5_digest(encode_utf8(value))),
        digest_hash_of("SHA-256"@, value).len() == 2 * sha256_digest(encode_utf8(value)).len(),
        digest_hash_of("MD5"@, value).len() == 2 * md5_digest(encode_utf8(value)).len(),
{
    reveal_strlit("MD5");
    reveal_strlit("SHA-256");
    reveal_strlit("SHA256");
    assert("MD5"@.len() == 3);
    assert("SHA-256"@.len() == 7);
    assert("SHA256"@.len() == 6);
    lemma_hex_lower_len(sha256_digest(encode_utf8(value)));
    lemma_hex_lower_len(md5_digest(encode_utf8(value)));
}

/// Hashes `value` with the named algorithm (`MD5`, `SHA-256` or `SHA256`)
/// and hex-encodes it; any other name is `Unsupported`.
pub fn digest_hash(algorithm: &str, value: &str) -> (res: Result<String, DigestError>)
    ensures
        digest_alg_supported(algorithm@) ==> (res matches Ok(h) && h@ == digest_hash_of(
            algorithm@,
            value@,
        )),
        (algorithm@ == "SHA-256"@ || algorithm@ == "SHA256"@) ==> (res matches Ok(h) && h@
            == hex_lower(sha256_digest(encode_utf8(value@))) && h@.len() == 64),
        !digest_alg_supported(algorithm@) ==> (res matches Err(e) && e.kind
            == StorageErrorKind::Unsupported && e.message@ == "WebDAV Digest algorithm "@
            + algorithm@ + " is not supported"@),
{
    if crate::text::str_eq(algorithm, "MD5") {
        proof {
            reveal_strlit("MD5");
            reveal_strlit("SHA-256");
            reveal_strlit("SHA256");
            assert("MD5"@.len() == 3);
            assert("SHA-256"@.len() == 7);
            assert("SHA256"@.len() == 6);
        }
        let d = md5_bytes(value.as_bytes());
        Ok(hex_encode(d.as_slice()))
    } else if crate::text::str_eq(algorithm, "SHA-256") || crate::text::str_eq(algorithm, "SHA256") {
        proof {
            broadcast use vstd::string::group_string_axioms;
            reveal_strlit("MD5");
            reveal_strlit("SHA-256");
            reveal_strlit("SHA256");
            assert("MD5"@.len() == 3);
            assert("SHA-256"@.len() == 7);
            assert("SHA256"@.len() == 6);
        }
        let d = sha256_bytes(value.as_bytes());
        proof {
            lemma_hex_lower_len(d@);
        }
        Ok(hex_encode(d.as_slice()))
    } else {
        let mut m = to_owned_string("WebDAV Digest algorithm ");
        push_str(&mut m, algorithm);
        push_str(&mut m, " is not supported");
        Err(DigestError { kind: StorageErrorKind::Unsupported, message: m })
    }
}

/// One comma-separated qop token names `auth` (after trimming white space
/// and quotes, ASCII case ignored).
pub open spec fn qop_token_is_auth(t: Seq<char>) -> bool {
    ascii_lower_seq(strip_trailing_char(strip_leading_char(trim_seq(t), '"'), '"')) == "auth"@
}

/// Some comma-separated token of a qop list is `auth`.
pub open spec fn qop_offers_auth(q: Seq<char>) -> bool
    decreases q.len(),
{
    match first_occurrence(q, seq![',']) {
        Some(k) => {
            proof {
                lemma_first_occurrence_from(q, seq![','], 0);
            }
            qop_token_is_auth(q.take(k)) || qop_offers_auth(q.skip(k + 1))
        },
        None => qop_token_is_auth(q),
    }
}

fn qop_token_is_auth_in(v: &Vec<char>, lo: usize, hi: usize) -> (res: bool)
    requires
        lo <= hi <= v.len(),
    ensures
        res == qop_token_is_auth(v@.subrange(lo as int, hi as int)),
{
    let (a, b) = trim_range(v, lo, hi);
    let c = crate::text::skip_leading_char(v, a, b, '"');
    let d = skip_trailing_char(v, c, b, '"');
    let t = to_ascii_lowercase_range(v, c, d);
    crate::text::str_eq_chars("auth", &t)
}

/// Picks the quality of protection: `auth` when the challenge offers it.
pub fn choose_digest_qop(qop: Option<&str>) -> (res: Result<&'static str, DigestError>)
    ensures
        match qop {
            None => res matches Err(e) && e.kind == StorageErrorKind::Unsupported && e.message@
                == "WebDAV Digest authentication without qop=auth is not supported"@,
            Some(q) => if qop_offers_auth(q@) {
                res matches Ok(s) && s@ == "auth"@
            } else {
                res matches Err(e) && e.kind == StorageErrorKind::Unsupported && e.message@
                    == "WebDAV Digest authentication requires qop=auth"@
            },
        },
{
    let q = match qop {
        None => {
            return Err(
                DigestError {
                    kind: StorageErrorKind::Unsupported,
                    message: to_owned_string(
                        "WebDAV Digest authentication without qop=auth is not supported",
                    ),
                },
            );
        },
        Some(q) => q,
    };
    let v = chars_of(q);
    let comma = vec![','];
    assert(comma@ =~= seq![',']);
    let n = v.len();
    let mut pos: usize = 0;
    assert(v@.subrange(0, n as int) =~= v@);
    loop
        invariant
            pos <= n == v.len(),
            v@ == q@,
            qop == Some(q),
            comma@ == seq![','],
            qop_offers_auth(q@) == qop_offers_auth(v@.subrange(pos as int, n as int)),
        decreases n - pos,
    {
        let ghost cur = v@.subrange(pos as int, n as int);
        match find_in(&v, &comma, pos, n) {
            Some(k) => {
                assert(cur.take(k - pos) =~= v@.subrange(pos as int, k as int));
                assert(cur.skip(k - pos + 1) =~= v@.subrange(k + 1, n as int));
                if qop_token_is_auth_in(&v, pos, k) {
                    return Ok("auth");
                }
                pos = k + 1;
            },
            None => {
                if qop_token_is_auth_in(&v, pos, n) {
                    return Ok("auth");
                }
                return Err(
                    DigestError {
                        kind: StorageErrorKind::Unsupported,
                        message: to_owned_string("WebDAV Digest authentication requires qop=auth"),
                    },
                );
            },
        }
    }
}

/// How a character is written inside a quoted header value.
pub open spec fn quote_escape_char(c: char) -> Seq<char> {
    if c == '\\' {
        seq!['\\', '\\']
    } else if c == '"' {
        seq!['\\', '"']
    } else {
        seq![c]
    }
}

/// A value with backslashes and double quotes escaped by a backslash.
pub open spec fn quote_escape(s: Seq<char>) -> Seq<char>
    decreases s.len(),
{
    if s.len() == 0 {
        Seq::empty()
    } else {
        quote_escape(s.drop_last()) + quote_escape_char(s.last())
    }
}

/// Escapes backslashes and double quotes for a quoted header value.
pub fn escape_digest_value(value: &str) -> (res: String)
    ensures
        res@ == quote_escape(value@),
{
    let v = chars_of(value);
    let mut out = String::new();
    let mut i: usize = 0;
    while i < v.len()
        invariant
            i <= v.len(),
            out@ == quote_escape(v@.take(i as int)),
        decreases v.len() - i,
    {
        let c = v[i];
        let ghost before = out@;
        if c == '\\' {
            push_char(&mut out, '\\');
            push_char(&mut out, '\\');
        } else if c == '"' {
            push_char(&mut out, '\\');
            push_char(&mut out, '"');
        } else {
            push_char(&mut out, c);
        }
        proof {
            let t = v@.take(i + 1);
            assert(t.drop_last() =~= v@.take(i as int));
            assert(t.last() == c);
            assert(out@ =~= before + quote_escape_char(c));
        }
        i = i + 1;
    }
    assert(v@.take(v@.len() as int) =~= v@);
    out
}

/// Escaping distributes over a first character.
proof fn lemma_quote_escape_cons(c: char, w: Seq<char>)
    ensures
        quote_escape(seq![c] + w) == quote_escape_char(c) + quote_escape(w),
    decreases w.len(),
{
    if w.len() == 0 {
        assert(seq![c] + w =~= seq![c]);
        assert(seq![c].drop_last() =~= Seq::<char>::empty());
        assert(quote_escape(Seq::<char>::empty()) == Seq::<char>::empty());
        assert(quote_escape_char(c) + quote_escape(w) =~= quote_escape_char(c));
        assert(Seq::<char>::empty() + quote_escape_char(c) =~= quote_escape_char(c));
    } else {
        lemma_quote_escape_cons(c, w.drop_last());
        assert((seq![c] + w).drop_last() =~= seq![c] + w.drop_last());
        assert((seq![c] + w).last() == w.last());
        assert(quote_escape_char(c) + quote_escape(w.drop_last()) + quote_escape_char(w.last())
            =~= quote_escape_char(c) + (quote_escape(w.drop_last()) + quote_escape_char(w.last())));
    }
}

/// Reading back an escaped value up to its closing quote gives the value,
/// and consumes exactly the escaped text and the quote.
pub proof fn law_escaped_value_reads_back(value: Seq<char>, rest: Seq<char>)
    ensures
        ({
            let quoted = quote_escape(value) + seq!['"'] + rest;
            let q = quoted_scan(quoted, false);
            &&& q.0 == value
            &&& q.1 == quote_escape(value).len() + 1
            &&& quoted.skip(q.1 as int) == rest
        }),
    decreases value.len(),
{
    let tail = seq!['"'] + rest;
    let quoted = quote_escape(value) + seq!['"'] + rest;
    assert(quoted =~= quote_escape(value) + tail);
    if value.len() == 0 {
        assert(quote_escape(value) == Seq::<char>::empty());
        assert(quoted =~= tail);
        assert(quoted[0] == '"');
        assert(quoted_scan(quoted, false) == (Seq::<char>::empty(), 1nat));
        assert(quoted.skip(1) =~= rest);
    } else {
        let c = value[0];
        let w = value.drop_first();
        assert(value =~= seq![c] + w);
        lemma_quote_escape_cons(c, w);
        law_escaped_value_reads_back(w, rest);
        let x = quote_escape(w) + tail;
        assert(quote_escape(w) + seq!['"'] + rest =~= x);
        let qx = quoted_scan(x, false);
        if c == '\\' || c == '"' {
            assert(quoted =~= seq!['\\', c] + x);
            assert(quoted.drop_first() =~= seq![c] + x);
            assert((seq![c] + x).drop_first() =~= x);
            assert(quoted_scan(seq![c] + x, true) == (seq![c] + qx.0, qx.1 + 1));
            assert(quoted_scan(quoted, false) == (seq![c] + qx.0, qx.1 + 2));
        } else {
            assert(quoted =~= seq![c] + x);
            assert(quoted.drop_first() =~= x);
            assert(quoted_scan(quoted, false) == (seq![c] + qx.0, qx.1 + 1));
        }
        assert(seq![c] + w =~= value);
        assert(quoted.skip(quote_escape(value).len() + 1int) =~= rest);
    }
}

/// The challenge has a non-empty value for `key`.
pub open spec fn has_param(params: Map<Seq<char>, Seq<char>>, key: Seq<char>) -> bool {
    params.dom().contains(key) && params[key].len() > 0
}

/// The algorithm a challenge asks for: its `algorithm` parameter (or `MD5`),
/// trimmed and upper-cased.
pub open spec fn digest_algorithm(params: Map<Seq<char>, Seq<char>>) -> Seq<char> {
    ascii_upper_seq(
        trim_seq(
            if params.dom().contains("algorithm"@) {
                params["algorithm"@]
            } else {
                "MD5"@
            },
        ),
    )
}

/// The `Authorization` header answering a digest challenge, or the error
/// (kind and message) met first: a missing realm, a missing nonce, a
/// missing qop, a qop without `auth`, an unsupported algorithm.
pub open spec fn digest_authorization(
    challenge: Seq<char>,
    username: Seq<char>,
    password: Seq<char>,
    method: Seq<char>,
    uri: Seq<char>,
    cnonce: Seq<char>,
    nc: Seq<char>,
) -> Result<Seq<char>, (StorageErrorKind, Seq<char>)> {
    let params = digest_params(challenge);
    if !has_param(params, "realm"@) {
        Err((StorageErrorKind::ConfigInvalid, "WebDAV Digest authentication challenge is missing realm"@))
    } else if !has_param(params, "nonce"@) {
        Err((StorageErrorKind::ConfigInvalid, "WebDAV Digest authentication challenge is missing nonce"@))
    } else if !params.dom().contains("qop"@) {
        Err((StorageErrorKind::Unsupported, "WebDAV Digest authentication without qop=auth is not supported"@))
    } else if !qop_offers_auth(params["qop"@]) {
        Err((StorageErrorKind::Unsupported, "WebDAV Digest authentication requires qop=auth"@))
    } else {
        let alg = digest_algorithm(params);
        if !digest_alg_supported(alg) {
            Err((StorageErrorKind::Unsupported, "WebDAV Digest algorithm "@ + alg + " is not supported"@))
        } else {
            let realm = params["realm"@];
            let nonce = params["nonce"@];
            let ha1 = digest_hash_of(alg, username + ":"@ + realm + ":"@ + password);
            let ha2 = digest_hash_of(alg, method + ":"@ + uri);
            let response = digest_hash_of(
                alg,
                ha1 + ":"@ + nonce + ":"@ + nc + ":"@ + cnonce + ":"@ + "auth"@ + ":"@ + ha2,
            );
            let opaque = if params.dom().contains("opaque"@) {
                ", opaque=\""@ + quote_escape(params["opaque"@]) + "\""@
            } else {
                Seq::empty()
            };
            Ok(
                "Digest username=\""@ + quote_escape(username) + "\", realm=\""@ + quote_escape(realm)
                    + "\", nonce=\""@ + quote_escape(nonce) + "\", uri=\""@ + quote_escape(uri)
                    + "\", algorithm="@ + alg + ", response=\""@ + response + "\", qop="@ + "auth"@
                    + ", nc="@ + nc + ", cnonce=\""@ + quote_escape(cnonce) + "\""@ + opaque,
            )
        }
    }
}

/// `a:b`.
fn colon_pair(a: &str, b: &str) -> (res: String)
    ensures
        res@ == a@ + ":"@ + b@,
{
    let mut s = to_owned_string(a);
    push_str(&mut s, ":");
    push_str(&mut s, b);
    s
}

/// `digest_hash`, seen only through `digest_hash_of` and its error.
fn hash_with(algorithm: &str, value: &str) -> (res: Result<String, DigestError>)
    ensures
        digest_alg_supported(algorithm@) ==> (res matches Ok(h) && h@ == digest_hash_of(
            algorithm@,
            value@,
        )),
        !digest_alg_supported(algorithm@) ==> (res matches Err(e) && e.kind
            == StorageErrorKind::Unsupported && e.message@ == "WebDAV Digest algorithm "@
            + algorithm@ + " is not supported"@),
{
    digest_hash(algorithm, value)
}

/// Builds the `Authorization` header answering a digest challenge.
#[verifier::rlimit(100)]
pub fn build_digest_authorization(
    challenge: &str,
    username: &str,
    password: &str,
    method: &str,
    uri: &str,
    cnonce: &str,
    nc: &str,
) -> (res: Result<String, DigestError>)
    ensures
        match digest_authorization(challenge@, username@, password@, method@, uri@, cnonce@, nc@) {
            Ok(h) => res matches Ok(s) && s@ == h,
            Err((kind, message)) => res matches Err(e) && e.kind == kind && e.message@ == message,
        },
{
    let params = parse_digest_challenge(challenge);
    let realm = match params.get("realm") {
        Some(r) if !r.as_str().is_empty() => r,
        _ => {
            return Err(
                DigestError {
                    kind: StorageErrorKind::ConfigInvalid,
                    message: to_owned_string(
                        "WebDAV Digest authentication challenge is missing realm",
                    ),
                },
            );
        },
    };
    let nonce = match params.get("nonce") {
        Some(r) if !r.as_str().is_empty() => r,
        _ => {
            return Err(
                DigestError {
                    kind: StorageErrorKind::ConfigInvalid,
                    message: to_owned_string(
                        "WebDAV Digest authentication challenge is missing nonce",
                    ),
                },
            );
        },
    };
    let qop = match params.get("qop") {
        Some(q) => choose_digest_qop(Some(q.as_str())),
        None => choose_digest_qop(None),
    };
    let qop = match qop {
        Ok(q) => q,
        Err(e) => {
            return Err(e);
        },
    };
    let alg_src = match params.get("algorithm") {
        Some(a) => chars_of(a.as_str()),
        None => chars_of("MD5"),
    };
    let (aa, ab) = trim_range(&alg_src, 0, alg_src.len());
    assert(alg_src@.subrange(0, alg_src@.len() as int) =~= alg_src@);
    let algorithm = string_from_chars(&to_ascii_uppercase_range(&alg_src, aa, ab));
    let ha1_src = colon_pair(colon_pair(username, realm.as_str()).as_str(), password);
    let ha1 = match hash_with(algorithm.as_str(), ha1_src.as_str()) {
        Ok(h) => h,
        Err(e) => {
            return Err(e);
        },
    };
    let ha2_src = colon_pair(method, uri);
    let ha2 = match hash_with(algorithm.as_str(), ha2_src.as_str()) {
        Ok(h) => h,
        Err(e) => {
            return Err(e);
        },
    };
    let r1 = colon_pair(ha1.as_str(), nonce.as_str());
    let r2 = colon_pair(r1.as_str(), nc);
    let r3 = colon_pair(r2.as_str(), cnonce);
    let r4 = colon_pair(r3.as_str(), qop);
    let resp_src = colon_pair(r4.as_str(), ha2.as_str());
    let response = match hash_with(algorithm.as_str(), resp_src.as_str()) {
        Ok(h) => h,
        Err(e) => {
            return Err(e);
        },
    };
    let mut h = to_owned_string("Digest username=\"");
    push_str(&mut h, escape_digest_value(username).as_str());
    push_str(&mut h, "\", realm=\"");
    push_str(&mut h, escape_digest_value(realm.as_str()).as_str());
    push_str(&mut h, "\", nonce=\"");
    push_str(&mut h, escape_digest_value(nonce.as_str()).as_str());
    push_str(&mut h, "\", uri=\"");
    push_str(&mut h, escape_digest_value(uri).as_str());
    push_str(&mut h, "\", algorithm=");
    push_str(&mut h, algorithm.as_str());
    push_str(&mut h, ", response=\"");
    push_str(&mut h, response.as_str());
    push_str(&mut h, "\", qop=");
    push_str(&mut h, qop);
    push_str(&mut h, ", nc=");
    push_str(&mut h, nc);
    push_str(&mut h, ", cnonce=\"");
    push_str(&mut h, escape_digest_value(cnonce).as_str());
    push_str(&mut h, "\"");
    match params.get("opaque") {
        Some(o) => {
            push_str(&mut h, ", opaque=\"");
            push_str(&mut h, escape_digest_value(o.as_str()).as_str());
            push_str(&mut h, "\"");
        },
        None => {},
    }
    proof {
        let m = digest_params(challenge@);
        let alg = algorithm@;
        let opaque = if m.dom().contains("opaque"@) {
            ", opaque=\""@ + quote_escape(m["opaque"@]) + "\""@
        } else {
            Seq::empty()
        };
        assert(h@ =~= "Digest username=\""@ + quote_escape(username@) + "\", realm=\""@ + quote_escape(realm@)
                    + "\", nonce=\""@ + quote_escape(nonce@) + "\", uri=\""@ + quote_escape(uri@)
                    + "\", algorithm="@ + alg + ", response=\""@ + response@ + "\", qop="@ + "auth"@
                    + ", nc="@ + nc@ + ", cnonce=\""@ + quote_escape(cnonce@) + "\""@ + opaque);
    }
    Ok(h)
}

/// The `Digest` keyword of a `WWW-Authenticate` value.
pub open spec fn digest_keyword() -> Seq<char> {
    seq!['D', 'i', 'g', 'e', 's', 't']
}

/// The text after `Digest` in the first value that holds it, trimmed.
pub open spec fn first_digest_part(values: Seq<Seq<char>>) -> Option<Seq<char>>
    decreases values.len(),
{
    if values.len() == 0 {
        None
    } else {
        match first_occurrence(values[0], digest_keyword()) {
            Some(k) => Some(trim_seq(values[0].skip(k + 6))),
            None => first_digest_part(values.drop_first()),
        }
    }
}

/// The digest challenge among `WWW-Authenticate` values: the text after
/// `Digest` in the first value that holds it, when not blank.
pub open spec fn digest_challenge_of(values: Seq<Seq<char>>) -> Option<Seq<char>> {
    match first_digest_part(values) {
        Some(c) => if c.len() > 0 {
            Some(c)
        } else {
            None
        },
        None => None,
    }
}

/// Picks the digest challenge out of the `WWW-Authenticate` header values.
pub fn digest_challenge(values: &Vec<String>) -> (res: Option<String>)
    ensures
        match digest_challenge_of(crate::osc::string_views(values@)) {
            Some(c) => res matches Some(s) && s@ == c,
            None => res is None,
        },
{
    let ghost vs = crate::osc::string_views(values@);
    let kw = vec!['D', 'i', 'g', 'e', 's', 't'];
    assert(kw@ =~= digest_keyword());
    let mut i: usize = 0;
    assert(vs.skip(0) =~= vs);
    while i < values.len()
        invariant
            i <= values.len(),
            vs == crate::osc::string_views(values@),
            kw@ == digest_keyword(),
            first_digest_part(vs) == first_digest_part(vs.skip(i as int)),
        decreases values.len() - i,
    {
        let v = chars_of(values[i].as_str());
        assert(vs.skip(i as int)[0] == v@);
        assert(vs.skip(i as int).drop_first() =~= vs.skip(i + 1));
        match find_in(&v, &kw, 0, v.len()) {
            Some(k) => {
                assert(v@.subrange(0, v@.len() as int) =~= v@);
                let (a, b) = trim_range(&v, k + 6, v.len());
                assert(v@.skip(k + 6) =~= v@.subrange(k + 6, v@.len() as int));
                if a == b {
                    return None;
                }
                return Some(string_from_range(&v, a, b));
            },
            None => {
                assert(v@.subrange(0, v@.len() as int) =~= v@);
            },
        }
        i = i + 1;
    }
    None
}

/// The `Authorization` header to retry a request with, for a response with
/// `status` and these `WWW-Authenticate` values: only a 401 carrying a digest
/// challenge, with both username and password set, gets one (nonce count
/// `00000001`); otherwise the response stands (`Ok(None)`).
pub fn digest_retry_authorization(
    status: u16,
    www_authenticate: &Vec<String>,
    username: &str,
    password: &str,
    method: &str,
    uri: &str,
    cnonce: &str,
) -> (res: Result<Option<String>, DigestError>)
    ensures
        (status != 401 || digest_challenge_of(crate::osc::string_views(www_authenticate@)) is None
            || username@.len() == 0 || password@.len() == 0) ==> res matches Ok(None),
        (status == 401 && username@.len() > 0 && password@.len() > 0) ==> (
        digest_challenge_of(crate::osc::string_views(www_authenticate@)) matches Some(c)
            ==> match digest_authorization(c, username@, password@, method@, uri@, cnonce@, "00000001"@) {
            Ok(h) => res matches Ok(Some(s)) && s@ == h,
            Err((kind, message)) => res matches Err(e) && e.kind == kind && e.message@ == message,
        }),
{
    if status != 401 {
        return Ok(None);
    }
    let challenge = match digest_challenge(www_authenticate) {
        Some(c) => c,
        None => {
            return Ok(None);
        },
    };
    if username.is_empty() || password.is_empty() {
        return Ok(None);
    }
    match build_digest_authorization(
        challenge.as_str(),
        username,
        password,
        method,
        uri,
        cnonce,
        "00000001",
    ) {
        Ok(h) => Ok(Some(h)),
        Err(e) => Err(e),
    }
}


/// Sixteen random bytes (`rand::thread_rng`, `fill_bytes`).
#[verifier::external_body]
fn random_bytes_16() -> (res: Vec<u8>)
    ensures
        res@.len() == 16,
{
    let mut bytes = [0u8; 16];
    rand::thread_rng().fill_bytes(&mut bytes);
    bytes.to_vec()
}

/// A fresh client nonce: sixteen random bytes in lower-case hexadecimal.
pub fn random_cnonce() -> (res: String)
    ensures
        exists|b: Seq<u8>| b.len() == 16 && res@ == #[trigger] hex_lower(b),
{
    let b = random_bytes_16();
    let s = hex_encode(b.as_slice());
    assert(s@ == hex_lower(b@));
    s
}

/// The `Authorization` header to retry a WebDAV request with after its
/// response (`status`, `WWW-Authenticate` values), under a fresh client nonce:
/// only a 401 carrying a digest challenge, with both username and password
/// set, gets one.
pub fn webdav_retry_authorization(
    status: u16,
    www_authenticate: &Vec<String>,
    username: &str,
    password: &str,
    method: &str,
    uri: &str,
) -> (res: Result<Option<String>, DigestError>)
    ensures
        (status != 401 || digest_challenge_of(crate::osc::string_views(www_authenticate@)) is None
            || username@.len() == 0 || password@.len() == 0) ==> res matches Ok(None),
        (status == 401 && username@.len() > 0 && password@.len() > 0) ==> (
        digest_challenge_of(crate::osc::string_views(www_authenticate@)) matches Some(c)
            ==> exists|b: Seq<u8>|
            b.len() == 16 && match #[trigger] digest_authorization(
                c,
                username@,
                password@,
                method@,
                uri@,
                hex_lower(b),
                "00000001"@,
            ) {
                Ok(h) => res matches Ok(Some(s)) && s@ == h,
                Err((kind, message)) => res matches Err(e) && e.kind == kind && e.message@ == message,
            }),
{
    let cnonce = random_cnonce();
    digest_retry_authorization(status, www_authenticate, username, password, method, uri, cnonce.as_str())
}

} // verus!
