//! Base64, as the crate stores binary data in text (the base64 crate).

use vstd::prelude::*;
use base64::engine::general_purpose::{STANDARD, URL_SAFE_NO_PAD};
use base64::Engine;

verus! {

/// The standard, padded base64 text of `data`.
pub uninterp spec fn base64_standard(data: Seq<u8>) -> Seq<char>;

/// The URL-safe, unpadded base64 text of `data`.
pub uninterp spec fn base64_url_safe_no_pad(data: Seq<u8>) -> Seq<char>;

/// What decoding `text` as standard base64 gives: the bytes, or the text of
/// the decoding error.
pub uninterp spec fn base64_standard_decoded(text: Seq<char>) -> Result<Seq<u8>, Seq<char>>;

/// A character of the standard base64 alphabet, or the padding `=`.
pub open spec fn is_standard_base64_char(c: char) -> bool {
    ('A' <= c <= 'Z') || ('a' <= c <= 'z') || ('0' <= c <= '9') || c == '+' || c == '/' || c == '='
}

/// A character of the URL-safe base64 alphabet: letters, digits, `-` and `_`.
pub open spec fn is_url_safe_char(c: char) -> bool {
    ('A' <= c <= 'Z') || ('a' <= c <= 'z') || ('0' <= c <= '9') || c == '-' || c == '_'
}

/// Encodes with the standard alphabet and padding (`STANDARD.encode`);
/// every character of the result is one of that alphabet or `=`.
#[verifier::external_body]
pub(crate) fn encode_base64(data: &[u8]) -> (res: String)
    ensures
        res@ == base64_standard(data@),
        forall|i: int| 0 <= i < res@.len() ==> is_standard_base64_char(#[trigger] res@[i]),
{
    STANDARD.encode(data)
}

/// Encodes with the URL-safe alphabet and no padding (`URL_SAFE_NO_PAD.encode`);
/// every character of the result is one of that alphabet.
#[verifier::external_body]
pub(crate) fn encode_base64_url(data: &[u8]) -> (res: String)
    ensures
        res@ == base64_url_safe_no_pad(data@),
        forall|i: int| 0 <= i < res@.len() ==> is_url_safe_char(#[trigger] res@[i]),
{
    URL_SAFE_NO_PAD.encode(data)
}

/// Decodes standard, padded base64 (`STANDARD.decode`), the error carried as
/// the text it displays as.  Text that `encode_base64` produced decodes to the
/// bytes it was made from.
#[verifier::external_body]
pub(crate) fn decode_base64(text: &str) -> (res: Result<Vec<u8>, String>)
    ensures
        match res {
            Ok(v) => base64_standard_decoded(text@) == Ok::<Seq<u8>, Seq<char>>(v@),
            Err(m) => base64_standard_decoded(text@) == Err::<Seq<u8>, Seq<char>>(m@),
        },
        match res {
            Ok(v) => forall|d: Seq<u8>| text@ == #[trigger] base64_standard(d) ==> v@ == d,
            Err(_) => forall|d: Seq<u8>| text@ != #[trigger] base64_standard(d),
        },
{
    STANDARD.decode(text).map_err(|e| e.to_string())
}

} // verus!
