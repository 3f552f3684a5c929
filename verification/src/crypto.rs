//! AES-256-GCM encryption of the credentials stored in the configuration.
//!
//! ```text
//! wrapping_key  = SHA-256("dragonfly-key-wrap-v1:" || home_path)
//! master.key    = base64( wrap_nonce[12] || AES-256-GCM(wrapping_key, master_key[32]) )
//! credential    = base64( nonce[12] || AES-256-GCM(master_key, plaintext) )
//! ```
//!
//! Finding the home directory and reading or writing `master.key` is left to
//! the caller; these functions do the key derivation, the framing and the
//! checks.

use vstd::prelude::*;
use vstd::utf8::{decode_utf8, encode_utf8, valid_utf8};
use aes_gcm::aead::{Aead, OsRng};
use aes_gcm::{AeadCore, Aes256Gcm, Key, KeyInit, Nonce};
use crate::codec::{
    base64_standard, base64_standard_decoded, decode_base64, encode_base64,
    is_standard_base64_char,
};
use crate::digest::{sha256_bytes, sha256_digest};
use crate::error::{AppError, AppResult};
use crate::remote::{utf8_decode, utf8_error_text};
use crate::text::{is_ws, push_str, to_owned_string, trim_seq, trim_string};

verus! {

/// The most plaintext bytes AES-GCM encrypts in one message.
pub const AES_GCM_MAX_PLAINTEXT: u64 = 68719476736;

/// The AES-256-GCM ciphertext, tag included, of `plaintext` under `key` and
/// `nonce`, with no associated data.
pub uninterp spec fn aes_gcm_seal(key: Seq<u8>, nonce: Seq<u8>, plaintext: Seq<u8>) -> Seq<u8>;

/// The AES-256-GCM decryption of `ciphertext` (tag included) under `key` and
/// `nonce`: `None` when authentication fails.
pub uninterp spec fn aes_gcm_open(key: Seq<u8>, nonce: Seq<u8>, ciphertext: Seq<u8>) -> Option<Seq<u8>>;

/// Encrypts with aes-gcm's `Aes256Gcm` (`new`, `Aead::encrypt`).  The
/// ciphertext is the plaintext's length plus the 16-byte tag; the only error,
/// `aead::Error`, comes exactly for a plaintext over the size limit `P_MAX`.
#[verifier::external_body]
fn aes_encrypt(key: &[u8], nonce: &[u8], plaintext: &[u8]) -> (res: Result<Vec<u8>, String>)
    requires
        key@.len() == 32,
        nonce@.len() == 12,
    ensures
        res is Ok <==> plaintext@.len() <= AES_GCM_MAX_PLAINTEXT,
        match res {
            Ok(v) => v@ == aes_gcm_seal(key@, nonce@, plaintext@) && v@.len() == plaintext@.len()
                + 16,
            Err(m) => m@ == "aead::Error"@,
        },
{
    Aes256Gcm::new(Key::<Aes256Gcm>::from_slice(key))
        .encrypt(Nonce::from_slice(nonce), plaintext)
        .map_err(|e| e.to_string())
}

/// Decrypts with aes-gcm's `Aes256Gcm` (`new`, `Aead::decrypt`); the error is
/// `aead::Error`.  What `aes_encrypt` produced under the same key and nonce
/// decrypts to the plaintext it was made from; this is stated for plaintexts
/// within the size limit, which keeps the ciphertext body within `C_MAX`,
/// the longest body `decrypt` accepts.
#[verifier::external_body]
fn aes_decrypt(key: &[u8], nonce: &[u8], ciphertext: &[u8]) -> (res: Result<Vec<u8>, String>)
    requires
        key@.len() == 32,
        nonce@.len() == 12,
    ensures
        match res {
            Ok(v) => aes_gcm_open(key@, nonce@, ciphertext@) == Some(v@) && forall|p: Seq<u8>|
                p.len() <= AES_GCM_MAX_PLAINTEXT && ciphertext@ == #[trigger] aes_gcm_seal(
                    key@,
                    nonce@,
                    p,
                ) ==> v@ == p,
            Err(m) => aes_gcm_open(key@, nonce@, ciphertext@) is None && m@ == "aead::Error"@
                && forall|p: Seq<u8>|
                p.len() <= AES_GCM_MAX_PLAINTEXT ==> ciphertext@ != #[trigger] aes_gcm_seal(
                    key@,
                    nonce@,
                    p,
                ),
        },
{
    Aes256Gcm::new(Key::<Aes256Gcm>::from_slice(key))
        .decrypt(Nonce::from_slice(nonce), ciphertext)
        .map_err(|e| e.to_string())
}

/// A fresh random 96-bit nonce (`Aes256Gcm::generate_nonce` with `OsRng`).
#[verifier::external_body]
fn random_nonce() -> (res: Vec<u8>)
    ensures
        res@.len() == 12,
{
    Aes256Gcm::generate_nonce(&mut OsRng).to_vec()
}

/// A fresh random 256-bit master key (`Aes256Gcm::generate_key` with `OsRng`).
#[verifier::external_body]
fn generate_master_key() -> (res: Vec<u8>)
    ensures
        res@.len() == 32,
{
    Aes256Gcm::generate_key(OsRng).to_vec()
}

/// The text stored for `plaintext` sealed under `key` with `nonce`.
pub open spec fn sealed_text(key: Seq<u8>, nonce: Seq<u8>, plaintext: Seq<u8>) -> Seq<char> {
    base64_standard(nonce + aes_gcm_seal(key, nonce, plaintext))
}

/// `text` is `plaintext`, within the size limit, sealed under `key` with
/// some nonce.
pub open spec fn is_sealed_text(key: Seq<u8>, text: Seq<char>, plaintext: Seq<u8>) -> bool {
    &&& plaintext.len() <= AES_GCM_MAX_PLAINTEXT
    &&& exists|n: Seq<u8>|
        n.len() == 12 && #[trigger] sealed_text(key, n, plaintext) == text && aes_gcm_seal(
            key,
            n,
            plaintext,
        ).len() == plaintext.len() + 16
}

/// Seals `plaintext` under `key` with a fresh nonce: base64 of the nonce
/// followed by the ciphertext.
fn seal(key: &[u8], plaintext: &[u8]) -> (res: Result<String, String>)
    requires
        key@.len() == 32,
    ensures
        res is Ok <==> plaintext@.len() <= AES_GCM_MAX_PLAINTEXT,
        match res {
            Ok(t) => is_sealed_text(key@, t@, plaintext@) && trim_seq(t@) == t@,
            Err(m) => m@ == "aead::Error"@,
        },
{
    let nonce = random_nonce();
    match aes_encrypt(key, nonce.as_slice(), plaintext) {
        Ok(ct) => {
            let mut combined = nonce.clone();
            let mut i: usize = 0;
            while i < ct.len()
                invariant
                    i <= ct.len(),
                    combined@ == nonce@ + ct@.take(i as int),
                decreases ct.len() - i,
            {
                combined.push(ct[i]);
                i = i + 1;
                proof {
                    assert(combined@ =~= nonce@ + ct@.take(i as int));
                }
            }
            proof {
                assert(ct@.take(ct@.len() as int) =~= ct@);
            }
            let t = encode_base64(combined.as_slice());
            proof {
                assert(sealed_text(key@, nonce@, plaintext@) == t@);
                lemma_base64_text_is_trimmed(t@);
            }
            Ok(t)
        },
        Err(m) => Err(m),
    }
}

proof fn lemma_base64_text_is_trimmed(t: Seq<char>)
    requires
        forall|i: int| 0 <= i < t.len() ==> is_standard_base64_char(#[trigger] t[i]),
    ensures
        trim_seq(t) == t,
{
    if t.len() > 0 {
        assert(is_standard_base64_char(t[0]));
        assert(!is_ws(t[0]));
        assert(is_standard_base64_char(t[t.len() - 1]));
        assert(!is_ws(t.last()));
    }
    assert(t.skip(0) =~= t);
    assert(t.take(t.len() as int) =~= t);
}

/// What opening a sealed text under `key` gives: the plaintext bytes, or the
/// error text of the step that failed (`base64:`, too short, or the
/// authentication failure).
pub enum Opened {
    Plain(Seq<u8>),
    BadBase64(Seq<char>),
    TooShort,
    Failed,
}

/// Opening `text` under `key`: decode base64, require a nonce and at least
/// one byte of ciphertext, and authenticate.
pub open spec fn open_spec(key: Seq<u8>, text: Seq<char>) -> Opened {
    match base64_standard_decoded(text) {
        Err(m) => Opened::BadBase64(m),
        Ok(raw) => if raw.len() < 13 {
            Opened::TooShort
        } else {
            match aes_gcm_open(key, raw.take(12), raw.skip(12)) {
                Some(p) => Opened::Plain(p),
                None => Opened::Failed,
            }
        },
    }
}

/// Why a sealed text did not open.
pub enum OpenFailure {
    BadBase64(String),
    TooShort,
    Failed,
}

/// Opens a sealed text.
fn open_sealed(key: &[u8], text: &str) -> (res: Result<Vec<u8>, OpenFailure>)
    requires
        key@.len() == 32,
    ensures
        match open_spec(key@, text@) {
            Opened::Plain(p) => res matches Ok(v) && v@ == p,
            Opened::BadBase64(m) => res matches Err(OpenFailure::BadBase64(x)) && x@ == m,
            Opened::TooShort => res matches Err(OpenFailure::TooShort),
            Opened::Failed => res matches Err(OpenFailure::Failed),
        },
        forall|p: Seq<u8>| #[trigger] is_sealed_text(key@, text@, p) ==> (res matches Ok(v) && v@ == p),
{
    let raw = match decode_base64(text) {
        Ok(raw) => raw,
        Err(m) => {
            return Err(OpenFailure::BadBase64(m));
        },
    };
    proof {
        assert forall|p: Seq<u8>| #[trigger] is_sealed_text(key@, text@, p) implies raw@.len() >= 13
            && raw@.take(12) + raw@.skip(12) == raw@ && {
            let n = raw@.take(12);
            raw@.skip(12) == aes_gcm_seal(key@, n, p)
        } by {
            let n = choose|n: Seq<u8>|
                n.len() == 12 && #[trigger] sealed_text(key@, n, p) == text@ && aes_gcm_seal(
                    key@,
                    n,
                    p,
                ).len() == p.len() + 16;
            assert(raw@ == n + aes_gcm_seal(key@, n, p));
            assert(raw@.take(12) =~= n);
            assert(raw@.skip(12) =~= aes_gcm_seal(key@, n, p));
            assert(raw@.take(12) + raw@.skip(12) =~= raw@);
        }
    }
    if raw.len() < 13 {
        return Err(OpenFailure::TooShort);
    }
    let mut nonce: Vec<u8> = Vec::new();
    let mut ct: Vec<u8> = Vec::new();
    let mut i: usize = 0;
    while i < raw.len()
        invariant
            i <= raw.len(),
            raw.len() >= 13,
            i <= 12 ==> nonce@ == raw@.take(i as int) && ct@.len() == 0,
            i > 12 ==> nonce@ == raw@.take(12) && ct@ == raw@.subrange(12, i as int),
        decreases raw.len() - i,
    {
        if i < 12 {
            nonce.push(raw[i]);
            proof {
                assert(nonce@ =~= raw@.take(i + 1));
            }
        } else {
            ct.push(raw[i]);
            proof {
                assert(ct@ =~= raw@.subrange(12, i + 1));
            }
        }
        i = i + 1;
    }
    proof {
        assert(ct@ =~= raw@.skip(12));
    }
    match aes_decrypt(key, nonce.as_slice(), ct.as_slice()) {
        Ok(p) => Ok(p),
        Err(_) => Err(OpenFailure::Failed),
    }
}

/// The derivation input of the wrapping key.
pub const KEY_WRAP_CONTEXT: &'static str = "dragonfly-key-wrap-v1:";

/// The key that wraps the master key for the user whose home directory is
/// `home`: SHA-256 of the context string followed by the path, as UTF-8.
pub open spec fn wrapping_key_spec(home: Seq<char>) -> Seq<u8> {
    sha256_digest(encode_utf8(KEY_WRAP_CONTEXT@) + encode_utf8(home))
}

/// Derives the wrapping key from the home directory path.
pub fn wrapping_key_for(home: &str) -> (res: Vec<u8>)
    ensures
        res@ == wrapping_key_spec(home@),
        res@.len() == 32,
{
    let ctx = KEY_WRAP_CONTEXT.as_bytes();
    let h = home.as_bytes();
    let mut data: Vec<u8> = Vec::new();
    let mut i: usize = 0;
    while i < ctx.len()
        invariant
            i <= ctx@.len(),
            data@ == ctx@.take(i as int),
        decreases ctx.len() - i,
    {
        data.push(ctx[i]);
        i = i + 1;
        proof {
            assert(data@ =~= ctx@.take(i as int));
        }
    }
    let mut j: usize = 0;
    while j < h.len()
        invariant
            j <= h@.len(),
            data@ == ctx@ + h@.take(j as int),
        decreases h.len() - j,
    {
        proof {
            assert(ctx@.take(ctx@.len() as int) =~= ctx@);
        }
        data.push(h[j]);
        j = j + 1;
        proof {
            assert(data@ =~= ctx@ + h@.take(j as int));
        }
    }
    proof {
        assert(ctx@.take(ctx@.len() as int) =~= ctx@);
        assert(h@.take(h@.len() as int) =~= h@);
        assert(data@ =~= ctx@ + h@);
    }
    sha256_bytes(data.as_slice())
}

/// The result of reading `master.key` (its text `encoded`) with the wrapping
/// key: the master key, or the message of the step that failed.
pub open spec fn unwrap_spec(encoded: Seq<char>, wrapping_key: Seq<u8>) -> Result<Seq<u8>, Seq<char>> {
    match open_spec(wrapping_key, trim_seq(encoded)) {
        Opened::BadBase64(m) => Err("decode master.key: "@ + m),
        Opened::TooShort => Err("master.key file is malformed"@),
        Opened::Failed => Err("unwrap master.key: aead::Error"@),
        Opened::Plain(k) => if k.len() != 32 {
            Err("master key length mismatch"@)
        } else {
            Ok(k)
        },
    }
}

/// Reads the master key from the text of `master.key`.  The text written by
/// [`wrap_master_key`] for a key reads back as that key.
pub fn unwrap_master_key(encoded: &str, wrapping_key: &[u8]) -> (res: AppResult<Vec<u8>>)
    requires
        wrapping_key@.len() == 32,
    ensures
        match unwrap_spec(encoded@, wrapping_key@) {
            Ok(k) => res matches Ok(v) && v@ == k,
            Err(m) => res matches Err(AppError::Crypto(x)) && x@ == m,
        },
        forall|k: Seq<u8>|
            k.len() == 32 && #[trigger] is_sealed_text(wrapping_key@, trim_seq(encoded@), k) ==> (
            res matches Ok(v) && v@ == k),
{
    let text = trim_string(encoded);
    match open_sealed(wrapping_key, text.as_str()) {
        Ok(k) => {
            if k.len() != 32 {
                Err(AppError::Crypto(to_owned_string("master key length mismatch")))
            } else {
                Ok(k)
            }
        },
        Err(OpenFailure::BadBase64(m)) => {
            let mut s = to_owned_string("decode master.key: ");
            push_str(&mut s, m.as_str());
            Err(AppError::Crypto(s))
        },
        Err(OpenFailure::TooShort) => Err(AppError::Crypto(to_owned_string("master.key file is malformed"))),
        Err(_) => Err(AppError::Crypto(to_owned_string("unwrap master.key: aead::Error"))),
    }
}

/// The text stored in `master.key` for `master_key`: it sealed under the
/// wrapping key with a fresh nonce.
pub fn wrap_master_key(master_key: &[u8], wrapping_key: &[u8]) -> (res: String)
    requires
        master_key@.len() == 32,
        wrapping_key@.len() == 32,
    ensures
        is_sealed_text(wrapping_key@, res@, master_key@),
        trim_seq(res@) == res@,
{
    match seal(wrapping_key, master_key) {
        Ok(t) => t,
        Err(_) => {
            assert(false);
            String::new()
        },
    }
}

/// A new random master key and the text of `master.key` that stores it,
/// sealed under the wrapping key.
pub fn create_master_key(wrapping_key: &[u8]) -> (res: (Vec<u8>, String))
    requires
        wrapping_key@.len() == 32,
    ensures
        res.0@.len() == 32,
        is_sealed_text(wrapping_key@, res.1@, res.0@),
        trim_seq(res.1@) == res.1@,
{
    let master = generate_master_key();
    let text = wrap_master_key(&master, wrapping_key);
    (master, text)
}

/// Encrypts `plaintext` under the master key: base64 of a fresh nonce and the
/// ciphertext.  Only a plaintext over AES-GCM's size limit fails.
pub fn encrypt(key: &[u8], plaintext: &str) -> (res: AppResult<String>)
    requires
        key@.len() == 32,
    ensures
        res is Ok <==> encode_utf8(plaintext@).len() <= AES_GCM_MAX_PLAINTEXT,
        match res {
            Ok(t) => is_sealed_text(key@, t@, encode_utf8(plaintext@)),
            Err(e) => e matches AppError::Crypto(m) && m@ == "encryption failed: aead::Error"@,
        },
{
    let bytes = plaintext.as_bytes();
    assert(bytes@ == encode_utf8(plaintext@));
    match seal(key, bytes) {
        Ok(t) => Ok(t),
        Err(m) => {
            let mut s = to_owned_string("encryption failed: ");
            push_str(&mut s, m.as_str());
            proof {
                reveal_strlit("encryption failed: ");
                reveal_strlit("aead::Error");
                reveal_strlit("encryption failed: aead::Error");
                assert(s@ =~= "encryption failed: aead::Error"@);
            }
            Err(AppError::Crypto(s))
        },
    }
}

/// The result of decrypting `token` under `key`: the text, or the message of
/// the step that failed.
pub open spec fn decrypt_spec(key: Seq<u8>, token: Seq<char>) -> Result<Seq<char>, Seq<char>> {
    match open_spec(key, token) {
        Opened::BadBase64(m) => Err("invalid base64: "@ + m),
        Opened::TooShort => Err("ciphertext too short"@),
        Opened::Failed => Err("decryption failed: aead::Error"@),
        Opened::Plain(p) => if valid_utf8(p) {
            Ok(decode_utf8(p))
        } else {
            Err("invalid UTF-8: "@ + utf8_error_text(p))
        },
    }
}

/// Decrypts a token made by [`encrypt`]; what `encrypt` made under the same
/// key decrypts to the text it was made from.
pub fn decrypt(key: &[u8], token: &str) -> (res: AppResult<String>)
    requires
        key@.len() == 32,
    ensures
        match decrypt_spec(key@, token@) {
            Ok(p) => res matches Ok(s) && s@ == p,
            Err(m) => res matches Err(AppError::Crypto(x)) && x@ == m,
        },
        forall|p: Seq<char>| #[trigger] is_sealed_text(key@, token@, encode_utf8(p)) ==> (res matches Ok(
            s,
        ) && s@ == p),
{
    proof {
        assert forall|p: Seq<char>| #[trigger] is_sealed_text(key@, token@, encode_utf8(p)) implies valid_utf8(
            encode_utf8(p),
        ) && decode_utf8(encode_utf8(p)) == p by {
            vstd::utf8::encode_utf8_valid_utf8(p);
            vstd::utf8::encode_utf8_decode_utf8(p);
        }
    }
    match open_sealed(key, token) {
        Ok(bytes) => match utf8_decode(bytes) {
            Ok(s) => Ok(s),
            Err(e) => {
                let mut s = to_owned_string("invalid UTF-8: ");
                push_str(&mut s, e.as_str());
                Err(AppError::Crypto(s))
            },
        },
        Err(OpenFailure::BadBase64(m)) => {
            let mut s = to_owned_string("invalid base64: ");
            push_str(&mut s, m.as_str());
            Err(AppError::Crypto(s))
        },
        Err(OpenFailure::TooShort) => Err(AppError::Crypto(to_owned_string("ciphertext too short"))),
        Err(_) => Err(AppError::Crypto(to_owned_string("decryption failed: aead::Error"))),
    }
}

/// Decrypts an optional token: `None`, and an empty token, give `None`.
pub fn decrypt_optional(key: &[u8], token: &Option<String>) -> (res: AppResult<Option<String>>)
    requires
        key@.len() == 32,
    ensures
        match token {
            Some(t) => if t@.len() == 0 {
                res matches Ok(None)
            } else {
                match decrypt_spec(key@, t@) {
                    Ok(p) => res matches Ok(Some(s)) && s@ == p,
                    Err(m) => res matches Err(AppError::Crypto(x)) && x@ == m,
                }
            },
            None => res matches Ok(None),
        },
{
    match token {
        Some(t) => {
            if t.as_str().is_empty() {
                Ok(None)
            } else {
                match decrypt(key, t.as_str()) {
                    Ok(s) => Ok(Some(s)),
                    Err(e) => Err(e),
                }
            }
        },
        None => Ok(None),
    }
}

} // verus!
