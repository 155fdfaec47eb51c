use aes_siv::aead::generic_array::GenericArray;
use aes_siv::aead::{Aead, KeyInit, Payload};
use aes_siv::{Aes256SivAead, Nonce};
use base64::prelude::BASE64_URL_SAFE_NO_PAD;
use base64::Engine;
use hmac::{Hmac, Mac};
use sha2::Sha256;
use vstd::prelude::*;
use vstd::utf8::{decode_utf8, valid_utf8};

verus! {

/// What AES-256-SIV returns when sealing `msg` under `key` with `nonce` and
/// associated data `aad` (`None` where it refuses).
pub uninterp spec fn siv_seal(key: Seq<u8>, nonce: Seq<u8>, aad: Seq<u8>, msg: Seq<u8>) -> Option<
    Seq<u8>,
>;

/// What AES-256-SIV returns when opening `ct` under `key` with `nonce` and
/// associated data `aad` (`None` where authentication fails).
pub uninterp spec fn siv_open(key: Seq<u8>, nonce: Seq<u8>, aad: Seq<u8>, ct: Seq<u8>) -> Option<
    Seq<u8>,
>;

/// The URL-safe base64 text of `b`, without padding.
pub uninterp spec fn base64_url_encode(b: Seq<u8>) -> Seq<char>;

/// The bytes whose URL-safe unpadded base64 text is `s`, if `s` is one.
pub uninterp spec fn base64_url_decode(s: Seq<char>) -> Option<Seq<u8>>;

/// A character of the URL-safe base64 alphabet.
pub open spec fn url_safe_char(c: char) -> bool {
    ('A' <= c && c <= 'Z') || ('a' <= c && c <= 'z') || ('0' <= c && c <= '9') || c == '-' || c
        == '_'
}

/// Relies on `Aead::encrypt` of `aes_siv::Aes256SivAead` (RFC 5297): a
/// deterministic result for given key, nonce, associated data and message,
/// the 16-byte synthetic IV followed by a ciphertext as long as the message.
#[verifier::external_body]
pub(crate) fn siv_encrypt(key: &[u8], nonce: &[u8], aad: &[u8], msg: &[u8]) -> (r: Option<Vec<u8>>)
    requires
        key@.len() == 64,
        nonce@.len() == 16,
    ensures
        match r {
            Some(c) => siv_seal(key@, nonce@, aad@, msg@) == Some(c@) && c@.len() == msg@.len() + 16,
            None => siv_seal(key@, nonce@, aad@, msg@) is None,
        },
{
    let cipher = Aes256SivAead::new(GenericArray::from_slice(key));
    cipher.encrypt(Nonce::from_slice(nonce), Payload { msg, aad }).ok()
}

/// Relies on `Aead::decrypt` of `aes_siv::Aes256SivAead` (RFC 5297): it
/// opens exactly what `encrypt` sealed with the same key, associated data and
/// nonce, and fails on anything that does not authenticate.
#[verifier::external_body]
pub(crate) fn siv_decrypt(key: &[u8], nonce: &[u8], aad: &[u8], ct: &[u8]) -> (r: Option<Vec<u8>>)
    requires
        key@.len() == 64,
        nonce@.len() == 16,
    ensures
        match r {
            Some(p) => siv_open(key@, nonce@, aad@, ct@) == Some(p@),
            None => siv_open(key@, nonce@, aad@, ct@) is None,
        },
        forall|m: Seq<u8>|
            #[trigger] siv_seal(key@, nonce@, aad@, m) == Some(ct@) ==> r.deep_view() == Some(m),
{
    let cipher = Aes256SivAead::new(GenericArray::from_slice(key));
    cipher.decrypt(Nonce::from_slice(nonce), Payload { msg: ct, aad }).ok()
}

/// Relies on `base64`'s `URL_SAFE_NO_PAD` engine `encode`: characters of the
/// URL-safe alphabet, four for every three bytes, without padding.
#[verifier::external_body]
pub(crate) fn base64_encode(b: &[u8]) -> (r: String)
    ensures
        r@ == base64_url_encode(b@),
        r@.len() == (4 * b@.len() + 2) / 3,
        forall|i: int| 0 <= i < r@.len() ==> url_safe_char(#[trigger] r@[i]),
{
    BASE64_URL_SAFE_NO_PAD.encode(b)
}

/// Relies on `base64`'s `URL_SAFE_NO_PAD` engine `decode`: it gives back the
/// bytes that `encode` turned into `s`, and fails on text that is not such an
/// encoding.
#[verifier::external_body]
pub(crate) fn base64_decode(s: &str) -> (r: Option<Vec<u8>>)
    ensures
        match r {
            Some(b) => base64_url_decode(s@) == Some(b@),
            None => base64_url_decode(s@) is None,
        },
        forall|b: Seq<u8>| #[trigger] base64_url_encode(b) == s@ ==> r.deep_view() == Some(b),
{
    BASE64_URL_SAFE_NO_PAD.decode(s).ok()
}

/// Relies on `String::from_utf8`: it succeeds exactly on valid UTF-8 and
/// then holds the characters those bytes encode.
#[verifier::external_body]
pub(crate) fn string_from_utf8(b: Vec<u8>) -> (r: Option<String>)
    ensures
        match r {
            Some(s) => valid_utf8(b@) && s@ == decode_utf8(b@),
            None => !valid_utf8(b@),
        },
{
    String::from_utf8(b).ok()
}

/// HMAC-SHA-256 of `msg` under `key` (`None` where the key is refused).
pub uninterp spec fn hmac_sha256(key: Seq<u8>, msg: Seq<u8>) -> Option<Seq<u8>>;

/// Relies on `hmac::Hmac<sha2::Sha256>`: `new_from_slice`, `update` and
/// `finalize`; the tag is a function of key and message, 32 bytes long.
#[verifier::external_body]
pub(crate) fn hmac_sha256_of(key: &[u8], msg: &[u8]) -> (r: Option<Vec<u8>>)
    ensures
        r.deep_view() == hmac_sha256(key@, msg@),
        r matches Some(v) ==> v@.len() == 32,
{
    match <Hmac<Sha256> as Mac>::new_from_slice(key) {
        Ok(mut mac) => {
            mac.update(msg);
            Some(mac.finalize().into_bytes().to_vec())
        },
        Err(_) => None,
    }
}

} // verus!
