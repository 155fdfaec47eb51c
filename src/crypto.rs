use crate::archive_path::{
    all_valid_segments, is_valid_segment, strings_view, valid_segment, ArchivePath,
};
use crate::codec::{
    base64_decode, base64_encode, base64_url_decode, base64_url_encode, siv_decrypt, siv_encrypt,
    siv_open, siv_seal, string_from_utf8, url_safe_char,
};
use vstd::prelude::*;
use vstd::utf8::{decode_utf8, encode_utf8, encode_utf8_decode_utf8, encode_utf8_valid_utf8, valid_utf8};

verus! {

/// The length of an encryption key in bytes.
pub const KEY_LEN: usize = 64;

/// Why a key could not be read.
#[derive(Clone, Copy, Debug, PartialEq, Eq)]
pub enum KeyError {
    /// The text is not URL-safe unpadded base64.
    InvalidBase64,
    /// The decoded key has this many bytes instead of 64.
    InvalidLength(usize),
}

/// Why a path segment could not be encrypted or decrypted.
#[derive(Clone, Copy, Debug, PartialEq, Eq)]
pub enum CryptoError {
    /// The cipher refused to seal the segment.
    Encrypt,
    /// An encrypted segment is not URL-safe unpadded base64.
    Base64,
    /// An encrypted segment does not authenticate under the key.
    Authentication,
    /// A decrypted segment is not UTF-8.
    Utf8,
    /// A decrypted segment is not a valid archive path segment.
    InvalidSegment,
}

/// The 64-byte master key.
#[derive(Clone)]
pub struct EncryptionKey {
    bytes: Vec<u8>,
}

impl View for EncryptionKey {
    type V = Seq<u8>;

    closed spec fn view(&self) -> Seq<u8> {
        self.bytes@
    }
}

/// The key read from the decoded bytes of its text form.
pub open spec fn key_from_bytes_spec(b: Seq<u8>) -> Result<Seq<u8>, KeyError> {
    if b.len() == KEY_LEN {
        Ok(b)
    } else {
        Err(KeyError::InvalidLength(b.len() as usize))
    }
}

/// The key written as URL-safe unpadded base64 text `s`.
pub open spec fn key_from_text_spec(s: Seq<char>) -> Result<Seq<u8>, KeyError> {
    match base64_url_decode(s) {
        Some(b) => key_from_bytes_spec(b),
        None => Err(KeyError::InvalidBase64),
    }
}

impl EncryptionKey {
    pub open spec fn wf(&self) -> bool {
        self@.len() == KEY_LEN
    }

    /// A key from its 64 bytes; any other length is refused.
    pub fn from_bytes(binary: Vec<u8>) -> (r: Result<EncryptionKey, KeyError>)
        ensures
            match key_from_bytes_spec(binary@) {
                Ok(b) => r matches Ok(k) && k@ == b && k.wf(),
                Err(e) => r == Err::<EncryptionKey, KeyError>(e),
            },
    {
        if binary.len() != KEY_LEN {
            return Err(KeyError::InvalidLength(binary.len()));
        }
        Ok(EncryptionKey { bytes: binary })
    }

    /// A key from its URL-safe unpadded base64 text, as configuration files
    /// hold it.
    pub fn from_base64(text: &str) -> (r: Result<EncryptionKey, KeyError>)
        ensures
            match key_from_text_spec(text@) {
                Ok(b) => r matches Ok(k) && k@ == b && k.wf(),
                Err(e) => r == Err::<EncryptionKey, KeyError>(e),
            },
    {
        match base64_decode(text) {
            Some(binary) => EncryptionKey::from_bytes(binary),
            None => Err(KeyError::InvalidBase64),
        }
    }

    /// The key's bytes.
    pub fn as_bytes(&self) -> (r: &[u8])
        ensures
            r@ == self@,
    {
        self.bytes.as_slice()
    }
}

/// The nonce under which path segments are sealed: sixteen zero bytes, so
/// that equal segments give equal ciphertexts.
pub open spec fn path_nonce() -> Seq<u8> {
    Seq::new(16, |i: int| 0u8)
}

/// Sixteen zero bytes.
pub fn zero_nonce() -> (r: Vec<u8>)
    ensures
        r@ == path_nonce(),
{
    let mut v: Vec<u8> = Vec::new();
    while v.len() < 16
        invariant
            v@.len() <= 16,
            forall|i: int| 0 <= i < v@.len() ==> v@[i] == 0u8,
        decreases 16 - v@.len(),
    {
        v.push(0u8);
    }
    assert(v@ =~= path_nonce());
    v
}

/// The associated data under which path segments are sealed: the bytes of
/// the word `path`.
pub open spec fn path_aad() -> Seq<u8> {
    encode_utf8(seq!['p', 'a', 't', 'h'])
}

/// The encrypted form of one plaintext segment.
pub open spec fn encrypt_segment_spec(key: Seq<u8>, s: Seq<char>) -> Result<Seq<char>, CryptoError> {
    match siv_seal(key, path_nonce(), path_aad(), encode_utf8(s)) {
        Some(c) => Ok(base64_url_encode(c)),
        None => Err(CryptoError::Encrypt),
    }
}

/// The plaintext of one encrypted segment.
pub open spec fn decrypt_segment_spec(key: Seq<u8>, c: Seq<char>) -> Result<Seq<char>, CryptoError> {
    match base64_url_decode(c) {
        None => Err(CryptoError::Base64),
        Some(b) => match siv_open(key, path_nonce(), path_aad(), b) {
            None => Err(CryptoError::Authentication),
            Some(p) => if valid_utf8(p) {
                Ok(decode_utf8(p))
            } else {
                Err(CryptoError::Utf8)
            },
        },
    }
}

/// Encrypts one segment: the same key and segment always give the same text,
/// which is a valid archive path segment of at least 22 characters.
pub fn encrypt_segment(key: &EncryptionKey, s: &str) -> (r: Result<String, CryptoError>)
    requires
        key.wf(),
    ensures
        match encrypt_segment_spec(key@, s@) {
            Ok(c) => r matches Ok(t) && t@ == c && valid_segment(c) && c.len() >= 22,
            Err(e) => r == Err::<String, CryptoError>(e),
        },
{
    let aad = "path".as_bytes();
    proof {
        reveal_strlit("path");
        assert("path"@ =~= seq!['p', 'a', 't', 'h']);
    }
    match siv_encrypt(key.as_bytes(), zero_nonce().as_slice(), aad, s.as_bytes()) {
        None => Err(CryptoError::Encrypt),
        Some(ct) => {
            let t = base64_encode(ct.as_slice());
            proof {
                assert(t@.len() >= 22);
                assert(t@[0] != '.');
                assert forall|i: int| 0 <= i < t@.len() implies t@[i] != '/' && t@[i] != '\\'
                    && t@[i] != '\0' by {
                    assert(url_safe_char(t@[i]));
                }
                assert(t@ != seq!['.']) by {
                    if t@ == seq!['.'] {
                        assert(t@[0] == '.');
                    }
                }
                assert(t@ != seq!['.', '.']) by {
                    if t@ == seq!['.', '.'] {
                        assert(t@[0] == '.');
                    }
                }
            }
            Ok(t)
        },
    }
}

/// Decrypts one segment; on the output of `encrypt_segment` under the same
/// key it gives back the plaintext segment.
pub fn decrypt_segment(key: &EncryptionKey, c: &str) -> (r: Result<String, CryptoError>)
    requires
        key.wf(),
    ensures
        match decrypt_segment_spec(key@, c@) {
            Ok(p) => r matches Ok(t) && t@ == p,
            Err(e) => r == Err::<String, CryptoError>(e),
        },
        forall|s: Seq<char>|
            #[trigger] encrypt_segment_spec(key@, s) == Ok::<Seq<char>, CryptoError>(c@) ==> (r matches Ok(
                t,
            ) && t@ == s),
{
    let aad = "path".as_bytes();
    proof {
        reveal_strlit("path");
        assert("path"@ =~= seq!['p', 'a', 't', 'h']);
    }
    let bytes = match base64_decode(c) {
        None => {
            return Err(CryptoError::Base64);
        },
        Some(b) => b,
    };
    assert(bytes.deep_view() =~= bytes@);
    let plain = match siv_decrypt(key.as_bytes(), zero_nonce().as_slice(), aad, bytes.as_slice()) {
        None => {
            proof {
                assert forall|s: Seq<char>|
                    #[trigger] encrypt_segment_spec(key@, s) != Ok::<Seq<char>, CryptoError>(c@) by {
                    if encrypt_segment_spec(key@, s) == Ok::<Seq<char>, CryptoError>(c@) {
                        let ct = siv_seal(key@, path_nonce(), path_aad(), encode_utf8(s)).unwrap();
                        assert(base64_url_encode(ct) == c@);
                        assert(bytes@ == ct);
                    }
                }
            }
            return Err(CryptoError::Authentication);
        },
        Some(p) => p,
    };
    assert(plain.deep_view() =~= plain@);
    let ghost pv = plain@;
    match string_from_utf8(plain) {
        None => {
            proof {
                assert forall|s: Seq<char>|
                    #[trigger] encrypt_segment_spec(key@, s) != Ok::<Seq<char>, CryptoError>(c@) by {
                    if encrypt_segment_spec(key@, s) == Ok::<Seq<char>, CryptoError>(c@) {
                        let ct = siv_seal(key@, path_nonce(), path_aad(), encode_utf8(s)).unwrap();
                        assert(base64_url_encode(ct) == c@);
                        assert(bytes@ == ct);
                        assert(pv == encode_utf8(s));
                        encode_utf8_valid_utf8(s);
                    }
                }
            }
            Err(CryptoError::Utf8)
        },
        Some(t) => {
            proof {
                assert forall|s: Seq<char>|
                    #[trigger] encrypt_segment_spec(key@, s) == Ok::<Seq<char>, CryptoError>(c@)
                        implies t@ == s by {
                    let ct = siv_seal(key@, path_nonce(), path_aad(), encode_utf8(s)).unwrap();
                    assert(base64_url_encode(ct) == c@);
                    assert(bytes@ == ct);
                    assert(pv == encode_utf8(s));
                    encode_utf8_decode_utf8(s);
                }
            }
            Ok(t)
        },
    }
}

/// Every segment of `segs` encrypts.
pub open spec fn all_encrypt(key: Seq<u8>, segs: Seq<Seq<char>>) -> bool {
    forall|i: int| 0 <= i < segs.len() ==> (#[trigger] encrypt_segment_spec(key, segs[i])) is Ok
}

/// `enc` is `segs` encrypted segment by segment.
pub open spec fn encrypts_to(key: Seq<u8>, segs: Seq<Seq<char>>, enc: Seq<Seq<char>>) -> bool {
    &&& enc.len() == segs.len()
    &&& forall|i: int|
        0 <= i < segs.len() ==> #[trigger] encrypt_segment_spec(key, segs[i]) == Ok::<
            Seq<char>,
            CryptoError,
        >(enc[i])
}

/// An encrypted segment that decrypts to a valid plaintext segment.
pub open spec fn decrypts_valid(key: Seq<u8>, c: Seq<char>) -> bool {
    decrypt_segment_spec(key, c) matches Ok(p) && valid_segment(p)
}

/// `plain` is `enc` decrypted segment by segment.
pub open spec fn decrypts_to(key: Seq<u8>, enc: Seq<Seq<char>>, plain: Seq<Seq<char>>) -> bool {
    &&& plain.len() == enc.len()
    &&& forall|i: int|
        0 <= i < enc.len() ==> #[trigger] decrypt_segment_spec(key, enc[i]) == Ok::<
            Seq<char>,
            CryptoError,
        >(plain[i])
}

/// Encrypts every segment of `path` on its own, keeping their order and
/// nesting; the result is again a valid archive path.
pub fn encrypt_path(path: &ArchivePath, key: &EncryptionKey) -> (r: Result<ArchivePath, CryptoError>)
    requires
        path.wf(),
        key.wf(),
    ensures
        all_encrypt(key@, path@) ==> (r matches Ok(p) && p.wf() && encrypts_to(key@, path@, p@)),
        !all_encrypt(key@, path@) ==> r == Err::<ArchivePath, CryptoError>(CryptoError::Encrypt),
{
    let n = path.len();
    let mut out: Vec<String> = Vec::new();
    let mut i: usize = 0;
    while i < n
        invariant
            key.wf(),
            n == path@.len(),
            i <= n,
            out@.len() == i,
            forall|j: int|
                0 <= j < i ==> encrypt_segment_spec(key@, path@[j]) == Ok::<Seq<char>, CryptoError>(
                    (#[trigger] out@[j])@,
                ) && valid_segment(out@[j]@),
        decreases n - i,
    {
        match encrypt_segment(key, path.segment(i)) {
            Ok(c) => {
                out.push(c);
            },
            Err(e) => {
                assert(!(encrypt_segment_spec(key@, path@[i as int]) is Ok));
                return Err(e);
            },
        }
        i = i + 1;
    }
    proof {
        assert forall|j: int| 0 <= j < n implies valid_segment(#[trigger] strings_view(out@)[j]) by {
            assert(valid_segment(out@[j]@));
        }
        assert forall|j: int| 0 <= j < n implies #[trigger] encrypt_segment_spec(key@, path@[j])
            == Ok::<Seq<char>, CryptoError>(strings_view(out@)[j]) by {
            assert(encrypt_segment_spec(key@, path@[j]) == Ok::<Seq<char>, CryptoError>(
                out@[j]@,
            ));
        }
    }
    Ok(ArchivePath::from_valid_segments(out))
}

/// Decrypts every segment of an encrypted path. It succeeds exactly when
/// each segment decrypts to a valid plaintext segment; on the output of
/// `encrypt_path` under the same key it gives back the original path.
pub fn decrypt_path(enc: &ArchivePath, key: &EncryptionKey) -> (r: Result<ArchivePath, CryptoError>)
    requires
        enc.wf(),
        key.wf(),
    ensures
        (forall|i: int| 0 <= i < enc@.len() ==> decrypts_valid(key@, #[trigger] enc@[i])) <==> r is Ok,
        r matches Ok(p) ==> p.wf() && decrypts_to(key@, enc@, p@),
        forall|plain: Seq<Seq<char>>|
            all_valid_segments(plain) && #[trigger] encrypts_to(key@, plain, enc@) ==> (r matches Ok(
                p,
            ) && p@ == plain),
{
    let n = enc.len();
    let mut out: Vec<String> = Vec::new();
    let mut i: usize = 0;
    while i < n
        invariant
            key.wf(),
            enc.wf(),
            n == enc@.len(),
            i <= n,
            out@.len() == i,
            forall|j: int|
                0 <= j < i ==> decrypt_segment_spec(key@, enc@[j]) == Ok::<Seq<char>, CryptoError>(
                    (#[trigger] out@[j])@,
                ) && valid_segment(out@[j]@),
            forall|plain: Seq<Seq<char>>|
                all_valid_segments(plain) && #[trigger] encrypts_to(key@, plain, enc@) ==> forall|
                    j: int,
                | 0 <= j < i ==> (#[trigger] out@[j])@ == plain[j],
        decreases n - i,
    {
        let seg = enc.segment(i);
        let d = decrypt_segment(key, seg);
        proof {
            assert forall|plain: Seq<Seq<char>>|
                all_valid_segments(plain) && #[trigger] encrypts_to(key@, plain, enc@) implies (d matches Ok(
                t,
            ) && t@ == plain[i as int]) && valid_segment(plain[i as int]) by {
                assert(encrypt_segment_spec(key@, plain[i as int]) == Ok::<Seq<char>, CryptoError>(
                    enc@[i as int],
                ));
            }
        }
        match d {
            Ok(t) => {
                if !is_valid_segment(t.as_str()) {
                    return Err(CryptoError::InvalidSegment);
                }
                out.push(t);
            },
            Err(e) => {
                return Err(e);
            },
        }
        i = i + 1;
    }
    proof {
        assert forall|j: int| 0 <= j < n implies valid_segment(#[trigger] strings_view(out@)[j]) by {
            assert(valid_segment(out@[j]@));
        }
        assert forall|j: int| 0 <= j < n implies #[trigger] decrypt_segment_spec(key@, enc@[j])
            == Ok::<Seq<char>, CryptoError>(strings_view(out@)[j]) by {
            assert(decrypt_segment_spec(key@, enc@[j]) == Ok::<Seq<char>, CryptoError>(out@[j]@));
        }
        assert forall|plain: Seq<Seq<char>>|
            all_valid_segments(plain) && #[trigger] encrypts_to(key@, plain, enc@) implies strings_view(
            out@,
        ) == plain by {
            assert(strings_view(out@) =~= plain);
        }
    }
    Ok(ArchivePath::from_valid_segments(out))
}

} // verus!
