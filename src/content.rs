use crate::codec::{hmac_sha256, hmac_sha256_of, siv_decrypt, siv_encrypt, siv_open, siv_seal};
use crate::sync::ContentHash;
use crate::crypto::{CryptoError, EncryptionKey};
use vstd::prelude::*;

verus! {

/// Plaintext bytes per frame.
pub const FRAME_LEN: usize = 65536;

/// Length of the random file nonce that heads every encrypted body.
pub const FILE_NONCE_LEN: usize = 12;

/// Bytes that sealing adds to each frame.
pub const TAG_LEN: usize = 16;

/// Frames needed for a body of `n` bytes; an empty body still has one
/// (empty) frame, so that its end is authenticated.
pub open spec fn frame_count(n: nat) -> nat {
    if n == 0 {
        1
    } else {
        ((n + FRAME_LEN - 1) as nat) / (FRAME_LEN as nat)
    }
}

/// The plaintext of frame `k` of body `b`.
pub open spec fn frame_plain(b: Seq<u8>, k: nat) -> Seq<u8> {
    let start = k * FRAME_LEN;
    let end = if (k + 1) * FRAME_LEN < b.len() {
        (k + 1) * FRAME_LEN
    } else {
        b.len() as int
    };
    b.subrange(start as int, end)
}

/// The four little-endian bytes of `k`.
pub open spec fn le4(k: nat) -> Seq<u8> {
    seq![
        (k % 256) as u8,
        ((k / 256) % 256) as u8,
        ((k / 65536) % 256) as u8,
        ((k / 16777216) % 256) as u8,
    ]
}

/// The nonce of frame `k`: the file nonce followed by the frame index.
pub open spec fn frame_nonce(file_nonce: Seq<u8>, k: nat) -> Seq<u8> {
    file_nonce + le4(k)
}

/// The associated data of a frame: one byte that marks the last frame, so
/// that a body cut short at a frame boundary does not authenticate.
pub open spec fn frame_aad(last: bool) -> Seq<u8> {
    seq![if last { 1u8 } else { 0u8 }]
}

/// Frame `k` of body `b` sealed, where the body has `count` frames.
pub open spec fn sealed_frame(key: Seq<u8>, file_nonce: Seq<u8>, b: Seq<u8>, k: nat, count: nat) -> Option<
    Seq<u8>,
> {
    let m = frame_plain(b, k);
    match siv_seal(key, frame_nonce(file_nonce, k), frame_aad(k + 1 == count), m) {
        Some(c) => if c.len() == m.len() + TAG_LEN {
            Some(c)
        } else {
            None
        },
        None => None,
    }
}

/// The file nonce followed by the first `k` sealed frames of `b`.
pub open spec fn sealed_prefix(key: Seq<u8>, file_nonce: Seq<u8>, b: Seq<u8>, k: nat) -> Option<Seq<u8>>
    decreases k,
{
    if k == 0 {
        Some(file_nonce)
    } else {
        match sealed_prefix(key, file_nonce, b, (k - 1) as nat) {
            Some(p) => match sealed_frame(key, file_nonce, b, (k - 1) as nat, frame_count(b.len())) {
                Some(c) => Some(p + c),
                None => None,
            },
            None => None,
        }
    }
}

/// The encrypted form of body `b` under `key` with file nonce `file_nonce`.
pub open spec fn encrypt_content_spec(key: Seq<u8>, file_nonce: Seq<u8>, b: Seq<u8>) -> Option<Seq<u8>> {
    sealed_prefix(key, file_nonce, b, frame_count(b.len()))
}

/// The bytes `b[start..end]`, copied.
fn copy_range(b: &[u8], start: usize, end: usize) -> (r: Vec<u8>)
    requires
        start <= end <= b@.len(),
    ensures
        r@ == b@.subrange(start as int, end as int),
{
    let mut out: Vec<u8> = Vec::new();
    let mut i: usize = start;
    while i < end
        invariant
            start <= i <= end <= b@.len(),
            out@ == b@.subrange(start as int, i as int),
        decreases end - i,
    {
        out.push(b[i]);
        assert(out@ =~= b@.subrange(start as int, i + 1));
        i = i + 1;
    }
    out
}

/// The nonce of frame `k`.
fn make_frame_nonce(file_nonce: &[u8], k: u32) -> (r: Vec<u8>)
    requires
        file_nonce@.len() == FILE_NONCE_LEN,
    ensures
        r@ == frame_nonce(file_nonce@, k as nat),
        r@.len() == 16,
{
    let mut v = copy_range(file_nonce, 0, FILE_NONCE_LEN);
    v.push((k % 256) as u8);
    v.push(((k / 256) % 256) as u8);
    v.push(((k / 65536) % 256) as u8);
    v.push(((k / 16777216) % 256) as u8);
    assert(v@ =~= frame_nonce(file_nonce@, k as nat));
    v
}

/// The associated data of a frame.
fn make_frame_aad(last: bool) -> (r: Vec<u8>)
    ensures
        r@ == frame_aad(last),
{
    let mut v: Vec<u8> = Vec::new();
    v.push(if last { 1u8 } else { 0u8 });
    assert(v@ =~= frame_aad(last));
    v
}

/// The number of frames for a body of `n` bytes.
fn count_frames(n: usize) -> (r: usize)
    ensures
        r == frame_count(n as nat),
{
    if n == 0 {
        1
    } else {
        n / FRAME_LEN + if n % FRAME_LEN == 0 { 0usize } else { 1usize }
    }
}

proof fn lemma_prefix_none_stays(key: Seq<u8>, file_nonce: Seq<u8>, b: Seq<u8>, j: nat, k: nat)
    requires
        j <= k,
        sealed_prefix(key, file_nonce, b, j) is None,
    ensures
        sealed_prefix(key, file_nonce, b, k) is None,
    decreases k - j,
{
    if j < k {
        lemma_prefix_none_stays(key, file_nonce, b, j, (k - 1) as nat);
    }
}

proof fn lemma_frame_bounds(n: nat, k: nat)
    requires
        k < frame_count(n),
    ensures
        k * FRAME_LEN <= n,
        n > 0 ==> k * FRAME_LEN < n,
{
    if n > 0 {
        let ni = n as int;
        let ki = k as int;
        assert(ki < (ni + 65535) / 65536);
        assert(ki * 65536 < ni) by (nonlinear_arith)
            requires
                ki < (ni + 65535) / 65536,
                ni > 0,
        ;
    }
}

/// Encrypts a file body: the file nonce, then each frame of at most
/// `FRAME_LEN` bytes sealed under its own nonce (file nonce and frame
/// index), the last frame marked as such.
pub fn encrypt_content(key: &EncryptionKey, file_nonce: &[u8], body: &[u8]) -> (r: Result<Vec<u8>, CryptoError>)
    requires
        key.wf(),
        file_nonce@.len() == FILE_NONCE_LEN,
        body@.len() <= usize::MAX / 2,
        frame_count(body@.len()) <= u32::MAX,
    ensures
        match encrypt_content_spec(key@, file_nonce@, body@) {
            Some(c) => r matches Ok(v) && v@ == c,
            None => r == Err::<Vec<u8>, CryptoError>(CryptoError::Encrypt),
        },
{
    let n = body.len();
    let count = count_frames(n);
    let mut out = copy_range(file_nonce, 0, FILE_NONCE_LEN);
    assert(out@ =~= file_nonce@);
    let mut k: usize = 0;
    while k < count
        invariant
            key.wf(),
            file_nonce@.len() == FILE_NONCE_LEN,
            n == body@.len(),
            n <= usize::MAX / 2,
            count == frame_count(n as nat),
            count <= u32::MAX,
            k <= count,
            sealed_prefix(key@, file_nonce@, body@, k as nat) == Some(out@),
            out@.len() <= FILE_NONCE_LEN + k * FRAME_LEN + k * TAG_LEN,
        decreases count - k,
    {
        proof {
            lemma_frame_bounds(n as nat, k as nat);
        }
        let start = k * FRAME_LEN;
        let end = if start + FRAME_LEN < n {
            start + FRAME_LEN
        } else {
            n
        };
        let frame = copy_range(body, start, end);
        let nonce = make_frame_nonce(file_nonce, k as u32);
        let aad = make_frame_aad(k + 1 == count);
        match siv_encrypt(key.as_bytes(), nonce.as_slice(), aad.as_slice(), frame.as_slice()) {
            None => {
                proof {
                    lemma_prefix_none_stays(key@, file_nonce@, body@, (k + 1) as nat, count as nat);
                }
                return Err(CryptoError::Encrypt);
            },
            Some(c) => {
                let mut c = c;
                let ghost before = out@;
                let ghost sealed = c@;
                out.append(&mut c);
                proof {
                    assert(frame@ == frame_plain(body@, k as nat));
                    assert(sealed_frame(key@, file_nonce@, body@, k as nat, count as nat) == Some(sealed));
                    assert(out@ == before + sealed);
                    assert(sealed.len() <= FRAME_LEN + TAG_LEN);
                    assert(out@.len() <= FILE_NONCE_LEN + (k + 1) * FRAME_LEN + (k + 1) * TAG_LEN) by (nonlinear_arith)
                        requires
                            out@.len() == before.len() + sealed.len(),
                            before.len() <= FILE_NONCE_LEN + k * FRAME_LEN + k * TAG_LEN,
                            sealed.len() <= FRAME_LEN + TAG_LEN,
                    ;
                }
            },
        }
        k = k + 1;
    }
    Ok(out)
}

/// Bytes of one full sealed frame.
pub const CHUNK_LEN: usize = 65552;

/// Sealed frames in an encrypted body of `len` bytes.
pub open spec fn chunk_count(len: nat) -> nat {
    if len <= FILE_NONCE_LEN {
        0
    } else {
        ((len - FILE_NONCE_LEN + CHUNK_LEN - 1) as nat) / (CHUNK_LEN as nat)
    }
}

/// Where sealed frame `k` of an encrypted body of `len` bytes ends.
pub open spec fn chunk_end(len: nat, k: nat) -> int {
    if FILE_NONCE_LEN + (k + 1) * CHUNK_LEN < len {
        FILE_NONCE_LEN + (k + 1) * CHUNK_LEN
    } else {
        len as int
    }
}

/// Sealed frame `k` of the encrypted body `data`.
pub open spec fn chunk(data: Seq<u8>, k: nat) -> Seq<u8> {
    data.subrange(FILE_NONCE_LEN + k * CHUNK_LEN, chunk_end(data.len(), k))
}

/// The plaintext of the first `k` sealed frames of `data`, or `None` where
/// one of them does not authenticate.
pub open spec fn opened_prefix(key: Seq<u8>, data: Seq<u8>, k: nat) -> Option<Seq<u8>>
    decreases k,
{
    if k == 0 {
        Some(Seq::empty())
    } else {
        match opened_prefix(key, data, (k - 1) as nat) {
            Some(p) => match siv_open(
                key,
                frame_nonce(data.take(FILE_NONCE_LEN as int), (k - 1) as nat),
                frame_aad(chunk_end(data.len(), (k - 1) as nat) == data.len()),
                chunk(data, (k - 1) as nat),
            ) {
                Some(m) => Some(p + m),
                None => None,
            },
            None => None,
        }
    }
}

/// The plaintext of the encrypted body `data`, or `None` where it is too
/// short, holds more frames than a 32-bit index numbers, or does not
/// authenticate.
pub open spec fn decrypt_content_spec(key: Seq<u8>, data: Seq<u8>) -> Option<Seq<u8>> {
    if data.len() <= FILE_NONCE_LEN || chunk_count(data.len()) > u32::MAX as nat + 1 {
        None
    } else {
        opened_prefix(key, data, chunk_count(data.len()))
    }
}

proof fn lemma_chunk_position(len: nat, k: nat)
    requires
        len > FILE_NONCE_LEN,
    ensures
        FILE_NONCE_LEN + k * CHUNK_LEN < len <==> k < chunk_count(len),
{
    let l = (len - 12) as int;
    let ki = k as int;
    assert(ki * 65552 < l <==> ki < (l + 65551) / 65552) by (nonlinear_arith)
        requires
            l > 0,
            ki >= 0,
    ;
}

proof fn lemma_opened_none_stays(key: Seq<u8>, data: Seq<u8>, j: nat, k: nat)
    requires
        j <= k,
        opened_prefix(key, data, j) is None,
    ensures
        opened_prefix(key, data, k) is None,
    decreases k - j,
{
    if j < k {
        lemma_opened_none_stays(key, data, j, (k - 1) as nat);
    }
}

proof fn lemma_count_covers(n: nat)
    ensures
        frame_count(n) >= 1,
        n <= frame_count(n) * FRAME_LEN,
{
    if n > 0 {
        let ni = n as int;
        let c = (ni + 65535) / 65536;
        assert(ni <= c * 65536 && c >= 1) by (nonlinear_arith)
            requires
                ni > 0,
                c == (ni + 65535) / 65536,
        ;
    }
}

proof fn lemma_frame_len(b: Seq<u8>, k: nat)
    requires
        k < frame_count(b.len()),
    ensures
        k + 1 < frame_count(b.len()) ==> frame_plain(b, k).len() == FRAME_LEN,
        frame_plain(b, k).len() <= FRAME_LEN,
        k * FRAME_LEN <= b.len(),
{
    lemma_frame_bounds(b.len(), k);
    assert((k + 1) * FRAME_LEN == k * FRAME_LEN + FRAME_LEN) by (nonlinear_arith);
    if k + 1 < frame_count(b.len()) {
        lemma_frame_bounds(b.len(), k + 1);
    }
}

proof fn lemma_prefix_len(key: Seq<u8>, file_nonce: Seq<u8>, b: Seq<u8>, j: nat)
    requires
        file_nonce.len() == FILE_NONCE_LEN,
        j < frame_count(b.len()),
        sealed_prefix(key, file_nonce, b, j) is Some,
    ensures
        sealed_prefix(key, file_nonce, b, j).unwrap().len() == FILE_NONCE_LEN + j * CHUNK_LEN,
    decreases j,
{
    if j > 0 {
        let jm = (j - 1) as nat;
        lemma_prefix_len(key, file_nonce, b, jm);
        lemma_frame_len(b, jm);
        assert(FILE_NONCE_LEN + jm * CHUNK_LEN + CHUNK_LEN == FILE_NONCE_LEN + j * CHUNK_LEN) by (nonlinear_arith)
            requires
                jm + 1 == j,
        ;
    }
}

proof fn lemma_prefix_of(key: Seq<u8>, file_nonce: Seq<u8>, b: Seq<u8>, j: nat, m: nat)
    requires
        j <= m,
        sealed_prefix(key, file_nonce, b, m) is Some,
    ensures
        sealed_prefix(key, file_nonce, b, j) is Some,
        sealed_prefix(key, file_nonce, b, j).unwrap().len() <= sealed_prefix(key, file_nonce, b, m).unwrap().len(),
        sealed_prefix(key, file_nonce, b, m).unwrap().take(
            sealed_prefix(key, file_nonce, b, j).unwrap().len() as int,
        ) == sealed_prefix(key, file_nonce, b, j).unwrap(),
    decreases m - j,
{
    if j < m {
        let mm = (m - 1) as nat;
        lemma_prefix_of(key, file_nonce, b, j, mm);
        let pj = sealed_prefix(key, file_nonce, b, j).unwrap();
        let pm1 = sealed_prefix(key, file_nonce, b, mm).unwrap();
        let pm = sealed_prefix(key, file_nonce, b, m).unwrap();
        assert(pm.take(pj.len() as int) =~= pm1.take(pj.len() as int));
    } else {
        let pm = sealed_prefix(key, file_nonce, b, m).unwrap();
        assert(pm.take(pm.len() as int) =~= pm);
    }
}

/// Frame `k` of an encrypted body, as the decrypting side cuts it, is the
/// frame that was sealed.
proof fn lemma_chunk_is_frame(key: Seq<u8>, file_nonce: Seq<u8>, b: Seq<u8>, data: Seq<u8>, k: nat)
    requires
        file_nonce.len() == FILE_NONCE_LEN,
        encrypt_content_spec(key, file_nonce, b) == Some(data),
        k < frame_count(b.len()),
    ensures
        sealed_frame(key, file_nonce, b, k, frame_count(b.len())) == Some(chunk(data, k)),
        (chunk_end(data.len(), k) == data.len()) == (k + 1 == frame_count(b.len())),
        FILE_NONCE_LEN + k * CHUNK_LEN < data.len(),
        FILE_NONCE_LEN + (k + 1) * CHUNK_LEN >= data.len() <==> k + 1 == frame_count(b.len()),
{
    let count = frame_count(b.len());
    lemma_prefix_of(key, file_nonce, b, k, count);
    lemma_prefix_of(key, file_nonce, b, k + 1, count);
    lemma_prefix_len(key, file_nonce, b, k);
    lemma_frame_len(b, k);
    let pk = sealed_prefix(key, file_nonce, b, k).unwrap();
    let pk1 = sealed_prefix(key, file_nonce, b, k + 1).unwrap();
    let c = sealed_frame(key, file_nonce, b, k, count).unwrap();
    assert(pk1 == pk + c);
    assert(data.take(pk1.len() as int) == pk1);
    assert((k + 1) * CHUNK_LEN == k * CHUNK_LEN + CHUNK_LEN) by (nonlinear_arith);
    if k + 1 < count {
        lemma_prefix_len(key, file_nonce, b, k + 1);
        lemma_prefix_of(key, file_nonce, b, k + 2, count);
        lemma_frame_len(b, k + 1);
        let pk2 = sealed_prefix(key, file_nonce, b, k + 2).unwrap();
        assert(pk2.len() == pk1.len() + sealed_frame(key, file_nonce, b, k + 1, count).unwrap().len());
        assert(chunk(data, k) =~= data.take(pk1.len() as int).subrange(pk.len() as int, pk1.len() as int));
        assert(chunk(data, k) =~= c);
    } else {
        assert(pk1 == data);
        assert(chunk(data, k) =~= c);
    }
}

/// An encrypted body is cut into as many frames as were sealed.
proof fn lemma_chunk_count(key: Seq<u8>, file_nonce: Seq<u8>, b: Seq<u8>, data: Seq<u8>)
    requires
        file_nonce.len() == FILE_NONCE_LEN,
        encrypt_content_spec(key, file_nonce, b) == Some(data),
    ensures
        data.len() > FILE_NONCE_LEN,
        chunk_count(data.len()) == frame_count(b.len()),
{
    let count = frame_count(b.len());
    lemma_count_covers(b.len());
    lemma_chunk_is_frame(key, file_nonce, b, data, (count - 1) as nat);
    lemma_chunk_position(data.len(), (count - 1) as nat);
    lemma_chunk_position(data.len(), count);
}

/// The first `k` frames of body `b`, joined.
pub open spec fn body_prefix(b: Seq<u8>, k: nat) -> Seq<u8> {
    if k * FRAME_LEN < b.len() {
        b.take(k * FRAME_LEN)
    } else {
        b
    }
}

/// `data` is what `encrypt_content` makes of body `b` with file nonce
/// `file_nonce`.
pub open spec fn encrypts_body_to(key: Seq<u8>, file_nonce: Seq<u8>, b: Seq<u8>, data: Seq<u8>) -> bool {
    &&& file_nonce.len() == FILE_NONCE_LEN
    &&& frame_count(b.len()) <= u32::MAX
    &&& encrypt_content_spec(key, file_nonce, b) == Some(data)
}

/// Decrypts a body that `encrypt_content` produced, checking every frame;
/// on such a body it gives back the plaintext that was encrypted.
pub fn decrypt_content(key: &EncryptionKey, data: &[u8]) -> (r: Result<Vec<u8>, CryptoError>)
    requires
        key.wf(),
        data@.len() <= usize::MAX / 2,
    ensures
        match decrypt_content_spec(key@, data@) {
            Some(b) => r matches Ok(v) && v@ == b,
            None => r == Err::<Vec<u8>, CryptoError>(CryptoError::Authentication),
        },
        forall|b: Seq<u8>, file_nonce: Seq<u8>|
            #[trigger] encrypts_body_to(key@, file_nonce, b, data@) ==> (r matches Ok(v) && v@ == b),
{
    let len = data.len();
    if len <= FILE_NONCE_LEN {
        proof {
            assert forall|b: Seq<u8>, n: Seq<u8>| !#[trigger] encrypts_body_to(key@, n, b, data@) by {
                if encrypts_body_to(key@, n, b, data@) {
                    lemma_chunk_count(key@, n, b, data@);
                }
            }
        }
        return Err(CryptoError::Authentication);
    }
    let file_nonce = copy_range(data, 0, FILE_NONCE_LEN);
    let mut out: Vec<u8> = Vec::new();
    let mut pos: usize = FILE_NONCE_LEN;
    let mut k: usize = 0;
    proof {
        lemma_chunk_position(len as nat, 0);
        assert(out@ =~= Seq::<u8>::empty());
        assert forall|b: Seq<u8>, n: Seq<u8>| #[trigger] encrypts_body_to(key@, n, b, data@) implies n
            == data@.take(FILE_NONCE_LEN as int) && chunk_count(len as nat) == frame_count(b.len())
            && out@ == body_prefix(b, 0) by {
            lemma_chunk_count(key@, n, b, data@);
            lemma_prefix_of(key@, n, b, 0, frame_count(b.len()));
            assert(b.take(0) =~= Seq::<u8>::empty());
        }
    }
    while pos < len
        invariant
            key.wf(),
            len == data@.len(),
            len <= usize::MAX / 2,
            len > FILE_NONCE_LEN,
            file_nonce@ == data@.take(FILE_NONCE_LEN as int),
            k <= chunk_count(len as nat),
            k <= u32::MAX as nat + 1,
            pos < len <==> k < chunk_count(len as nat),
            pos < len ==> pos == FILE_NONCE_LEN + k * CHUNK_LEN,
            pos <= len,
            opened_prefix(key@, data@, k as nat) == Some(out@),
            forall|b: Seq<u8>, n: Seq<u8>| #[trigger]
                encrypts_body_to(key@, n, b, data@) ==> n == data@.take(FILE_NONCE_LEN as int)
                    && chunk_count(len as nat) == frame_count(b.len()) && out@ == body_prefix(b, k as nat),
        decreases len - pos,
    {
        if k > 4294967295 {
            proof {
                assert(chunk_count(len as nat) > u32::MAX as nat + 1);
                assert forall|b: Seq<u8>, n: Seq<u8>| !#[trigger] encrypts_body_to(key@, n, b, data@) by {
                }
            }
            return Err(CryptoError::Authentication);
        }
        let end = if pos + CHUNK_LEN < len {
            pos + CHUNK_LEN
        } else {
            len
        };
        assert(end == chunk_end(len as nat, k as nat));
        let piece = copy_range(data, pos, end);
        let nonce = make_frame_nonce(file_nonce.as_slice(), k as u32);
        let aad = make_frame_aad(end == len);
        proof {
            assert forall|b: Seq<u8>, n: Seq<u8>| #[trigger] encrypts_body_to(key@, n, b, data@) implies siv_seal(
                key@,
                nonce@,
                aad@,
                frame_plain(b, k as nat),
            ) == Some(piece@) by {
                lemma_chunk_is_frame(key@, n, b, data@, k as nat);
                assert(piece@ == chunk(data@, k as nat));
            }
        }
        let ghost before = out@;
        match siv_decrypt(key.as_bytes(), nonce.as_slice(), aad.as_slice(), piece.as_slice()) {
            None => {
                proof {
                    lemma_opened_none_stays(key@, data@, (k + 1) as nat, chunk_count(len as nat));
                    assert forall|b: Seq<u8>, n: Seq<u8>| !#[trigger] encrypts_body_to(key@, n, b, data@) by {
                        if encrypts_body_to(key@, n, b, data@) {
                            assert(siv_seal(key@, nonce@, aad@, frame_plain(b, k as nat)) == Some(piece@));
                        }
                    }
                }
                return Err(CryptoError::Authentication);
            },
            Some(m) => {
                let mut m = m;
                let ghost mv = m@;
                proof {
                    assert(m.deep_view() =~= mv);
                    assert forall|b: Seq<u8>, n: Seq<u8>| #[trigger] encrypts_body_to(key@, n, b, data@) implies mv
                        == frame_plain(b, k as nat) by {
                        assert(siv_seal(key@, nonce@, aad@, frame_plain(b, k as nat)) == Some(piece@));
                    }
                }
                out.append(&mut m);
                proof {
                    assert forall|b: Seq<u8>, n: Seq<u8>| #[trigger] encrypts_body_to(key@, n, b, data@) implies out@
                        == body_prefix(b, (k + 1) as nat) by {
                        lemma_frame_len(b, k as nat);
                        let f = FRAME_LEN as int;
                        assert((k + 1) * f == k * f + f) by (nonlinear_arith);
                        if k * f < b.len() {
                            assert(before == b.take(k * FRAME_LEN));
                        } else {
                            assert(k * f == b.len());
                            assert(before == b);
                        }
                        if (k + 1) * f < b.len() {
                            assert(out@ =~= b.take((k + 1) * FRAME_LEN));
                        } else {
                            assert(out@ =~= b);
                        }
                    }
                }
            },
        }
        proof {
            lemma_chunk_position(len as nat, (k + 1) as nat);
            assert(FILE_NONCE_LEN + (k + 1) * CHUNK_LEN == pos + CHUNK_LEN) by (nonlinear_arith)
                requires
                    pos == FILE_NONCE_LEN + k * CHUNK_LEN,
            ;
        }
        pos = end;
        k = k + 1;
    }
    proof {
        assert forall|b: Seq<u8>, n: Seq<u8>| #[trigger] encrypts_body_to(key@, n, b, data@) implies out@
            == b by {
            lemma_count_covers(b.len());
        }
    }
    Ok(out)
}

/// The little-endian 64-bit word at bytes `i .. i + 8` of `b`.
pub open spec fn word_le(b: Seq<u8>, i: int) -> u64 {
    (b[i] as u64) | ((b[i + 1] as u64) << 8u64) | ((b[i + 2] as u64) << 16u64) | ((b[i + 3] as u64)
        << 24u64) | ((b[i + 4] as u64) << 32u64) | ((b[i + 5] as u64) << 40u64) | ((b[i + 6] as u64)
        << 48u64) | ((b[i + 7] as u64) << 56u64)
}

/// The content hash held in 32 bytes.
pub open spec fn hash_from_bytes(b: Seq<u8>) -> ContentHash {
    ContentHash { w0: word_le(b, 0), w1: word_le(b, 8), w2: word_le(b, 16), w3: word_le(b, 24) }
}

/// The content hash of body `b` for an install with salt `salt`: the
/// HMAC-SHA-256 of the body keyed by the salt's bytes.
pub open spec fn content_hash_spec(salt: Seq<char>, b: Seq<u8>) -> Option<ContentHash> {
    match hmac_sha256(vstd::utf8::encode_utf8(salt), b) {
        Some(t) => if t.len() == 32 {
            Some(hash_from_bytes(t))
        } else {
            None
        },
        None => None,
    }
}

/// Two clients with the same salt compute the same hash for the same
/// content, which is what lets the server store it once.
pub proof fn equal_content_equal_hash(salt: Seq<char>, other_salt: Seq<char>, b: Seq<u8>, other_b: Seq<u8>)
    requires
        salt == other_salt,
        b == other_b,
    ensures
        content_hash_spec(salt, b) == content_hash_spec(other_salt, other_b),
{
}

/// The little-endian word at bytes `i .. i + 8` of a 32-byte tag.
fn word_at(b: &Vec<u8>, i: usize) -> (r: u64)
    requires
        i <= 24,
        b@.len() == 32,
    ensures
        r == word_le(b@, i as int),
{
    (b[i] as u64) | ((b[i + 1] as u64) << 8u64) | ((b[i + 2] as u64) << 16u64) | ((b[i + 3] as u64)
        << 24u64) | ((b[i + 4] as u64) << 32u64) | ((b[i + 5] as u64) << 40u64) | ((b[i + 6] as u64)
        << 48u64) | ((b[i + 7] as u64) << 56u64)
}

/// The keyed fingerprint of a file body, under which the server stores
/// its encrypted content.
pub fn content_hash(salt: &str, body: &[u8]) -> (r: Result<ContentHash, CryptoError>)
    ensures
        match content_hash_spec(salt@, body@) {
            Some(h) => r == Ok::<ContentHash, CryptoError>(h),
            None => r == Err::<ContentHash, CryptoError>(CryptoError::Encrypt),
        },
{
    match hmac_sha256_of(salt.as_bytes(), body) {
        None => Err(CryptoError::Encrypt),
        Some(t) => {
            assert(t.deep_view() =~= t@);
            Ok(ContentHash { w0: word_at(&t, 0), w1: word_at(&t, 8), w2: word_at(&t, 16), w3: word_at(&t, 24) })
        },
    }
}

} // verus!
