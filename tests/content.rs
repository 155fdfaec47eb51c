use rammingen::content::{content_hash, decrypt_content, encrypt_content, CHUNK_LEN, FILE_NONCE_LEN, FRAME_LEN, TAG_LEN};
use rammingen::crypto::{CryptoError, EncryptionKey};
use rammingen::sync::ContentHash;

fn key() -> EncryptionKey {
    EncryptionKey::from_bytes((0u8..64).collect()).unwrap()
}

fn body(n: usize) -> Vec<u8> {
    (0..n).map(|i| (i * 7 % 251) as u8).collect()
}

const NONCE: [u8; 12] = [9, 8, 7, 6, 5, 4, 3, 2, 1, 0, 1, 2];

#[test]
fn content_round_trip_various_sizes() {
    let k = key();
    for n in [0usize, 1, 100, FRAME_LEN - 1, FRAME_LEN, FRAME_LEN + 1, 3 * FRAME_LEN + 17] {
        let b = body(n);
        let c = encrypt_content(&k, &NONCE, &b).unwrap();
        assert_eq!(&c[..FILE_NONCE_LEN], &NONCE);
        let frames = if n == 0 { 1 } else { (n + FRAME_LEN - 1) / FRAME_LEN };
        assert_eq!(c.len(), FILE_NONCE_LEN + n + frames * TAG_LEN, "size {n}");
        assert_eq!(decrypt_content(&k, &c).unwrap(), b, "size {n}");
    }
    assert_eq!(CHUNK_LEN, FRAME_LEN + TAG_LEN);
}

#[test]
fn content_nonce_changes_ciphertext() {
    let k = key();
    let b = body(1000);
    let c1 = encrypt_content(&k, &NONCE, &b).unwrap();
    let c2 = encrypt_content(&k, &[0u8; 12], &b).unwrap();
    assert_ne!(c1, c2);
    assert_eq!(decrypt_content(&k, &c2).unwrap(), b);
}

#[test]
fn content_bit_flips_are_detected() {
    let k = key();
    let b = body(FRAME_LEN + 500);
    let c = encrypt_content(&k, &NONCE, &b).unwrap();
    for pos in [0usize, 5, 12, 20, 40, FRAME_LEN, c.len() - 1] {
        for bit in [0u8, 3, 7] {
            let mut t = c.clone();
            t[pos] ^= 1 << bit;
            assert_eq!(decrypt_content(&k, &t).unwrap_err(), CryptoError::Authentication, "pos {pos} bit {bit}");
        }
    }
}

#[test]
fn content_truncation_is_detected() {
    let k = key();
    let b = body(2 * FRAME_LEN + 10);
    let c = encrypt_content(&k, &NONCE, &b).unwrap();
    let cut = &c[..FILE_NONCE_LEN + 2 * CHUNK_LEN];
    assert_eq!(decrypt_content(&k, cut).unwrap_err(), CryptoError::Authentication);
    assert_eq!(decrypt_content(&k, &c[..FILE_NONCE_LEN]).unwrap_err(), CryptoError::Authentication);
    assert_eq!(decrypt_content(&k, &[]).unwrap_err(), CryptoError::Authentication);
}

#[test]
fn content_wrong_key_fails() {
    let b = body(10);
    let c = encrypt_content(&key(), &NONCE, &b).unwrap();
    let other = EncryptionKey::from_bytes(vec![1u8; 64]).unwrap();
    assert_eq!(decrypt_content(&other, &c).unwrap_err(), CryptoError::Authentication);
}

#[test]
fn content_hash_known_values() {
    let h = content_hash("salt1", b"hello").unwrap();
    assert_eq!(
        h,
        ContentHash { w0: 0x6fba80d00f26c265, w1: 0x2894eb5c1635ea01, w2: 0x884b4652459ab67d, w3: 0xb6c6439489a59ae1 }
    );
    let empty = content_hash("", b"").unwrap();
    assert_eq!(
        empty,
        ContentHash { w0: 0xecd914089a6713b6, w1: 0xc55fc378d7952f77, w2: 0x53567193c49716ff, w3: 0xadc592421412c7c6 }
    );
}

#[test]
fn content_hash_dedup() {
    let big: Vec<u8> = (0..10 * 1024 * 1024).map(|i: usize| (i % 253) as u8).collect();
    let copy = big.clone();
    assert_eq!(content_hash("salt1", &big).unwrap(), content_hash("salt1", &copy).unwrap());
    assert_ne!(content_hash("salt1", &big).unwrap(), content_hash("salt2", &big).unwrap());
    assert_ne!(content_hash("salt1", b"a").unwrap(), content_hash("salt1", b"b").unwrap());
}
