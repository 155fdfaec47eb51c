use rammingen::archive_path::ArchivePath;
use rammingen::crypto::{decrypt_path, decrypt_segment, encrypt_path, encrypt_segment, CryptoError, EncryptionKey, KeyError};

const KEY_TEXT: &str = "AAECAwQFBgcICQoLDA0ODxAREhMUFRYXGBkaGxwdHh8gISIjJCUmJygpKissLS4vMDEyMzQ1Njc4OTo7PD0-Pw";

fn key() -> EncryptionKey {
    EncryptionKey::from_base64(KEY_TEXT).unwrap()
}

#[test]
fn key_from_base64() {
    let k = key();
    let expected: Vec<u8> = (0u8..64).collect();
    assert_eq!(k.as_bytes(), expected.as_slice());
}

#[test]
fn key_errors() {
    assert_eq!(EncryptionKey::from_base64("AAECAwQFBgcICQ").err().unwrap(), KeyError::InvalidLength(10));
    assert_eq!(EncryptionKey::from_base64("not base64!").err().unwrap(), KeyError::InvalidBase64);
    assert_eq!(EncryptionKey::from_base64("AAECAwQFBgcICQ==").err().unwrap(), KeyError::InvalidBase64);
    assert_eq!(EncryptionKey::from_bytes(vec![1u8; 63]).err().unwrap(), KeyError::InvalidLength(63));
    assert!(EncryptionKey::from_bytes(vec![1u8; 64]).is_ok());
}

#[test]
fn segment_round_trip() {
    let k = key();
    for s in ["report.pdf", "a", "ünïcödé ✓", "with space", "x".repeat(300).as_str()] {
        let c = encrypt_segment(&k, s).unwrap();
        assert_ne!(c, s);
        assert_eq!(decrypt_segment(&k, &c).unwrap(), s);
    }
}

#[test]
fn segment_encryption_is_deterministic_and_opaque() {
    let k = key();
    let c1 = encrypt_segment(&k, "report.pdf").unwrap();
    let c2 = encrypt_segment(&k, "report.pdf").unwrap();
    assert_eq!(c1, c2);
    assert!(c1.len() >= 20);
    assert!(!c1.contains("report"));
    assert!(c1.chars().all(|c| c.is_ascii_alphanumeric() || c == '-' || c == '_'));
    assert_ne!(c1, encrypt_segment(&k, "report.pdg").unwrap());
    let other = EncryptionKey::from_bytes(vec![7u8; 64]).unwrap();
    assert_ne!(c1, encrypt_segment(&other, "report.pdf").unwrap());
}

#[test]
fn tampered_segment_is_rejected() {
    let k = key();
    let c = encrypt_segment(&k, "report.pdf").unwrap();
    let mut chars: Vec<char> = c.chars().collect();
    chars[5] = if chars[5] == 'A' { 'B' } else { 'A' };
    let tampered: String = chars.into_iter().collect();
    assert_eq!(decrypt_segment(&k, &tampered).unwrap_err(), CryptoError::Authentication);
    assert_eq!(decrypt_segment(&k, "***").unwrap_err(), CryptoError::Base64);
    let other = EncryptionKey::from_bytes(vec![7u8; 64]).unwrap();
    assert_eq!(decrypt_segment(&other, &c).unwrap_err(), CryptoError::Authentication);
}

#[test]
fn path_round_trip_keeps_structure() {
    let k = key();
    let p = ArchivePath::parse("ar:/my_files/report.pdf").unwrap();
    let e = encrypt_path(&p, &k).unwrap();
    assert_eq!(e.len(), 2);
    assert_eq!(e.segment(0), encrypt_segment(&k, "my_files").unwrap());
    assert_eq!(e.segment(1), encrypt_segment(&k, "report.pdf").unwrap());
    assert!(!e.to_text().contains("report"));
    assert!(e.to_text().starts_with("ar:/"));
    let d = decrypt_path(&e, &k).unwrap();
    assert_eq!(d.to_text(), "ar:/my_files/report.pdf");
    let parent = ArchivePath::parse("ar:/my_files").unwrap();
    let ep = encrypt_path(&parent, &k).unwrap();
    assert!(e.starts_with(&ep));
}

#[test]
fn decrypting_plain_path_fails() {
    let k = key();
    let p = ArchivePath::parse("ar:/my_files").unwrap();
    assert!(decrypt_path(&p, &k).is_err());
}
