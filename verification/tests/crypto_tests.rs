use limitless::crypto::{
    aes_key, decrypt, encrypt, encrypt_with_nonce, get_hwid, hwid_from_output, open_credential,
    plaintext_of, seal_credential,
};

use aes_gcm::aead::{Aead, KeyInit};
use base64::Engine;
use sha2::Digest;

const HWID: &str = "4C4C4544-0042-3510-8051-B4C04F4E4E32";

#[test]
fn encrypt_then_decrypt_gives_the_plaintext() {
    for plain in ["kullanici", "şifre123", "a", "x".repeat(100).as_str()] {
        let enc = encrypt(HWID, plain).unwrap();
        assert_ne!(enc, plain);
        assert_eq!(decrypt(HWID, &enc).unwrap(), plain);
    }
}

#[test]
fn empty_text_stays_empty() {
    assert_eq!(encrypt(HWID, "").unwrap(), "");
    assert_eq!(decrypt(HWID, "").unwrap(), "");
}

#[test]
fn encryption_with_fixed_nonce_is_base64_of_nonce_and_ciphertext() {
    let nonce = [7u8; 12];
    let a = encrypt_with_nonce(HWID, "secret", &nonce).unwrap();
    let b = encrypt_with_nonce(HWID, "secret", &nonce).unwrap();
    assert_eq!(a, b);
    // 12 nonce bytes + 6 plaintext bytes + 16 tag bytes = 34 bytes -> 48 base64 chars
    assert_eq!(a.len(), 48);
    let raw = base64::engine::general_purpose::STANDARD.decode(&a).unwrap();
    assert_eq!(&raw[..12], &nonce);
    assert_eq!(decrypt(HWID, &a).unwrap(), "secret");
}

#[test]
fn fresh_nonces_give_different_records() {
    let a = encrypt(HWID, "same").unwrap();
    let b = encrypt(HWID, "same").unwrap();
    assert_ne!(a, b);
}

#[test]
fn another_machine_cannot_decrypt() {
    let enc = encrypt(HWID, "secret").unwrap();
    // under another key the record does not decrypt and is handed back as stored
    assert_eq!(decrypt("OTHER-MACHINE", &enc).unwrap(), enc);
}

#[test]
fn legacy_plain_text_is_returned_unchanged() {
    // a character outside the base64 alphabet
    assert_eq!(decrypt(HWID, "ali veli").unwrap(), "ali veli");
    assert_eq!(decrypt(HWID, "user@mail").unwrap(), "user@mail");
    // base64 characters that do not decode
    assert_eq!(decrypt(HWID, "abc").unwrap(), "abc");
    // decodes, but shorter than a nonce
    assert_eq!(decrypt(HWID, "aGVsbG8=").unwrap(), "aGVsbG8=");
    // decodes, long enough, but does not decrypt
    let long = "QUFBQUFBQUFBQUFBQUFBQUFBQUFBQUFBQUFBQUFBQUE=";
    assert_eq!(decrypt(HWID, long).unwrap(), long);
}

#[test]
fn credentials_read_back_as_written() {
    for plain in ["oyuncu", "", "p@ss w0rd", "çğıöşü"] {
        let stored = seal_credential(HWID, plain).unwrap();
        if !plain.is_empty() {
            assert_ne!(stored, plain);
        }
        assert_eq!(open_credential(HWID, &stored), plain);
    }
}

#[test]
fn key_is_sha256_of_hwid_and_salt() {
    let expected = sha2::Sha256::digest(format!("{}limitless_secret_salt_2026", HWID).as_bytes());
    assert_eq!(aes_key(HWID), expected.to_vec());
    assert_eq!(aes_key(HWID).len(), 32);
}

#[test]
fn hwid_is_read_from_trimmed_output() {
    assert_eq!(
        hwid_from_output("  4C4C4544-0042-3510\r\n").as_deref(),
        Some("4C4C4544-0042-3510")
    );
    assert_eq!(hwid_from_output("   \r\n"), None);
    assert_eq!(hwid_from_output("Get-CimInstance : Error reading"), None);
}

#[test]
fn hwid_falls_back_when_unreadable() {
    assert_eq!(get_hwid(Some(" ABC-123 \n")), "ABC-123");
    assert_eq!(get_hwid(Some("")), "FALLBACK-HWID-IKV-LIMITLESS-0001");
    assert_eq!(get_hwid(Some("Error")), "FALLBACK-HWID-IKV-LIMITLESS-0001");
    assert_eq!(get_hwid(None), "FALLBACK-HWID-IKV-LIMITLESS-0001");
}

#[test]
fn record_of_invalid_utf8_is_an_error() {
    let key = aes_key(HWID);
    let cipher = aes_gcm::Aes256Gcm::new(aes_gcm::Key::<aes_gcm::Aes256Gcm>::from_slice(&key));
    let nonce = [3u8; 12];
    let ct = cipher.encrypt(aes_gcm::Nonce::from_slice(&nonce), &[0xffu8, 0xfe][..]).unwrap();
    let mut combined = nonce.to_vec();
    combined.extend_from_slice(&ct);
    let text = base64::engine::general_purpose::STANDARD.encode(combined);
    let err = decrypt(HWID, &text).unwrap_err();
    assert!(err.starts_with("Invalid UTF-8: "), "{}", err);
}

#[test]
fn encrypted_record_shape() {
    for plain in ["a", "oyuncu", "çğıöşü"] {
        let enc = encrypt(HWID, plain).unwrap();
        assert!(enc
            .chars()
            .all(|c| c.is_ascii_alphanumeric() || c == '+' || c == '/' || c == '='));
        let raw = base64::engine::general_purpose::STANDARD.decode(&enc).unwrap();
        assert_eq!(raw.len(), plain.len() + 28);
    }
}

#[test]
fn opened_bytes_become_text() {
    assert_eq!(plaintext_of("kayıt", None).unwrap(), "kayıt");
    assert_eq!(plaintext_of("kayıt", Some(b"sifre".to_vec())).unwrap(), "sifre");
    assert!(plaintext_of("kayıt", Some(vec![0xff, 0xfe])).unwrap_err().starts_with("Invalid UTF-8: "));
}
