use chacha20poly1305::aead::{Aead, KeyInit};
use chacha20poly1305::{ChaCha20Poly1305, Key, Nonce};
use m65_field_jacket::crypto::{decrypt, encrypt, random_nonce, random_salt};
use m65_field_jacket::error::MfjError;

#[test]
fn encrypt_is_chacha20poly1305() {
    let key = [1u8; 32];
    let nonce = [2u8; 12];
    let sealed = encrypt(&key, &nonce, b"plain text").unwrap();
    assert_eq!(sealed.len(), 10 + 16);
    assert_ne!(&sealed[..10], b"plain text");
    let expected = ChaCha20Poly1305::new(Key::from_slice(&key)).encrypt(Nonce::from_slice(&nonce), &b"plain text"[..]).unwrap();
    assert_eq!(sealed, expected);
}

#[test]
fn decrypt_gives_back_what_encrypt_sealed() {
    let key = [9u8; 32];
    let nonce = [3u8; 12];
    let sealed = encrypt(&key, &nonce, b"").unwrap();
    assert_eq!(decrypt(&key, &nonce, &sealed), Ok(vec![]));
    let sealed = encrypt(&key, &nonce, b"secret").unwrap();
    assert_eq!(decrypt(&key, &nonce, &sealed), Ok(b"secret".to_vec()));
    assert_eq!(decrypt(&[8u8; 32], &nonce, &sealed), Err(MfjError::Decryption));
    assert_eq!(decrypt(&key, &[4u8; 12], &sealed), Err(MfjError::Decryption));
    assert_eq!(decrypt(&key, &nonce, &sealed[..15]), Err(MfjError::Decryption));
}

#[test]
fn nonces_and_salts_are_fresh() {
    assert_ne!(random_nonce(), random_nonce());
    assert_ne!(random_salt(), random_salt());
}
