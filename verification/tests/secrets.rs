// Tests of the encrypted secrets layer: the round trip, authentication
// failure, and the fixed blob layout.

use awsx::errors::SecretsError;
use awsx::secrets::{HEADER_LENGTH, decrypt, encrypt};

#[test]
fn round_trip_returns_the_plaintext() {
    let plaintext: Vec<u8> = vec![0u8, 1, 2, 250, 255, 42, 7];
    let password = b"correct horse";
    let blob = encrypt(plaintext.as_slice(), password).unwrap();
    assert!(blob.len() >= HEADER_LENGTH + plaintext.len());
    let opened = decrypt(blob.as_slice(), password).unwrap();
    assert_eq!(opened, plaintext);
}

#[test]
fn round_trip_of_empty_plaintext() {
    let plaintext: Vec<u8> = Vec::new();
    let blob = encrypt(plaintext.as_slice(), b"pw").unwrap();
    let opened = decrypt(blob.as_slice(), b"pw").unwrap();
    assert_eq!(opened, plaintext);
}

#[test]
fn blob_is_header_plaintext_and_tag() {
    let plaintext: Vec<u8> = vec![9u8; 33];
    let blob = encrypt(plaintext.as_slice(), b"pw").unwrap();
    assert_eq!(blob.len(), HEADER_LENGTH + plaintext.len() + 16);
    let empty = encrypt(&[], b"pw").unwrap();
    assert_eq!(empty.len(), HEADER_LENGTH + 16);
}

#[test]
fn wrong_password_is_an_authentication_error() {
    let plaintext = b"attack at dawn";
    let blob = encrypt(plaintext, b"right").unwrap();
    match decrypt(blob.as_slice(), b"wrong") {
        Err(SecretsError::Authentication) => {},
        other => panic!("expected an authentication error, got {:?}", other),
    }
}

#[test]
fn corrupted_ciphertext_is_an_authentication_error() {
    let plaintext = b"payload";
    let mut blob = encrypt(plaintext, b"pw").unwrap();
    let last = blob.len() - 1;
    blob[last] ^= 0x01;
    match decrypt(blob.as_slice(), b"pw") {
        Err(SecretsError::Authentication) => {},
        other => panic!("expected an authentication error, got {:?}", other),
    }
}

#[test]
fn truncated_blob_is_rejected() {
    let blob = vec![0u8; HEADER_LENGTH - 1];
    match decrypt(blob.as_slice(), b"pw") {
        Err(SecretsError::Truncated) => {},
        other => panic!("expected the truncation error, got {:?}", other),
    }
}
