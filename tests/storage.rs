use sha2::Digest;
use aether_drive::api::{file_id_of, storage_get_file_info};
use aether_drive::crypto::{CryptoCore, KeyHierarchy, MasterKey, PasswordSecret};
use aether_drive::storage::{
    build_aad, decrypt_bytes, decrypt_file, encrypt_file, encrypt_file_with, AetherError, AetherFile,
    AetherHeader, StorageError, CIPHER_ID, VERSION,
};

const MAGIC_NUMBER: &[u8] = b"AETH";

#[test]
fn test_serialize_deserialize_roundtrip() {
    let header = AetherHeader {
        magic: *b"AETH",
        version: 0x01,
        cipher_id: 0x02,
        uuid: [0x01; 16],
        salt: [0x02; 32],
        commitment_hmac: [0x03; 32],
        nonce: [0x04; 24],
    };

    let ciphertext = vec![0x05; 100];
    let file = AetherFile { header, ciphertext };

    let bytes = file.to_bytes();

    let deserialized = AetherFile::from_bytes(&bytes).unwrap();

    assert_eq!(deserialized.header.magic, file.header.magic);
    assert_eq!(deserialized.header.version, file.header.version);
    assert_eq!(deserialized.header.cipher_id, file.header.cipher_id);
    assert_eq!(deserialized.header.uuid, file.header.uuid);
    assert_eq!(deserialized.header.salt, file.header.salt);
    assert_eq!(deserialized.header.commitment_hmac, file.header.commitment_hmac);
    assert_eq!(deserialized.header.nonce, file.header.nonce);
    assert_eq!(deserialized.ciphertext.as_slice(), file.ciphertext.as_slice());
}

#[test]
fn test_encrypt_decrypt_roundtrip() {
    let core = CryptoCore::default();
    let password_secret = PasswordSecret::new("test-password-123");
    let salt = core.random_password_salt().unwrap();
    let hierarchy = KeyHierarchy::bootstrap(&password_secret, salt).unwrap();
    let master_key = hierarchy.master_key();

    let plaintext = b"Hello, Aether Drive! This is a test file.";
    let logical_path = "/documents/test.txt";

    let aether_file = encrypt_file(master_key, plaintext, logical_path).unwrap();

    let expected_magic: [u8; 4] = MAGIC_NUMBER.try_into().unwrap();
    assert_eq!(aether_file.header.magic, expected_magic);
    assert_eq!(aether_file.header.version, VERSION);
    assert_eq!(aether_file.header.cipher_id, CIPHER_ID);

    let decrypted = decrypt_file(master_key, &aether_file, logical_path).unwrap();

    assert_eq!(decrypted, plaintext);
}

#[test]
fn test_decrypt_wrong_path_fails() {
    let core = CryptoCore::default();
    let password_secret = PasswordSecret::new("test-password-123");
    let salt = core.random_password_salt().unwrap();
    let hierarchy = KeyHierarchy::bootstrap(&password_secret, salt).unwrap();
    let master_key = hierarchy.master_key();

    let plaintext = b"Hello, Aether Drive!";
    let logical_path = "/documents/test.txt";

    let aether_file = encrypt_file(master_key, plaintext, logical_path).unwrap();

    let wrong_path = "/documents/different.txt";
    let result = decrypt_file(master_key, &aether_file, wrong_path);

    assert!(result.is_err());
}

#[test]
fn test_decrypt_wrong_master_key_fails() {
    let core = CryptoCore::default();
    let password_secret1 = PasswordSecret::new("password-1");
    let password_secret2 = PasswordSecret::new("password-2");
    let salt = core.random_password_salt().unwrap();

    let hierarchy1 = KeyHierarchy::bootstrap(&password_secret1, salt).unwrap();
    let hierarchy2 = KeyHierarchy::bootstrap(&password_secret2, salt).unwrap();

    let master_key1 = hierarchy1.master_key();
    let master_key2 = hierarchy2.master_key();

    let plaintext = b"Secret data";
    let logical_path = "/documents/secret.txt";

    let aether_file = encrypt_file(master_key1, plaintext, logical_path).unwrap();

    let result = decrypt_file(master_key2, &aether_file, logical_path);

    assert!(result.is_err());
}

fn fixed_key() -> MasterKey {
    MasterKey::from_bytes([0x11; 32])
}

#[test]
fn wire_form_has_header_then_ciphertext() {
    let mk = fixed_key();
    let f = encrypt_file_with(&mk, b"abc", "/a", [1; 16], [2; 32], [3; 24]).unwrap();
    let bytes = f.to_bytes();
    assert_eq!(bytes.len(), 118 + 3 + 16);
    assert_eq!(&bytes[0..4], b"AETH");
    assert_eq!(bytes[4], 0x01);
    assert_eq!(bytes[5], 0x02);
    assert_eq!(&bytes[6..22], &[1u8; 16]);
    assert_eq!(&bytes[22..54], &[2u8; 32]);
    assert_eq!(&bytes[86..110], &[3u8; 24]);
    assert_eq!(&bytes[110..118], &19u64.to_le_bytes());
    assert_eq!(decrypt_bytes(&mk, &bytes, "/a").unwrap(), b"abc");
}

#[test]
fn xeth_magic_is_invalid_format() {
    let mk = fixed_key();
    let mut f = encrypt_file_with(&mk, b"data", "/x", [1; 16], [2; 32], [3; 24]).unwrap();
    f.header.magic = *b"XETH";
    assert!(matches!(decrypt_file(&mk, &f, "/x"), Err(StorageError::InvalidFormat(_))));
}

#[test]
fn unknown_version_or_cipher_is_invalid_format() {
    let mk = fixed_key();
    let mut f = encrypt_file_with(&mk, b"data", "/x", [1; 16], [2; 32], [3; 24]).unwrap();
    f.header.version = 2;
    assert!(matches!(decrypt_file(&mk, &f, "/x"), Err(StorageError::InvalidFormat(_))));
    f.header.version = 1;
    f.header.cipher_id = 3;
    assert!(matches!(decrypt_file(&mk, &f, "/x"), Err(StorageError::InvalidFormat(_))));
}

#[test]
fn flipped_ciphertext_bit_fails_decrypt() {
    let hierarchy = KeyHierarchy::bootstrap(&PasswordSecret::new("flip-test"), [4u8; 16]).unwrap();
    let mk = hierarchy.master_key();
    let plaintext = b"Hello, Aether Drive! This is a test file.";
    let path = "/documents/test.txt";
    let f = encrypt_file(mk, plaintext, path).unwrap();
    let mut bytes = f.to_bytes();
    bytes[118 + 5] ^= 0x01;
    assert!(matches!(decrypt_bytes(mk, &bytes, path), Err(StorageError::InvalidFormat(_))));
}

#[test]
fn every_single_bit_flip_fails_decrypt() {
    let mk = fixed_key();
    let f = encrypt_file_with(&mk, b"tiny", "/t", [9; 16], [8; 32], [7; 24]).unwrap();
    let bytes = f.to_bytes();
    for i in 0..bytes.len() {
        for bit in 0..8 {
            let mut flipped = bytes.clone();
            flipped[i] ^= 1 << bit;
            assert!(decrypt_bytes(&mk, &flipped, "/t").is_err(), "byte {} bit {}", i, bit);
        }
    }
}

#[test]
fn two_encryptions_differ() {
    let mk = fixed_key();
    let a = encrypt_file(&mk, b"same", "/same").unwrap();
    let b = encrypt_file(&mk, b"same", "/same").unwrap();
    assert_ne!(a.header.uuid, b.header.uuid);
    assert_ne!(a.header.salt, b.header.salt);
    assert_ne!(a.header.nonce, b.header.nonce);
    assert_ne!(a.ciphertext, b.ciphertext);
    assert_ne!(a.to_bytes(), b.to_bytes());
}

#[test]
fn empty_plaintext_round_trips() {
    let mk = fixed_key();
    let f = encrypt_file(&mk, b"", "/empty").unwrap();
    assert_eq!(f.ciphertext.len(), 16);
    assert_eq!(decrypt_file(&mk, &f, "/empty").unwrap(), Vec::<u8>::new());
}

#[test]
fn truncated_and_padded_bytes_are_rejected() {
    assert_eq!(AetherFile::from_bytes(&[0u8; 117]).unwrap_err(), AetherError::InvalidHeader);
    let mk = fixed_key();
    let mut bytes = encrypt_file(&mk, b"abc", "/a").unwrap().to_bytes();
    bytes.push(0);
    assert_eq!(AetherFile::from_bytes(&bytes).unwrap_err(), AetherError::InvalidHeader);
    bytes.pop();
    bytes.pop();
    assert_eq!(AetherFile::from_bytes(&bytes).unwrap_err(), AetherError::InvalidHeader);
    assert!(matches!(decrypt_bytes(&mk, &bytes, "/a"), Err(StorageError::InvalidFormat(_))));
}

#[test]
fn aad_is_prefix_and_path() {
    assert_eq!(build_aad("/p/é"), b"aether-drive:aad:v1:/p/\xc3\xa9".to_vec());
}

#[test]
fn commitment_is_sha256_of_header_and_file_key() {
    let mk = fixed_key();
    let f = encrypt_file_with(&mk, b"x", "/x", [1; 16], [2; 32], [3; 24]).unwrap();
    let fk = CryptoCore::new().derive_file_key(&mk, &[2; 32]).unwrap();
    let hk = hkdf::Hkdf::<sha2::Sha256>::new(Some(&[2u8; 32]), &[0x11u8; 32]);
    let mut expected_fk = [0u8; 32];
    hk.expand(b"aether-drive:file-key:v1", &mut expected_fk).unwrap();
    assert_eq!(fk.as_bytes(), &expected_fk);
    let mut input = b"AETH\x01\x02".to_vec();
    input.extend_from_slice(&[1; 16]);
    input.extend_from_slice(&[2; 32]);
    input.extend_from_slice(&expected_fk);
    let digest: [u8; 32] = sha2::Sha256::digest(&input).into();
    assert_eq!(f.header.commitment_hmac, digest);
}

#[test]
fn file_info_reads_header_without_key() {
    let mk = fixed_key();
    let bytes = encrypt_file_with(&mk, b"hello", "/h", [0xab; 16], [2; 32], [3; 24]).unwrap().to_bytes();
    let info = storage_get_file_info(&bytes).unwrap();
    assert_eq!(info.uuid, vec![0xab; 16]);
    assert_eq!(info.version, 1);
    assert_eq!(info.cipher_id, 2);
    assert_eq!(info.encrypted_size, 21);
    assert!(storage_get_file_info(&bytes[..100]).is_err());
}

#[test]
fn file_id_is_lowercase_hex_of_uuid() {
    let uuid = [0x00, 0x01, 0x7f, 0x80, 0xab, 0xcd, 0xef, 0xff, 0x10, 0x20, 0x30, 0x40, 0x50, 0x60, 0x70, 0x9a];
    assert_eq!(file_id_of(&uuid), "00017f80abcdefff102030405060709a");
}

#[test]
fn ciphertext_is_plaintext_plus_tag() {
    let mk = fixed_key();
    let p = b"twelve bytes";
    let f = encrypt_file(&mk, p, "/len").unwrap();
    assert_eq!(f.ciphertext.len(), p.len() + 16);
    assert_eq!(f.to_bytes().len(), 118 + p.len() + 16);
    assert_eq!(decrypt_file(&mk, &AetherFile::from_bytes(&f.to_bytes()).unwrap(), "/len").unwrap(), p);
}

#[test]
fn truncated_mkek_payload_is_corrupt() {
    let kek = CryptoCore::new().derive_kek(&PasswordSecret::new("p"), &[1u8; 16]).unwrap();
    let r = aether_drive::crypto::mkek::decrypt_master_key(&kek, &aether_drive::crypto::MkekCiphertext::new([0u8; 24], vec![0u8; 47]));
    assert!(matches!(r, Err(aether_drive::crypto::CryptoError::Corrupt)));
}
