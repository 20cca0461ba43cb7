use aether_drive::api::{crypto_change_password, ChangePasswordRequest, MkekUnlockRequest};
use aether_drive::crypto::mkek::{decrypt_master_key, encrypt_master_key, encrypt_master_key_with_nonce};
use aether_drive::crypto::{CryptoCore, CryptoError, KeyHierarchy, MasterKey, MkekCiphertext, PasswordSecret};
use aether_drive::session::Session;

#[test]
fn mkek_encrypt_decrypt_roundtrip() {
    let password = PasswordSecret::new("mkek-test");
    let salt = [9u8; 16];
    let hierarchy = KeyHierarchy::bootstrap(&password, salt).unwrap();

    let mk_before = hierarchy.master_key().as_bytes().to_vec();
    let mkek = encrypt_master_key(hierarchy.kek(), hierarchy.master_key()).unwrap();

    let decrypted_mk = decrypt_master_key(hierarchy.kek(), &mkek).unwrap();
    let mk_after = decrypted_mk.as_bytes().to_vec();

    assert_eq!(mk_before, mk_after);
}

#[test]
fn mkek_decrypt_with_wrong_kek_fails() {
    let password = PasswordSecret::new("mkek-test");
    let salt = [10u8; 16];

    let hierarchy = KeyHierarchy::bootstrap(&password, salt).unwrap();
    let mkek = encrypt_master_key(hierarchy.kek(), hierarchy.master_key()).unwrap();

    let wrong_password = PasswordSecret::new("mkek-test-wrong");
    let wrong_kek = CryptoCore::default()
        .derive_kek(&wrong_password, &salt)
        .expect("derive_kek should succeed");

    let result = decrypt_master_key(&wrong_kek, &mkek);
    assert!(result.is_err());
}

#[test]
fn derive_kek_is_deterministic_for_same_password_and_salt() {
    let core = CryptoCore::default();
    let password = PasswordSecret::new("test-password");
    let salt = [7u8; 16];

    let kek1 = core.derive_kek(&password, &salt).unwrap();
    let kek2 = core.derive_kek(&password, &salt).unwrap();

    assert_eq!(kek1.as_bytes(), kek2.as_bytes());
}

#[test]
fn derive_kek_changes_with_different_salt() {
    let core = CryptoCore::default();
    let password = PasswordSecret::new("test-password");
    let salt1 = [1u8; 16];
    let salt2 = [2u8; 16];

    let kek1 = core.derive_kek(&password, &salt1).unwrap();
    let kek2 = core.derive_kek(&password, &salt2).unwrap();

    assert_ne!(kek1.as_bytes(), kek2.as_bytes());
}

#[test]
fn master_key_and_file_key_roundtrip() {
    let core = CryptoCore::default();
    let mk = core.generate_master_key().unwrap();
    let file_salt = core.random_file_salt().unwrap();

    let fk1 = core.derive_file_key(&mk, &file_salt).unwrap();
    let fk2 = core.derive_file_key(&mk, &file_salt).unwrap();

    assert_eq!(fk1.as_bytes(), fk2.as_bytes());
}

#[test]
fn key_hierarchy_bootstrap_and_seal_restore_roundtrip() {
    let password = PasswordSecret::new("strong-passphrase");
    let salt = [3u8; 16];

    let hierarchy = KeyHierarchy::bootstrap(&password, salt).unwrap();
    let mk_before = hierarchy.master_key().as_bytes().to_vec();

    let mkek = hierarchy.seal_master_key().unwrap();

    let restored = KeyHierarchy::restore(&password, salt, &mkek).unwrap();
    let mk_after = restored.master_key().as_bytes().to_vec();

    assert_eq!(mk_before, mk_after);
}

#[test]
fn mkek_wrong_passphrase_same_salt_is_invalid_passphrase() {
    let salt = [9u8; 16];
    let hierarchy = KeyHierarchy::bootstrap(&PasswordSecret::new("mkek-test"), salt).unwrap();
    let mkek = hierarchy.seal_master_key().unwrap();
    let wrong = CryptoCore::new().derive_kek(&PasswordSecret::new("mkek-test-wrong"), &salt).unwrap();
    assert!(matches!(decrypt_master_key(&wrong, &mkek), Err(CryptoError::InvalidPassphrase)));
    let restored = KeyHierarchy::restore(&PasswordSecret::new("mkek-test-wrong"), salt, &mkek);
    assert!(matches!(restored, Err(CryptoError::InvalidPassphrase)));
}

#[test]
fn sealed_master_key_has_nonce_and_tag() {
    let core = CryptoCore::new();
    let kek = core.derive_kek(&PasswordSecret::new("p"), &[5u8; 16]).unwrap();
    let mk = MasterKey::from_bytes([0x42; 32]);
    let sealed = encrypt_master_key_with_nonce(&kek, &mk, [7u8; 24]);
    assert_eq!(sealed.nonce, [7u8; 24]);
    assert_eq!(sealed.payload.len(), 48);
    assert_ne!(&sealed.payload[..32], &[0x42u8; 32][..]);
    assert_eq!(decrypt_master_key(&kek, &sealed).unwrap().as_bytes(), &[0x42u8; 32]);
}

#[test]
fn malformed_mkek_is_corrupt() {
    let kek = CryptoCore::new().derive_kek(&PasswordSecret::new("p"), &[5u8; 16]).unwrap();
    let short = MkekCiphertext::new([0u8; 24], vec![1, 2, 3]);
    assert!(matches!(decrypt_master_key(&kek, &short), Err(CryptoError::Corrupt)));
    let forged = MkekCiphertext::new([0u8; 24], vec![0u8; 48]);
    assert!(matches!(decrypt_master_key(&kek, &forged), Err(CryptoError::InvalidPassphrase)));
}

#[test]
fn change_password_preserves_master_key() {
    let mut session = Session::new();
    let boot = session.crypto_bootstrap("old-pass").unwrap();
    let mk = *session.master_key().unwrap().as_bytes();
    let resp = crypto_change_password(&ChangePasswordRequest {
        old_password: "old-pass".to_string(),
        new_password: "new-pass".to_string(),
        old_password_salt: boot.password_salt,
        old_mkek: boot.mkek.clone(),
    })
    .unwrap();
    assert_ne!(resp.new_password_salt, boot.password_salt);

    let mut other = Session::new();
    other
        .crypto_unlock(&MkekUnlockRequest {
            password: "new-pass".to_string(),
            password_salt: resp.new_password_salt,
            mkek: resp.new_mkek.clone(),
        })
        .unwrap();
    assert_eq!(other.master_key().unwrap().as_bytes(), &mk);

    let stale = other.crypto_unlock(&MkekUnlockRequest {
        password: "old-pass".to_string(),
        password_salt: resp.new_password_salt,
        mkek: resp.new_mkek,
    });
    assert!(matches!(stale, Err(CryptoError::InvalidPassphrase)));
}

#[test]
fn change_password_with_wrong_old_passphrase_fails() {
    let mut session = Session::new();
    let boot = session.crypto_bootstrap("right").unwrap();
    let r = crypto_change_password(&ChangePasswordRequest {
        old_password: "wrong".to_string(),
        new_password: "new".to_string(),
        old_password_salt: boot.password_salt,
        old_mkek: boot.mkek,
    });
    assert!(matches!(r, Err(CryptoError::InvalidPassphrase)));
}

#[test]
fn lock_wipes_master_key() {
    let mut key = MasterKey::from_bytes([9u8; 32]);
    key.wipe();
    assert_eq!(key.as_bytes(), &[0u8; 32]);
    let mut session = Session::new();
    session.crypto_bootstrap("x").unwrap();
    assert!(session.is_unlocked());
    session.lock();
    assert!(!session.is_unlocked());
    assert!(session.master_key().is_none());
}

#[test]
fn kek_is_argon2id_with_fixed_parameters() {
    let params = argon2::Params::new(65536, 3, 1, Some(32)).unwrap();
    let hasher = argon2::Argon2::new(argon2::Algorithm::Argon2id, argon2::Version::V0x13, params);
    let mut expected = [0u8; 32];
    hasher.hash_password_into(b"pass phrase", &[6u8; 16], &mut expected).unwrap();
    let kek = CryptoCore::new().derive_kek(&PasswordSecret::new("pass phrase"), &[6u8; 16]).unwrap();
    assert_eq!(kek.as_bytes(), &expected);
    assert_ne!(&expected[..11], b"pass phrase");
}
