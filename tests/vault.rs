use aether_drive::api::MkekUnlockRequest;
use aether_drive::crypto::CryptoError;
use aether_drive::index::FileMetadata;
use aether_drive::session::Session;
use aether_drive::storage::StorageError;
use aether_drive::storj::StorjConfig;

#[test]
fn test_storj_config() {
    let config = StorjConfig::new(
        "test-access-key".to_string(),
        "test-secret-key".to_string(),
        "https://gateway.storjshare.io".to_string(),
        "test-bucket".to_string(),
    );

    assert_eq!(config.access_key_id, "test-access-key");
    assert_eq!(config.bucket_name, "test-bucket");
    assert_eq!(config.region, "us-east-1");
}

#[test]
fn bootstrap_lock_unlock_keeps_index_intact() {
    let mut session = Session::new();
    let boot = session.crypto_bootstrap("vault-pass").unwrap();
    let mut index = session.create_index().unwrap();
    index
        .upsert("f1".to_string(), FileMetadata { logical_path: "/one".to_string(), encrypted_size: 10 })
        .unwrap();
    index
        .upsert("f2".to_string(), FileMetadata { logical_path: "/two".to_string(), encrypted_size: 20 })
        .unwrap();
    let rows = index.rows().clone();
    let trash = index.trash_rows().clone();
    let root = index.get_merkle_root();

    session.lock();
    assert!(session.load_index(rows.clone(), trash.clone(), root).is_none());

    let wrong = session.crypto_unlock(&MkekUnlockRequest {
        password: "not-the-pass".to_string(),
        password_salt: boot.password_salt,
        mkek: boot.mkek.clone(),
    });
    assert!(matches!(wrong, Err(CryptoError::InvalidPassphrase)));
    assert!(!session.is_unlocked());
    assert!(session.create_index().is_none());

    session
        .crypto_unlock(&MkekUnlockRequest {
            password: "vault-pass".to_string(),
            password_salt: boot.password_salt,
            mkek: boot.mkek,
        })
        .unwrap();
    let reopened = session.load_index(rows, trash, root).unwrap().unwrap();
    assert!(reopened.verify_integrity().unwrap());
    assert_eq!(reopened.len(), 2);
}

#[test]
fn locked_session_refuses_envelopes() {
    let session = Session::new();
    assert!(matches!(session.storage_encrypt_file(b"x", "/x"), Err(StorageError::Locked)));
    assert!(matches!(session.storage_decrypt_file(&[0u8; 200], "/x"), Err(StorageError::Locked)));
}

#[test]
fn session_encrypts_and_decrypts_wire_form() {
    let mut session = Session::new();
    session.crypto_bootstrap("pw").unwrap();
    let bytes = session.storage_encrypt_file(b"payload", "/docs/p").unwrap();
    assert_eq!(session.storage_decrypt_file(&bytes, "/docs/p").unwrap(), b"payload");
    assert!(matches!(session.storage_decrypt_file(&bytes, "/docs/q"), Err(StorageError::InvalidFormat(_))));
}

#[test]
fn unlocked_session_creates_and_loads_index() {
    let mut session = Session::new();
    session.crypto_bootstrap("k").unwrap();
    let bytes = session.storage_encrypt_file(b"abc", "/abc").unwrap();
    assert_eq!(bytes.len(), 118 + 3 + 16);
    let index = session.create_index().unwrap();
    assert!(index.verify_integrity().unwrap());
    let loaded = session.load_index(Vec::new(), Vec::new(), None).unwrap().unwrap();
    assert!(loaded.is_empty());
}
