//! The values exchanged with the application shell, and the operations that compute them.
use crate::crypto::{change_password, CryptoError, MkekCiphertext, PasswordSecret};
use crate::index::{FileId, FileMetadata};
use crate::primitives::{hex_encode, hex_of};
use crate::storage::aether_format::{is_aether_bytes, AetherFile};
use crate::storage::StorageError;
use vstd::prelude::*;

verus! {

/// What bootstrap hands out to be persisted: the password salt and the MKEK.
#[derive(Debug, Clone)]
pub struct MkekBootstrapResponse {
    pub password_salt: [u8; 16],
    pub mkek: MkekCiphertext,
}

#[derive(Debug, Clone)]
pub struct MkekUnlockRequest {
    pub password: String,
    pub password_salt: [u8; 16],
    pub mkek: MkekCiphertext,
}

#[derive(Debug, Clone)]
pub struct ChangePasswordRequest {
    pub old_password: String,
    pub new_password: String,
    pub old_password_salt: [u8; 16],
    pub old_mkek: MkekCiphertext,
}

#[derive(Debug, Clone)]
pub struct ChangePasswordResponse {
    pub new_password_salt: [u8; 16],
    pub new_mkek: MkekCiphertext,
}

#[derive(Debug, Clone)]
pub struct IndexStatus {
    pub db_path: String,
    pub file_count: usize,
    pub exists: bool,
}

#[derive(Debug, Clone)]
pub struct FileEntry {
    pub id: String,
    pub logical_path: String,
    pub encrypted_size: u64,
}

#[derive(Debug, Clone)]
pub struct AddFileRequest {
    pub file_id: String,
    pub logical_path: String,
    pub encrypted_size: u64,
}

#[derive(Debug, Clone)]
pub struct FolderInfo {
    pub name: String,
    pub path: String,
}

#[derive(Debug, Clone)]
pub struct DirectoryEntry {
    pub files: Vec<FileEntry>,
    pub folders: Vec<FolderInfo>,
}

/// The public header fields of an envelope.
#[derive(Debug, Clone)]
pub struct FileInfo {
    pub uuid: Vec<u8>,
    pub version: u8,
    pub cipher_id: u8,
    pub encrypted_size: usize,
}

#[derive(Debug, Clone)]
pub struct SelectedFile {
    pub path: String,
    pub name: String,
    pub data: Vec<u8>,
    pub size: usize,
}

#[derive(Debug, Clone)]
pub struct StorjConfigRequest {
    pub access_key_id: String,
    pub secret_access_key: String,
    pub endpoint: String,
    pub bucket_name: String,
}

#[derive(Debug, Clone)]
pub struct StorjFileInfo {
    pub uuid: String,
    pub logical_path: Option<String>,
    pub encrypted_size: Option<u64>,
}

#[derive(Debug, Clone)]
pub struct TrashEntry {
    pub id: String,
    pub logical_path: String,
    pub encrypted_size: u64,
    /// Unix time of deletion, in seconds.
    pub deleted_at: i64,
}

/// The file id of an envelope: the 32 lowercase hex digits of its uuid.
pub fn file_id_of(uuid: &[u8; 16]) -> (r: String)
    ensures
        r@ == hex_of(uuid@),
{
    hex_encode(uuid)
}

/// Reads the public header fields of an envelope's wire form without any key.
pub fn storage_get_file_info(encrypted_data: &[u8]) -> (r: Result<FileInfo, StorageError>)
    ensures
        r is Ok <==> is_aether_bytes(encrypted_data@),
        r matches Ok(info) ==> {
            &&& info.uuid@ == encrypted_data@.subrange(6, 22)
            &&& info.version == encrypted_data@[4]
            &&& info.cipher_id == encrypted_data@[5]
            &&& info.encrypted_size == encrypted_data@.len() - 118
        },
        r matches Err(e) ==> e is InvalidFormat,
{
    match AetherFile::from_bytes(encrypted_data) {
        Ok(f) => {
            let uuid = crate::bytes::copy_array::<16>(&f.header.uuid, 0);
            let mut uuid_bytes: Vec<u8> = Vec::new();
            crate::bytes::append_bytes(&mut uuid_bytes, &uuid);
            assert(uuid@ =~= f.header.uuid@.subrange(0, 16));
            Ok(FileInfo {
                uuid: uuid_bytes,
                version: f.header.version,
                cipher_id: f.header.cipher_id,
                encrypted_size: f.ciphertext.len(),
            })
        },
        Err(_) => Err(StorageError::InvalidFormat("truncated or oversized envelope".to_owned())),
    }
}

/// The entry shown for an index row.
pub fn file_entry(id: FileId, meta: FileMetadata) -> (r: FileEntry)
    ensures
        r.id@ == id@,
        r.logical_path@ == meta.logical_path@,
        r.encrypted_size == meta.encrypted_size,
{
    FileEntry { id, logical_path: meta.logical_path, encrypted_size: meta.encrypted_size }
}

/// Changes the passphrase of the vault described by `req`; see `change_password`.
pub fn crypto_change_password(req: &ChangePasswordRequest) -> (r: Result<ChangePasswordResponse, CryptoError>)
    ensures
        r matches Ok(resp) ==> exists|m: Seq<u8>|
            #[trigger] crate::crypto::unlocks(
                req.old_password@,
                req.old_password_salt@,
                req.old_mkek,
                m,
            ) && crate::crypto::unlocks(req.new_password@, resp.new_password_salt@, resp.new_mkek, m),
        r matches Err(e) ==> e is InvalidPassword || e is InvalidPassphrase || e is Corrupt
            || e is Rng,
{
    let old_password = PasswordSecret::new(req.old_password.as_str());
    let new_password = PasswordSecret::new(req.new_password.as_str());
    let (new_password_salt, new_mkek) = change_password(&old_password, req.old_password_salt, &req.old_mkek, &new_password)?;
    Ok(ChangePasswordResponse { new_password_salt, new_mkek })
}

} // verus!
