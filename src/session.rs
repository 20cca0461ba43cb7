//! Session state: the master key, held only between unlock and lock.
use crate::api::{MkekBootstrapResponse, MkekUnlockRequest};
use crate::crypto::mkek::mkek_seals;
use crate::crypto::{kek_of, unlocks, CryptoCore, CryptoError, KeyHierarchy, MasterKey, PasswordSecret};
use crate::index::ids_of;
use crate::index::store::{
    db_key_of, index_mac_key_of, rows_entries, trash_entries, IndexError, IndexRow, IndexTables, TrashRow,
};
use crate::storage::aether_format::aether_bytes;
use crate::storage::{decrypt_bytes, encrypt_file, envelope_of, StorageError};
use vstd::prelude::*;

verus! {

/// The process's one slot for the master key.
pub struct Session {
    master_key: Option<MasterKey>,
}

impl Session {
    /// The key held, if any.
    pub closed spec fn key(&self) -> Option<Seq<u8>> {
        match self.master_key {
            Some(k) => Some(k@),
            None => None,
        }
    }

    /// A locked session.
    pub fn new() -> (r: Self)
        ensures
            r.key() is None,
    {
        Session { master_key: None }
    }

    pub fn is_unlocked(&self) -> (r: bool)
        ensures
            r == self.key() is Some,
    {
        self.master_key.is_some()
    }

    pub fn master_key(&self) -> (r: Option<&MasterKey>)
        ensures
            r matches Some(k) ==> self.key() == Some(k@),
            r is None ==> self.key() is None,
    {
        match &self.master_key {
            Some(k) => Some(k),
            None => None,
        }
    }

    /// Holds `master_key`, wiping the key held before, if any.
    pub fn set_master_key(&mut self, master_key: MasterKey)
        ensures
            final(self).key() == Some(master_key@),
    {
        self.lock();
        self.master_key = Some(master_key);
    }

    /// Wipes the key held, if any, and forgets it.
    pub fn lock(&mut self)
        ensures
            final(self).key() is None,
    {
        let taken = self.master_key.take();
        if let Some(mut k) = taken {
            k.wipe();
        }
    }

    /// Creates a vault: a fresh password salt, the KEK of `password` under it, a fresh
    /// master key, and its MKEK. The session then holds the master key.
    pub fn crypto_bootstrap(&mut self, password: &str) -> (r: Result<MkekBootstrapResponse, CryptoError>)
        ensures
            r matches Ok(resp) ==> ({
                &&& crate::primitives::argon2_password_fits(password@)
                &&& final(self).key() matches Some(k) && k.len() == 32
                &&& mkek_seals(kek_of(password@, resp.password_salt@), resp.mkek, final(self).key()->Some_0)
            }),
            r matches Err(e) ==> (e is InvalidPassword || e is Rng) && final(self).key() == old(self).key(),
            r matches Err(e) ==> (e is InvalidPassword ==> !crate::primitives::argon2_password_fits(
                password@,
            )),
    {
        let password_secret = PasswordSecret::new(password);
        let salt = CryptoCore::new().random_password_salt()?;
        let hierarchy = KeyHierarchy::bootstrap(&password_secret, salt)?;
        let mkek = hierarchy.seal_master_key()?;
        self.set_master_key(hierarchy.master_key().duplicate());
        Ok(MkekBootstrapResponse { password_salt: salt, mkek })
    }

    /// Opens the MKEK of `req` with its passphrase and salt and holds the master key.
    /// A failure leaves the session as it was.
    pub fn crypto_unlock(&mut self, req: &MkekUnlockRequest) -> (r: Result<(), CryptoError>)
        ensures
            forall|m: Seq<u8>|
                #[trigger] unlocks(req.password@, req.password_salt@, req.mkek, m) ==> r is Ok
                    && final(self).key() == Some(m),
            r is Ok ==> (final(self).key() matches Some(k) && k.len() == 32 && mkek_seals(
                kek_of(req.password@, req.password_salt@),
                req.mkek,
                k,
            )),
            r matches Err(e) ==> (e is InvalidPassword || e is InvalidPassphrase || e is Corrupt)
                && final(self).key() == old(self).key(),
    {
        let password_secret = PasswordSecret::new(req.password.as_str());
        let hierarchy = KeyHierarchy::restore(&password_secret, req.password_salt, &req.mkek)?;
        self.set_master_key(hierarchy.master_key().duplicate());
        Ok(())
    }

    /// Encrypts `data` for `logical_path` under the held key and returns the wire form.
    pub fn storage_encrypt_file(&self, data: &[u8], logical_path: &str) -> (r: Result<Vec<u8>, StorageError>)
        ensures
            self.key() is None ==> r matches Err(StorageError::Locked),
            self.key() is Some ==> !(r matches Err(StorageError::Locked)),
            r matches Ok(bytes) ==> exists|f: crate::storage::AetherFile|
                #[trigger] envelope_of(f, self.key()->Some_0, data@, logical_path@) && bytes@
                    == aether_bytes(f.header, f.ciphertext@) && f.ciphertext@.len() == data@.len()
                    + 16,
            r matches Ok(bytes) ==> bytes@.len() == 118 + data@.len() + 16,
            r matches Err(e) ==> e is Locked || e is Crypto,
    {
        match &self.master_key {
            Some(k) => {
                let f = match encrypt_file(k, data, logical_path) {
                    Ok(f) => f,
                    Err(e) => { return Err(e); },
                };
                let bytes = f.to_bytes();
                proof {
                    crate::storage::aether_format::lemma_aether_bytes_layout(f.header, f.ciphertext@);
                }
                assert(envelope_of(f, self.key()->Some_0, data@, logical_path@) && bytes@ == aether_bytes(
                    f.header,
                    f.ciphertext@,
                ) && f.ciphertext@.len() == data@.len() + 16);
                Ok(bytes)
            },
            None => Err(StorageError::Locked),
        }
    }

    /// Decrypts the wire form `encrypted_data` for `logical_path` under the held key.
    pub fn storage_decrypt_file(&self, encrypted_data: &[u8], logical_path: &str) -> (r: Result<
        Vec<u8>,
        StorageError,
    >)
        ensures
            self.key() is None ==> r matches Err(StorageError::Locked),
            r matches Ok(p) ==> exists|f: crate::storage::AetherFile|
                #[trigger] crate::storage::aether_format::fields_of(f, encrypted_data@) && envelope_of(
                    f,
                    self.key()->Some_0,
                    p@,
                    logical_path@,
                ),
            forall|f: crate::storage::AetherFile, p: Seq<u8>|
                self.key() is Some && crate::storage::aether_format::is_aether_bytes(encrypted_data@)
                    && crate::storage::aether_format::fields_of(f, encrypted_data@)
                    && crate::primitives::aead_msg_fits(p.len()) && f.ciphertext@.len() == p.len() + 16
                    && #[trigger] envelope_of(
                    f,
                    self.key()->Some_0,
                    p,
                    logical_path@,
                ) ==> r is Ok && r.unwrap()@ == p,
            r matches Err(e) ==> e is Locked || e is InvalidFormat,
    {
        match &self.master_key {
            Some(k) => decrypt_bytes(k, encrypted_data, logical_path),
            None => Err(StorageError::Locked),
        }
    }

    /// A new, empty index under the keys of the held master key.
    pub fn create_index(&self) -> (r: Option<IndexTables>)
        ensures
            self.key() is None ==> r is None,
            self.key() is Some ==> r is Some,
            r matches Some(t) ==> t.consistent() && t.mac_key() == index_mac_key_of(self.key()->Some_0)
                && t.spec_db_key() == db_key_of(self.key()->Some_0),
    {
        match &self.master_key {
            Some(k) => Some(IndexTables::open(k)),
            None => None,
        }
    }

    /// The index read back from the store, under the keys of the held master key.
    pub fn load_index(
        &self,
        rows: Vec<IndexRow>,
        trash: Vec<TrashRow>,
        merkle_root: Option<[u8; 32]>,
    ) -> (r: Option<Result<IndexTables, IndexError>>)
        ensures
            self.key() is None ==> r is None,
            self.key() is Some ==> r is Some,
            r matches Some(inner) ==> (inner is Ok <==> ids_of(rows_entries(rows@)).no_duplicates()
                && ids_of(trash_entries(trash@)).no_duplicates()),
            r matches Some(Err(e)) ==> e is Corrupt,
            r matches Some(Ok(t)) ==> t.wf() && t.spec_rows() == rows@ && t.spec_trash() == trash@
                && t.mac_key() == index_mac_key_of(self.key()->Some_0) && t.spec_db_key()
                == db_key_of(self.key()->Some_0) && t.stored_root() == (match merkle_root {
                Some(h) => Some(h@),
                None => None::<Seq<u8>>,
            }),
    {
        match &self.master_key {
            Some(k) => Some(IndexTables::load(k, rows, trash, merkle_root)),
            None => None,
        }
    }
}

} // verus!
