//! The key hierarchy: passphrase -> KEK -> MKEK -> master key -> per-file keys.
pub mod mkek;

pub use mkek::MkekCiphertext;

use crate::primitives::{
    argon2_password_fits, argon2id, argon2id_of, hkdf_sha256, hkdf_sha256_of, random_bytes, wipe,
};
use mkek::mkek_seals;
use vstd::prelude::*;
use vstd::utf8::encode_utf8;

verus! {

/// Errors of the key hierarchy.
#[derive(Debug)]
pub enum CryptoError {
    /// Argon2 refused the passphrase; its message.
    InvalidPassword(String),
    /// Sealing failed.
    Aead,
    /// The MKEK did not authenticate under the KEK derived from the passphrase.
    InvalidPassphrase,
    /// The MKEK is malformed.
    Corrupt,
    /// The operating system's random generator failed.
    Rng,
}

/// HKDF info of file keys: the bytes of `"aether-drive:file-key:v1"`.
pub open spec fn file_key_info() -> Seq<u8> {
    encode_utf8("aether-drive:file-key:v1"@)
}

/// The file key of a master key and a per-file salt.
pub open spec fn file_key_of(master_key: Seq<u8>, file_salt: Seq<u8>) -> Seq<u8> {
    hkdf_sha256_of(file_salt, master_key, file_key_info())
}

/// The KEK of a passphrase and a password salt.
pub open spec fn kek_of(password: Seq<char>, salt: Seq<u8>) -> Seq<u8> {
    argon2id_of(password, salt, ARGON2_M_COST, ARGON2_T_COST, ARGON2_P_COST)
}

/// Argon2id memory cost of the KEK: 65 536 KiB (64 MiB).
pub const ARGON2_M_COST: u32 = 65536;

/// Argon2id passes of the KEK.
pub const ARGON2_T_COST: u32 = 3;

/// Argon2id lanes of the KEK.
pub const ARGON2_P_COST: u32 = 1;

/// Unlocking with `password` and `salt` opens `mkek` to the 32-byte key `master_key`.
pub open spec fn unlocks(
    password: Seq<char>,
    salt: Seq<u8>,
    mkek: MkekCiphertext,
    master_key: Seq<u8>,
) -> bool {
    &&& argon2_password_fits(password)
    &&& unlocks_with_kek(kek_of(password, salt), mkek, master_key)
}

/// A user passphrase, held only for the duration of a derivation.
pub struct PasswordSecret {
    value: String,
}

impl View for PasswordSecret {
    type V = Seq<char>;

    closed spec fn view(&self) -> Seq<char> {
        self.value@
    }
}

impl PasswordSecret {
    pub fn new(value: &str) -> (r: Self)
        ensures
            r@ == value@,
    {
        PasswordSecret { value: value.to_owned() }
    }

    pub fn expose(&self) -> (r: &str)
        ensures
            r@ == self@,
    {
        self.value.as_str()
    }
}

/// The 32-byte key-encryption key.
pub struct Kek {
    bytes: [u8; 32],
}

impl View for Kek {
    type V = Seq<u8>;

    closed spec fn view(&self) -> Seq<u8> {
        self.bytes@
    }
}

impl Kek {
    pub fn as_bytes(&self) -> (r: &[u8; 32])
        ensures
            r@ == self@,
    {
        &self.bytes
    }
}

/// The 32-byte master key, root of trust of the vault.
pub struct MasterKey {
    bytes: [u8; 32],
}

impl View for MasterKey {
    type V = Seq<u8>;

    closed spec fn view(&self) -> Seq<u8> {
        self.bytes@
    }
}

impl MasterKey {
    pub fn from_bytes(bytes: [u8; 32]) -> (r: Self)
        ensures
            r@ == bytes@,
    {
        MasterKey { bytes }
    }

    pub fn as_bytes(&self) -> (r: &[u8; 32])
        ensures
            r@ == self@,
    {
        &self.bytes
    }

    /// Overwrites the key with zeros.
    pub fn wipe(&mut self)
        ensures
            final(self)@ == Seq::new(32, |i: int| 0u8),
    {
        wipe(&mut self.bytes);
    }

    /// A copy of the key, for a holder that wipes it on its own.
    pub fn duplicate(&self) -> (r: Self)
        ensures
            r@ == self@,
    {
        MasterKey { bytes: self.bytes }
    }
}

/// The 32-byte key of one envelope.
pub struct FileKey {
    bytes: [u8; 32],
}

impl View for FileKey {
    type V = Seq<u8>;

    closed spec fn view(&self) -> Seq<u8> {
        self.bytes@
    }
}

impl FileKey {
    pub fn as_bytes(&self) -> (r: &[u8; 32])
        ensures
            r@ == self@,
    {
        &self.bytes
    }
}

/// The fixed algorithm choices of the hierarchy.
pub struct CryptoCore {}

impl Default for CryptoCore {
    fn default() -> (r: Self)
        ensures
            r == (CryptoCore {}),
    {
        CryptoCore {}
    }
}

impl CryptoCore {
    pub fn new() -> (r: Self)
        ensures
            r == (CryptoCore {}),
    {
        CryptoCore {}
    }

    /// Argon2id of the passphrase under the salt.
    pub fn derive_kek(&self, password: &PasswordSecret, salt: &[u8; 16]) -> (r: Result<
        Kek,
        CryptoError,
    >)
        ensures
            r matches Ok(k) ==> k@ == kek_of(password@, salt@),
            r matches Err(e) ==> e is InvalidPassword,
            r is Ok <==> argon2_password_fits(password@),
    {
        match argon2id(password.expose(), salt, ARGON2_M_COST, ARGON2_T_COST, ARGON2_P_COST) {
            Ok(bytes) => Ok(Kek { bytes }),
            Err(message) => Err(CryptoError::InvalidPassword(message)),
        }
    }

    /// 32 random bytes.
    pub fn generate_master_key(&self) -> (r: Result<MasterKey, CryptoError>)
        ensures
            r matches Err(e) ==> e is Rng,
    {
        match random_bytes::<32>() {
            Some(bytes) => Ok(MasterKey { bytes }),
            None => Err(CryptoError::Rng),
        }
    }

    /// HKDF-SHA256 with the per-file salt, the master key and the file-key info.
    pub fn derive_file_key(&self, master_key: &MasterKey, file_salt: &[u8; 32]) -> (r: Result<
        FileKey,
        CryptoError,
    >)
        ensures
            r is Ok,
            r is Ok ==> r.unwrap()@ == file_key_of(master_key@, file_salt@),
    {
        let info = "aether-drive:file-key:v1".as_bytes();
        match hkdf_sha256(file_salt, master_key.as_bytes(), info) {
            Ok(bytes) => Ok(FileKey { bytes }),
            // unreachable: a 32-byte expansion never fails
            Err(()) => Err(CryptoError::Aead),
        }
    }

    pub fn random_password_salt(&self) -> (r: Result<[u8; 16], CryptoError>)
        ensures
            r matches Err(e) ==> e is Rng,
    {
        match random_bytes::<16>() {
            Some(salt) => Ok(salt),
            None => Err(CryptoError::Rng),
        }
    }

    pub fn random_file_salt(&self) -> (r: Result<[u8; 32], CryptoError>)
        ensures
            r matches Err(e) ==> e is Rng,
    {
        match random_bytes::<32>() {
            Some(salt) => Ok(salt),
            None => Err(CryptoError::Rng),
        }
    }
}

/// The KEK and the master key of an unlocked vault.
pub struct KeyHierarchy {
    kek: Kek,
    master_key: MasterKey,
}

impl View for KeyHierarchy {
    /// (KEK, master key)
    type V = (Seq<u8>, Seq<u8>);

    closed spec fn view(&self) -> (Seq<u8>, Seq<u8>) {
        (self.kek@, self.master_key@)
    }
}

impl KeyHierarchy {
    /// Derives the KEK and draws a new master key.
    pub fn bootstrap(password: &PasswordSecret, salt: [u8; 16]) -> (r: Result<Self, CryptoError>)
        ensures
            r matches Ok(h) ==> h@.0 == kek_of(password@, salt@) && h@.1.len() == 32
                && argon2_password_fits(password@),
            r matches Err(e) ==> e is InvalidPassword || e is Rng,
            r matches Err(e) ==> (e is InvalidPassword ==> !argon2_password_fits(password@)),
    {
        let master_key = CryptoCore::new().generate_master_key()?;
        Self::with_master_key(password, salt, master_key)
    }

    /// Derives the KEK and takes `master_key` as the vault's master key.
    pub fn with_master_key(password: &PasswordSecret, salt: [u8; 16], master_key: MasterKey) -> (r:
        Result<Self, CryptoError>)
        ensures
            r matches Ok(h) ==> h@.0 == kek_of(password@, salt@) && h@.1 == master_key@,
            r matches Err(e) ==> e is InvalidPassword,
            r is Ok <==> argon2_password_fits(password@),
    {
        let kek = CryptoCore::new().derive_kek(password, &salt)?;
        Ok(KeyHierarchy { kek, master_key })
    }

    /// Re-derives the KEK and opens the MKEK with it.
    pub fn restore(password: &PasswordSecret, salt: [u8; 16], mkek_ciphertext: &MkekCiphertext) -> (r:
        Result<Self, CryptoError>)
        ensures
            r matches Ok(h) ==> h@.0 == kek_of(password@, salt@) && h@.1.len() == 32 && mkek_seals(
                h@.0,
                *mkek_ciphertext,
                h@.1,
            ),
            forall|m: Seq<u8>|
                #[trigger] unlocks(password@, salt@, *mkek_ciphertext, m) ==> r is Ok && r.unwrap()@.1
                    == m,
            r matches Err(e) ==> e is InvalidPassword || e is InvalidPassphrase || e is Corrupt,
            r matches Err(e) ==> (e is InvalidPassword <==> !argon2_password_fits(password@)),
            r is Ok ==> argon2_password_fits(password@),
    {
        let kek = CryptoCore::new().derive_kek(password, &salt)?;
        let master_key = mkek::decrypt_master_key(&kek, mkek_ciphertext)?;
        Ok(KeyHierarchy { kek, master_key })
    }

    pub fn kek(&self) -> (r: &Kek)
        ensures
            r@ == self@.0,
    {
        &self.kek
    }

    pub fn master_key(&self) -> (r: &MasterKey)
        ensures
            r@ == self@.1,
    {
        &self.master_key
    }

    pub fn derive_file_key(&self, file_salt: &[u8; 32]) -> (r: Result<FileKey, CryptoError>)
        ensures
            r is Ok,
            r is Ok ==> r.unwrap()@ == file_key_of(self@.1, file_salt@),
    {
        CryptoCore::new().derive_file_key(&self.master_key, file_salt)
    }

    /// Seals the master key under the KEK with a fresh nonce.
    pub fn seal_master_key(&self) -> (r: Result<MkekCiphertext, CryptoError>)
        ensures
            r matches Ok(c) ==> mkek_seals(self@.0, c, self@.1),
            r matches Err(e) ==> e is Rng,
    {
        mkek::encrypt_master_key(&self.kek, &self.master_key)
    }
}

/// Re-seals the master key of `old_mkek` under the KEK of `new_password` and a fresh
/// salt; returns the new salt and the new MKEK. Nothing else is re-encrypted.
pub fn change_password(
    old_password: &PasswordSecret,
    old_salt: [u8; 16],
    old_mkek: &MkekCiphertext,
    new_password: &PasswordSecret,
) -> (r: Result<([u8; 16], MkekCiphertext), CryptoError>)
    ensures
        r matches Ok((new_salt, c)) ==> exists|m: Seq<u8>|
            #[trigger] unlocks(old_password@, old_salt@, *old_mkek, m) && unlocks(
                new_password@,
                new_salt@,
                c,
                m,
            ),
        r matches Err(e) ==> e is InvalidPassword || e is InvalidPassphrase || e is Corrupt
            || e is Rng,
{
    let core = CryptoCore::new();
    let new_salt = core.random_password_salt()?;
    let nonce = match random_bytes::<24>() {
        Some(n) => n,
        None => { return Err(CryptoError::Rng); },
    };
    let c = change_password_with(old_password, old_salt, old_mkek, new_password, new_salt, nonce)?;
    Ok((new_salt, c))
}

/// `mkek` opens under `kek` to the 32-byte key `master_key`.
pub open spec fn unlocks_with_kek(kek: Seq<u8>, mkek: MkekCiphertext, master_key: Seq<u8>) -> bool {
    master_key.len() == 32 && mkek_seals(kek, mkek, master_key)
}

/// `change_password` with the new salt and the new nonce given. The master key that
/// the old passphrase unlocks is the one that the new passphrase unlocks.
pub fn change_password_with(
    old_password: &PasswordSecret,
    old_salt: [u8; 16],
    old_mkek: &MkekCiphertext,
    new_password: &PasswordSecret,
    new_salt: [u8; 16],
    nonce: [u8; 24],
) -> (r: Result<MkekCiphertext, CryptoError>)
    ensures
        forall|m: Seq<u8>|
            #[trigger] unlocks(old_password@, old_salt@, *old_mkek, m) && argon2_password_fits(
                new_password@,
            ) ==> r is Ok && unlocks(new_password@, new_salt@, r.unwrap(), m),
        r matches Ok(c) ==> c.nonce == nonce && exists|m: Seq<u8>|
            #[trigger] unlocks(old_password@, old_salt@, *old_mkek, m) && unlocks(
                new_password@,
                new_salt@,
                c,
                m,
            ),
        r matches Err(e) ==> e is InvalidPassword || e is InvalidPassphrase || e is Corrupt,
{
    let old = KeyHierarchy::restore(old_password, old_salt, old_mkek)?;
    let new_kek = CryptoCore::new().derive_kek(new_password, &new_salt)?;
    let c = mkek::encrypt_master_key_with_nonce(&new_kek, old.master_key(), nonce);
    assert(unlocks(old_password@, old_salt@, *old_mkek, old@.1));
    Ok(c)
}

/// Unlocking with the passphrase and salt of a bootstrap opens the MKEK that bootstrap
/// sealed to the master key that bootstrap drew.
pub proof fn lemma_unlock_recovers_bootstrap_key(
    password: Seq<char>,
    salt: Seq<u8>,
    master_key: Seq<u8>,
    sealed: MkekCiphertext,
)
    requires
        argon2_password_fits(password),
        master_key.len() == 32,
        mkek_seals(kek_of(password, salt), sealed, master_key),
    ensures
        unlocks(password, salt, sealed, master_key),
{
}

} // verus!
