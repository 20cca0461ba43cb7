//! The MKEK: the master key sealed under the KEK, its only persisted form.
use super::{CryptoError, Kek, MasterKey};
use crate::primitives::{aead_msg_fits, aead_open, aead_seal, random_bytes, xchacha20poly1305_seal_of};
use vstd::prelude::*;
use vstd::utf8::encode_utf8;

verus! {

/// Associated data of every MKEK: the bytes of `"aether-drive:mkek:v1"`.
pub open spec fn mkek_aad() -> Seq<u8> {
    encode_utf8("aether-drive:mkek:v1"@)
}

/// The sealed master key: a 24-byte nonce and the AEAD output (ciphertext and tag).
#[derive(Debug, Clone)]
pub struct MkekCiphertext {
    pub nonce: [u8; 24],
    pub payload: Vec<u8>,
}

/// `mkek` is the sealing of `master_key` under `kek`, with its own nonce and the MKEK
/// associated data: the encrypted key followed by its 16-byte tag.
pub open spec fn mkek_seals(kek: Seq<u8>, mkek: MkekCiphertext, master_key: Seq<u8>) -> bool {
    &&& mkek.payload@.len() == master_key.len() + 16
    &&& xchacha20poly1305_seal_of(kek, mkek.nonce@, mkek_aad(), master_key) == mkek.payload@
}

impl MkekCiphertext {
    pub fn new(nonce: [u8; 24], payload: Vec<u8>) -> (r: Self)
        ensures
            r.nonce == nonce,
            r.payload@ == payload@,
    {
        MkekCiphertext { nonce, payload }
    }
}

/// Seals `master_key` under `kek` with a fresh random nonce.
pub fn encrypt_master_key(kek: &Kek, master_key: &MasterKey) -> (r: Result<MkekCiphertext, CryptoError>)
    ensures
        r matches Ok(c) ==> mkek_seals(kek@, c, master_key@),
        r matches Err(e) ==> e is Rng,
{
    match random_bytes::<24>() {
        Some(nonce) => Ok(encrypt_master_key_with_nonce(kek, master_key, nonce)),
        None => Err(CryptoError::Rng),
    }
}

/// Seals `master_key` under `kek` with the given nonce.
pub fn encrypt_master_key_with_nonce(kek: &Kek, master_key: &MasterKey, nonce: [u8; 24]) -> (r:
    MkekCiphertext)
    ensures
        r.nonce == nonce,
        mkek_seals(kek@, r, master_key@),
        r.payload@.len() == 48,
{
    let aad = "aether-drive:mkek:v1".as_bytes();
    let sealed = aead_seal(kek.as_bytes(), &nonce, aad, master_key.as_bytes());
    match sealed {
        Some(payload) => MkekCiphertext { nonce, payload },
        None => {
            // a 32-byte message always fits
            assert(false);
            MkekCiphertext { nonce, payload: Vec::new() }
        },
    }
}

/// Opens `mkek` under `kek`. A payload that is not 48 bytes (a sealed 32-byte key), or
/// that opens to anything but 32 bytes, is `Corrupt`; a 48-byte payload that does not
/// authenticate is `InvalidPassphrase`.
pub fn decrypt_master_key(kek: &Kek, mkek: &MkekCiphertext) -> (r: Result<MasterKey, CryptoError>)
    ensures
        r matches Ok(m) ==> mkek_seals(kek@, *mkek, m@) && m@.len() == 32,
        forall|m: Seq<u8>|
            m.len() == 32 && #[trigger] mkek_seals(kek@, *mkek, m) ==> r is Ok && r.unwrap()@ == m,
        r matches Err(e) ==> e is InvalidPassphrase || e is Corrupt,
        r matches Err(e) ==> (e is InvalidPassphrase ==> mkek.payload@.len() == 48),
        mkek.payload@.len() != 48 ==> r matches Err(CryptoError::Corrupt),
{
    if mkek.payload.len() != 48 {
        return Err(CryptoError::Corrupt);
    }
    let aad = "aether-drive:mkek:v1".as_bytes();
    match aead_open(kek.as_bytes(), &mkek.nonce, aad, mkek.payload.as_slice()) {
        Some(plain) => {
            if plain.len() != 32 {
                Err(CryptoError::Corrupt)
            } else {
                let bytes: [u8; 32] = crate::bytes::copy_array(plain.as_slice(), 0);
                assert(bytes@ =~= plain@);
                Ok(MasterKey::from_bytes(bytes))
            }
        },
        None => {
            proof {
                assert forall|m: Seq<u8>|
                    m.len() == 32 implies !#[trigger] mkek_seals(kek@, *mkek, m) by {
                    assert(aead_msg_fits(m.len()));
                }
            }
            Err(CryptoError::InvalidPassphrase)
        },
    }
}

} // verus!
