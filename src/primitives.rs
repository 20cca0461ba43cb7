//! Cryptographic primitives provided by outside crates.
//!
//! A primitive whose output takes pages to describe has its result named by
//! an uninterpreted spec function; the wrappers below tie each executable call
//! to that name and state what the crate's source shows about it.
use chacha20poly1305::aead::{Aead, KeyInit, Payload};
use rand::RngCore;
use sha2::Digest;
use vstd::prelude::*;
use zeroize::Zeroize;

verus! {

/// The SHA-256 digest of a byte string.
pub uninterp spec fn sha256_of(data: Seq<u8>) -> Seq<u8>;

/// The 32-byte output of HKDF-SHA256 with the given salt, input key material and info.
pub uninterp spec fn hkdf_sha256_of(salt: Seq<u8>, ikm: Seq<u8>, info: Seq<u8>) -> Seq<u8>;

/// The 32-byte Argon2id (version 0x13) hash of the UTF-8 encoding of a passphrase under
/// a salt, with `m` KiB of memory, `t` passes and `p` lanes.
pub uninterp spec fn argon2id_of(password: Seq<char>, salt: Seq<u8>, m: u32, t: u32, p: u32) -> Seq<u8>;

/// The XChaCha20-Poly1305 sealing of `msg` under `key`, `nonce` and associated data `aad`:
/// the encrypted body followed by the 16-byte tag.
pub uninterp spec fn xchacha20poly1305_seal_of(
    key: Seq<u8>,
    nonce: Seq<u8>,
    aad: Seq<u8>,
    msg: Seq<u8>,
) -> Seq<u8>;

/// The longest message that XChaCha20-Poly1305 encrypts: the keystream of one nonce has
/// `u32::MAX` blocks of 64 bytes, and its first block keys Poly1305.
pub const AEAD_MAX_MSG: u64 = 274877906816;

/// Messages short enough for XChaCha20-Poly1305: at most `u32::MAX - 1` blocks of 64 bytes.
pub open spec fn aead_msg_fits(len: nat) -> bool {
    len <= AEAD_MAX_MSG
}

/// Valid Argon2 costs: `m` KiB of memory, `t` passes, `p` lanes, with
/// `8 <= m`, `8 * p <= m`, `1 <= t` and `1 <= p <= 0xFF_FFFF`.
pub open spec fn argon2_params_valid(m: u32, t: u32, p: u32) -> bool {
    8 <= m && 8 * p <= m && 1 <= t && 1 <= p <= 0xFF_FFFF
}

/// Passphrases whose UTF-8 encoding fits Argon2's limit of `0xFFFF_FFFF` bytes.
pub open spec fn argon2_password_fits(password: Seq<char>) -> bool {
    vstd::utf8::encode_utf8(password).len() <= 0xFFFF_FFFF
}

/// The lowercase hexadecimal digit of a value below 16.
pub open spec fn hex_digit(n: u8) -> char {
    seq!['0', '1', '2', '3', '4', '5', '6', '7', '8', '9', 'a', 'b', 'c', 'd', 'e', 'f'][n as int]
}

/// Two lowercase hexadecimal digits per byte, high nibble first.
pub open spec fn hex_of(bytes: Seq<u8>) -> Seq<char>
    decreases bytes.len(),
{
    if bytes.len() == 0 {
        Seq::empty()
    } else {
        hex_of(bytes.drop_last()) + seq![hex_digit(bytes.last() / 16), hex_digit(bytes.last() % 16)]
    }
}

/// Relies on `hex::encode`: for each byte, the digit of its high nibble then that of its
/// low nibble, from the table `"0123456789abcdef"`.
#[verifier::external_body]
pub(crate) fn hex_encode(bytes: &[u8]) -> (r: String)
    ensures
        r@ == hex_of(bytes@),
{
    hex::encode(bytes)
}

/// The lowercase mapping of a string, character by character as Unicode defines it.
pub uninterp spec fn lowercase_of(s: Seq<char>) -> Seq<char>;

/// Relies on `str::to_lowercase`: the result depends on the characters alone.
#[verifier::external_body]
pub(crate) fn to_lowercase(s: &str) -> (r: String)
    ensures
        r@ == lowercase_of(s@),
{
    s.to_lowercase()
}

/// Relies on `sha2::Sha256::digest`: the 32-byte SHA-256 digest of `data`.
#[verifier::external_body]
pub(crate) fn sha256(data: &[u8]) -> (r: [u8; 32])
    ensures
        r@ == sha256_of(data@),
{
    sha2::Sha256::digest(data).into()
}

/// Relies on `hkdf::Hkdf::<Sha256>::new` and `expand`: extract with `salt`, expand `info`
/// into 32 bytes. `expand` fails only for outputs longer than 255 * 32 bytes, so this
/// always succeeds.
#[verifier::external_body]
pub(crate) fn hkdf_sha256(salt: &[u8], ikm: &[u8], info: &[u8]) -> (r: Result<[u8; 32], ()>)
    ensures
        r is Ok,
        r is Ok ==> r.unwrap()@ == hkdf_sha256_of(salt@, ikm@, info@),
{
    let hk = hkdf::Hkdf::<sha2::Sha256>::new(Some(salt), ikm);
    let mut okm = [0u8; 32];
    hk.expand(info, &mut okm).map_err(|_| ())?;
    Ok(okm)
}

/// Relies on `argon2::Params::new(m, t, p, Some(32))`, which accepts exactly the valid
/// costs (it computes `8 * p` before bounding `p`, hence the `requires`), and on
/// `argon2::Argon2::hash_password_into` with Argon2id, version 0x13: deterministic in its
/// inputs. With a 16-byte salt and a 32-byte output it fails exactly on a passphrase whose
/// UTF-8 bytes (`password.as_bytes()`) number more than `0xFFFF_FFFF`; the error is
/// handed back as its message.
#[verifier::external_body]
pub(crate) fn argon2id(password: &str, salt: &[u8; 16], m: u32, t: u32, p: u32) -> (r: Result<
    [u8; 32],
    String,
>)
    requires
        argon2_params_valid(m, t, p),
    ensures
        r matches Ok(k) ==> k@ == argon2id_of(password@, salt@, m, t, p),
        r is Ok <==> argon2_password_fits(password@),
{
    let params = argon2::Params::new(m, t, p, Some(32)).map_err(|e| e.to_string())?;
    let hasher = argon2::Argon2::new(argon2::Algorithm::Argon2id, argon2::Version::V0x13, params);
    let mut out = [0u8; 32];
    hasher.hash_password_into(password.as_bytes(), salt, &mut out).map_err(|e| e.to_string())?;
    Ok(out)
}

/// Relies on `chacha20poly1305::XChaCha20Poly1305::encrypt` (the `aead` crate's `Aead`
/// impl): the body is the message XOR the keystream and a 16-byte tag follows it. The
/// keystream starts at block 1 (`chacha20`'s `remaining_blocks`), and `apply_keystream`
/// panics past its end, so the message is bounded by `requires`; within the bound the
/// call always succeeds.
#[verifier::external_body]
pub(crate) fn aead_seal(key: &[u8; 32], nonce: &[u8; 24], aad: &[u8], msg: &[u8]) -> (r: Option<
    Vec<u8>,
>)
    requires
        aead_msg_fits(msg@.len()),
    ensures
        r is Some,
        r matches Some(c) ==> c@ == xchacha20poly1305_seal_of(key@, nonce@, aad@, msg@)
            && c@.len() == msg@.len() + 16,
{
    let cipher = chacha20poly1305::XChaCha20Poly1305::new(key.into());
    cipher.encrypt(nonce.into(), Payload { msg, aad }).ok()
}

/// Relies on `chacha20poly1305::XChaCha20Poly1305::decrypt`: it recomputes the tag over
/// `aad` and the body and, only when it equals the trailing 16 bytes, returns the body
/// XOR the keystream. So it succeeds exactly on the sealings of messages, and returns
/// that message. A body longer than the keystream would panic once the tag verifies, so
/// the input is bounded by `requires`.
#[verifier::external_body]
pub(crate) fn aead_open(key: &[u8; 32], nonce: &[u8; 24], aad: &[u8], ct: &[u8]) -> (r: Option<
    Vec<u8>,
>)
    requires
        ct@.len() <= AEAD_MAX_MSG + 16,
    ensures
        r matches Some(m) ==> xchacha20poly1305_seal_of(key@, nonce@, aad@, m@) == ct@
            && aead_msg_fits(m@.len()),
        forall|m: Seq<u8>|
            aead_msg_fits(m.len()) && #[trigger] xchacha20poly1305_seal_of(key@, nonce@, aad@, m)
                == ct@ ==> r is Some && r.unwrap()@ == m,
{
    let cipher = chacha20poly1305::XChaCha20Poly1305::new(key.into());
    cipher.decrypt(nonce.into(), Payload { msg: ct, aad }).ok()
}

/// Relies on `rand::rngs::OsRng::try_fill_bytes`: `N` bytes from the operating system's
/// generator, or `None` when the generator fails. Nothing is known of the bytes.
#[verifier::external_body]
pub(crate) fn random_bytes<const N: usize>() -> (r: Option<[u8; N]>) {
    let mut out = [0u8; N];
    match rand::rngs::OsRng.try_fill_bytes(&mut out) {
        Ok(()) => Some(out),
        Err(_) => None,
    }
}

/// Relies on `zeroize::Zeroize` for `[u8; 32]`: every byte is overwritten with zero.
#[verifier::external_body]
pub(crate) fn wipe(bytes: &mut [u8; 32])
    ensures
        final(bytes)@ == Seq::new(32, |i: int| 0u8),
{
    bytes.zeroize();
}

} // verus!
