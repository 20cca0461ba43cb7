//! Aether envelopes: whole-file encryption under a per-file key, bound to the
//! logical path by the associated data and to the key by a commitment tag.
pub mod aether_format;

pub use aether_format::{AetherError, AetherFile, AetherHeader};

use crate::bytes::{append_bytes, bytes_equal};
use crate::crypto::{file_key_of, CryptoCore, CryptoError, MasterKey};
use crate::primitives::{
    aead_msg_fits, AEAD_MAX_MSG, aead_open, aead_seal, random_bytes, sha256, sha256_of, xchacha20poly1305_seal_of,
};
use aether_format::{aether_bytes, fields_of, is_aether_bytes, lemma_aether_round_trip};
use vstd::prelude::*;
use vstd::utf8::encode_utf8;

verus! {

/// Format version written and accepted.
pub const VERSION: u8 = 0x01;

/// The one cipher accepted: XChaCha20-Poly1305.
pub const CIPHER_ID: u8 = 0x02;

/// Errors of envelope encryption and decryption.
#[derive(Debug)]
pub enum StorageError {
    /// The envelope is malformed, or does not authenticate under the key and path given.
    InvalidFormat(String),
    Crypto(CryptoError),
    Io(String),
    /// No master key is held.
    Locked,
}

/// The magic number `"AETH"`.
pub open spec fn magic() -> Seq<u8> {
    seq![0x41u8, 0x45u8, 0x54u8, 0x48u8]
}

/// Associated data of an envelope: `"aether-drive:aad:v1:"` followed by the path's bytes.
pub open spec fn aad_of(logical_path: Seq<char>) -> Seq<u8> {
    encode_utf8("aether-drive:aad:v1:"@) + encode_utf8(logical_path)
}

/// What the commitment tag hashes: `"AETH" || 0x01 || 0x02 || uuid || salt || file key`.
pub open spec fn commitment_input(uuid: Seq<u8>, salt: Seq<u8>, file_key: Seq<u8>) -> Seq<u8> {
    magic() + seq![VERSION, CIPHER_ID] + uuid + salt + file_key
}

/// The header names this format: magic, version and cipher.
pub open spec fn header_recognized(h: AetherHeader) -> bool {
    h.magic@ == magic() && h.version == VERSION && h.cipher_id == CIPHER_ID
}

/// `f` is the envelope of `plaintext` under `master_key` for `logical_path`: a recognized
/// header, the commitment of the file key derived from its salt, and the ciphertext
/// sealed under that key with the header's nonce and the path's associated data.
pub open spec fn envelope_of(
    f: AetherFile,
    master_key: Seq<u8>,
    plaintext: Seq<u8>,
    logical_path: Seq<char>,
) -> bool {
    let file_key = file_key_of(master_key, f.header.salt@);
    &&& header_recognized(f.header)
    &&& f.header.commitment_hmac@ == sha256_of(
        commitment_input(f.header.uuid@, f.header.salt@, file_key),
    )
    &&& f.ciphertext@ == xchacha20poly1305_seal_of(
        file_key,
        f.header.nonce@,
        aad_of(logical_path),
        plaintext,
    )
}

fn magic_number() -> (r: [u8; 4])
    ensures
        r@ == magic(),
{
    let r: [u8; 4] = [0x41, 0x45, 0x54, 0x48];
    assert(r@ =~= magic());
    r
}

/// The associated data for `logical_path`.
pub fn build_aad(logical_path: &str) -> (r: Vec<u8>)
    ensures
        r@ == aad_of(logical_path@),
{
    let mut aad: Vec<u8> = Vec::new();
    append_bytes(&mut aad, "aether-drive:aad:v1:".as_bytes());
    append_bytes(&mut aad, logical_path.as_bytes());
    aad
}

fn commitment(uuid: &[u8; 16], salt: &[u8; 32], file_key: &[u8; 32]) -> (r: [u8; 32])
    ensures
        r@ == sha256_of(commitment_input(uuid@, salt@, file_key@)),
{
    let mut input: Vec<u8> = Vec::new();
    let magic = magic_number();
    append_bytes(&mut input, &magic);
    input.push(VERSION);
    input.push(CIPHER_ID);
    append_bytes(&mut input, uuid);
    append_bytes(&mut input, salt);
    append_bytes(&mut input, file_key);
    assert(input@ =~= commitment_input(uuid@, salt@, file_key@));
    sha256(input.as_slice())
}

/// Encrypts `plaintext` for `logical_path` under a fresh uuid, salt and nonce.
pub fn encrypt_file(master_key: &MasterKey, plaintext: &[u8], logical_path: &str) -> (r: Result<
    AetherFile,
    StorageError,
>)
    ensures
        r matches Ok(f) ==> envelope_of(f, master_key@, plaintext@, logical_path@),
        r matches Ok(f) ==> f.ciphertext@.len() == plaintext@.len() + 16 && aead_msg_fits(
            plaintext@.len(),
        ),
        r matches Err(e) ==> e is Crypto,
{
    let uuid = match random_bytes::<16>() {
        Some(b) => b,
        None => { return Err(StorageError::Crypto(CryptoError::Rng)); },
    };
    let salt = match random_bytes::<32>() {
        Some(b) => b,
        None => { return Err(StorageError::Crypto(CryptoError::Rng)); },
    };
    let nonce = match random_bytes::<24>() {
        Some(b) => b,
        None => { return Err(StorageError::Crypto(CryptoError::Rng)); },
    };
    encrypt_file_with(master_key, plaintext, logical_path, uuid, salt, nonce)
}

/// `encrypt_file` with the uuid, the salt and the nonce given.
pub fn encrypt_file_with(
    master_key: &MasterKey,
    plaintext: &[u8],
    logical_path: &str,
    uuid: [u8; 16],
    salt: [u8; 32],
    nonce: [u8; 24],
) -> (r: Result<AetherFile, StorageError>)
    ensures
        r matches Ok(f) ==> envelope_of(f, master_key@, plaintext@, logical_path@)
            && f.header.uuid == uuid && f.header.salt == salt && f.header.nonce == nonce,
        r matches Ok(f) ==> f.ciphertext@.len() == plaintext@.len() + 16,
        r is Ok <==> aead_msg_fits(plaintext@.len()),
        r matches Err(e) ==> e is Crypto,
{
    if plaintext.len() as u64 > AEAD_MAX_MSG {
        return Err(StorageError::Crypto(CryptoError::Aead));
    }
    let file_key = match CryptoCore::new().derive_file_key(master_key, &salt) {
        Ok(k) => k,
        Err(e) => { return Err(StorageError::Crypto(e)); },
    };
    let aad = build_aad(logical_path);
    let ciphertext = match aead_seal(file_key.as_bytes(), &nonce, aad.as_slice(), plaintext) {
        Some(c) => c,
        None => { return Err(StorageError::Crypto(CryptoError::Aead)); },
    };
    let commitment_hmac = commitment(&uuid, &salt, file_key.as_bytes());
    let header = AetherHeader {
        magic: magic_number(),
        version: VERSION,
        cipher_id: CIPHER_ID,
        uuid,
        salt,
        commitment_hmac,
        nonce,
    };
    Ok(AetherFile { header, ciphertext })
}

/// Decrypts `aether_file` for `logical_path`. It succeeds exactly when the file is the
/// envelope of some plaintext under `master_key` for that path, and then returns that
/// plaintext; every failure is `InvalidFormat`. Magic, version and cipher are checked
/// before any key is derived.
pub fn decrypt_file(master_key: &MasterKey, aether_file: &AetherFile, logical_path: &str) -> (r:
    Result<Vec<u8>, StorageError>)
    ensures
        r matches Ok(p) ==> envelope_of(*aether_file, master_key@, p@, logical_path@),
        forall|p: Seq<u8>|
            aead_msg_fits(p.len()) && aether_file.ciphertext@.len() == p.len() + 16
                && #[trigger] envelope_of(
                *aether_file,
                master_key@,
                p,
                logical_path@,
            ) ==> r is Ok && r.unwrap()@ == p,
        !header_recognized(aether_file.header) ==> r is Err,
        r matches Err(e) ==> e is InvalidFormat,
{
    let header = &aether_file.header;
    let magic = magic_number();
    if !bytes_equal(&header.magic, &magic) {
        return Err(StorageError::InvalidFormat("invalid magic number".to_owned()));
    }
    if header.version != VERSION {
        return Err(StorageError::InvalidFormat("unsupported version".to_owned()));
    }
    if header.cipher_id != CIPHER_ID {
        return Err(StorageError::InvalidFormat("unsupported cipher".to_owned()));
    }
    let file_key = match CryptoCore::new().derive_file_key(master_key, &header.salt) {
        Ok(k) => k,
        Err(_) => { return Err(StorageError::InvalidFormat("key derivation failed".to_owned())); },
    };
    let expected = commitment(&header.uuid, &header.salt, file_key.as_bytes());
    if !bytes_equal(&expected, &header.commitment_hmac) {
        return Err(StorageError::InvalidFormat("commitment mismatch".to_owned()));
    }
    if aether_file.ciphertext.len() as u64 > AEAD_MAX_MSG + 16 {
        return Err(StorageError::InvalidFormat("ciphertext too long".to_owned()));
    }
    let aad = build_aad(logical_path);
    match aead_open(file_key.as_bytes(), &header.nonce, aad.as_slice(), aether_file.ciphertext.as_slice()) {
        Some(plaintext) => Ok(plaintext),
        None => Err(StorageError::InvalidFormat("authentication failed".to_owned())),
    }
}

/// Parses the wire form and decrypts it; a byte string that is not the wire form of an
/// envelope is `InvalidFormat`.
pub fn decrypt_bytes(master_key: &MasterKey, data: &[u8], logical_path: &str) -> (r: Result<
    Vec<u8>,
    StorageError,
>)
    ensures
        r matches Ok(p) ==> exists|f: AetherFile|
            #[trigger] fields_of(f, data@) && envelope_of(f, master_key@, p@, logical_path@),
        forall|f: AetherFile, p: Seq<u8>|
            is_aether_bytes(data@) && fields_of(f, data@) && aead_msg_fits(p.len())
                && f.ciphertext@.len() == p.len() + 16 && #[trigger] envelope_of(
                f,
                master_key@,
                p,
                logical_path@,
            ) ==> r is Ok && r.unwrap()@ == p,
        !is_aether_bytes(data@) ==> r is Err,
        r matches Err(e) ==> e is InvalidFormat,
{
    match AetherFile::from_bytes(data) {
        Ok(f) => {
            proof {
                assert forall|g: AetherFile, p: Seq<u8>|
                    fields_of(g, data@) && aead_msg_fits(p.len()) && g.ciphertext@.len() == p.len()
                        + 16 && #[trigger] envelope_of(
                        g,
                        master_key@,
                        p,
                        logical_path@,
                    ) implies envelope_of(f, master_key@, p, logical_path@) && f.ciphertext@.len()
                        == p.len() + 16 by {
                    lemma_same_fields(f, g, data@);
                }
            }
            decrypt_file(master_key, &f, logical_path)
        },
        Err(_) => Err(StorageError::InvalidFormat("truncated or oversized envelope".to_owned())),
    }
}

/// Two envelopes read from the same bytes agree on header and ciphertext.
proof fn lemma_same_fields(f: AetherFile, g: AetherFile, data: Seq<u8>)
    requires
        fields_of(f, data),
        fields_of(g, data),
    ensures
        f.header == g.header,
        f.ciphertext@ == g.ciphertext@,
{
    broadcast use vstd::array::group_array_axioms;

    assert(f.header.magic =~= g.header.magic);
    assert(f.header.uuid =~= g.header.uuid);
    assert(f.header.salt =~= g.header.salt);
    assert(f.header.commitment_hmac =~= g.header.commitment_hmac);
    assert(f.header.nonce =~= g.header.nonce);
}

/// Decryption inverts encryption through the wire form: the envelope parsed back from
/// the bytes of an envelope of `plaintext` is again an envelope of `plaintext` for the
/// same key and path, which `decrypt_file` opens to `plaintext`.
pub proof fn lemma_decrypt_inverts_encrypt(
    sealed: AetherFile,
    parsed: AetherFile,
    master_key: Seq<u8>,
    plaintext: Seq<u8>,
    logical_path: Seq<char>,
)
    requires
        envelope_of(sealed, master_key, plaintext, logical_path),
        sealed.ciphertext@.len() <= u64::MAX,
        fields_of(parsed, aether_bytes(sealed.header, sealed.ciphertext@)),
    ensures
        is_aether_bytes(aether_bytes(sealed.header, sealed.ciphertext@)),
        envelope_of(parsed, master_key, plaintext, logical_path),
{
    lemma_aether_round_trip(sealed, parsed);
}

/// Distinct paths have distinct associated data.
pub proof fn lemma_aad_injective(a: Seq<char>, b: Seq<char>)
    requires
        a != b,
    ensures
        aad_of(a) != aad_of(b),
{
    broadcast use vstd::utf8::encode_utf8_decode_utf8;

    let prefix = encode_utf8("aether-drive:aad:v1:"@);
    if aad_of(a) == aad_of(b) {
        assert(aad_of(a).subrange(prefix.len() as int, aad_of(a).len() as int) =~= encode_utf8(a));
        assert(aad_of(b).subrange(prefix.len() as int, aad_of(b).len() as int) =~= encode_utf8(b));
        assert(vstd::utf8::decode_utf8(encode_utf8(a)) == a);
        assert(vstd::utf8::decode_utf8(encode_utf8(b)) == b);
    }
}

/// The path is bound to the envelope: an envelope of `plaintext` for `logical_path` that
/// also opens for another path exhibits one AEAD output that authenticates under two
/// distinct associated data, that is a forgery against XChaCha20-Poly1305.
pub proof fn lemma_path_is_bound(
    f: AetherFile,
    master_key: Seq<u8>,
    plaintext: Seq<u8>,
    logical_path: Seq<char>,
    other_plaintext: Seq<u8>,
    other_path: Seq<char>,
)
    requires
        envelope_of(f, master_key, plaintext, logical_path),
        envelope_of(f, master_key, other_plaintext, other_path),
        logical_path != other_path,
    ensures
        aad_of(logical_path) != aad_of(other_path),
        xchacha20poly1305_seal_of(
            file_key_of(master_key, f.header.salt@),
            f.header.nonce@,
            aad_of(logical_path),
            plaintext,
        ) == xchacha20poly1305_seal_of(
            file_key_of(master_key, f.header.salt@),
            f.header.nonce@,
            aad_of(other_path),
            other_plaintext,
        ),
{
    lemma_aad_injective(logical_path, other_path);
}

/// The envelope is committed to its key: an envelope made under `master_key` that also
/// opens under `other_key` means that both keys derive the same file key from the
/// envelope's salt (an HKDF collision), or that two distinct commitment inputs share a
/// SHA-256 digest.
pub proof fn lemma_key_is_committed(
    f: AetherFile,
    master_key: Seq<u8>,
    plaintext: Seq<u8>,
    logical_path: Seq<char>,
    other_key: Seq<u8>,
    other_plaintext: Seq<u8>,
    other_path: Seq<char>,
)
    requires
        envelope_of(f, master_key, plaintext, logical_path),
        envelope_of(f, other_key, other_plaintext, other_path),
    ensures
        file_key_of(master_key, f.header.salt@) == file_key_of(other_key, f.header.salt@) || ({
            let a = commitment_input(f.header.uuid@, f.header.salt@, file_key_of(master_key, f.header.salt@));
            let b = commitment_input(f.header.uuid@, f.header.salt@, file_key_of(other_key, f.header.salt@));
            a != b && sha256_of(a) == sha256_of(b)
        }),
{
    let k1 = file_key_of(master_key, f.header.salt@);
    let k2 = file_key_of(other_key, f.header.salt@);
    let a = commitment_input(f.header.uuid@, f.header.salt@, k1);
    let b = commitment_input(f.header.uuid@, f.header.salt@, k2);
    if k1 != k2 {
        let n = (a.len() - k1.len()) as int;
        assert(a.subrange(n, a.len() as int) =~= k1);
        assert(b.subrange(n, b.len() as int) =~= k2);
    }
}

/// The wire form with bit `bit` of byte `i` inverted.
pub open spec fn flip_bit(data: Seq<u8>, i: int, bit: u8) -> Seq<u8> {
    data.update(i, data[i] ^ (1u8 << bit))
}

/// Flipping any bit of the magic, version, cipher or length bytes of an envelope's wire
/// form is caught before any key is used: the bytes no longer parse, or what they parse
/// to has a header that `decrypt_file` rejects.
pub proof fn lemma_header_bit_flip_rejected(f: AetherFile, i: int, bit: u8)
    requires
        header_recognized(f.header),
        f.ciphertext@.len() <= u64::MAX,
        0 <= i < 6 || 110 <= i < 118,
        bit < 8,
    ensures
        !is_aether_bytes(flip_bit(aether_bytes(f.header, f.ciphertext@), i, bit)) || forall|
            g: AetherFile,
        |
            #[trigger] fields_of(g, flip_bit(aether_bytes(f.header, f.ciphertext@), i, bit))
                ==> !header_recognized(g.header),
{
    let d = aether_bytes(f.header, f.ciphertext@);
    let e = flip_bit(d, i, bit);
    aether_format::lemma_aether_bytes_layout(f.header, f.ciphertext@);
    let x = d[i];
    assert(x ^ (1u8 << bit) != x) by (bit_vector)
        requires
            bit < 8,
    ;
    if i < 6 {
        assert forall|g: AetherFile| #[trigger] fields_of(g, e) implies !header_recognized(g.header) by {
            if i < 4 {
                assert(g.header.magic@[i] == e[i]);
                assert(d.subrange(0, 4)[i] == d[i]);
            }
        }
    } else {
        vstd::bytes::lemma_auto_spec_u64_to_from_le_bytes();
        let s = d.subrange(110, 118);
        let t = e.subrange(110, 118);
        assert(t[i - 110] != s[i - 110]);
        assert(e.subrange(0, 110) =~= d.subrange(0, 110));
        if is_aether_bytes(e) {
            assert(vstd::bytes::spec_u64_from_le_bytes(t) == vstd::bytes::spec_u64_from_le_bytes(s));
            assert(vstd::bytes::spec_u64_to_le_bytes(vstd::bytes::spec_u64_from_le_bytes(t)) == t);
            assert(vstd::bytes::spec_u64_to_le_bytes(vstd::bytes::spec_u64_from_le_bytes(s)) == s);
        }
    }
}

/// Flipping any bit of an envelope's wire form leaves nothing that opens under the same
/// master key and path, unless a primitive breaks: a flip in the magic, version,
/// cipher, commitment or length bytes is always rejected; one in the uuid or salt
/// opens only through two distinct commitment inputs with one SHA-256 digest; one in
/// the nonce or the ciphertext opens only through a sealing that the encryption never
/// produced (an XChaCha20-Poly1305 forgery).
pub proof fn lemma_bit_flip_needs_collision_or_forgery(
    f: AetherFile,
    master_key: Seq<u8>,
    plaintext: Seq<u8>,
    logical_path: Seq<char>,
    i: int,
    bit: u8,
    g: AetherFile,
    other_plaintext: Seq<u8>,
)
    requires
        envelope_of(f, master_key, plaintext, logical_path),
        f.ciphertext@.len() <= u64::MAX,
        0 <= i < 118 + f.ciphertext@.len(),
        bit < 8,
        is_aether_bytes(flip_bit(aether_bytes(f.header, f.ciphertext@), i, bit)),
        fields_of(g, flip_bit(aether_bytes(f.header, f.ciphertext@), i, bit)),
        envelope_of(g, master_key, other_plaintext, logical_path),
    ensures
        6 <= i < 54 || 86 <= i < 110 || 118 <= i,
        6 <= i < 54 ==> ({
            let a = commitment_input(
                f.header.uuid@,
                f.header.salt@,
                file_key_of(master_key, f.header.salt@),
            );
            let b = commitment_input(
                g.header.uuid@,
                g.header.salt@,
                file_key_of(master_key, g.header.salt@),
            );
            a != b && sha256_of(a) == sha256_of(b)
        }),
        86 <= i < 110 || 118 <= i ==> {
            &&& (g.header.nonce@ != f.header.nonce@ || g.ciphertext@ != f.ciphertext@)
            &&& xchacha20poly1305_seal_of(
                file_key_of(master_key, g.header.salt@),
                g.header.nonce@,
                aad_of(logical_path),
                other_plaintext,
            ) == g.ciphertext@
        },
{
    let d = aether_bytes(f.header, f.ciphertext@);
    let e = flip_bit(d, i, bit);
    aether_format::lemma_aether_bytes_layout(f.header, f.ciphertext@);
    let x = d[i];
    assert(x ^ (1u8 << bit) != x) by (bit_vector)
        requires
            bit < 8,
    ;
    assert(e[i] != d[i]);
    if i < 6 || 110 <= i < 118 {
        lemma_header_bit_flip_rejected(f, i, bit);
    } else if i < 54 {
        assert(e.subrange(54, 86) =~= d.subrange(54, 86));
        assert(g.header.commitment_hmac@ == f.header.commitment_hmac@);
        let a = commitment_input(f.header.uuid@, f.header.salt@, file_key_of(master_key, f.header.salt@));
        let b = commitment_input(g.header.uuid@, g.header.salt@, file_key_of(master_key, g.header.salt@));
        if i < 22 {
            assert(g.header.uuid@[i - 6] == e[i]);
            assert(f.header.uuid@[i - 6] == d.subrange(6, 22)[i - 6]);
            assert(a[i] == f.header.uuid@[i - 6]);
            assert(b[i] == g.header.uuid@[i - 6]);
        } else {
            assert(g.header.salt@[i - 22] == e[i]);
            assert(f.header.salt@[i - 22] == d.subrange(22, 54)[i - 22]);
            assert(a[i] == f.header.salt@[i - 22]);
            assert(b[i] == g.header.salt@[i - 22]);
        }
    } else if i < 86 {
        assert(e.subrange(6, 22) =~= d.subrange(6, 22));
        assert(e.subrange(22, 54) =~= d.subrange(22, 54));
        assert(g.header.commitment_hmac@[i - 54] == e[i]);
        assert(f.header.commitment_hmac@[i - 54] == d.subrange(54, 86)[i - 54]);
        assert(g.header.uuid@ == f.header.uuid@);
        assert(g.header.salt@ == f.header.salt@);
    } else if i < 110 {
        assert(g.header.nonce@[i - 86] == e[i]);
        assert(f.header.nonce@[i - 86] == d.subrange(86, 110)[i - 86]);
    } else {
        assert(g.ciphertext@[i - 118] == e[i]);
        assert(f.ciphertext@[i - 118] == d.subrange(118, 118 + f.ciphertext@.len() as int)[i - 118]);
    }
}

} // verus!
