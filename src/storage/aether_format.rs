//! The Aether envelope: a fixed 118-byte header followed by the AEAD output.
//!
//! ```text
//! offset  size  field
//! 0       4     magic              "AETH"
//! 4       1     version            0x01
//! 5       1     cipher_id          0x02 (XChaCha20-Poly1305)
//! 6       16    uuid
//! 22      32    salt
//! 54      32    commitment_hmac
//! 86      24    nonce
//! 110     8     ciphertext_length  (u64, little-endian)
//! 118     N     ciphertext
//! ```
use crate::bytes::{append_bytes, copy_array};
use vstd::bytes::{spec_u64_from_le_bytes, spec_u64_to_le_bytes, u64_from_le_bytes, u64_to_le_bytes};
use vstd::prelude::*;
use vstd::slice::{slice_subrange, slice_to_vec};

verus! {

/// Length of the header fields before the ciphertext length.
pub const HEADER_LEN: usize = 110;

/// Length of everything that precedes the ciphertext.
pub const PREFIX_LEN: usize = 118;

/// The header of an Aether envelope.
#[derive(Debug, Clone, Copy, PartialEq, Eq)]
pub struct AetherHeader {
    pub magic: [u8; 4],
    pub version: u8,
    pub cipher_id: u8,
    pub uuid: [u8; 16],
    pub salt: [u8; 32],
    pub commitment_hmac: [u8; 32],
    pub nonce: [u8; 24],
}

/// A complete envelope: header and encrypted body (with its tag).
#[derive(Debug, Clone)]
pub struct AetherFile {
    pub header: AetherHeader,
    pub ciphertext: Vec<u8>,
}

/// Structural errors of the Aether format.
#[derive(Debug, Clone, Copy, PartialEq, Eq)]
pub enum AetherError {
    InvalidMagic,
    UnsupportedVersion,
    UnsupportedCipher,
    InvalidHeader,
    HmacMismatch,
}

/// The 110 header bytes, in wire order.
pub open spec fn header_bytes(h: AetherHeader) -> Seq<u8> {
    h.magic@ + seq![h.version, h.cipher_id] + h.uuid@ + h.salt@ + h.commitment_hmac@ + h.nonce@
}

/// The wire form of an envelope with header `h` and ciphertext `ct`.
pub open spec fn aether_bytes(h: AetherHeader, ct: Seq<u8>) -> Seq<u8> {
    header_bytes(h) + spec_u64_to_le_bytes(ct.len() as u64) + ct
}

/// The ciphertext length recorded in a byte string of at least 118 bytes.
pub open spec fn recorded_len(data: Seq<u8>) -> u64 {
    spec_u64_from_le_bytes(data.subrange(110, 118))
}

/// Byte strings that are the wire form of some envelope: a full prefix whose recorded
/// length is exactly the number of bytes that follow it.
pub open spec fn is_aether_bytes(data: Seq<u8>) -> bool {
    data.len() >= 118 && recorded_len(data) as int == data.len() - 118
}

/// `f` holds, field by field, what the bytes of `data` say.
pub open spec fn fields_of(f: AetherFile, data: Seq<u8>) -> bool {
    &&& f.header.magic@ == data.subrange(0, 4)
    &&& f.header.version == data[4]
    &&& f.header.cipher_id == data[5]
    &&& f.header.uuid@ == data.subrange(6, 22)
    &&& f.header.salt@ == data.subrange(22, 54)
    &&& f.header.commitment_hmac@ == data.subrange(54, 86)
    &&& f.header.nonce@ == data.subrange(86, 110)
    &&& f.ciphertext@ == data.subrange(118, data.len() as int)
}

/// The wire form lays the fields out at the offsets of the table above.
pub proof fn lemma_aether_bytes_layout(h: AetherHeader, ct: Seq<u8>)
    requires
        ct.len() <= u64::MAX,
    ensures
        aether_bytes(h, ct).len() == 118 + ct.len(),
        is_aether_bytes(aether_bytes(h, ct)),
        aether_bytes(h, ct).subrange(0, 4) == h.magic@,
        aether_bytes(h, ct)[4] == h.version,
        aether_bytes(h, ct)[5] == h.cipher_id,
        aether_bytes(h, ct).subrange(6, 22) == h.uuid@,
        aether_bytes(h, ct).subrange(22, 54) == h.salt@,
        aether_bytes(h, ct).subrange(54, 86) == h.commitment_hmac@,
        aether_bytes(h, ct).subrange(86, 110) == h.nonce@,
        aether_bytes(h, ct).subrange(118, 118 + ct.len() as int) == ct,
{
    vstd::bytes::lemma_auto_spec_u64_to_from_le_bytes();
    let d = aether_bytes(h, ct);
    assert(d.subrange(110, 118) =~= spec_u64_to_le_bytes(ct.len() as u64));
    assert(d.subrange(0, 4) =~= h.magic@);
    assert(d.subrange(6, 22) =~= h.uuid@);
    assert(d.subrange(22, 54) =~= h.salt@);
    assert(d.subrange(54, 86) =~= h.commitment_hmac@);
    assert(d.subrange(86, 110) =~= h.nonce@);
    assert(d.subrange(118, 118 + ct.len() as int) =~= ct);
}

/// Parsing gives back what was serialised: any envelope read from the wire form of
/// `f` has the header and ciphertext of `f`.
pub proof fn lemma_aether_round_trip(f: AetherFile, g: AetherFile)
    requires
        f.ciphertext@.len() <= u64::MAX,
        fields_of(g, aether_bytes(f.header, f.ciphertext@)),
    ensures
        is_aether_bytes(aether_bytes(f.header, f.ciphertext@)),
        g.header == f.header,
        g.ciphertext@ == f.ciphertext@,
{
    broadcast use vstd::array::group_array_axioms;

    lemma_aether_bytes_layout(f.header, f.ciphertext@);
    assert(g.header.magic =~= f.header.magic);
    assert(g.header.uuid =~= f.header.uuid);
    assert(g.header.salt =~= f.header.salt);
    assert(g.header.commitment_hmac =~= f.header.commitment_hmac);
    assert(g.header.nonce =~= f.header.nonce);
}

impl AetherFile {
    /// Serialises the envelope into its wire form.
    pub fn to_bytes(&self) -> (r: Vec<u8>)
        ensures
            r@ == aether_bytes(self.header, self.ciphertext@),
    {
        let mut bytes: Vec<u8> = Vec::new();
        append_bytes(&mut bytes, &self.header.magic);
        bytes.push(self.header.version);
        bytes.push(self.header.cipher_id);
        append_bytes(&mut bytes, &self.header.uuid);
        append_bytes(&mut bytes, &self.header.salt);
        append_bytes(&mut bytes, &self.header.commitment_hmac);
        append_bytes(&mut bytes, &self.header.nonce);
        let len_bytes = u64_to_le_bytes(self.ciphertext.len() as u64);
        append_bytes(&mut bytes, len_bytes.as_slice());
        append_bytes(&mut bytes, self.ciphertext.as_slice());
        assert(bytes@ =~= aether_bytes(self.header, self.ciphertext@));
        bytes
    }

    /// Parses the wire form. Exactly the byte strings that `to_bytes` can produce are
    /// accepted: a short prefix, or a recorded length other than the number of bytes
    /// that follow, gives `InvalidHeader`. Magic, version and cipher are not judged here.
    pub fn from_bytes(data: &[u8]) -> (r: Result<AetherFile, AetherError>)
        ensures
            r is Ok <==> is_aether_bytes(data@),
            r matches Ok(f) ==> fields_of(f, data@) && aether_bytes(f.header, f.ciphertext@)
                == data@,
            r matches Err(e) ==> e == AetherError::InvalidHeader,
    {
        if data.len() < PREFIX_LEN {
            return Err(AetherError::InvalidHeader);
        }
        let recorded = u64_from_le_bytes(slice_subrange(data, HEADER_LEN, PREFIX_LEN));
        let body_len = data.len() - PREFIX_LEN;
        if recorded != body_len as u64 {
            return Err(AetherError::InvalidHeader);
        }
        let header = AetherHeader {
            magic: copy_array(data, 0),
            version: data[4],
            cipher_id: data[5],
            uuid: copy_array(data, 6),
            salt: copy_array(data, 22),
            commitment_hmac: copy_array(data, 54),
            nonce: copy_array(data, 86),
        };
        let ciphertext = slice_to_vec(slice_subrange(data, PREFIX_LEN, data.len()));
        let file = AetherFile { header, ciphertext };
        proof {
            vstd::bytes::lemma_auto_spec_u64_to_from_le_bytes();
            assert(spec_u64_to_le_bytes(spec_u64_from_le_bytes(data@.subrange(110, 118)))
                == data@.subrange(110, 118));
            assert(data@ =~= aether_bytes(header, ciphertext@));
        }
        Ok(file)
    }
}

} // verus!
