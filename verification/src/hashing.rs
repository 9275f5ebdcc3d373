use vstd::prelude::*;

verus! {

/// A 40-bit path hash: the low 32 bits are a CRC32 of the string's bytes,
/// bits 32..40 hold the byte length.
#[derive(Clone, Copy, Debug, PartialEq, Eq, Structural, PartialOrd, Ord, Hash)]
pub struct Hash40(pub u64);

/// One bit of the reflected CRC-32 with polynomial `0xEDB88320`.
pub open spec fn crc_bit(c: u32) -> u32 {
    if c & 1 == 1 { (c >> 1u32) ^ 0xEDB8_8320u32 } else { c >> 1u32 }
}

/// The running CRC after `k` more bits.
pub open spec fn crc_bits(c: u32, k: nat) -> u32
    decreases k,
{
    if k == 0 { c } else { crc_bits(crc_bit(c), (k - 1) as nat) }
}

/// The running CRC after the bytes.
pub open spec fn crc_update(c: u32, bytes: Seq<u8>) -> u32
    decreases bytes.len(),
{
    if bytes.len() == 0 {
        c
    } else {
        crc_update(crc_bits(c ^ (bytes[0] as u32), 8), bytes.drop_first())
    }
}

/// The CRC-32 of the bytes of a string, as the archive format uses it: the
/// reflected CRC-32 with polynomial `0xEDB88320`, started at and finished
/// with `0xFFFFFFFF`.
pub open spec fn spec_crc32(bytes: Seq<u8>) -> u32 {
    crc_update(0xFFFF_FFFFu32, bytes) ^ 0xFFFF_FFFFu32
}

/// The hash of a string, as the archive format defines it.
pub open spec fn spec_hash40(s: Seq<char>) -> u64 {
    hash40_parts(vstd::utf8::encode_utf8(s).len() % 0x1_0000_0000, spec_crc32(vstd::utf8::encode_utf8(s)))
}

/// The hash that a byte length and a CRC32 make: length in the high bits.
pub open spec fn hash40_parts(len: nat, crc: u32) -> u64 {
    ((len * 0x1_0000_0000) + crc as int) as u64
}

/// Calls `smash_arc::Hash40::from(&str)`, which computes
/// `((byte length as u64) << 32) + crc32(bytes)` with `crc32fast`'s
/// standard CRC-32 of the UTF-8 bytes.
#[verifier::external_body]
fn hash40_of_str(s: &str) -> (r: u64)
    ensures
        r == hash40_parts(vstd::utf8::encode_utf8(s@).len() % 0x1_0000_0000, spec_crc32(vstd::utf8::encode_utf8(s@))),
{
    smash_arc::Hash40::from(s).0
}

impl Hash40 {
    /// Hashes a string.
    pub fn from_str(s: &str) -> (r: Hash40)
        ensures
            r.0 == spec_hash40(s@),
    {
        Hash40(hash40_of_str(s))
    }

    pub fn as_u64(self) -> (r: u64)
        ensures
            r == self.0,
    {
        self.0
    }

    /// The byte length stored in the hash.
    pub fn len(self) -> (r: u8)
        ensures
            r as int == (self.0 as int / 0x1_0000_0000) % 0x100,
    {
        let v = self.0;
        let r = (v >> 32u64) as u8;
        assert(r as int == (v as int / 0x1_0000_0000) % 0x100) by (bit_vector)
            requires r == (v >> 32u64) as u8;
        r
    }

    /// The CRC32 stored in the hash.
    pub fn crc32(self) -> (r: u32)
        ensures
            r as int == self.0 as int % 0x1_0000_0000,
    {
        let v = self.0;
        let r = v as u32;
        assert(r as int == v as int % 0x1_0000_0000) by (bit_vector)
            requires r == v as u32;
        r
    }
}

} // verus!
