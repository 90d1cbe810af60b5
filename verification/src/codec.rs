//! The fixed-width entry codec: a 64-bit unsigned value occupies exactly
//! eight bytes, most significant byte first (big-endian), with no header or
//! padding.

use vstd::prelude::*;

verus! {

/// Size of one entry, in bytes.
pub const ENTRY_SIZE: u64 = 8;

/// The big-endian image of a value: eight bytes, most significant first.
pub open spec fn be_bytes(v: u64) -> Seq<u8> {
    seq![
        ((v >> 56) & 0xff) as u8,
        ((v >> 48) & 0xff) as u8,
        ((v >> 40) & 0xff) as u8,
        ((v >> 32) & 0xff) as u8,
        ((v >> 24) & 0xff) as u8,
        ((v >> 16) & 0xff) as u8,
        ((v >> 8) & 0xff) as u8,
        (v & 0xff) as u8,
    ]
}

/// The value that eight big-endian bytes encode.
pub open spec fn be_value(s: Seq<u8>) -> u64
    recommends
        s.len() == 8,
{
    ((s[0] as u64) << 56) | ((s[1] as u64) << 48) | ((s[2] as u64) << 40) | ((s[3] as u64) << 32)
        | ((s[4] as u64) << 24) | ((s[5] as u64) << 16) | ((s[6] as u64) << 8) | (s[7] as u64)
}

/// Decoding the big-endian image of a value yields the value back.
pub proof fn lemma_be_round_trip(v: u64)
    ensures
        be_bytes(v).len() == 8,
        be_value(be_bytes(v)) == v,
{
    assert((((((v >> 56) & 0xff) as u8) as u64) << 56) | (((((v >> 48) & 0xff) as u8) as u64)
        << 48) | (((((v >> 40) & 0xff) as u8) as u64) << 40) | (((((v >> 32) & 0xff) as u8) as u64)
        << 32) | (((((v >> 24) & 0xff) as u8) as u64) << 24) | (((((v >> 16) & 0xff) as u8) as u64)
        << 16) | (((((v >> 8) & 0xff) as u8) as u64) << 8) | (((v & 0xff) as u8) as u64) == v)
        by (bit_vector);
}

/// Encode a value as its eight-byte big-endian entry image.
pub fn encode_entry(value: u64) -> (r: Vec<u8>)
    ensures
        r@ == be_bytes(value),
        r@.len() == 8,
{
    proof {
        assert((value >> 56) & 0xff < 256 && (value >> 48) & 0xff < 256 && (value >> 40) & 0xff
            < 256 && (value >> 32) & 0xff < 256 && (value >> 24) & 0xff < 256 && (value >> 16)
            & 0xff < 256 && (value >> 8) & 0xff < 256 && value & 0xff < 256) by (bit_vector);
    }
    let mut bytes: Vec<u8> = Vec::new();
    bytes.push(((value >> 56) & 0xff) as u8);
    bytes.push(((value >> 48) & 0xff) as u8);
    bytes.push(((value >> 40) & 0xff) as u8);
    bytes.push(((value >> 32) & 0xff) as u8);
    bytes.push(((value >> 24) & 0xff) as u8);
    bytes.push(((value >> 16) & 0xff) as u8);
    bytes.push(((value >> 8) & 0xff) as u8);
    bytes.push((value & 0xff) as u8);
    proof {
        assert(bytes@ =~= be_bytes(value));
    }
    bytes
}

/// Decode one eight-byte big-endian entry image.
pub fn decode_entry(bytes: &[u8]) -> (r: u64)
    requires
        bytes@.len() == 8,
    ensures
        r == be_value(bytes@),
{
    ((bytes[0] as u64) << 56) | ((bytes[1] as u64) << 48) | ((bytes[2] as u64) << 40) | ((bytes[3]
        as u64) << 32) | ((bytes[4] as u64) << 24) | ((bytes[5] as u64) << 16) | ((bytes[6] as u64)
        << 8) | (bytes[7] as u64)
}

} // verus!
