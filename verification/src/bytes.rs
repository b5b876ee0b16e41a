//! Little-endian integer fields of the on-disk formats.
//!
//! Every container structure stores its numbers as little-endian byte
//! groups; these helpers read and write them with exact byte-level
//! contracts, stated arithmetically (byte `k` carries the value's
//! `k`-th power of 256).

use vstd::prelude::*;

verus! {

/// The value of two little-endian bytes.
pub open spec fn spec_u16_le(lo: u8, hi: u8) -> u16 {
    (lo + 256 * hi) as u16
}

/// The two little-endian bytes of a 16-bit value.
pub open spec fn spec_u16_le_bytes(v: u16) -> Seq<u8> {
    seq![(v % 256) as u8, (v / 256) as u8]
}

/// The value of four little-endian bytes.
pub open spec fn spec_u32_le(b0: u8, b1: u8, b2: u8, b3: u8) -> u32 {
    (b0 + 0x100 * b1 + 0x10000 * b2 + 0x1000000 * b3) as u32
}

/// The four little-endian bytes of a 32-bit value.
pub open spec fn spec_u32_le_bytes(v: u32) -> Seq<u8> {
    seq![
        (v % 0x100) as u8,
        ((v / 0x100) % 0x100) as u8,
        ((v / 0x10000) % 0x100) as u8,
        (v / 0x1000000) as u8,
    ]
}

/// The bytes of a 32-bit value round-trip through its value.
pub proof fn lemma_u32_le_roundtrip(v: u32)
    ensures
        spec_u32_le(
            spec_u32_le_bytes(v)[0],
            spec_u32_le_bytes(v)[1],
            spec_u32_le_bytes(v)[2],
            spec_u32_le_bytes(v)[3],
        ) == v,
{
}

/// Reads a 16-bit little-endian value from two bytes.
pub fn u16_from_le(lo: u8, hi: u8) -> (r: u16)
    ensures
        r == spec_u16_le(lo, hi),
{
    lo as u16 + 256 * (hi as u16)
}

/// Reads a 32-bit little-endian value from four bytes.
pub fn u32_from_le(b0: u8, b1: u8, b2: u8, b3: u8) -> (r: u32)
    ensures
        r == spec_u32_le(b0, b1, b2, b3),
{
    b0 as u32 + 0x100 * (b1 as u32) + 0x10000 * (b2 as u32) + 0x1000000 * (b3 as u32)
}

/// Appends a 16-bit value as two little-endian bytes.
pub fn push_u16_le(out: &mut Vec<u8>, v: u16)
    requires
        old(out)@.len() + 2 <= usize::MAX,
    ensures
        final(out)@ == old(out)@ + spec_u16_le_bytes(v),
{
    out.push((v % 256) as u8);
    out.push((v / 256) as u8);
    proof {
        assert(out@ =~= old(out)@ + spec_u16_le_bytes(v));
    }
}

/// Appends a 32-bit value as four little-endian bytes.
pub fn push_u32_le(out: &mut Vec<u8>, v: u32)
    requires
        old(out)@.len() + 4 <= usize::MAX,
    ensures
        final(out)@ == old(out)@ + spec_u32_le_bytes(v),
{
    out.push((v % 0x100) as u8);
    out.push(((v / 0x100) % 0x100) as u8);
    out.push(((v / 0x10000) % 0x100) as u8);
    out.push((v / 0x1000000) as u8);
    proof {
        assert(out@ =~= old(out)@ + spec_u32_le_bytes(v));
    }
}

/// The value of four big-endian bytes.
pub open spec fn spec_u32_be(b0: u8, b1: u8, b2: u8, b3: u8) -> u32 {
    (0x1000000 * b0 + 0x10000 * b1 + 0x100 * b2 + b3) as u32
}

/// Reads a 32-bit big-endian value from four bytes.
pub fn u32_from_be(b0: u8, b1: u8, b2: u8, b3: u8) -> (r: u32)
    ensures
        r == spec_u32_be(b0, b1, b2, b3),
{
    0x1000000 * (b0 as u32) + 0x10000 * (b1 as u32) + 0x100 * (b2 as u32) + b3 as u32
}

} // verus!
