//! Little-endian layout of the multi-byte operands in a bytecode buffer.
//!
//! Slot indices and opcode tags are single bytes. Jump targets are 16-bit and
//! integer immediates 32-bit, both stored least significant byte first.

use vstd::prelude::*;

verus! {

/// The two bytes of `x`, least significant first.
pub open spec fn u16_le(x: u16) -> Seq<u8> {
    seq![(x % 256) as u8, (x / 256) as u8]
}

/// The four bytes of `x`, least significant first.
pub open spec fn u32_le(x: u32) -> Seq<u8> {
    seq![
        (x % 256) as u8,
        (x / 256 % 256) as u8,
        (x / 65536 % 256) as u8,
        (x / 16777216) as u8,
    ]
}

/// The 16-bit value stored at `bytes[at]` and `bytes[at + 1]`.
pub open spec fn u16_at(bytes: Seq<u8>, at: int) -> u16
    recommends
        0 <= at,
        at + 2 <= bytes.len(),
{
    (bytes[at] + 256 * bytes[at + 1]) as u16
}

/// The 32-bit value stored at `bytes[at]` to `bytes[at + 3]`.
pub open spec fn u32_at(bytes: Seq<u8>, at: int) -> u32
    recommends
        0 <= at,
        at + 4 <= bytes.len(),
{
    (bytes[at] + 256 * bytes[at + 1] + 65536 * bytes[at + 2] + 16777216 * bytes[at + 3]) as u32
}

/// Reading back what `u16_le` laid down gives the value that was written,
/// wherever in a buffer the two bytes stand.
pub proof fn lemma_u16_round_trip(bytes: Seq<u8>, at: int, x: u16)
    requires
        0 <= at,
        at + 2 <= bytes.len(),
        bytes.subrange(at, at + 2) == u16_le(x),
    ensures
        u16_at(bytes, at) == x,
{
    assert(bytes[at] == bytes.subrange(at, at + 2)[0]);
    assert(bytes[at + 1] == bytes.subrange(at, at + 2)[1]);
}

/// Reading back what `u32_le` laid down gives the value that was written,
/// wherever in a buffer the four bytes stand.
pub proof fn lemma_u32_round_trip(bytes: Seq<u8>, at: int, x: u32)
    requires
        0 <= at,
        at + 4 <= bytes.len(),
        bytes.subrange(at, at + 4) == u32_le(x),
    ensures
        u32_at(bytes, at) == x,
{
    assert(bytes[at] == bytes.subrange(at, at + 4)[0]);
    assert(bytes[at + 1] == bytes.subrange(at, at + 4)[1]);
    assert(bytes[at + 2] == bytes.subrange(at, at + 4)[2]);
    assert(bytes[at + 3] == bytes.subrange(at, at + 4)[3]);
}

/// Splits a 16-bit value into its little-endian bytes.
pub fn u16_to_le(x: u16) -> (bytes: [u8; 2])
    ensures
        bytes@ == u16_le(x),
{
    let bytes = [(x % 256) as u8, (x / 256) as u8];
    assert(bytes@ =~= u16_le(x));
    bytes
}

/// Splits a 32-bit value into its little-endian bytes.
pub fn u32_to_le(x: u32) -> (bytes: [u8; 4])
    ensures
        bytes@ == u32_le(x),
{
    let bytes = [
        (x % 256) as u8,
        (x / 256 % 256) as u8,
        (x / 65536 % 256) as u8,
        (x / 16777216) as u8,
    ];
    assert(bytes@ =~= u32_le(x));
    bytes
}

/// Joins two little-endian bytes into the 16-bit value they stand for.
pub fn u16_from_le(lo: u8, hi: u8) -> (x: u16)
    ensures
        x == lo + 256 * hi,
{
    lo as u16 + 256 * (hi as u16)
}

/// Joins four little-endian bytes into the 32-bit value they stand for.
pub fn u32_from_le(b0: u8, b1: u8, b2: u8, b3: u8) -> (x: u32)
    ensures
        x == b0 + 256 * b1 + 65536 * b2 + 16777216 * b3,
{
    b0 as u32 + 256 * (b1 as u32) + 65536 * (b2 as u32) + 16777216 * (b3 as u32)
}

} // verus!
