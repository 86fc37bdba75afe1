//! Byte-level building blocks of the wire format: big-endian integers.

use vstd::prelude::*;

verus! {

/// The 16-bit big-endian integer stored at `b[i]`, `b[i + 1]`.
pub open spec fn be_u16_at(b: Seq<u8>, i: int) -> u16 {
    (b[i] * 256 + b[i + 1]) as u16
}

/// The 32-bit big-endian integer stored at `b[i] .. b[i + 4]`.
pub open spec fn be_u32_at(b: Seq<u8>, i: int) -> u32 {
    (b[i] * 0x100_0000 + b[i + 1] * 0x1_0000 + b[i + 2] * 0x100 + b[i + 3]) as u32
}

/// The two big-endian bytes of `v`.
pub open spec fn u16_bytes(v: u16) -> Seq<u8> {
    seq![(v / 256) as u8, (v % 256) as u8]
}

/// The four big-endian bytes of `v`.
pub open spec fn u32_bytes(v: u32) -> Seq<u8> {
    seq![
        (v / 0x100_0000) as u8,
        ((v / 0x1_0000) % 256) as u8,
        ((v / 0x100) % 256) as u8,
        (v % 256) as u8,
    ]
}

/// Reading back the bytes of a 16-bit integer gives the integer.
pub proof fn lemma_u16_roundtrip(v: u16)
    ensures
        be_u16_at(u16_bytes(v), 0) == v,
{
}

/// Reading back the bytes of a 32-bit integer gives the integer.
pub proof fn lemma_u32_roundtrip(v: u32)
    ensures
        be_u32_at(u32_bytes(v), 0) == v,
{
    let b = u32_bytes(v);
    assert(b[0] * 0x100_0000 + b[1] * 0x1_0000 + b[2] * 0x100 + b[3] == v) by (nonlinear_arith)
        requires
            b[0] == v / 0x100_0000,
            b[1] == (v / 0x1_0000) % 256,
            b[2] == (v / 0x100) % 256,
            b[3] == v % 256,
            0 <= v < 0x1_0000_0000,
    ;
}

} // verus!
