//! Big-endian integer fields as they stand on the wire.
use vstd::prelude::*;

verus! {

/// Largest value of a two-byte length field.
pub const U16_MAX: usize = 0xFFFF;

/// Largest value of a three-byte length field.
pub const U24_MAX: usize = 0xFF_FFFF;

/// The number that the first two bytes of `s` spell, most significant byte first.
pub open spec fn be_u16(s: Seq<u8>) -> int
    recommends
        s.len() >= 2,
{
    s[0] as int * 0x100 + s[1] as int
}

/// The number that the first three bytes of `s` spell, most significant byte first.
pub open spec fn be_u24(s: Seq<u8>) -> int
    recommends
        s.len() >= 3,
{
    s[0] as int * 0x1_0000 + s[1] as int * 0x100 + s[2] as int
}

/// The number that the first four bytes of `s` spell, most significant byte first.
pub open spec fn be_u32(s: Seq<u8>) -> int
    recommends
        s.len() >= 4,
{
    s[0] as int * 0x100_0000 + s[1] as int * 0x1_0000 + s[2] as int * 0x100 + s[3] as int
}

/// The two low bytes of `v`, most significant first: they spell `v` where it fits the field.
pub open spec fn u16_bytes(v: int) -> Seq<u8>
    recommends
        0 <= v <= U16_MAX,
{
    seq![((v / 0x100) % 0x100) as u8, (v % 0x100) as u8]
}

/// The three low bytes of `v`, most significant first: they spell `v` where it fits the field.
pub open spec fn u24_bytes(v: int) -> Seq<u8>
    recommends
        0 <= v <= U24_MAX,
{
    seq![((v / 0x1_0000) % 0x100) as u8, ((v / 0x100) % 0x100) as u8, (v % 0x100) as u8]
}

/// Reading a two-byte field gives back the number that was written, whatever follows it.
pub proof fn lemma_u16_roundtrip(v: int, tail: Seq<u8>)
    requires
        0 <= v <= U16_MAX,
    ensures
        u16_bytes(v).len() == 2,
        be_u16(u16_bytes(v) + tail) == v,
{
}

/// Reading a three-byte field gives back the number that was written, whatever follows it.
pub proof fn lemma_u24_roundtrip(v: int, tail: Seq<u8>)
    requires
        0 <= v <= U24_MAX,
    ensures
        u24_bytes(v).len() == 3,
        be_u24(u24_bytes(v) + tail) == v,
{
}

} // verus!
