//! Little-endian integer fields, decoded and encoded byte-exactly.

use vstd::prelude::*;

verus! {

/// The unsigned value of the four bytes starting at `off`, least significant first.
pub open spec fn le_u32_at(b: Seq<u8>, off: int) -> int {
    b[off] + 256 * (b[off + 1] + 256 * (b[off + 2] + 256 * b[off + 3]))
}

/// The two's-complement value of the four bytes starting at `off`.
pub open spec fn le_i32_at(b: Seq<u8>, off: int) -> int {
    let u = le_u32_at(b, off);
    if u >= 0x8000_0000 { u - 0x1_0000_0000 } else { u }
}

/// The unsigned value of the two bytes starting at `off`, least significant first.
pub open spec fn le_u16_at(b: Seq<u8>, off: int) -> int {
    b[off] + 256 * b[off + 1]
}

/// The two's-complement value of the two bytes starting at `off`.
pub open spec fn le_i16_at(b: Seq<u8>, off: int) -> int {
    let u = le_u16_at(b, off);
    if u >= 0x8000 { u - 0x1_0000 } else { u }
}

/// The four bytes that encode `v` in two's complement, least significant first.
pub open spec fn le_i32_bytes(v: int) -> Seq<u8> {
    let u = if v < 0 { v + 0x1_0000_0000 } else { v };
    seq![
        (u % 256) as u8,
        ((u / 256) % 256) as u8,
        ((u / 65536) % 256) as u8,
        (u / 16777216) as u8,
    ]
}

/// Reads a signed 32-bit little-endian field.
pub fn read_i32_le(data: &[u8], off: usize) -> (r: i32)
    requires
        off + 4 <= data@.len(),
    ensures
        r == le_i32_at(data@, off as int),
{
    let u: i64 = data[off] as i64 + 256 * (data[off + 1] as i64 + 256 * (data[off + 2] as i64
        + 256 * data[off + 3] as i64));
    if u >= 0x8000_0000 {
        (u - 0x1_0000_0000) as i32
    } else {
        u as i32
    }
}

/// Reads a signed 16-bit little-endian field.
pub fn read_i16_le(data: &[u8], off: usize) -> (r: i16)
    requires
        off + 2 <= data@.len(),
    ensures
        r == le_i16_at(data@, off as int),
{
    let u: i32 = data[off] as i32 + 256 * data[off + 1] as i32;
    if u >= 0x8000 {
        (u - 0x1_0000) as i16
    } else {
        u as i16
    }
}

/// Reads an unsigned 16-bit little-endian field.
pub fn read_u16_le(data: &[u8], off: usize) -> (r: u16)
    requires
        off + 2 <= data@.len(),
    ensures
        r == le_u16_at(data@, off as int),
{
    data[off] as u16 + 256 * data[off + 1] as u16
}

/// Decoding the encoding of a 32-bit value gives the value back.
pub proof fn lemma_i32_round_trip(v: i32, b: Seq<u8>, off: int)
    requires
        0 <= off,
        off + 4 <= b.len(),
        b.subrange(off, off + 4) == le_i32_bytes(v as int),
    ensures
        le_i32_at(b, off) == v,
{
    let u: int = if v < 0 { v + 0x1_0000_0000 } else { v as int };
    assert(0 <= u < 0x1_0000_0000);
    let q1 = u / 256;
    let q2 = u / 65536;
    let q3 = u / 16777216;
    assert(u == 256 * q1 + u % 256) by (nonlinear_arith)
        requires q1 == u / 256;
    assert(q2 == q1 / 256) by {
        vstd::arithmetic::div_mod::lemma_div_denominator(u, 256, 256);
    }
    assert(q3 == q2 / 256) by {
        vstd::arithmetic::div_mod::lemma_div_denominator(u, 65536, 256);
    }
    assert(q1 == 256 * q2 + q1 % 256) by (nonlinear_arith)
        requires q2 == q1 / 256;
    assert(q2 == 256 * q3 + q2 % 256) by (nonlinear_arith)
        requires q3 == q2 / 256;
    assert(0 <= q3 < 256) by (nonlinear_arith)
        requires q3 == u / 16777216, 0 <= u < 0x1_0000_0000;
    assert(0 <= q1 % 256 < 256 && 0 <= q2 % 256 < 256 && 0 <= u % 256 < 256) by (nonlinear_arith)
        requires u >= 0;
    assert(b[off] == b.subrange(off, off + 4)[0]);
    assert(b[off + 1] == b.subrange(off, off + 4)[1]);
    assert(b[off + 2] == b.subrange(off, off + 4)[2]);
    assert(b[off + 3] == b.subrange(off, off + 4)[3]);
    assert(le_u32_at(b, off) == u);
}

/// Appends the little-endian encoding of `v`.
pub fn push_i32_le(out: &mut Vec<u8>, v: i32)
    ensures
        final(out)@ == old(out)@ + le_i32_bytes(v as int),
{
    let u: i64 = if v < 0 { v as i64 + 0x1_0000_0000 } else { v as i64 };
    let b0 = (u % 256) as u8;
    let b1 = ((u / 256) % 256) as u8;
    let b2 = ((u / 65536) % 256) as u8;
    let b3 = (u / 16777216) as u8;
    out.push(b0);
    out.push(b1);
    out.push(b2);
    out.push(b3);
}

} // verus!
