//! Two's-complement reinterpretation between signed and unsigned integers,
//! and small byte-buffer helpers shared by the codec.

use vstd::prelude::*;

verus! {

/// The unsigned two's-complement reinterpretation of a signed 8-bit value.
pub open spec fn spec_u8_of_i8(x: i8) -> u8 {
    if x >= 0 {
        x as u8
    } else {
        (x + 0x100) as u8
    }
}

/// The unsigned two's-complement reinterpretation of a signed 16-bit value.
pub open spec fn spec_u16_of_i16(x: i16) -> u16 {
    if x >= 0 {
        x as u16
    } else {
        (x + 0x1_0000) as u16
    }
}

/// The unsigned two's-complement reinterpretation of a signed 32-bit value.
pub open spec fn spec_u32_of_i32(x: i32) -> u32 {
    if x >= 0 {
        x as u32
    } else {
        (x + 0x1_0000_0000) as u32
    }
}

/// The unsigned two's-complement reinterpretation of a signed 64-bit value.
pub open spec fn spec_u64_of_i64(x: i64) -> u64 {
    if x >= 0 {
        x as u64
    } else {
        (x + 0x1_0000_0000_0000_0000) as u64
    }
}

/// The unsigned two's-complement reinterpretation of a signed 128-bit value.
pub open spec fn spec_u128_of_i128(x: i128) -> u128 {
    if x >= 0 {
        x as u128
    } else {
        (x + 0x1_0000_0000_0000_0000_0000_0000_0000_0000) as u128
    }
}

/// The signed value whose two's-complement reinterpretation is `u`.
pub open spec fn spec_i8_of_u8(u: u8) -> i8 {
    if u < 0x80 {
        u as i8
    } else {
        (u - 0x100) as i8
    }
}

/// The signed value whose two's-complement reinterpretation is `u`.
pub open spec fn spec_i16_of_u16(u: u16) -> i16 {
    if u < 0x8000 {
        u as i16
    } else {
        (u - 0x1_0000) as i16
    }
}

/// The signed value whose two's-complement reinterpretation is `u`.
pub open spec fn spec_i32_of_u32(u: u32) -> i32 {
    if u < 0x8000_0000 {
        u as i32
    } else {
        (u - 0x1_0000_0000) as i32
    }
}

/// The signed value whose two's-complement reinterpretation is `u`.
pub open spec fn spec_i64_of_u64(u: u64) -> i64 {
    if u < 0x8000_0000_0000_0000 {
        u as i64
    } else {
        (u - 0x1_0000_0000_0000_0000) as i64
    }
}

/// The signed value whose two's-complement reinterpretation is `u`.
pub open spec fn spec_i128_of_u128(u: u128) -> i128 {
    if u < 0x8000_0000_0000_0000_0000_0000_0000_0000 {
        u as i128
    } else {
        (u - 0x1_0000_0000_0000_0000_0000_0000_0000_0000) as i128
    }
}

pub fn u8_of_i8(x: i8) -> (r: u8)
    ensures
        r == spec_u8_of_i8(x),
{
    let w: i16 = x as i16;
    if w >= 0 {
        w as u8
    } else {
        (w + 0x100) as u8
    }
}

pub fn u16_of_i16(x: i16) -> (r: u16)
    ensures
        r == spec_u16_of_i16(x),
{
    let w: i32 = x as i32;
    if w >= 0 {
        w as u16
    } else {
        (w + 0x1_0000) as u16
    }
}

pub fn u32_of_i32(x: i32) -> (r: u32)
    ensures
        r == spec_u32_of_i32(x),
{
    let w: i64 = x as i64;
    if w >= 0 {
        w as u32
    } else {
        (w + 0x1_0000_0000) as u32
    }
}

pub fn u64_of_i64(x: i64) -> (r: u64)
    ensures
        r == spec_u64_of_i64(x),
{
    let w: i128 = x as i128;
    if w >= 0 {
        w as u64
    } else {
        (w + 0x1_0000_0000_0000_0000) as u64
    }
}

pub fn u128_of_i128(x: i128) -> (r: u128)
    ensures
        r == spec_u128_of_i128(x),
{
    if x >= 0 {
        x as u128
    } else {
        let off: i128 = x - (-0x8000_0000_0000_0000_0000_0000_0000_0000i128);
        (off as u128) + 0x8000_0000_0000_0000_0000_0000_0000_0000u128
    }
}

pub fn i8_of_u8(u: u8) -> (r: i8)
    ensures
        r == spec_i8_of_u8(u),
{
    let w: i16 = u as i16;
    if u < 0x80 {
        w as i8
    } else {
        (w - 0x100) as i8
    }
}

pub fn i16_of_u16(u: u16) -> (r: i16)
    ensures
        r == spec_i16_of_u16(u),
{
    let w: i32 = u as i32;
    if u < 0x8000 {
        w as i16
    } else {
        (w - 0x1_0000) as i16
    }
}

pub fn i32_of_u32(u: u32) -> (r: i32)
    ensures
        r == spec_i32_of_u32(u),
{
    let w: i64 = u as i64;
    if u < 0x8000_0000 {
        w as i32
    } else {
        (w - 0x1_0000_0000) as i32
    }
}

pub fn i64_of_u64(u: u64) -> (r: i64)
    ensures
        r == spec_i64_of_u64(u),
{
    let w: i128 = u as i128;
    if u < 0x8000_0000_0000_0000 {
        w as i64
    } else {
        (w - 0x1_0000_0000_0000_0000) as i64
    }
}

pub fn i128_of_u128(u: u128) -> (r: i128)
    ensures
        r == spec_i128_of_u128(u),
{
    if u < 0x8000_0000_0000_0000_0000_0000_0000_0000 {
        u as i128
    } else {
        let off: u128 = u - 0x8000_0000_0000_0000_0000_0000_0000_0000;
        (off as i128) + (-0x8000_0000_0000_0000_0000_0000_0000_0000i128)
    }
}

/// Reinterpreting a signed 8-bit value as unsigned and back is the
/// identity, in both directions: encoding a signed number and decoding it
/// restores it exactly.
pub proof fn lemma_i8_round_trip(x: i8, u: u8)
    ensures
        spec_i8_of_u8(spec_u8_of_i8(x)) == x,
        spec_u8_of_i8(spec_i8_of_u8(u)) == u,
{
}

/// Reinterpreting a signed 16-bit value as unsigned and back is the
/// identity, in both directions.
pub proof fn lemma_i16_round_trip(x: i16, u: u16)
    ensures
        spec_i16_of_u16(spec_u16_of_i16(x)) == x,
        spec_u16_of_i16(spec_i16_of_u16(u)) == u,
{
}

/// Reinterpreting a signed 32-bit value as unsigned and back is the
/// identity, in both directions.
pub proof fn lemma_i32_round_trip(x: i32, u: u32)
    ensures
        spec_i32_of_u32(spec_u32_of_i32(x)) == x,
        spec_u32_of_i32(spec_i32_of_u32(u)) == u,
{
}

/// Reinterpreting a signed 64-bit value as unsigned and back is the
/// identity, in both directions.
pub proof fn lemma_i64_round_trip(x: i64, u: u64)
    ensures
        spec_i64_of_u64(spec_u64_of_i64(x)) == x,
        spec_u64_of_i64(spec_i64_of_u64(u)) == u,
{
}

/// Reinterpreting a signed 128-bit value as unsigned and back is the
/// identity, in both directions.
pub proof fn lemma_i128_round_trip(x: i128, u: u128)
    ensures
        spec_i128_of_u128(spec_u128_of_i128(x)) == x,
        spec_u128_of_i128(spec_i128_of_u128(u)) == u,
{
}

/// Appends all bytes of `src` to `dst`.
pub fn extend_bytes(dst: &mut Vec<u8>, src: &[u8])
    ensures
        final(dst)@ == old(dst)@ + src@,
{
    let mut i: usize = 0;
    while i < src.len()
        invariant
            i <= src@.len(),
            dst@ == old(dst)@ + src@.subrange(0, i as int),
        decreases src@.len() - i,
    {
        let b = src[i];
        dst.push(b);
        i = i + 1;
        proof {
            assert(src@.subrange(0, i as int) == src@.subrange(0, i - 1) + seq![src@[i - 1]]);
        }
    }
    proof {
        assert(src@.subrange(0, src@.len() as int) == src@);
    }
}

/// Copies the byte range `[start, end)` of `src` into a fresh vector.
pub fn copy_range(src: &[u8], start: usize, end: usize) -> (r: Vec<u8>)
    requires
        start <= end <= src@.len(),
    ensures
        r@ == src@.subrange(start as int, end as int),
{
    let mut r: Vec<u8> = Vec::new();
    let mut i: usize = start;
    while i < end
        invariant
            start <= i <= end <= src@.len(),
            r@ == src@.subrange(start as int, i as int),
        decreases end - i,
    {
        let b = src[i];
        r.push(b);
        i = i + 1;
        proof {
            assert(src@.subrange(start as int, i as int) == src@.subrange(start as int, i - 1)
                + seq![src@[i - 1]]);
        }
    }
    r
}

} // verus!
