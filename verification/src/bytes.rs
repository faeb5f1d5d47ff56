//! Bounds-checked big-endian readers over a byte slice. A read that does
//! not fit inside the slice yields 0, so malformed offsets degrade to "no
//! data" instead of panicking.

use vstd::prelude::*;

verus! {

/// Whether `n` bytes starting at `off` lie inside `s`.
pub open spec fn fits(s: Seq<u8>, off: int, n: int) -> bool {
    0 <= off && off + n <= s.len()
}

/// The big-endian `u16` at `off` in `s`, or 0 when it does not fit.
pub open spec fn spec_u16(s: Seq<u8>, off: int) -> u16 {
    if fits(s, off, 2) {
        (s[off] as int * 0x100 + s[off + 1] as int) as u16
    } else {
        0
    }
}

/// The big-endian `u32` at `off` in `s`, or 0 when it does not fit.
pub open spec fn spec_u32(s: Seq<u8>, off: int) -> u32 {
    if fits(s, off, 4) {
        (s[off] as int * 0x100_0000 + s[off + 1] as int * 0x1_0000 + s[off + 2] as int * 0x100
            + s[off + 3] as int) as u32
    } else {
        0
    }
}

/// The big-endian two's-complement `i16` at `off` in `s`, or 0 when it does not fit.
pub open spec fn spec_i16(s: Seq<u8>, off: int) -> i16 {
    spec_u16(s, off) as i16
}

/// The big-endian two's-complement `i64` at `off` in `s`, or 0 when it does not fit.
pub open spec fn spec_i64(s: Seq<u8>, off: int) -> i64 {
    if fits(s, off, 8) {
        (spec_u32(s, off) as int * 0x1_0000_0000 + spec_u32(s, off + 4) as int) as u64 as i64
    } else {
        0
    }
}

/// Whether `n` bytes at `offset` lie inside `base`.
pub fn fits_at(base: &[u8], offset: usize, n: usize) -> (r: bool)
    ensures
        r == fits(base@, offset as int, n as int),
{
    offset <= base.len() && n <= base.len() - offset
}

/// Reads a big-endian `u32` at `offset` (0 when out of range).
pub fn get_u32_be(base: &[u8], offset: usize) -> (r: u32)
    ensures
        r == spec_u32(base@, offset as int),
{
    if fits_at(base, offset, 4) {
        (base[offset] as u32) * 0x100_0000 + (base[offset + 1] as u32) * 0x1_0000 + (base[offset
            + 2] as u32) * 0x100 + (base[offset + 3] as u32)
    } else {
        0
    }
}

/// Reads a big-endian `u16` at `offset` (0 when out of range).
pub fn get_u16_be(base: &[u8], offset: usize) -> (r: u16)
    ensures
        r == spec_u16(base@, offset as int),
{
    if fits_at(base, offset, 2) {
        (base[offset] as u16) * 0x100 + (base[offset + 1] as u16)
    } else {
        0
    }
}

/// Reads a big-endian `i16` at `offset` (0 when out of range).
pub fn get_i16_be(base: &[u8], offset: usize) -> (r: i16)
    ensures
        r == spec_i16(base@, offset as int),
{
    get_u16_be(base, offset) as i16
}

/// Reads a big-endian `i64` at `offset` (0 when out of range).
pub fn get_i64_be(base: &[u8], offset: usize) -> (r: i64)
    ensures
        r == spec_i64(base@, offset as int),
{
    let _n = base.len();
    if fits_at(base, offset, 8) {
        let hi = get_u32_be(base, offset) as u64;
        let lo = get_u32_be(base, offset + 4) as u64;
        let whole: u64 = hi * 0x1_0000_0000 + lo;
        (#[verifier::truncate] (whole as i64))
    } else {
        0
    }
}

/// The byte at `offset`, if inside `base`.
pub fn byte_at(base: &[u8], offset: usize) -> (r: Option<u8>)
    ensures
        r == (if 0 <= offset < base@.len() { Some(base@[offset as int]) } else { None::<u8> }),
{
    if offset < base.len() {
        Some(base[offset])
    } else {
        None
    }
}

/// `x` clamped to the largest `usize`.
pub open spec fn sat(x: int) -> int {
    if x <= usize::MAX {
        x
    } else {
        usize::MAX as int
    }
}

/// Saturating sum of two offsets.
pub fn add_off(a: usize, b: usize) -> (r: usize)
    ensures
        r == sat(a + b),
{
    a.saturating_add(b)
}

/// The byte at `off` in `s`, or 0 when out of range.
pub open spec fn spec_u8(s: Seq<u8>, off: int) -> u8 {
    if 0 <= off < s.len() {
        s[off]
    } else {
        0
    }
}

/// Reads the byte at `base + delta` (0 when out of range).
pub fn rd8(b: &[u8], base: usize, delta: usize) -> (r: u8)
    ensures
        r == spec_u8(b@, base + delta),
{
    let o = add_off(base, delta);
    if o < b.len() {
        b[o]
    } else {
        0
    }
}

/// Reads the big-endian `u16` at `base + delta` (0 when out of range).
pub fn rd16(b: &[u8], base: usize, delta: usize) -> (r: u16)
    ensures
        r == spec_u16(b@, base + delta),
{
    let _n = b.len();
    get_u16_be(b, add_off(base, delta))
}

/// Reads the big-endian `i16` at `base + delta` (0 when out of range).
pub fn rdi16(b: &[u8], base: usize, delta: usize) -> (r: i16)
    ensures
        r == spec_i16(b@, base + delta),
{
    let _n = b.len();
    get_i16_be(b, add_off(base, delta))
}

/// Reads the big-endian `u32` at `base + delta` (0 when out of range).
pub fn rd32(b: &[u8], base: usize, delta: usize) -> (r: u32)
    ensures
        r == spec_u32(b@, base + delta),
{
    let _n = b.len();
    get_u32_be(b, add_off(base, delta))
}

/// Reads the big-endian `i64` at `base + delta` (0 when out of range).
pub fn rdi64(b: &[u8], base: usize, delta: usize) -> (r: i64)
    ensures
        r == spec_i64(b@, base + delta),
{
    let _n = b.len();
    get_i64_be(b, add_off(base, delta))
}

} // verus!
