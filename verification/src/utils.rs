//! Little-endian and big-endian integer readers over byte slices.
use vstd::prelude::*;

verus! {

/// The unsigned 16-bit value stored least significant byte first at `off`.
pub open spec fn le_u16(s: Seq<u8>, off: int) -> int {
    s[off] as int + 256 * (s[off + 1] as int)
}

/// The unsigned 32-bit value stored least significant byte first at `off`.
pub open spec fn le_u32(s: Seq<u8>, off: int) -> int {
    le_u16(s, off) + 65536 * le_u16(s, off + 2)
}

/// The unsigned 64-bit value stored least significant byte first at `off`.
pub open spec fn le_u64(s: Seq<u8>, off: int) -> int {
    le_u32(s, off) + 0x1_0000_0000 * le_u32(s, off + 4)
}

/// The unsigned 32-bit value stored most significant byte first at `off`.
pub open spec fn be_u32(s: Seq<u8>, off: int) -> int {
    16777216 * (s[off] as int) + 65536 * (s[off + 1] as int) + 256 * (s[off + 2] as int)
        + s[off + 3] as int
}

/// The unsigned 64-bit value stored most significant byte first at `off`.
pub open spec fn be_u64(s: Seq<u8>, off: int) -> int {
    0x1_0000_0000 * be_u32(s, off) + be_u32(s, off + 4)
}

/// Two's complement reading of a 16-bit pattern.
pub open spec fn signed16(v: int) -> int {
    if v >= 0x8000 {
        v - 0x1_0000
    } else {
        v
    }
}

/// Two's complement reading of a 32-bit pattern.
pub open spec fn signed32(v: int) -> int {
    if v >= 0x8000_0000 {
        v - 0x1_0000_0000
    } else {
        v
    }
}

/// Two's complement reading of a 64-bit pattern.
pub open spec fn signed64(v: int) -> int {
    if v >= 0x8000_0000_0000_0000 {
        v - 0x1_0000_0000_0000_0000
    } else {
        v
    }
}

/// Whether `len` bytes starting at `off` lie inside a buffer of `total` bytes.
pub open spec fn in_bounds(total: int, off: int, len: int) -> bool {
    0 <= off && 0 <= len && off + len <= total
}

/// Tests whether `len` bytes starting at `off` lie inside `bytes`.
pub fn has_bytes(bytes: &[u8], off: usize, len: usize) -> (r: bool)
    ensures
        r == in_bounds(bytes@.len() as int, off as int, len as int),
        bytes@.len() <= usize::MAX,
{
    len <= bytes.len() && off <= bytes.len() - len
}

/// Reads a little-endian `u16` at `off`, or `None` where the buffer is too short.
pub fn read_u16_le(bytes: &[u8], off: usize) -> (r: Option<u16>)
    ensures
        r.is_some() == in_bounds(bytes@.len() as int, off as int, 2),
        r matches Some(v) ==> v as int == le_u16(bytes@, off as int),
{
    if !has_bytes(bytes, off, 2) {
        return None;
    }
    let b0: u16 = bytes[off] as u16;
    let b1: u16 = bytes[off + 1] as u16;
    Some(b0 + 256 * b1)
}

/// Reads a little-endian `u32` at `off`, or `None` where the buffer is too short.
pub fn read_u32_le(bytes: &[u8], off: usize) -> (r: Option<u32>)
    ensures
        r.is_some() == in_bounds(bytes@.len() as int, off as int, 4),
        r matches Some(v) ==> v as int == le_u32(bytes@, off as int),
{
    if !has_bytes(bytes, off, 4) {
        return None;
    }
    let b0: u32 = bytes[off] as u32;
    let b1: u32 = bytes[off + 1] as u32;
    let b2: u32 = bytes[off + 2] as u32;
    let b3: u32 = bytes[off + 3] as u32;
    Some(b0 + 256 * b1 + 65536 * b2 + 16777216 * b3)
}

/// Reads a little-endian `u64` at `off`, or `None` where the buffer is too short.
pub fn read_u64_le(bytes: &[u8], off: usize) -> (r: Option<u64>)
    ensures
        r.is_some() == in_bounds(bytes@.len() as int, off as int, 8),
        r matches Some(v) ==> v as int == le_u64(bytes@, off as int),
{
    if !has_bytes(bytes, off, 8) {
        return None;
    }
    let lo: u64 = read_u32_le(bytes, off).unwrap() as u64;
    let hi: u64 = read_u32_le(bytes, off + 4).unwrap() as u64;
    Some(lo + 0x1_0000_0000 * hi)
}

/// Reads a big-endian `u32` at `off`, or `None` where the buffer is too short.
pub fn read_u32_be(bytes: &[u8], off: usize) -> (r: Option<u32>)
    ensures
        r.is_some() == in_bounds(bytes@.len() as int, off as int, 4),
        r matches Some(v) ==> v as int == be_u32(bytes@, off as int),
{
    if !has_bytes(bytes, off, 4) {
        return None;
    }
    let b0: u32 = bytes[off] as u32;
    let b1: u32 = bytes[off + 1] as u32;
    let b2: u32 = bytes[off + 2] as u32;
    let b3: u32 = bytes[off + 3] as u32;
    Some(16777216 * b0 + 65536 * b1 + 256 * b2 + b3)
}

/// Reads a big-endian `u64` at `off`, or `None` where the buffer is too short.
pub fn read_u64_be(bytes: &[u8], off: usize) -> (r: Option<u64>)
    ensures
        r.is_some() == in_bounds(bytes@.len() as int, off as int, 8),
        r matches Some(v) ==> v as int == be_u64(bytes@, off as int),
{
    if !has_bytes(bytes, off, 8) {
        return None;
    }
    let hi: u64 = read_u32_be(bytes, off).unwrap() as u64;
    let lo: u64 = read_u32_be(bytes, off + 4).unwrap() as u64;
    Some(0x1_0000_0000 * hi + lo)
}

/// Reinterprets a 16-bit pattern as a signed value.
pub fn to_i16(v: u16) -> (r: i16)
    ensures
        r as int == signed16(v as int),
{
    if v >= 0x8000 {
        ((v - 0x8000) as i16) + i16::MIN
    } else {
        v as i16
    }
}

/// Reinterprets a 32-bit pattern as a signed value.
pub fn to_i32(v: u32) -> (r: i32)
    ensures
        r as int == signed32(v as int),
{
    if v >= 0x8000_0000 {
        ((v - 0x8000_0000) as i32) + i32::MIN
    } else {
        v as i32
    }
}

/// Reinterprets a 64-bit pattern as a signed value.
pub fn to_i64(v: u64) -> (r: i64)
    ensures
        r as int == signed64(v as int),
{
    if v >= 0x8000_0000_0000_0000 {
        ((v - 0x8000_0000_0000_0000) as i64) + i64::MIN
    } else {
        v as i64
    }
}

/// Copies `len` bytes starting at `off` into a new vector.
pub fn copy_range(bytes: &[u8], off: usize, len: usize) -> (r: Vec<u8>)
    requires
        in_bounds(bytes@.len() as int, off as int, len as int),
    ensures
        r@ == bytes@.subrange(off as int, off + len),
{
    let total: usize = bytes.len();
    let mut out: Vec<u8> = Vec::new();
    let mut i: usize = 0;
    while i < len
        invariant
            i <= len,
            bytes@.len() == total,
            in_bounds(bytes@.len() as int, off as int, len as int),
            out@ == bytes@.subrange(off as int, off + i),
        decreases len - i,
    {
        out.push(bytes[off + i]);
        i = i + 1;
        assert(out@ =~= bytes@.subrange(off as int, off + i));
    }
    out
}

/// Appends `len` bytes of `bytes` starting at `off` to `out`.
pub fn append_range(out: &mut Vec<u8>, bytes: &[u8], off: usize, len: usize)
    requires
        in_bounds(bytes@.len() as int, off as int, len as int),
    ensures
        final(out)@ == old(out)@ + bytes@.subrange(off as int, off + len),
{
    let total: usize = bytes.len();
    let ghost before = out@;
    let mut i: usize = 0;
    assert(out@ =~= before + bytes@.subrange(off as int, off + i));
    while i < len
        invariant
            i <= len,
            bytes@.len() == total,
            in_bounds(bytes@.len() as int, off as int, len as int),
            out@ == before + bytes@.subrange(off as int, off + i),
        decreases len - i,
    {
        out.push(bytes[off + i]);
        i = i + 1;
        assert(out@ =~= before + bytes@.subrange(off as int, off + i));
    }
}

} // verus!
