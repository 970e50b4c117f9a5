//! Little-endian and big-endian integer encodings and byte-buffer helpers.

use vstd::prelude::*;

verus! {

/// Little-endian bytes of a `u16`.
pub open spec fn le16(x: u16) -> Seq<u8> {
    seq![(x % 256) as u8, (x / 256) as u8]
}

/// Little-endian bytes of a `u32`.
pub open spec fn le32(x: u32) -> Seq<u8> {
    seq![(x % 0x100) as u8, ((x / 0x100) % 0x100) as u8, ((x / 0x10000) % 0x100) as u8, (x / 0x1000000) as u8]
}

/// Little-endian bytes of a `u64`.
pub open spec fn le64(x: u64) -> Seq<u8> {
    le32((x % 0x1_0000_0000) as u32) + le32((x / 0x1_0000_0000) as u32)
}

/// Big-endian bytes of a `u32`.
pub open spec fn be32(x: u32) -> Seq<u8> {
    seq![(x / 0x1000000) as u8, ((x / 0x10000) % 0x100) as u8, ((x / 0x100) % 0x100) as u8, (x % 0x100) as u8]
}

/// Big-endian bytes of a `u64`.
pub open spec fn be64(x: u64) -> Seq<u8> {
    be32((x / 0x1_0000_0000) as u32) + be32((x % 0x1_0000_0000) as u32)
}

/// The `u32` whose little-endian bytes are `b[0..4]`.
pub open spec fn from_le32(b: Seq<u8>) -> u32 {
    (b[0] as int + b[1] as int * 0x100 + b[2] as int * 0x10000 + b[3] as int * 0x1000000) as u32
}

pub fn u16_to_le(x: u16) -> (r: [u8; 2])
    ensures
        r@ == le16(x),
{
    let r = [(x & 0xFF) as u8, (x >> 8u16) as u8];
    assert((x & 0xFF) == x % 256 && (x >> 8u16) == x / 256) by (bit_vector);
    assert(r@ =~= le16(x));
    r
}

pub fn u32_to_le(x: u32) -> (r: [u8; 4])
    ensures
        r@ == le32(x),
{
    let r = [(x & 0xFF) as u8, ((x >> 8u32) & 0xFF) as u8, ((x >> 16u32) & 0xFF) as u8, (x >> 24u32) as u8];
    assert((x & 0xFF) == x % 0x100 && ((x >> 8u32) & 0xFF) == (x / 0x100) % 0x100 && ((x >> 16u32) & 0xFF) == (x
        / 0x10000) % 0x100 && (x >> 24u32) == x / 0x1000000) by (bit_vector);
    assert(r@ =~= le32(x));
    r
}

pub fn u32_to_be(x: u32) -> (r: [u8; 4])
    ensures
        r@ == be32(x),
{
    let r = [(x >> 24u32) as u8, ((x >> 16u32) & 0xFF) as u8, ((x >> 8u32) & 0xFF) as u8, (x & 0xFF) as u8];
    assert((x & 0xFF) == x % 0x100 && ((x >> 8u32) & 0xFF) == (x / 0x100) % 0x100 && ((x >> 16u32) & 0xFF) == (x
        / 0x10000) % 0x100 && (x >> 24u32) == x / 0x1000000) by (bit_vector);
    assert(r@ =~= be32(x));
    r
}

pub fn u64_to_le(x: u64) -> (r: Vec<u8>)
    ensures
        r@ == le64(x),
{
    let lo = u32_to_le((x & 0xFFFF_FFFF) as u32);
    let hi = u32_to_le((x >> 32u64) as u32);
    assert((x & 0xFFFF_FFFF) == x % 0x1_0000_0000 && (x >> 32u64) == x / 0x1_0000_0000) by (bit_vector);
    let mut r: Vec<u8> = Vec::new();
    push_all(&mut r, &lo);
    push_all(&mut r, &hi);
    r
}

pub fn u64_to_be(x: u64) -> (r: Vec<u8>)
    ensures
        r@ == be64(x),
{
    let hi = u32_to_be((x >> 32u64) as u32);
    let lo = u32_to_be((x & 0xFFFF_FFFF) as u32);
    assert((x & 0xFFFF_FFFF) == x % 0x1_0000_0000 && (x >> 32u64) == x / 0x1_0000_0000) by (bit_vector);
    let mut r: Vec<u8> = Vec::new();
    push_all(&mut r, &hi);
    push_all(&mut r, &lo);
    r
}

/// Reads a little-endian `u32` at `off`.
pub fn read_u32_le(b: &[u8], off: usize) -> (r: u32)
    requires
        off + 4 <= b@.len(),
    ensures
        r == from_le32(b@.subrange(off as int, off + 4)),
{
    let r = (b[off] as u32) | ((b[off + 1] as u32) << 8u32) | ((b[off + 2] as u32) << 16u32) | ((b[off + 3] as u32)
        << 24u32);
    let (b0, b1, b2, b3) = (b[off], b[off + 1], b[off + 2], b[off + 3]);
    assert((b0 as u32) | ((b1 as u32) << 8u32) | ((b2 as u32) << 16u32) | ((b3 as u32) << 24u32) == b0 as u32 + b1
        as u32 * 0x100 + b2 as u32 * 0x10000 + b3 as u32 * 0x1000000) by (bit_vector);
    r
}

/// Appends `s` to `v`.
pub fn push_all(v: &mut Vec<u8>, s: &[u8])
    ensures
        final(v)@ == old(v)@ + s@,
{
    let mut i: usize = 0;
    while i < s.len()
        invariant
            i <= s.len(),
            v@ == old(v)@ + s@.subrange(0, i as int),
        decreases s.len() - i,
    {
        v.push(s[i]);
        i = i + 1;
    }
    assert(s@.subrange(0, s@.len() as int) == s@);
}

/// Copies `s[off..off + N]` into an array.
pub fn copy_array<const N: usize>(s: &[u8], off: usize) -> (r: [u8; N])
    requires
        off + N <= s@.len(),
    ensures
        r@ == s@.subrange(off as int, off + N),
{
    let mut r = [0u8; N];
    let mut i: usize = 0;
    while i < N
        invariant
            i <= N,
            off + N <= s.len(),
            r@.len() == N,
            forall|k: int| 0 <= k < i ==> r@[k] == s@[off + k],
        decreases N - i,
    {
        r[i] = s[off + i];
        i = i + 1;
    }
    assert(r@ =~= s@.subrange(off as int, off + N));
    r
}

} // verus!
