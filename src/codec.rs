//! Little-endian fixed-width integers.

use vstd::prelude::*;

verus! {

/// The 32-bit little-endian value at `off`.
pub open spec fn u32_at(b: Seq<u8>, off: int) -> u32 {
    (b[off] as u32) | ((b[off + 1] as u32) << 8u32) | ((b[off + 2] as u32) << 16u32) | ((b[off
        + 3] as u32) << 24u32)
}

/// The 64-bit little-endian value at `off`.
pub open spec fn u64_at(b: Seq<u8>, off: int) -> u64 {
    (u32_at(b, off) as u64) | ((u32_at(b, off + 4) as u64) << 32u64)
}

/// The four little-endian bytes of `v`.
pub open spec fn u32_bytes(v: u32) -> Seq<u8> {
    seq![
        (v & 0xffu32) as u8,
        ((v >> 8u32) & 0xffu32) as u8,
        ((v >> 16u32) & 0xffu32) as u8,
        ((v >> 24u32) & 0xffu32) as u8,
    ]
}

proof fn lemma_u32_split(b0: u8, b1: u8, b2: u8, b3: u8)
    ensures
        ({
            let v = (b0 as u32) | ((b1 as u32) << 8u32) | ((b2 as u32) << 16u32) | ((b3 as u32)
                << 24u32);
            &&& (v & 0xffu32) as u8 == b0
            &&& ((v >> 8u32) & 0xffu32) as u8 == b1
            &&& ((v >> 16u32) & 0xffu32) as u8 == b2
            &&& ((v >> 24u32) & 0xffu32) as u8 == b3
        }),
{
    let v = (b0 as u32) | ((b1 as u32) << 8u32) | ((b2 as u32) << 16u32) | ((b3 as u32) << 24u32);
    assert((v & 0xffu32) as u8 == b0) by (bit_vector)
        requires
            v == (b0 as u32) | ((b1 as u32) << 8u32) | ((b2 as u32) << 16u32) | ((b3 as u32)
                << 24u32),
    ;
    assert(((v >> 8u32) & 0xffu32) as u8 == b1) by (bit_vector)
        requires
            v == (b0 as u32) | ((b1 as u32) << 8u32) | ((b2 as u32) << 16u32) | ((b3 as u32)
                << 24u32),
    ;
    assert(((v >> 16u32) & 0xffu32) as u8 == b2) by (bit_vector)
        requires
            v == (b0 as u32) | ((b1 as u32) << 8u32) | ((b2 as u32) << 16u32) | ((b3 as u32)
                << 24u32),
    ;
    assert(((v >> 24u32) & 0xffu32) as u8 == b3) by (bit_vector)
        requires
            v == (b0 as u32) | ((b1 as u32) << 8u32) | ((b2 as u32) << 16u32) | ((b3 as u32)
                << 24u32),
    ;
}

proof fn lemma_u32_join(v: u32)
    ensures
        ((((v & 0xffu32) as u8) as u32) | ((((v >> 8u32) & 0xffu32) as u8 as u32) << 8u32) | ((((v
            >> 16u32) & 0xffu32) as u8 as u32) << 16u32) | ((((v >> 24u32) & 0xffu32) as u8 as u32)
            << 24u32)) == v,
{
    assert(((((v & 0xffu32) as u8) as u32) | ((((v >> 8u32) & 0xffu32) as u8 as u32) << 8u32) | ((((v
        >> 16u32) & 0xffu32) as u8 as u32) << 16u32) | ((((v >> 24u32) & 0xffu32) as u8 as u32)
        << 24u32)) == v) by (bit_vector);
}

/// Reading back the bytes written for `v` gives `v`.
pub proof fn lemma_u32_bytes_at(v: u32)
    ensures
        u32_bytes(v).len() == 4,
        u32_at(u32_bytes(v), 0) == v,
{
    lemma_u32_join(v);
}

/// Writing the value read at `off` gives back the same four bytes.
pub proof fn lemma_u32_at_bytes(b: Seq<u8>, off: int)
    requires
        0 <= off,
        off + 4 <= b.len(),
    ensures
        u32_bytes(u32_at(b, off)) == b.subrange(off, off + 4),
{
    lemma_u32_split(b[off], b[off + 1], b[off + 2], b[off + 3]);
    assert(u32_bytes(u32_at(b, off)) =~= b.subrange(off, off + 4));
}

/// Reads the 32-bit little-endian value at `off`.
pub fn read_u32(b: &[u8], off: usize) -> (r: u32)
    requires
        off + 4 <= b@.len(),
    ensures
        r == u32_at(b@, off as int),
{
    (b[off] as u32) | ((b[off + 1] as u32) << 8u32) | ((b[off + 2] as u32) << 16u32) | ((b[off
        + 3] as u32) << 24u32)
}

/// Appends the four little-endian bytes of `v`.
pub fn write_u32(out: &mut Vec<u8>, v: u32)
    ensures
        final(out)@ == old(out)@ + u32_bytes(v),
{
    out.push((v & 0xffu32) as u8);
    out.push(((v >> 8u32) & 0xffu32) as u8);
    out.push(((v >> 16u32) & 0xffu32) as u8);
    out.push(((v >> 24u32) & 0xffu32) as u8);
    assert(out@ =~= old(out)@ + u32_bytes(v));
}

} // verus!

verus! {

/// Copies `b[start..end]` into a new vector.
pub fn copy_range(b: &[u8], start: usize, end: usize) -> (r: Vec<u8>)
    requires
        start <= end <= b@.len(),
    ensures
        r@ == b@.subrange(start as int, end as int),
{
    let mut r: Vec<u8> = Vec::new();
    let mut i: usize = start;
    while i < end
        invariant
            start <= i <= end <= b@.len(),
            r@ == b@.subrange(start as int, i as int),
        decreases end - i,
    {
        r.push(b[i]);
        i = i + 1;
        assert(r@ =~= b@.subrange(start as int, i as int));
    }
    r
}

} // verus!
