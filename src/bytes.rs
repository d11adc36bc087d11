//! Little-endian integer encodings used by every fixed-offset layout.

use vstd::prelude::*;

verus! {

/// The two little-endian bytes of `v`.
pub open spec fn le16_bytes(v: u16) -> Seq<u8> {
    seq![(v & 0xff) as u8, ((v >> 8u16) & 0xff) as u8]
}

/// The four little-endian bytes of `v`.
pub open spec fn le32_bytes(v: u32) -> Seq<u8> {
    seq![
        (v & 0xff) as u8,
        ((v >> 8u32) & 0xff) as u8,
        ((v >> 16u32) & 0xff) as u8,
        ((v >> 24u32) & 0xff) as u8,
    ]
}

/// The 16-bit value stored little-endian at `b[at]`, `b[at + 1]`.
pub open spec fn le16_at(b: Seq<u8>, at: int) -> u16 {
    (b[at] as u16) | ((b[at + 1] as u16) << 8u16)
}

/// The 32-bit value stored little-endian at `b[at] .. b[at + 4]`.
pub open spec fn le32_at(b: Seq<u8>, at: int) -> u32 {
    (b[at] as u32) | ((b[at + 1] as u32) << 8u32) | ((b[at + 2] as u32) << 16u32) | ((b[at
        + 3] as u32) << 24u32)
}

proof fn lemma_le16_bits(v: u16)
    ensures
        ((v & 0xff) as u8 as u16) | ((((v >> 8u16) & 0xff) as u8 as u16) << 8u16) == v,
{
    assert(((v & 0xff) as u8 as u16) | ((((v >> 8u16) & 0xff) as u8 as u16) << 8u16) == v)
        by (bit_vector);
}

proof fn lemma_le32_bits(v: u32)
    ensures
        ((v & 0xff) as u8 as u32) | ((((v >> 8u32) & 0xff) as u8 as u32) << 8u32) | ((((v
            >> 16u32) & 0xff) as u8 as u32) << 16u32) | ((((v >> 24u32) & 0xff) as u8 as u32)
            << 24u32) == v,
{
    assert(((v & 0xff) as u8 as u32) | ((((v >> 8u32) & 0xff) as u8 as u32) << 8u32) | ((((v
        >> 16u32) & 0xff) as u8 as u32) << 16u32) | ((((v >> 24u32) & 0xff) as u8 as u32)
        << 24u32) == v) by (bit_vector);
}

proof fn lemma_le16_bytes_bits(b0: u8, b1: u8)
    ensures
        ({
            let v = (b0 as u16) | ((b1 as u16) << 8u16);
            (v & 0xff) as u8 == b0 && ((v >> 8u16) & 0xff) as u8 == b1
        }),
{
    assert(((b0 as u16) | ((b1 as u16) << 8u16)) & 0xff == b0 as u16) by (bit_vector);
    assert((((b0 as u16) | ((b1 as u16) << 8u16)) >> 8u16) & 0xff == b1 as u16)
        by (bit_vector);
}

proof fn lemma_le32_bytes_bits(b0: u8, b1: u8, b2: u8, b3: u8)
    ensures
        ({
            let v = (b0 as u32) | ((b1 as u32) << 8u32) | ((b2 as u32) << 16u32) | ((b3 as u32)
                << 24u32);
            &&& (v & 0xff) as u8 == b0
            &&& ((v >> 8u32) & 0xff) as u8 == b1
            &&& ((v >> 16u32) & 0xff) as u8 == b2
            &&& ((v >> 24u32) & 0xff) as u8 == b3
        }),
{
    let v = (b0 as u32) | ((b1 as u32) << 8u32) | ((b2 as u32) << 16u32) | ((b3 as u32)
        << 24u32);
    assert(((b0 as u32) | ((b1 as u32) << 8u32) | ((b2 as u32) << 16u32) | ((b3 as u32)
        << 24u32)) & 0xff == b0 as u32) by (bit_vector);
    assert((((b0 as u32) | ((b1 as u32) << 8u32) | ((b2 as u32) << 16u32) | ((b3 as u32)
        << 24u32)) >> 8u32) & 0xff == b1 as u32) by (bit_vector);
    assert((((b0 as u32) | ((b1 as u32) << 8u32) | ((b2 as u32) << 16u32) | ((b3 as u32)
        << 24u32)) >> 16u32) & 0xff == b2 as u32) by (bit_vector);
    assert((((b0 as u32) | ((b1 as u32) << 8u32) | ((b2 as u32) << 16u32) | ((b3 as u32)
        << 24u32)) >> 24u32) & 0xff == b3 as u32) by (bit_vector);
}

/// Reading back the two bytes of `v` gives `v`.
pub proof fn lemma_le16_read_write(v: u16, b: Seq<u8>, at: int)
    requires
        0 <= at,
        at + 2 <= b.len(),
        b.subrange(at, at + 2) == le16_bytes(v),
    ensures
        le16_at(b, at) == v,
{
    assert(b[at] == b.subrange(at, at + 2)[0]);
    assert(b[at + 1] == b.subrange(at, at + 2)[1]);
    lemma_le16_bits(v);
}

/// Reading back the four bytes of `v` gives `v`.
pub proof fn lemma_le32_read_write(v: u32, b: Seq<u8>, at: int)
    requires
        0 <= at,
        at + 4 <= b.len(),
        b.subrange(at, at + 4) == le32_bytes(v),
    ensures
        le32_at(b, at) == v,
{
    assert(b[at] == b.subrange(at, at + 4)[0]);
    assert(b[at + 1] == b.subrange(at, at + 4)[1]);
    assert(b[at + 2] == b.subrange(at, at + 4)[2]);
    assert(b[at + 3] == b.subrange(at, at + 4)[3]);
    lemma_le32_bits(v);
}

/// Four bytes are the encoding of the value they store.
pub proof fn lemma_le32_write_read(b: Seq<u8>, at: int)
    requires
        0 <= at,
        at + 4 <= b.len(),
    ensures
        le32_bytes(le32_at(b, at)) == b.subrange(at, at + 4),
{
    lemma_le32_bytes_bits(b[at], b[at + 1], b[at + 2], b[at + 3]);
    assert(le32_bytes(le32_at(b, at)) =~= b.subrange(at, at + 4));
}

/// Two bytes are the encoding of the value they store.
pub proof fn lemma_le16_write_read(b: Seq<u8>, at: int)
    requires
        0 <= at,
        at + 2 <= b.len(),
    ensures
        le16_bytes(le16_at(b, at)) == b.subrange(at, at + 2),
{
    lemma_le16_bytes_bits(b[at], b[at + 1]);
    assert(le16_bytes(le16_at(b, at)) =~= b.subrange(at, at + 2));
}

/// Reads the 16-bit little-endian value at `b[at]`.
pub fn read_u16_le(b: &[u8], at: usize) -> (r: u16)
    requires
        at + 2 <= b@.len(),
    ensures
        r == le16_at(b@, at as int),
{
    (b[at] as u16) | ((b[at + 1] as u16) << 8u16)
}

/// Reads the 32-bit little-endian value at `b[at]`.
pub fn read_u32_le(b: &[u8], at: usize) -> (r: u32)
    requires
        at + 4 <= b@.len(),
    ensures
        r == le32_at(b@, at as int),
{
    (b[at] as u32) | ((b[at + 1] as u32) << 8u32) | ((b[at + 2] as u32) << 16u32) | ((b[at
        + 3] as u32) << 24u32)
}

/// Appends the two little-endian bytes of `v`.
pub fn push_u16_le(out: &mut Vec<u8>, v: u16)
    ensures
        final(out)@ == old(out)@ + le16_bytes(v),
{
    out.push((v & 0xff) as u8);
    out.push(((v >> 8u16) & 0xff) as u8);
    assert(final(out)@ =~= old(out)@ + le16_bytes(v));
}

/// Appends the four little-endian bytes of `v`.
pub fn push_u32_le(out: &mut Vec<u8>, v: u32)
    ensures
        final(out)@ == old(out)@ + le32_bytes(v),
{
    out.push((v & 0xff) as u8);
    out.push(((v >> 8u32) & 0xff) as u8);
    out.push(((v >> 16u32) & 0xff) as u8);
    out.push(((v >> 24u32) & 0xff) as u8);
    assert(final(out)@ =~= old(out)@ + le32_bytes(v));
}

/// Appends every byte of `src`.
pub fn push_bytes(out: &mut Vec<u8>, src: &[u8])
    ensures
        final(out)@ == old(out)@ + src@,
{
    let ghost start = out@;
    let mut i: usize = 0;
    while i < src.len()
        invariant
            i <= src@.len(),
            out@ == start + src@.subrange(0, i as int),
        decreases src@.len() - i,
    {
        out.push(src[i]);
        i = i + 1;
        assert(out@ =~= start + src@.subrange(0, i as int));
    }
    assert(src@.subrange(0, src@.len() as int) =~= src@);
}

/// Stores the two little-endian bytes of `v` at `b[at]`.
pub fn put_u16_le(b: &mut [u8], at: usize, v: u16)
    requires
        at + 2 <= old(b)@.len(),
    ensures
        final(b)@.len() == old(b)@.len(),
        final(b)@.subrange(at as int, at + 2) == le16_bytes(v),
        forall|k: int|
            0 <= k < old(b)@.len() && !(at <= k < at + 2) ==> final(b)@[k] == old(b)@[k],
{
    b[at] = (v & 0xff) as u8;
    b[at + 1] = ((v >> 8u16) & 0xff) as u8;
    assert(b@.subrange(at as int, at + 2) =~= le16_bytes(v));
}

/// Stores the four little-endian bytes of `v` at `b[at]`.
pub fn put_u32_le(b: &mut [u8], at: usize, v: u32)
    requires
        at + 4 <= old(b)@.len(),
    ensures
        final(b)@.len() == old(b)@.len(),
        final(b)@.subrange(at as int, at + 4) == le32_bytes(v),
        forall|k: int|
            0 <= k < old(b)@.len() && !(at <= k < at + 4) ==> final(b)@[k] == old(b)@[k],
{
    b[at] = (v & 0xff) as u8;
    b[at + 1] = ((v >> 8u32) & 0xff) as u8;
    b[at + 2] = ((v >> 16u32) & 0xff) as u8;
    b[at + 3] = ((v >> 24u32) & 0xff) as u8;
    assert(b@.subrange(at as int, at + 4) =~= le32_bytes(v));
}

/// Overwrites `dst[at .. at + src.len()]` with `src`.
pub fn copy_into(dst: &mut Vec<u8>, at: usize, src: &[u8])
    requires
        at + src@.len() <= old(dst)@.len(),
    ensures
        final(dst)@ == old(dst)@.subrange(0, at as int) + src@ + old(dst)@.subrange(
            at + src@.len(),
            old(dst)@.len() as int,
        ),
{
    let ghost start = dst@;
    let dlen = dst.len();
    let mut k: usize = 0;
    while k < src.len()
        invariant
            dlen == start.len(),
            at + src@.len() <= start.len(),
            k <= src@.len(),
            dst@.len() == start.len(),
            forall|m: int| 0 <= m < at ==> dst@[m] == start[m],
            forall|m: int| 0 <= m < k ==> dst@[at + m] == src@[m],
            forall|m: int| at + k <= m < start.len() ==> dst@[m] == start[m],
        decreases src@.len() - k,
    {
        dst.set(at + k, src[k]);
        k = k + 1;
    }
    assert(dst@ =~= start.subrange(0, at as int) + src@ + start.subrange(
        at + src@.len(),
        start.len() as int,
    ));
}

} // verus!
