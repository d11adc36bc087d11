//! The 28-byte record that describes one album in the flash header table.

use vstd::prelude::*;
use crate::bytes::{
    le16_at, le16_bytes, le32_at, le32_bytes, lemma_le16_read_write, lemma_le32_read_write,
    put_u16_le, put_u32_le, read_u16_le, read_u32_le,
};
use crate::consts::{FRAME_HEADER_SIZE, FRAME_MAGIC};
use crate::crc::{crc32, crc32_of};
use crate::error::HubError;

verus! {

/// Where an album's pixels are and how to play them.
#[derive(Debug, Clone, Copy, PartialEq, Eq, Structural)]
pub struct FrameHeader {
    pub width: u16,
    pub height: u16,
    pub frame_count: u16,
    pub delay_ms: u16,
    pub data_offset: u32,
    pub data_length: u32,
    pub data_crc32: u32,
}

/// The 24 bytes that the header's own CRC32 covers: the magic value, then the
/// fields in order, all little-endian.
pub open spec fn header_body(h: FrameHeader) -> Seq<u8> {
    le32_bytes(FRAME_MAGIC) + le16_bytes(h.width) + le16_bytes(h.height) + le16_bytes(
        h.frame_count,
    ) + le16_bytes(h.delay_ms) + le32_bytes(h.data_offset) + le32_bytes(h.data_length)
        + le32_bytes(h.data_crc32)
}

/// The 28-byte record of `h`.
pub open spec fn header_bytes(h: FrameHeader) -> Seq<u8> {
    header_body(h) + le32_bytes(crc32_of(header_body(h)))
}

/// The fields stored in a 28-byte record.
pub open spec fn header_fields(b: Seq<u8>) -> FrameHeader {
    FrameHeader {
        width: le16_at(b, 4),
        height: le16_at(b, 6),
        frame_count: le16_at(b, 8),
        delay_ms: le16_at(b, 10),
        data_offset: le32_at(b, 12),
        data_length: le32_at(b, 16),
        data_crc32: le32_at(b, 20),
    }
}

/// What reading a header slot gives: an error for a short slot, no entry for
/// a slot without the magic value, an error for a record whose CRC32 does not
/// match its first 24 bytes, and the record's fields otherwise.
pub open spec fn read_header(b: Seq<u8>) -> Result<Option<FrameHeader>, HubError> {
    if b.len() < 28 {
        Err(HubError::HeaderTooShort)
    } else if le32_at(b, 0) != FRAME_MAGIC {
        Ok(None)
    } else if le32_at(b, 24) != crc32_of(b.subrange(0, 24)) {
        Err(HubError::HeaderCrcMismatch)
    } else {
        Ok(Some(header_fields(b)))
    }
}

impl FrameHeader {
    /// Writes the 28-byte record at the start of `buf`, leaving the rest as
    /// it was.
    pub fn write_to(&self, buf: &mut [u8])
        requires
            old(buf)@.len() >= 28,
        ensures
            final(buf)@.len() == old(buf)@.len(),
            final(buf)@.subrange(0, 28) == header_bytes(*self),
            forall|k: int| 28 <= k < old(buf)@.len() ==> final(buf)@[k] == old(buf)@[k],
    {
        put_u32_le(buf, 0, FRAME_MAGIC);
        put_u16_le(buf, 4, self.width);
        put_u16_le(buf, 6, self.height);
        put_u16_le(buf, 8, self.frame_count);
        put_u16_le(buf, 10, self.delay_ms);
        put_u32_le(buf, 12, self.data_offset);
        put_u32_le(buf, 16, self.data_length);
        put_u32_le(buf, 20, self.data_crc32);
        assert(buf@.subrange(0, 24) =~= header_body(*self));
        let hdr_crc = crc32(&buf[0..24]);
        put_u32_le(buf, 24, hdr_crc);
        assert(buf@.subrange(0, 28) =~= header_bytes(*self));
    }

    /// Reads the record at the start of `buf`.
    pub fn read_from(buf: &[u8]) -> (r: Result<Option<FrameHeader>, HubError>)
        ensures
            r == read_header(buf@),
    {
        if buf.len() < FRAME_HEADER_SIZE {
            return Err(HubError::HeaderTooShort);
        }
        let magic = read_u32_le(buf, 0);
        if magic != FRAME_MAGIC {
            return Ok(None);
        }
        let header_crc32 = read_u32_le(buf, 24);
        let expected = crc32(&buf[0..24]);
        if expected != header_crc32 {
            return Err(HubError::HeaderCrcMismatch);
        }
        Ok(
            Some(
                FrameHeader {
                    width: read_u16_le(buf, 4),
                    height: read_u16_le(buf, 6),
                    frame_count: read_u16_le(buf, 8),
                    delay_ms: read_u16_le(buf, 10),
                    data_offset: read_u32_le(buf, 12),
                    data_length: read_u32_le(buf, 16),
                    data_crc32: read_u32_le(buf, 20),
                },
            ),
        )
    }
}

/// A written record reads back as the same header, whatever follows it.
pub proof fn lemma_header_round_trip(h: FrameHeader, rest: Seq<u8>)
    ensures
        read_header(header_bytes(h) + rest) == Ok::<Option<FrameHeader>, HubError>(Some(h)),
{
    let b = header_bytes(h) + rest;
    let body = header_body(h);
    assert(b.subrange(0, 4) =~= le32_bytes(FRAME_MAGIC));
    lemma_le32_read_write(FRAME_MAGIC, b, 0);
    assert(b.subrange(4, 6) =~= le16_bytes(h.width));
    lemma_le16_read_write(h.width, b, 4);
    assert(b.subrange(6, 8) =~= le16_bytes(h.height));
    lemma_le16_read_write(h.height, b, 6);
    assert(b.subrange(8, 10) =~= le16_bytes(h.frame_count));
    lemma_le16_read_write(h.frame_count, b, 8);
    assert(b.subrange(10, 12) =~= le16_bytes(h.delay_ms));
    lemma_le16_read_write(h.delay_ms, b, 10);
    assert(b.subrange(12, 16) =~= le32_bytes(h.data_offset));
    lemma_le32_read_write(h.data_offset, b, 12);
    assert(b.subrange(16, 20) =~= le32_bytes(h.data_length));
    lemma_le32_read_write(h.data_length, b, 16);
    assert(b.subrange(20, 24) =~= le32_bytes(h.data_crc32));
    lemma_le32_read_write(h.data_crc32, b, 20);
    assert(b.subrange(0, 24) =~= body);
    assert(b.subrange(24, 28) =~= le32_bytes(crc32_of(body)));
    lemma_le32_read_write(crc32_of(body), b, 24);
}

/// A zero-filled slot holds no entry: it is read as "no entry", not as an
/// error.
pub proof fn lemma_zero_slot_is_empty(b: Seq<u8>)
    requires
        b.len() >= 28,
        forall|k: int| 0 <= k < 4 ==> b[k] == 0u8,
    ensures
        read_header(b) == Ok::<Option<FrameHeader>, HubError>(None),
{
    assert(b[0] == 0u8 && b[1] == 0u8 && b[2] == 0u8 && b[3] == 0u8);
    assert(((0u8 as u32) | ((0u8 as u32) << 8u32) | ((0u8 as u32) << 16u32) | ((0u8 as u32)
        << 24u32)) == 0u32) by (bit_vector);
}

} // verus!
