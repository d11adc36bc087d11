//! The fixed 256-byte wire frame: command id, 251 payload bytes and a CRC32
//! over the first 252 bytes.

use vstd::prelude::*;
use crate::bytes::{le32_at, le32_bytes, lemma_le32_read_write, lemma_le32_write_read};
use crate::consts::{CRC_OFFSET, PACKET_SIZE, PAYLOAD_SIZE};
use crate::crc::{crc32, crc32_of};
use crate::error::HubError;

verus! {

/// The first 252 bytes of a frame: command id and payload padded with zeros.
pub open spec fn frame_body(cmd_id: u8, payload: Seq<u8>) -> Seq<u8> {
    seq![cmd_id] + payload + Seq::new((251 - payload.len()) as nat, |i: int| 0u8)
}

/// The 256 bytes that encode `cmd_id` and `payload`.
pub open spec fn packet_bytes(cmd_id: u8, payload: Seq<u8>) -> Seq<u8> {
    frame_body(cmd_id, payload) + le32_bytes(crc32_of(frame_body(cmd_id, payload)))
}

/// Whether the trailing CRC32 of a 256-byte frame matches its first 252 bytes.
pub open spec fn frame_crc_ok(b: Seq<u8>) -> bool {
    le32_at(b, 252) == crc32_of(b.subrange(0, 252))
}

/// The payload bytes of a frame.
pub open spec fn payload_of(b: Seq<u8>) -> Seq<u8> {
    b.subrange(1, 252)
}

/// One wire packet.
pub struct Packet {
    pub buf: [u8; PACKET_SIZE],
}

impl Packet {
    /// Encodes a packet; fails when the payload is longer than 251 bytes.
    pub fn new(cmd_id: u8, payload: &[u8]) -> (r: Result<Packet, HubError>)
        ensures
            payload@.len() > 251 ==> r == Err::<Packet, HubError>(HubError::PayloadTooLarge),
            payload@.len() <= 251 ==> r is Ok && r->Ok_0.buf@ == packet_bytes(cmd_id, payload@),
    {
        if payload.len() > PAYLOAD_SIZE {
            return Err(HubError::PayloadTooLarge);
        }
        let mut buf = [0u8; PACKET_SIZE];
        buf[0] = cmd_id;
        let mut i: usize = 0;
        while i < payload.len()
            invariant
                payload@.len() <= 251,
                i <= payload@.len(),
                buf@.len() == 256,
                buf@[0] == cmd_id,
                forall|k: int| 0 <= k < i ==> buf@[1 + k] == payload@[k],
                forall|k: int| 1 + i <= k < 256 ==> buf@[k] == 0u8,
            decreases payload@.len() - i,
        {
            buf[i + 1] = payload[i];
            i = i + 1;
        }
        assert(buf@.subrange(0, 252) =~= frame_body(cmd_id, payload@));
        let crc = crc32(&buf[0..CRC_OFFSET]);
        buf[252] = (crc & 0xff) as u8;
        buf[253] = ((crc >> 8u32) & 0xff) as u8;
        buf[254] = ((crc >> 16u32) & 0xff) as u8;
        buf[255] = ((crc >> 24u32) & 0xff) as u8;
        assert(buf@ =~= packet_bytes(cmd_id, payload@));
        Ok(Packet { buf })
    }

    /// Accepts a received frame whose CRC32 matches its contents.
    pub fn from_bytes(buf: [u8; PACKET_SIZE]) -> (r: Result<Packet, HubError>)
        ensures
            frame_crc_ok(buf@) ==> r is Ok && r->Ok_0.buf@ == buf@,
            !frame_crc_ok(buf@) ==> r == Err::<Packet, HubError>(HubError::PacketCrcMismatch),
    {
        let expected = crc32(&buf[0..CRC_OFFSET]);
        let actual = (buf[252] as u32) | ((buf[253] as u32) << 8u32) | ((buf[254] as u32)
            << 16u32) | ((buf[255] as u32) << 24u32);
        if expected != actual {
            return Err(HubError::PacketCrcMismatch);
        }
        Ok(Packet { buf })
    }

    /// The command id.
    pub fn cmd_id(&self) -> (r: u8)
        ensures
            r == self.buf@[0],
    {
        self.buf[0]
    }

    /// The 251 payload bytes.
    pub fn payload(&self) -> (r: &[u8])
        ensures
            r@ == payload_of(self.buf@),
    {
        &self.buf[1..CRC_OFFSET]
    }
}

/// Decoding an encoded packet gives back its command id and its payload,
/// padded with zeros to 251 bytes.
pub proof fn lemma_packet_round_trip(cmd_id: u8, payload: Seq<u8>)
    requires
        payload.len() <= 251,
    ensures
        packet_bytes(cmd_id, payload).len() == 256,
        frame_crc_ok(packet_bytes(cmd_id, payload)),
        packet_bytes(cmd_id, payload)[0] == cmd_id,
        payload_of(packet_bytes(cmd_id, payload)).subrange(0, payload.len() as int) == payload,
        forall|k: int|
            payload.len() <= k < 251 ==> #[trigger] payload_of(packet_bytes(cmd_id, payload))[k]
                == 0u8,
{
    let b = packet_bytes(cmd_id, payload);
    let body = frame_body(cmd_id, payload);
    assert(b.subrange(0, 252) =~= body);
    assert(b.subrange(252, 256) =~= le32_bytes(crc32_of(body)));
    lemma_le32_read_write(crc32_of(body), b, 252);
    assert(payload_of(b).subrange(0, payload.len() as int) =~= payload);
}

/// A frame is accepted exactly when its trailing four bytes are the CRC32 of
/// the rest, so an accepted frame is the encoding of its own id and payload.
pub proof fn lemma_accepted_frame_is_encoding(b: Seq<u8>)
    requires
        b.len() == 256,
        frame_crc_ok(b),
    ensures
        b == packet_bytes(b[0], payload_of(b)),
{
    lemma_le32_write_read(b, 252);
    assert(frame_body(b[0], payload_of(b)) =~= b.subrange(0, 252));
    assert(b =~= packet_bytes(b[0], payload_of(b)));
}

} // verus!
