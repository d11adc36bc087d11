//! Chunked transfers: a buffer followed by its CRC32, cut into 240-byte
//! pieces, one per packet, and the reassembler that puts them back together.

use vstd::prelude::*;
use crate::bytes::{
    le16_at, le16_bytes, le32_at, le32_bytes, lemma_le16_read_write, lemma_le32_read_write,
    lemma_le32_write_read,
    push_bytes, push_u16_le, push_u32_le, read_u16_le,
};
use crate::consts::CHUNK_DATA_SIZE;
use crate::crc::{crc32, crc32_of};
use crate::error::HubError;
use crate::packet::{lemma_packet_round_trip, packet_bytes, payload_of, Packet};

verus! {

/// Largest number of pieces one transfer can announce.
pub const MAX_CHUNK_COUNT: usize = 65535;

/// The bytes a transfer of `data` carries: the data, then its CRC32.
pub open spec fn chunk_stream(data: Seq<u8>) -> Seq<u8> {
    data + le32_bytes(crc32_of(data))
}

/// Number of pieces needed for a stream of `len` bytes.
pub open spec fn piece_count(len: int) -> int {
    (len + 239) / 240
}

/// Number of stream bytes carried by piece `i` of a stream of `len` bytes.
pub open spec fn piece_len(len: int, i: int) -> int {
    if len - 240 * i < 240 {
        len - 240 * i
    } else {
        240
    }
}

/// Whether a transfer of `data` fits a 16-bit piece count.
pub open spec fn chunkable(data: Seq<u8>) -> bool {
    data.len() + 4 <= 240 * 65535
}

/// The payload of piece `i` of a transfer of `data`: sub-command, piece
/// count, piece index and piece length, each 16-bit little-endian, then the
/// piece's bytes.
pub open spec fn chunk_payload(sub_cmd: u8, data: Seq<u8>, i: int) -> Seq<u8> {
    let s = chunk_stream(data);
    let n = piece_count(s.len() as int);
    let len = piece_len(s.len() as int, i);
    seq![sub_cmd] + le16_bytes(n as u16) + le16_bytes(i as u16) + le16_bytes(len as u16)
        + s.subrange(240 * i, 240 * i + len)
}

proof fn lemma_piece_bounds(len: int)
    requires
        len >= 1,
    ensures
        piece_count(len) >= 1,
        240 * (piece_count(len) - 1) < len <= 240 * piece_count(len),
{
    let n = piece_count(len);
    assert(240 * n <= len + 239 < 240 * n + 240) by (nonlinear_arith)
        requires
            n == (len + 239) / 240,
            len >= 1,
    ;
}

/// Splits `data` and its CRC32 into packets of command `cmd_id`, each
/// carrying one piece; fails when the piece count would not fit 16 bits.
pub fn encode_chunked(cmd_id: u8, sub_cmd: u8, data: &[u8]) -> (r: Result<Vec<Packet>, HubError>)
    ensures
        !chunkable(data@) ==> r == Err::<Vec<Packet>, HubError>(HubError::ChunkCountOverflow),
        chunkable(data@) ==> r is Ok && r->Ok_0@.len() == piece_count(data@.len() + 4int) && (
        forall|i: int|
            0 <= i < r->Ok_0@.len() ==> #[trigger] r->Ok_0@[i].buf@ == packet_bytes(
                cmd_id,
                chunk_payload(sub_cmd, data@, i),
            )),
{
    if data.len() > CHUNK_DATA_SIZE * MAX_CHUNK_COUNT - 4 {
        return Err(HubError::ChunkCountOverflow);
    }
    let crc = crc32(data);
    let mut full: Vec<u8> = Vec::new();
    push_bytes(&mut full, data);
    push_u32_le(&mut full, crc);
    assert(full@ == chunk_stream(data@));
    let total_len = full.len();
    let total_chunks = (total_len + 239) / CHUNK_DATA_SIZE;
    proof {
        lemma_piece_bounds(total_len as int);
    }
    let mut packets: Vec<Packet> = Vec::new();
    let mut i: usize = 0;
    while i < total_chunks
        invariant
            full@ == chunk_stream(data@),
            total_len == full@.len(),
            total_len + 0 <= 240 * 65535,
            total_chunks == piece_count(total_len as int),
            240 * (total_chunks - 1) < total_len <= 240 * total_chunks,
            i <= total_chunks,
            packets@.len() == i,
            forall|k: int|
                0 <= k < i ==> #[trigger] packets@[k].buf@ == packet_bytes(
                    cmd_id,
                    chunk_payload(sub_cmd, data@, k),
                ),
        decreases total_chunks - i,
    {
        let offset = i * CHUNK_DATA_SIZE;
        let remaining = total_len - offset;
        let size = if remaining < CHUNK_DATA_SIZE {
            remaining
        } else {
            CHUNK_DATA_SIZE
        };
        let mut payload: Vec<u8> = Vec::new();
        payload.push(sub_cmd);
        push_u16_le(&mut payload, total_chunks as u16);
        push_u16_le(&mut payload, i as u16);
        push_u16_le(&mut payload, size as u16);
        push_bytes(&mut payload, &full[offset..offset + size]);
        assert(payload@ =~= chunk_payload(sub_cmd, data@, i as int));
        let pkt = match Packet::new(cmd_id, payload.as_slice()) {
            Ok(p) => p,
            Err(_) => {
                return Err(HubError::PayloadTooLarge);
            },
        };
        packets.push(pkt);
        i = i + 1;
    }
    Ok(packets)
}

/// The state of a reassembler, as a value.
pub struct ReceiverView {
    pub buffer: Seq<u8>,
    pub total: int,
    pub received: int,
    pub active: bool,
}

/// A reassembler that holds nothing.
pub open spec fn fresh_receiver() -> ReceiverView {
    ReceiverView { buffer: Seq::empty(), total: 0, received: 0, active: false }
}

/// What one piece does to a reassembler: the new state and the outcome, which
/// is the reassembled data once the announced number of pieces has arrived.
pub open spec fn feed_spec(s: ReceiverView, piece: Seq<u8>) -> (ReceiverView, Result<
    Option<Seq<u8>>,
    HubError,
>) {
    if piece.len() < 6 || 6 + le16_at(piece, 4) > piece.len() {
        (s, Err(HubError::MalformedChunk))
    } else {
        let bytes = piece.subrange(6, 6 + le16_at(piece, 4));
        let total = if s.active {
            s.total
        } else {
            le16_at(piece, 0) as int
        };
        let buffer = if s.active {
            s.buffer + bytes
        } else {
            bytes
        };
        let received = if s.active {
            s.received + 1
        } else {
            1
        };
        if received >= total {
            let n = buffer.len() - 4;
            if buffer.len() < 4 {
                (fresh_receiver(), Err(HubError::ChunkTooShort))
            } else if le32_at(buffer, n) != crc32_of(buffer.subrange(0, n)) {
                (fresh_receiver(), Err(HubError::ChunkCrcMismatch))
            } else {
                (fresh_receiver(), Ok(Some(buffer.subrange(0, n))))
            }
        } else {
            (ReceiverView { buffer, total, received, active: true }, Ok(None))
        }
    }
}

/// Feeds `pieces` in order, collecting each outcome.
pub open spec fn feed_all(s: ReceiverView, pieces: Seq<Seq<u8>>) -> (ReceiverView, Seq<
    Result<Option<Seq<u8>>, HubError>,
>)
    decreases pieces.len(),
{
    if pieces.len() == 0 {
        (s, Seq::empty())
    } else {
        let prev = feed_all(s, pieces.drop_last());
        let next = feed_spec(prev.0, pieces.last());
        (next.0, prev.1.push(next.1))
    }
}

/// What the reassembler is fed for piece `i` of an encoded transfer: the
/// received packet's payload without its sub-command byte.
pub open spec fn received_piece(cmd_id: u8, sub_cmd: u8, data: Seq<u8>, i: int) -> Seq<u8> {
    payload_of(packet_bytes(cmd_id, chunk_payload(sub_cmd, data, i))).subrange(1, 251)
}

/// Every piece of an encoded transfer, in order.
pub open spec fn received_pieces(cmd_id: u8, sub_cmd: u8, data: Seq<u8>) -> Seq<Seq<u8>> {
    Seq::new(
        piece_count(data.len() + 4int) as nat,
        |i: int| received_piece(cmd_id, sub_cmd, data, i),
    )
}

/// A reassembler that has taken the first `k` of `n` pieces of a transfer of
/// `data`.
pub open spec fn partial_receiver(data: Seq<u8>, k: int, n: int) -> ReceiverView {
    ReceiverView {
        buffer: chunk_stream(data).subrange(0, 240 * k),
        total: n,
        received: k,
        active: true,
    }
}

proof fn lemma_received_piece(cmd_id: u8, sub_cmd: u8, data: Seq<u8>, i: int)
    requires
        chunkable(data),
        0 <= i < piece_count(data.len() + 4int),
    ensures
        ({
            let q = received_piece(cmd_id, sub_cmd, data, i);
            let len = data.len() + 4int;
            let plen = piece_len(len, i);
            &&& q.len() == 250
            &&& le16_at(q, 0) == piece_count(len)
            &&& le16_at(q, 4) == plen
            &&& 0 < plen <= 240
            &&& q.subrange(6, 6 + plen) == chunk_stream(data).subrange(240 * i, 240 * i + plen)
        }),
{
    let len = data.len() + 4int;
    let n = piece_count(len);
    lemma_piece_bounds(len);
    let plen = piece_len(len, i);
    assert(0 < plen <= 240) by (nonlinear_arith)
        requires
            plen == (if len - 240 * i < 240 {
                len - 240 * i
            } else {
                240
            }),
            0 <= i < n,
            240 * (n - 1) < len,
    ;
    let cp = chunk_payload(sub_cmd, data, i);
    assert(cp.len() == 7 + plen);
    lemma_packet_round_trip(cmd_id, cp);
    let q = received_piece(cmd_id, sub_cmd, data, i);
    let p = payload_of(packet_bytes(cmd_id, cp));
    assert(p.subrange(0, cp.len() as int) == cp);
    assert forall|k: int| 0 <= k < 6 + plen implies q[k] == cp[k + 1] by {
        assert(q[k] == p[k + 1]);
        assert(p[k + 1] == p.subrange(0, cp.len() as int)[k + 1]);
    }
    assert(n <= 65535) by (nonlinear_arith)
        requires
            240 * (n - 1) < len,
            len <= 240 * 65535,
    ;
    assert(q.subrange(0, 2) =~= le16_bytes(n as u16));
    lemma_le16_read_write(n as u16, q, 0);
    assert(q.subrange(4, 6) =~= le16_bytes(plen as u16));
    lemma_le16_read_write(plen as u16, q, 4);
    assert(q.subrange(6, 6 + plen) =~= chunk_stream(data).subrange(240 * i, 240 * i + plen));
}

proof fn lemma_middle_piece(st: ReceiverView, q: Seq<u8>, data: Seq<u8>, k: int, n: int)
    requires
        0 <= k,
        k + 1 < n,
        240 * (n - 1) < data.len() + 4,
        q.len() == 250,
        le16_at(q, 0) == n,
        le16_at(q, 4) == 240,
        q.subrange(6, 246) == chunk_stream(data).subrange(240 * k, 240 * k + 240),
        k == 0 ==> st == fresh_receiver(),
        k > 0 ==> st == partial_receiver(data, k, n),
    ensures
        feed_spec(st, q).0 == partial_receiver(data, k + 1, n),
        feed_spec(st, q).1 == Ok::<Option<Seq<u8>>, HubError>(None),
{
    let s = chunk_stream(data);
    assert(240 * k + 240 <= s.len()) by (nonlinear_arith)
        requires
            k + 1 < n,
            240 * (n - 1) < s.len(),
    ;
    let bytes = q.subrange(6, 6 + le16_at(q, 4));
    let buffer = if st.active {
        st.buffer + bytes
    } else {
        bytes
    };
    assert(buffer =~= s.subrange(0, 240 * (k + 1)));
}

proof fn lemma_feed_prefix(cmd_id: u8, sub_cmd: u8, data: Seq<u8>, k: int)
    requires
        chunkable(data),
        1 <= k < piece_count(data.len() + 4int),
    ensures
        ({
            let r = feed_all(
                fresh_receiver(),
                received_pieces(cmd_id, sub_cmd, data).subrange(0, k),
            );
            &&& r.0 == partial_receiver(data, k, piece_count(data.len() + 4int))
            &&& r.1.len() == k
            &&& forall|j: int| 0 <= j < k ==> r.1[j] == Ok::<Option<Seq<u8>>, HubError>(None)
        }),
    decreases k,
{
    let len = data.len() + 4int;
    let n = piece_count(len);
    lemma_piece_bounds(len);
    let ps = received_pieces(cmd_id, sub_cmd, data);
    let pre = ps.subrange(0, k);
    assert(pre.drop_last() =~= ps.subrange(0, k - 1));
    let q = pre.last();
    assert(q == received_piece(cmd_id, sub_cmd, data, k - 1));
    lemma_received_piece(cmd_id, sub_cmd, data, k - 1);
    assert(piece_len(len, k - 1) == 240) by (nonlinear_arith)
        requires
            240 * (n - 1) < len,
            k < n,
    ;
    let prev = feed_all(fresh_receiver(), ps.subrange(0, k - 1));
    if k == 1 {
        assert(ps.subrange(0, 0) =~= Seq::<Seq<u8>>::empty());
    } else {
        lemma_feed_prefix(cmd_id, sub_cmd, data, k - 1);
    }
    lemma_middle_piece(prev.0, q, data, k - 1, n);
    let r = feed_all(fresh_receiver(), pre);
    assert(r == (feed_spec(prev.0, q).0, prev.1.push(feed_spec(prev.0, q).1)));
    assert forall|j: int| 0 <= j < k implies r.1[j] == Ok::<Option<Seq<u8>>, HubError>(
        None,
    ) by {
        if j < k - 1 {
            assert(r.1[j] == prev.1[j]);
        }
    }
}

proof fn lemma_last_piece(st: ReceiverView, q: Seq<u8>, data: Seq<u8>, n: int)
    requires
        n >= 1,
        240 * (n - 1) < data.len() + 4 <= 240 * n,
        q.len() == 250,
        le16_at(q, 0) == n,
        le16_at(q, 4) == data.len() + 4 - 240 * (n - 1),
        q.subrange(6, 6 + le16_at(q, 4)) == chunk_stream(data).subrange(
            240 * (n - 1),
            data.len() + 4int,
        ),
        n == 1 ==> st == fresh_receiver(),
        n > 1 ==> st == partial_receiver(data, n - 1, n),
    ensures
        feed_spec(st, q).0 == fresh_receiver(),
        feed_spec(st, q).1 == Ok::<Option<Seq<u8>>, HubError>(Some(data)),
{
    let s = chunk_stream(data);
    let len = data.len() + 4int;
    let bytes = q.subrange(6, 6 + le16_at(q, 4));
    let buffer = if st.active {
        st.buffer + bytes
    } else {
        bytes
    };
    assert(buffer =~= s);
    assert(s.subrange(len - 4, len) =~= le32_bytes(crc32_of(data)));
    lemma_le32_read_write(crc32_of(data), s, len - 4);
    assert(s.subrange(0, len - 4) =~= data);
}

/// Feeding the pieces of an encoded transfer, in order, into a fresh
/// reassembler yields nothing until the last piece, which yields exactly the
/// data that was sent and leaves the reassembler fresh again.
pub proof fn lemma_chunk_round_trip(cmd_id: u8, sub_cmd: u8, data: Seq<u8>)
    requires
        chunkable(data),
    ensures
        ({
            let n = piece_count(data.len() + 4int);
            let r = feed_all(fresh_receiver(), received_pieces(cmd_id, sub_cmd, data));
            &&& n >= 1
            &&& r.0 == fresh_receiver()
            &&& r.1.len() == n
            &&& r.1[n - 1] == Ok::<Option<Seq<u8>>, HubError>(Some(data))
            &&& forall|j: int|
                0 <= j < n - 1 ==> r.1[j] == Ok::<Option<Seq<u8>>, HubError>(None)
        }),
{
    let len = data.len() + 4int;
    let n = piece_count(len);
    lemma_piece_bounds(len);
    let ps = received_pieces(cmd_id, sub_cmd, data);
    assert(ps.drop_last() =~= ps.subrange(0, n - 1));
    lemma_received_piece(cmd_id, sub_cmd, data, n - 1);
    let q = ps.last();
    assert(q == received_piece(cmd_id, sub_cmd, data, n - 1));
    let prev = feed_all(fresh_receiver(), ps.subrange(0, n - 1));
    if n == 1 {
        assert(ps.subrange(0, 0) =~= Seq::<Seq<u8>>::empty());
    } else {
        lemma_feed_prefix(cmd_id, sub_cmd, data, n - 1);
    }
    lemma_last_piece(prev.0, q, data, n);
    let r = feed_all(fresh_receiver(), ps);
    assert(r == (feed_spec(prev.0, q).0, prev.1.push(feed_spec(prev.0, q).1)));
    assert forall|j: int| 0 <= j < n - 1 implies r.1[j] == Ok::<Option<Seq<u8>>, HubError>(
        None,
    ) by {
        assert(r.1[j] == prev.1[j]);
    }
}

/// The reassembler hands out data only with a matching CRC32: whatever the
/// pieces and their order, what it yields is exactly what it collected since
/// it was last fresh, minus the last four bytes, and those four bytes are the
/// CRC32 of what it yields.
pub proof fn lemma_feed_yields_checked_data(s: ReceiverView, piece: Seq<u8>)
    requires
        feed_spec(s, piece).1 matches Ok(Some(_)),
    ensures
        ({
            let d = feed_spec(s, piece).1->Ok_0->Some_0;
            let bytes = piece.subrange(6, 6 + le16_at(piece, 4));
            let collected = if s.active {
                s.buffer + bytes
            } else {
                bytes
            };
            collected == d + le32_bytes(crc32_of(d))
        }),
{
    let bytes = piece.subrange(6, 6 + le16_at(piece, 4));
    let collected = if s.active {
        s.buffer + bytes
    } else {
        bytes
    };
    let n = collected.len() - 4;
    lemma_le32_write_read(collected, n);
    assert(collected =~= collected.subrange(0, n) + collected.subrange(n, n + 4));
}

/// Feeding fewer pieces of a transfer than it announces, in any order and
/// with repeats, yields nothing: every call returns `Ok(None)` and the
/// reassembler keeps waiting for the rest, so no data, right or wrong, comes
/// out of an incomplete transfer.
pub proof fn lemma_incomplete_feed(cmd_id: u8, sub_cmd: u8, data: Seq<u8>, order: Seq<int>)
    requires
        chunkable(data),
        order.len() < piece_count(data.len() + 4int),
        forall|j: int|
            0 <= j < order.len() ==> 0 <= #[trigger] order[j] < piece_count(data.len() + 4int),
    ensures
        ({
            let pieces = Seq::new(
                order.len(),
                |j: int| received_piece(cmd_id, sub_cmd, data, order[j]),
            );
            let r = feed_all(fresh_receiver(), pieces);
            &&& r.1.len() == order.len()
            &&& forall|j: int|
                0 <= j < order.len() ==> r.1[j] == Ok::<Option<Seq<u8>>, HubError>(None)
            &&& order.len() == 0 ==> r.0 == fresh_receiver()
            &&& order.len() > 0 ==> r.0.active && r.0.total == piece_count(data.len() + 4int)
                && r.0.received == order.len()
        }),
    decreases order.len(),
{
    let n = piece_count(data.len() + 4int);
    let k = order.len() as int;
    let pieces = Seq::new(order.len(), |j: int| received_piece(cmd_id, sub_cmd, data, order[j]));
    if k == 0 {
        assert(pieces =~= Seq::<Seq<u8>>::empty());
    } else {
        let shorter = order.drop_last();
        lemma_incomplete_feed(cmd_id, sub_cmd, data, shorter);
        let prev_pieces = Seq::new(
            shorter.len(),
            |j: int| received_piece(cmd_id, sub_cmd, data, shorter[j]),
        );
        assert(pieces.drop_last() =~= prev_pieces);
        let q = pieces.last();
        assert(q == received_piece(cmd_id, sub_cmd, data, order[k - 1]));
        lemma_received_piece(cmd_id, sub_cmd, data, order[k - 1]);
        let prev = feed_all(fresh_receiver(), prev_pieces);
        let r = feed_all(fresh_receiver(), pieces);
        assert(r == (feed_spec(prev.0, q).0, prev.1.push(feed_spec(prev.0, q).1)));
        assert forall|j: int| 0 <= j < k implies r.1[j] == Ok::<Option<Seq<u8>>, HubError>(
            None,
        ) by {
            if j < k - 1 {
                assert(r.1[j] == prev.1[j]);
            }
        }
    }
}

/// The view of a `feed` result.
pub open spec fn feed_result_view(r: Result<Option<Vec<u8>>, HubError>) -> Result<
    Option<Seq<u8>>,
    HubError,
> {
    match r {
        Ok(Some(v)) => Ok(Some(v@)),
        Ok(None) => Ok(None),
        Err(e) => Err(e),
    }
}

/// Reassembles a chunked transfer from its pieces, which must arrive in order.
pub struct ChunkedReceiver {
    buffer: Vec<u8>,
    total_chunks: usize,
    received: usize,
    initialized: bool,
}

impl View for ChunkedReceiver {
    type V = ReceiverView;

    closed spec fn view(&self) -> ReceiverView {
        ReceiverView {
            buffer: self.buffer@,
            total: self.total_chunks as int,
            received: self.received as int,
            active: self.initialized,
        }
    }
}

impl ChunkedReceiver {
    /// The reassembler's invariant: between transfers it holds nothing; within
    /// one, fewer pieces have arrived than were announced.
    pub closed spec fn wf(&self) -> bool {
        if self.initialized {
            self.received < self.total_chunks <= 65535
        } else {
            &&& self.buffer@.len() == 0
            &&& self.received == 0
            &&& self.total_chunks == 0
        }
    }

    /// An empty reassembler.
    pub fn new() -> (r: Self)
        ensures
            r.wf(),
            r@ == fresh_receiver(),
    {
        ChunkedReceiver { buffer: Vec::new(), total_chunks: 0, received: 0, initialized: false }
    }

    /// Takes the next piece (a chunk payload without its sub-command byte).
    /// Returns the verified data once all announced pieces have arrived,
    /// `None` before that.
    pub fn feed(&mut self, payload: &[u8]) -> (r: Result<Option<Vec<u8>>, HubError>)
        requires
            old(self).wf(),
        ensures
            final(self).wf(),
            final(self)@ == feed_spec(old(self)@, payload@).0,
            feed_result_view(r) == feed_spec(old(self)@, payload@).1,
    {
        if payload.len() < 6 {
            return Err(HubError::MalformedChunk);
        }
        let chunk_len = read_u16_le(payload, 4) as usize;
        if 6 + chunk_len > payload.len() {
            return Err(HubError::MalformedChunk);
        }
        let ghost bytes = payload@.subrange(6, 6 + chunk_len as int);
        if !self.initialized {
            self.total_chunks = read_u16_le(payload, 0) as usize;
            self.buffer = Vec::new();
            self.received = 0;
            self.initialized = true;
        }
        push_bytes(&mut self.buffer, &payload[6..6 + chunk_len]);
        self.received = self.received + 1;
        if self.received >= self.total_chunks {
            let mut data: Vec<u8> = Vec::new();
            core::mem::swap(&mut data, &mut self.buffer);
            self.total_chunks = 0;
            self.received = 0;
            self.initialized = false;
            if data.len() < 4 {
                return Err(HubError::ChunkTooShort);
            }
            let data_len = data.len() - 4;
            let expected_crc = crc32(&data[0..data_len]);
            let actual_crc = crate::bytes::read_u32_le(data.as_slice(), data_len);
            if expected_crc != actual_crc {
                return Err(HubError::ChunkCrcMismatch);
            }
            data.truncate(data_len);
            Ok(Some(data))
        } else {
            Ok(None)
        }
    }
}

} // verus!
