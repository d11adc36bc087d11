use hm_hub::chunked::{encode_chunked, ChunkedReceiver};
use hm_hub::consts::{CMD_CONFIG, PACKET_SIZE};
use hm_hub::error::{ErrorKind, HubError};
use hm_hub::packet::Packet;

fn crc32_ieee(data: &[u8]) -> u32 {
    let mut crc: u32 = 0xFFFF_FFFF;
    for &b in data {
        crc ^= b as u32;
        for _ in 0..8 {
            let mask = (crc & 1).wrapping_neg();
            crc = (crc >> 1) ^ (0xEDB8_8320 & mask);
        }
    }
    !crc
}

fn pattern(len: usize) -> Vec<u8> {
    (0..len).map(|i| (i * 7 + 3) as u8).collect()
}

#[test]
fn packet_layout_matches_wire_format() {
    let p = Packet::new(9, &[1, 2, 3]).unwrap();
    assert_eq!(p.buf[0], 9);
    assert_eq!(&p.buf[1..4], &[1, 2, 3]);
    assert!(p.buf[4..252].iter().all(|&b| b == 0));
    let crc = crc32_ieee(&p.buf[..252]);
    assert_eq!(&p.buf[252..], &crc.to_le_bytes());
}

#[test]
fn packet_round_trip() {
    for id in [0u8, 1, 3, 8, 10, 255] {
        for len in [0usize, 1, 100, 250, 251] {
            let payload = pattern(len);
            let p = Packet::new(id, &payload).unwrap();
            let back = Packet::from_bytes(p.buf).unwrap();
            assert_eq!(back.cmd_id(), id);
            assert_eq!(&back.payload()[..len], &payload[..]);
            assert!(back.payload()[len..].iter().all(|&b| b == 0));
            assert_eq!(back.payload().len(), 251);
        }
    }
}

#[test]
fn packet_payload_too_large() {
    let r = Packet::new(1, &pattern(252));
    assert!(matches!(r, Err(HubError::PayloadTooLarge)));
}

#[test]
fn packet_single_bit_flip_is_detected() {
    let p = Packet::new(3, &pattern(200)).unwrap();
    for byte in 0..PACKET_SIZE {
        for bit in 0..8 {
            let mut buf = p.buf;
            buf[byte] ^= 1 << bit;
            let r = Packet::from_bytes(buf);
            assert!(matches!(r, Err(HubError::PacketCrcMismatch)));
        }
    }
}

#[test]
fn packet_crc_error_is_integrity() {
    assert_eq!(HubError::PacketCrcMismatch.kind(), ErrorKind::Integrity);
    assert_eq!(HubError::TooManyStrayPackets.kind(), ErrorKind::Protocol);
    assert_eq!(HubError::BackupTooShort.kind(), ErrorKind::Format);
    assert_eq!(HubError::BackupBadMagic.kind(), ErrorKind::Protocol);
    assert_eq!(HubError::BackupUnsupportedVersion.kind(), ErrorKind::Protocol);
}

fn reassemble(packets: &[Packet]) -> Vec<Result<Option<Vec<u8>>, HubError>> {
    let mut rx = ChunkedReceiver::new();
    packets.iter().map(|p| rx.feed(&p.payload()[1..])).collect()
}

#[test]
fn chunk_round_trip_many_lengths() {
    for len in [0usize, 1, 4, 235, 236, 237, 240, 241, 476, 480, 500, 719, 720, 1000, 2400] {
        let data = pattern(len);
        let packets = encode_chunked(CMD_CONFIG, 2, &data).unwrap();
        assert_eq!(packets.len(), (len + 4 + 239) / 240);
        let outs = reassemble(&packets);
        for o in &outs[..outs.len() - 1] {
            assert!(matches!(o, Ok(None)));
        }
        match &outs[outs.len() - 1] {
            Ok(Some(d)) => assert_eq!(d, &data),
            _ => panic!("transfer of {len} bytes did not complete"),
        }
    }
}

#[test]
fn chunking_500_bytes() {
    let data = pattern(500);
    let packets = encode_chunked(CMD_CONFIG, 2, &data).unwrap();
    assert_eq!(packets.len(), 3);
    let lens: Vec<u16> = packets
        .iter()
        .map(|p| u16::from_le_bytes([p.payload()[5], p.payload()[6]]))
        .collect();
    assert_eq!(lens, vec![240, 240, 24]);
    for (i, p) in packets.iter().enumerate() {
        assert_eq!(p.cmd_id(), CMD_CONFIG);
        assert_eq!(p.payload()[0], 2);
        assert_eq!(u16::from_le_bytes([p.payload()[1], p.payload()[2]]), 3);
        assert_eq!(u16::from_le_bytes([p.payload()[3], p.payload()[4]]) as usize, i);
    }
    let crc = crc32_ieee(&data).to_le_bytes();
    assert_eq!(&packets[2].payload()[7..27], &data[480..500]);
    assert_eq!(&packets[2].payload()[27..31], &crc);
    let outs = reassemble(&packets);
    assert!(matches!(outs[0], Ok(None)));
    assert!(matches!(outs[1], Ok(None)));
    match &outs[2] {
        Ok(Some(d)) => assert_eq!(d, &data),
        _ => panic!("reassembly failed"),
    }
}

#[test]
fn chunk_out_of_order_never_returns_wrong_data() {
    let data = pattern(700);
    let packets = encode_chunked(CMD_CONFIG, 2, &data).unwrap();
    assert_eq!(packets.len(), 3);
    let orders = [[1usize, 0, 2], [0, 2, 1], [2, 1, 0], [1, 2, 0], [2, 0, 1]];
    for order in orders {
        let shuffled: Vec<Packet> = order.iter().map(|&i| Packet::from_bytes(packets[i].buf).unwrap()).collect();
        for o in reassemble(&shuffled) {
            if let Ok(Some(d)) = o {
                assert_eq!(d, data);
            }
        }
    }
}

#[test]
fn chunk_missing_piece_never_returns_wrong_data() {
    let data = pattern(700);
    let packets = encode_chunked(CMD_CONFIG, 2, &data).unwrap();
    for skip in 0..packets.len() {
        let kept: Vec<Packet> = packets
            .iter()
            .enumerate()
            .filter(|(i, _)| *i != skip)
            .map(|(_, p)| Packet::from_bytes(p.buf).unwrap())
            .collect();
        for o in reassemble(&kept) {
            assert!(!matches!(o, Ok(Some(_))));
        }
    }
}

#[test]
fn chunk_crc_mismatch_and_fresh_start() {
    let data = pattern(100);
    let packets = encode_chunked(CMD_CONFIG, 2, &data).unwrap();
    let mut piece = packets[0].payload()[1..].to_vec();
    piece[10] ^= 0x40;
    let mut rx = ChunkedReceiver::new();
    assert_eq!(rx.feed(&piece), Err(HubError::ChunkCrcMismatch));
    assert_eq!(rx.feed(&packets[0].payload()[1..]), Ok(Some(data.clone())));
    assert_eq!(rx.feed(&packets[0].payload()[1..]), Ok(Some(data)));
}

#[test]
fn chunk_malformed_and_short() {
    let mut rx = ChunkedReceiver::new();
    assert_eq!(rx.feed(&[1, 0, 0]), Err(HubError::MalformedChunk));
    assert_eq!(rx.feed(&[1, 0, 0, 0, 10, 0, 1, 2]), Err(HubError::MalformedChunk));
    assert_eq!(rx.feed(&[1, 0, 0, 0, 2, 0, 1, 2]), Err(HubError::ChunkTooShort));
}

#[test]
fn chunk_count_overflow() {
    let data = vec![0u8; 240 * 65535 - 3];
    assert!(matches!(encode_chunked(CMD_CONFIG, 2, &data), Err(HubError::ChunkCountOverflow)));
}
