use hm_hub::backup::{deserialize_backup, serialize_backup};
use hm_hub::consts::FRAME_PIXEL_SIZE;
use hm_hub::error::HubError;
use hm_hub::flash::{build_flash_buffer, parse_flash_buffer, Album};
use hm_hub::frame_header::FrameHeader;

fn sample_header() -> FrameHeader {
    FrameHeader {
        width: 320,
        height: 170,
        frame_count: 3,
        delay_ms: 120,
        data_offset: 8192,
        data_length: 326400,
        data_crc32: 0xDEAD_BEEF,
    }
}

#[test]
fn frame_header_round_trip() {
    let h = sample_header();
    let mut buf = vec![0xAAu8; 40];
    h.write_to(&mut buf);
    assert_eq!(&buf[0..4], &0xC019_0001u32.to_le_bytes());
    assert_eq!(&buf[28..], &[0xAA; 12]);
    assert_eq!(FrameHeader::read_from(&buf), Ok(Some(h)));
}

#[test]
fn frame_header_corruption_fails() {
    let h = sample_header();
    let mut buf = vec![0u8; 28];
    h.write_to(&mut buf);
    for i in 4..24 {
        let mut bad = buf.clone();
        bad[i] ^= 0x01;
        assert_eq!(FrameHeader::read_from(&bad), Err(HubError::HeaderCrcMismatch));
    }
    let mut bad = buf.clone();
    bad[26] ^= 0x80;
    assert_eq!(FrameHeader::read_from(&bad), Err(HubError::HeaderCrcMismatch));
}

#[test]
fn frame_header_empty_and_short_slots() {
    assert_eq!(FrameHeader::read_from(&[0u8; 28]), Ok(None));
    assert_eq!(FrameHeader::read_from(&[0u8; 27]), Err(HubError::HeaderTooShort));
}

fn frame(seed: u8) -> Vec<u8> {
    (0..FRAME_PIXEL_SIZE).map(|i| (i as u8).wrapping_mul(31).wrapping_add(seed)).collect()
}

const THREE_FRAMES: u32 = 8192 + 3 * 108800;

#[test]
fn flash_layout_round_trip() {
    let albums = vec![
        Album { frames: vec![frame(1)], delay_ms: 0 },
        Album { frames: vec![frame(2), frame(3)], delay_ms: 100 },
    ];
    let image = build_flash_buffer(&albums, THREE_FRAMES).unwrap();
    assert_eq!(image.len(), 8192 + 3 * FRAME_PIXEL_SIZE);
    assert!(image[56..8192].iter().all(|&b| b == 0));
    let parsed = parse_flash_buffer(&image).unwrap();
    assert_eq!(parsed.len(), 2);
    assert_eq!(parsed[0].header.frame_count, 1);
    assert_eq!(parsed[0].header.data_offset, 8192);
    assert_eq!(parsed[0].frames, vec![frame(1)]);
    assert_eq!(parsed[1].header.frame_count, 2);
    assert_eq!(parsed[1].header.delay_ms, 100);
    assert_eq!(parsed[1].header.data_offset as usize, 8192 + FRAME_PIXEL_SIZE);
    assert_eq!(parsed[1].header.data_length as usize, 2 * FRAME_PIXEL_SIZE);
    assert_eq!(parsed[1].frames, vec![frame(2), frame(3)]);
    let mut all = frame(2);
    all.extend_from_slice(&frame(3));
    assert_eq!(parsed[1].header.data_crc32, crc32fast::hash(&all));
}

#[test]
fn flash_layout_capacity_exceeded() {
    let albums = vec![
        Album { frames: vec![frame(1), frame(2)], delay_ms: 0 },
        Album { frames: vec![frame(3), frame(4)], delay_ms: 0 },
    ];
    assert_eq!(build_flash_buffer(&albums, THREE_FRAMES), Err(HubError::CapacityExceeded));
    assert_eq!(build_flash_buffer(&albums[..1], 8191), Err(HubError::CapacityExceeded));
}

#[test]
fn flash_layout_too_many_albums() {
    let albums: Vec<Album> = (0..293).map(|_| Album { frames: vec![], delay_ms: 0 }).collect();
    assert_eq!(build_flash_buffer(&albums, u32::MAX), Err(HubError::TooManyAlbums));
    let image = build_flash_buffer(&albums[..292], u32::MAX).unwrap();
    assert_eq!(image.len(), 8192);
    let parsed = parse_flash_buffer(&image).unwrap();
    assert_eq!(parsed.len(), 292);
    assert!(parsed.iter().all(|a| a.frames.is_empty()));
}

#[test]
fn flash_layout_frame_size_mismatch() {
    let albums = vec![Album { frames: vec![vec![0u8; 10]], delay_ms: 0 }];
    assert_eq!(build_flash_buffer(&albums, THREE_FRAMES), Err(HubError::FrameSizeMismatch));
}

#[test]
fn flash_parse_empty_and_damaged() {
    assert_eq!(parse_flash_buffer(&vec![0u8; 8192]).map(|v| v.len()), Ok(0));
    let albums = vec![Album { frames: vec![frame(9)], delay_ms: 0 }];
    let mut image = build_flash_buffer(&albums, THREE_FRAMES).unwrap();
    image[5] ^= 1;
    assert_eq!(parse_flash_buffer(&image).map(|v| v.len()), Err(HubError::HeaderCrcMismatch));
    assert_eq!(parse_flash_buffer(&[0u8; 10]).map(|v| v.len()), Err(HubError::HeaderTooShort));
}

#[test]
fn backup_round_trip() {
    let config: Vec<u8> = (0..24).collect();
    let flash: Vec<u8> = (0..1000).map(|i| (i % 251) as u8).collect();
    let b = serialize_backup(&config, &flash);
    assert_eq!(&b[..6], b"HMHUB\x01");
    assert_eq!(&b[6..10], &24u32.to_le_bytes());
    assert_eq!(b.len(), 18 + 24 + 1000);
    let crc = crc32fast::hash(&b[..b.len() - 4]);
    assert_eq!(&b[b.len() - 4..], &crc.to_le_bytes());
    assert_eq!(deserialize_backup(&b), Ok((config.clone(), flash.clone())));
    let empty = serialize_backup(&[], &[]);
    assert_eq!(empty.len(), 18);
    assert_eq!(deserialize_backup(&empty), Ok((vec![], vec![])));
}

#[test]
fn backup_corruption_fails() {
    let config: Vec<u8> = (0..24).collect();
    let b = serialize_backup(&config, &[7u8; 300]);
    let mut bad = b.clone();
    let last = bad.len() - 1;
    bad[last] ^= 0xFF;
    assert_eq!(deserialize_backup(&bad), Err(HubError::BackupCrcMismatch));
    let mut bad = b.clone();
    bad[0] = b'X';
    assert_eq!(deserialize_backup(&bad), Err(HubError::BackupBadMagic));
    let mut bad = b.clone();
    bad[5] = 2;
    assert_eq!(deserialize_backup(&bad), Err(HubError::BackupUnsupportedVersion));
    for n in 0..18 {
        assert_eq!(deserialize_backup(&b[..n]), Err(HubError::BackupTooShort));
    }
    for n in 18..b.len() {
        assert!(deserialize_backup(&b[..n]).is_err());
    }
}

#[test]
fn backup_section_overrun_is_truncated() {
    let mut b = b"HMHUB\x01".to_vec();
    b.extend_from_slice(&1000u32.to_le_bytes());
    b.extend_from_slice(&[0u8; 8]);
    let crc = crc32fast::hash(&b);
    b.extend_from_slice(&crc.to_le_bytes());
    assert_eq!(deserialize_backup(&b), Err(HubError::BackupTruncated));
}
