use hm_hub::chunked::encode_chunked;
use hm_hub::commands::PowerStats;
use hm_hub::config::DeviceConfig;
use hm_hub::consts::{CMD_CONFIG, CMD_FLASH, CMD_HANDSHAKE, CMD_LOG, CMD_POWER, ERASE_TIMEOUT_MS, NORMAL_TIMEOUT_MS};
use hm_hub::error::HubError;
use hm_hub::packet::Packet;
use hm_hub::session::{
    power_step, readback_step, voltage_rating, ConfigReadStep, ConfigReader, FlashUpload,
    PowerStep, ReadbackStep, UploadPhase, UploadStep, VoltageRating,
};

fn device_packet(cmd: u8, payload: &[u8]) -> Packet {
    Packet::from_bytes(Packet::new(cmd, payload).unwrap().buf).unwrap()
}

fn flash_request(offset: u32, length: u16) -> Packet {
    let mut p = vec![2u8];
    p.extend_from_slice(&offset.to_le_bytes());
    p.extend_from_slice(&length.to_le_bytes());
    device_packet(CMD_FLASH, &p)
}

#[test]
fn flash_upload_scenario() {
    let data: Vec<u8> = (0..10000).map(|i| (i % 253) as u8).collect();
    let mut up = FlashUpload::new();
    assert_eq!(up.timeout_ms(), ERASE_TIMEOUT_MS);
    assert!(matches!(up.on_packet(&device_packet(CMD_FLASH, &[1, 2]), &data), UploadStep::Erasing));
    assert!(matches!(up.on_packet(&device_packet(CMD_LOG, &[2, b'o', b'k']), &data), UploadStep::Log(ref t) if t == "ok"));
    assert!(matches!(up.on_packet(&device_packet(CMD_FLASH, &[1, 4]), &data), UploadStep::EraseComplete));
    assert_eq!(up.phase, UploadPhase::Transfer);
    assert_eq!(up.timeout_ms(), NORMAL_TIMEOUT_MS);

    match up.on_packet(&flash_request(0, 240), &data) {
        UploadStep::Send { packet, progress } => {
            assert_eq!(progress, 240);
            assert_eq!(packet.cmd_id(), CMD_FLASH);
            assert_eq!(&packet.payload()[..7], &[2, 0, 0, 0, 0, 240, 0]);
            assert_eq!(&packet.payload()[7..247], &data[0..240]);
            assert!(packet.payload()[247..].iter().all(|&b| b == 0));
        }
        _ => panic!("expected a data response"),
    }
    match up.on_packet(&flash_request(9900, 240), &data) {
        UploadStep::Send { packet, progress } => {
            assert_eq!(progress, 10000);
            assert_eq!(&packet.payload()[1..5], &9900u32.to_le_bytes());
            assert_eq!(&packet.payload()[5..7], &240u16.to_le_bytes());
            assert_eq!(&packet.payload()[7..107], &data[9900..10000]);
            assert!(packet.payload()[107..].iter().all(|&b| b == 0));
        }
        _ => panic!("expected a data response"),
    }
    assert!(matches!(up.on_packet(&device_packet(CMD_FLASH, &[4]), &data), UploadStep::Complete));
    assert_eq!(up.phase, UploadPhase::Finished);
}

#[test]
fn flash_upload_request_past_end_sends_nothing() {
    let data = vec![1u8; 100];
    let mut up = FlashUpload { phase: UploadPhase::Transfer };
    match up.on_packet(&flash_request(500, 10), &data) {
        UploadStep::Send { packet, progress } => {
            assert_eq!(progress, 100);
            assert!(packet.payload()[7..].iter().all(|&b| b == 0));
        }
        _ => panic!("expected a data response"),
    }
    assert!(matches!(up.on_packet(&device_packet(CMD_POWER, &[]), &data), UploadStep::Waiting));
}

fn config_bytes() -> Vec<u8> {
    (10..34).collect()
}

#[test]
fn config_read_sequence() {
    let packets = encode_chunked(CMD_CONFIG, 2, &config_bytes()).unwrap();
    assert_eq!(packets.len(), 1);
    let mut reader = ConfigReader::new();
    assert!(matches!(reader.on_packet(&device_packet(CMD_CONFIG, &[1])), Ok(ConfigReadStep::Waiting)));
    assert!(matches!(reader.on_packet(&device_packet(CMD_POWER, &[1, 2])), Ok(ConfigReadStep::Waiting)));
    assert!(matches!(reader.on_packet(&device_packet(CMD_LOG, &[1, b'z'])), Ok(ConfigReadStep::Log(ref t)) if t == "z"));
    let rx = Packet::from_bytes(packets[0].buf).unwrap();
    match reader.on_packet(&rx) {
        Ok(ConfigReadStep::Done(c)) => assert_eq!(c, DeviceConfig::from_bytes(&config_bytes()).unwrap()),
        _ => panic!("expected the record"),
    }
}

#[test]
fn config_read_stray_budget() {
    let mut reader = ConfigReader::new();
    for _ in 0..10 {
        assert!(matches!(reader.on_packet(&device_packet(CMD_HANDSHAKE, &[])), Ok(ConfigReadStep::Waiting)));
    }
    assert!(matches!(reader.on_packet(&device_packet(CMD_CONFIG, &[7])), Err(HubError::TooManyStrayPackets)));
}

#[test]
fn config_read_corrupt_record() {
    let packets = encode_chunked(CMD_CONFIG, 2, &config_bytes()).unwrap();
    let mut payload = packets[0].payload().to_vec();
    payload[9] ^= 1;
    let mut reader = ConfigReader::new();
    assert!(matches!(reader.on_packet(&device_packet(CMD_CONFIG, &payload)), Err(HubError::ChunkCrcMismatch)));
    let short = encode_chunked(CMD_CONFIG, 2, &[1, 2, 3]).unwrap();
    let mut reader = ConfigReader::new();
    assert!(matches!(reader.on_packet(&short[0]), Err(HubError::ConfigTooShort)));
}

fn readback_packet(offset: u32, data: &[u8]) -> Packet {
    let mut p = vec![3u8];
    p.extend_from_slice(&offset.to_le_bytes());
    p.extend_from_slice(&(data.len() as u16).to_le_bytes());
    p.extend_from_slice(data);
    device_packet(CMD_FLASH, &p)
}

#[test]
fn readback_stores_and_drops() {
    let mut buf = vec![0u8; 16];
    assert!(matches!(readback_step(&mut buf, &readback_packet(4, &[1, 2, 3])), ReadbackStep::Stored { progress: 7 }));
    assert_eq!(&buf[..8], &[0, 0, 0, 0, 1, 2, 3, 0]);
    assert!(matches!(readback_step(&mut buf, &readback_packet(14, &[9, 9, 9])), ReadbackStep::Stored { progress: 17 }));
    assert_eq!(&buf[12..], &[0, 0, 0, 0]);
    assert!(matches!(readback_step(&mut buf, &device_packet(CMD_FLASH, &[4])), ReadbackStep::Complete));
    assert!(matches!(readback_step(&mut buf, &device_packet(CMD_POWER, &[4])), ReadbackStep::Waiting));
    assert!(matches!(readback_step(&mut buf, &device_packet(CMD_LOG, &[1, b'q'])), ReadbackStep::Log(ref t) if t == "q"));
}

#[test]
fn power_steps_and_rating() {
    match power_step(&device_packet(CMD_POWER, &[0x8E, 0x12, 1, 0, 2, 0, 3, 0])) {
        PowerStep::Stats(s) => assert_eq!(
            s,
            PowerStats { bus_voltage: 4750, current_port1: 1, current_port2: 2, current_port3: 3 }
        ),
        _ => panic!("expected stats"),
    }
    assert!(matches!(power_step(&device_packet(CMD_LOG, &[0])), PowerStep::Log(ref t) if t.is_empty()));
    assert!(matches!(power_step(&device_packet(CMD_CONFIG, &[0])), PowerStep::Ignored));
    assert_eq!(voltage_rating(4750), VoltageRating::Healthy);
    assert_eq!(voltage_rating(4749), VoltageRating::Warning);
    assert_eq!(voltage_rating(4250), VoltageRating::Warning);
    assert_eq!(voltage_rating(4249), VoltageRating::Critical);
}
