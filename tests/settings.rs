use hm_hub::commands::{
    build_config_read, build_factory_reset, build_flash_data_response, build_flash_readback,
    build_flash_start, build_handshake, max_frames, parse_handshake, parse_log, parse_power_stats,
    DeviceInfo,
};
use hm_hub::config::{ConfigField, DeviceConfig};
use hm_hub::consts::{CMD_FLASH, CMD_HANDSHAKE, CMD_LOG, CMD_POWER};
use hm_hub::error::HubError;
use hm_hub::packet::Packet;

fn sample_bytes() -> Vec<u8> {
    (1..=24).collect()
}

#[test]
fn config_bytes_round_trip() {
    let c = DeviceConfig::from_bytes(&sample_bytes()).unwrap();
    assert_eq!(c.screen_brightness, 5);
    assert_eq!(c.image_switch_mode, u16::from_le_bytes([21, 22]));
    assert_eq!(c.srgb_style, 24);
    assert_eq!(c.reserve1, 14);
    assert_eq!(c.to_bytes().to_vec(), sample_bytes());
    assert_eq!(DeviceConfig::from_bytes(&[0u8; 23]), Err(HubError::ConfigTooShort));
}

#[test]
fn config_brightness_setter() {
    let mut c = DeviceConfig::from_bytes(&[0u8; 24]).unwrap();
    assert_eq!(c.set_field("brightness", "30"), Ok(()));
    assert_eq!(c.screen_brightness, 30);
    assert_eq!(c.set_field("screen_brightness", "31"), Err(HubError::ValueOutOfRange));
    assert_eq!(c.set_field("brightness", "300"), Err(HubError::InvalidValue));
    assert_eq!(c.set_field("brightness", "abc"), Err(HubError::InvalidValue));
    assert_eq!(c.set_field("brightness", ""), Err(HubError::InvalidValue));
    assert_eq!(c.screen_brightness, 30);
    assert_eq!(c.set_field("brightness", "+7"), Ok(()));
    assert_eq!(c.screen_brightness, 7);
}

#[test]
fn config_rotation_setter() {
    let mut c = DeviceConfig::from_bytes(&[0u8; 24]).unwrap();
    for (deg, code) in [("0", 0u8), ("90", 2), ("180", 1), ("270", 3)] {
        assert_eq!(c.set_field("rotation", deg), Ok(()));
        assert_eq!(c.screen_dir, code);
        assert_eq!(c.rotation_degrees(), Some(deg.parse::<u16>().unwrap()));
    }
    assert_eq!(c.set_field("screen_dir", "45"), Err(HubError::InvalidValue));
    assert_eq!(c.set_field("rotation", "360"), Err(HubError::InvalidValue));
    assert_eq!(c.screen_dir, 3);
}

#[test]
fn config_other_setters() {
    let mut c = DeviceConfig::from_bytes(&[0u8; 24]).unwrap();
    assert_eq!(c.set_field("switch_mode", "65535"), Ok(()));
    assert_eq!(c.image_switch_mode, 65535);
    assert_eq!(c.set_field("image_switch_mode", "65536"), Err(HubError::InvalidValue));
    assert_eq!(c.set_field("interval", "255"), Ok(()));
    assert_eq!(c.image_switch_interval, 255);
    assert_eq!(c.set_field("page", "256"), Err(HubError::InvalidValue));
    assert_eq!(c.set_field("crop", "1"), Ok(()));
    assert_eq!(c.album_cut_black, 1);
    assert_eq!(c.set_field("shake_sens", "9"), Ok(()));
    assert_eq!(c.fun_shake_sens, 9);
    assert_eq!(c.set_field("srgb_style", "2"), Ok(()));
    assert_eq!(c.srgb_style, 2);
    assert_eq!(c.set_field("power_style", "4"), Ok(()));
    assert_eq!(c.power_style, 4);
    assert_eq!(c.set_field("random", "1"), Ok(()));
    assert_eq!(c.image_switch_random, 1);
    assert_eq!(c.set_field("screen_onoff_by_usb", "1"), Ok(()));
    assert_eq!(c.screen_onoff_by_usb, 1);
    let before = c;
    assert_eq!(c.set_field("volume", "3"), Err(HubError::UnknownField));
    assert_eq!(c, before);
    assert_eq!(ConfigField::from_name("memory_page"), Some(ConfigField::MemoryPage));
    assert_eq!(ConfigField::from_name("Brightness"), None);
}

fn device_packet(cmd: u8, payload: &[u8]) -> Packet {
    Packet::from_bytes(Packet::new(cmd, payload).unwrap().buf).unwrap()
}

#[test]
fn command_builders() {
    let h = build_handshake().unwrap();
    assert_eq!(h.cmd_id(), CMD_HANDSHAKE);
    assert!(h.payload().iter().all(|&b| b == 0));
    let c = build_config_read().unwrap();
    assert_eq!(c.cmd_id(), 3);
    assert_eq!(c.payload()[0], 1);
    let s = build_flash_start(0x0102_0304).unwrap();
    assert_eq!(s.cmd_id(), CMD_FLASH);
    assert_eq!(&s.payload()[..5], &[1, 4, 3, 2, 1]);
    let r = build_flash_readback().unwrap();
    assert_eq!(&r.payload()[..2], &[3, 0]);
    let f = build_factory_reset().unwrap();
    assert_eq!(f.cmd_id(), 6);
    let d = build_flash_data_response(0x10, 300, &[9u8; 300]).unwrap();
    assert_eq!(&d.payload()[..7], &[2, 0x10, 0, 0, 0, 0x2C, 0x01]);
    assert!(d.payload()[7..251].iter().all(|&b| b == 9));
}

#[test]
fn command_parsers() {
    let mut p = vec![0u8; 12];
    p[0..4].copy_from_slice(&0x1234u32.to_le_bytes());
    p[4..8].copy_from_slice(&0x0001_0203u32.to_le_bytes());
    p[8..12].copy_from_slice(&(16u32 << 20).to_le_bytes());
    let info = parse_handshake(&device_packet(CMD_HANDSHAKE, &p)).unwrap();
    assert_eq!(info, DeviceInfo { hw_id: 0x1234, fw_ver: 0x0001_0203, flash_size: 16 << 20 });
    assert_eq!(info.fw_version_string(), "1.2.3");
    assert_eq!(info.max_frames(), (16usize * 1024 * 1024 - 8192) / 108800);
    assert_eq!(parse_handshake(&device_packet(CMD_POWER, &p)), Err(HubError::UnexpectedCommand));
    let stats = parse_power_stats(&device_packet(CMD_POWER, &[0x88, 0x13, 100, 0, 200, 0, 44, 1])).unwrap();
    assert_eq!(stats.bus_voltage, 5000);
    assert_eq!(stats.current_port3, 300);
    assert!(parse_power_stats(&device_packet(CMD_LOG, &[])).is_err());
    let mut log = vec![5u8];
    log.extend_from_slice(b"hello world");
    assert_eq!(parse_log(&device_packet(CMD_LOG, &log)), Ok("hello".to_string()));
    assert_eq!(parse_log(&device_packet(CMD_LOG, &[2, 0xFF, b'a'])), Ok("\u{FFFD}a".to_string()));
    assert_eq!(parse_log(&device_packet(CMD_LOG, &[255, b'x'])).unwrap().len(), 1 + 249 * 1);
    assert_eq!(parse_log(&device_packet(CMD_POWER, &[1, 1])), Err(HubError::UnexpectedCommand));
}

#[test]
fn max_frames_formula() {
    assert_eq!(max_frames(0), 0);
    assert_eq!(max_frames(8192), 0);
    assert_eq!(max_frames(8192 + 108800 - 1), 0);
    assert_eq!(max_frames(8192 + 2 * 108800), 2);
    assert_eq!(max_frames(u32::MAX), 39475);
}
