use vstd::prelude::*;

verus! {

/// Size of one wire packet.
pub const PACKET_SIZE: usize = 256;

/// Payload bytes carried by one packet.
pub const PAYLOAD_SIZE: usize = 251;

/// Position of the little-endian CRC32 inside a packet.
pub const CRC_OFFSET: usize = 252;

/// Data bytes carried by one piece of a chunked transfer.
pub const CHUNK_DATA_SIZE: usize = 240;

pub const CMD_HANDSHAKE: u8 = 1;
pub const CMD_CONFIG: u8 = 3;
pub const CMD_FACTORY_RESET: u8 = 6;
pub const CMD_FLASH: u8 = 8;
pub const CMD_POWER: u8 = 9;
pub const CMD_LOG: u8 = 10;

/// Size of the header table at the start of the flash image.
pub const FLASH_HEADER_AREA: usize = 8192;

/// Size of one frame header record.
pub const FRAME_HEADER_SIZE: usize = 28;

/// Number of frame header records the table can hold.
pub const MAX_FRAME_HEADERS: usize = 292;

/// Sentinel stored in the first four bytes of every used header slot.
pub const FRAME_MAGIC: u32 = 0xC019_0001;

pub const DISPLAY_WIDTH: u32 = 320;
pub const DISPLAY_HEIGHT: u32 = 170;

/// Bytes of one RGB565 frame at the display resolution.
pub const FRAME_PIXEL_SIZE: usize = 108800;

pub const SERIAL_BAUD_RATE: u32 = 115200;

/// Read timeout for ordinary exchanges, in milliseconds.
pub const NORMAL_TIMEOUT_MS: u64 = 2000;

/// Read timeout while the device erases its flash, in milliseconds.
pub const ERASE_TIMEOUT_MS: u64 = 60000;

/// Stray packets tolerated by one operation before it fails.
pub const STRAY_PACKET_LIMIT: u32 = 10;

} // verus!
