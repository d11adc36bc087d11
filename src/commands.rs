//! Builders and parsers for each command's payload. None of them does I/O.

use vstd::prelude::*;
use vstd::string::StringExecFns;
use crate::bytes::{le16_at, le16_bytes, le32_at, le32_bytes, push_bytes, push_u16_le, push_u32_le, read_u16_le, read_u32_le};
use crate::consts::{
    CMD_CONFIG, CMD_FACTORY_RESET, CMD_FLASH, CMD_HANDSHAKE, CMD_LOG, CMD_POWER,
    FLASH_HEADER_AREA, FRAME_PIXEL_SIZE, PAYLOAD_SIZE,
};
use crate::error::HubError;
use crate::packet::{packet_bytes, payload_of, Packet};

verus! {

/// Flash sub-command: start programming (request) and erase progress (reply).
pub const FLASH_SUB_START: u8 = 1;
/// Flash sub-command: the device asks for a byte range, the host answers it.
pub const FLASH_SUB_DATA: u8 = 2;
/// Flash sub-command: read the flash back (request) and one range of it (reply).
pub const FLASH_SUB_READBACK: u8 = 3;
/// Flash sub-command: the device has finished.
pub const FLASH_SUB_DONE: u8 = 4;

/// Data bytes one flash data response can carry.
pub const FLASH_DATA_MAX: usize = 244;

/// The device's identity, as the handshake reports it.
#[derive(Debug, Clone, Copy, PartialEq, Eq, Structural)]
pub struct DeviceInfo {
    pub hw_id: u32,
    pub fw_ver: u32,
    pub flash_size: u32,
}

/// One power reading: bus voltage and the current of each of three ports.
#[derive(Debug, Clone, Copy, PartialEq, Eq, Structural)]
pub struct PowerStats {
    pub bus_voltage: u16,
    pub current_port1: u16,
    pub current_port2: u16,
    pub current_port3: u16,
}

/// Frames that fit in a flash of `flash_size` bytes after the header table.
pub open spec fn spec_max_frames(flash_size: u32) -> int {
    if flash_size >= 8192 {
        (flash_size - 8192) / 108800
    } else {
        0
    }
}

/// Frames that fit in a flash of `flash_size` bytes after the header table.
pub fn max_frames(flash_size: u32) -> (r: usize)
    ensures
        r == spec_max_frames(flash_size),
{
    (flash_size as usize).saturating_sub(FLASH_HEADER_AREA) / FRAME_PIXEL_SIZE
}

/// The decimal digits of `n`.
pub open spec fn decimal_text(n: nat) -> Seq<char>
    decreases n,
{
    if n < 10 {
        seq![((48 + n) as u8) as char]
    } else {
        decimal_text(n / 10) + seq![((48 + n % 10) as u8) as char]
    }
}

/// `major.minor.patch`, each in decimal.
pub open spec fn version_text(major: u32, minor: u32, patch: u32) -> Seq<char> {
    decimal_text(major as nat) + seq!['.'] + decimal_text(minor as nat) + seq!['.']
        + decimal_text(patch as nat)
}

/// Relies on `ToString` for `u32`, whose `Display` writes the number in
/// decimal without sign or padding.
#[verifier::external_body]
fn decimal_string(n: u32) -> (r: String)
    ensures
        r@ == decimal_text(n as nat),
{
    n.to_string()
}

impl DeviceInfo {
    /// Frames that fit in this device's flash.
    pub fn max_frames(&self) -> (r: usize)
        ensures
            r == spec_max_frames(self.flash_size),
    {
        max_frames(self.flash_size)
    }

    /// The firmware version as `major.minor.patch`, taken from bits 16 to 23,
    /// 8 to 15 and 0 to 7.
    pub fn fw_version_string(&self) -> (r: String)
        ensures
            r@ == version_text(
                (self.fw_ver >> 16u32) & 0xff,
                (self.fw_ver >> 8u32) & 0xff,
                self.fw_ver & 0xff,
            ),
    {
        let major = (self.fw_ver >> 16u32) & 0xff;
        let minor = (self.fw_ver >> 8u32) & 0xff;
        let patch = self.fw_ver & 0xff;
        proof {
            reveal_strlit(".");
        }
        let mut text = decimal_string(major);
        text.append(".");
        text.append(decimal_string(minor).as_str());
        text.append(".");
        text.append(decimal_string(patch).as_str());
        assert(text@ =~= version_text(major, minor, patch));
        text
    }
}

/// The text a byte sequence stands for, with each invalid UTF-8 sequence
/// replaced by U+FFFD.
pub uninterp spec fn lossy_utf8(b: Seq<u8>) -> Seq<char>;

/// Relies on String::from_utf8_lossy: valid UTF-8 is kept as it is, and
/// bytes below 128 are ASCII characters.
#[verifier::external_body]
fn utf8_lossy(b: &[u8]) -> (r: String)
    ensures
        r@ == lossy_utf8(b@),
        (forall|i: int| 0 <= i < b@.len() ==> b@[i] < 128) ==> r@ == Seq::new(
            b@.len(),
            |i: int| b@[i] as char,
        ),
{
    String::from_utf8_lossy(b).into_owned()
}

/// The handshake request.
pub fn build_handshake() -> (r: Result<Packet, HubError>)
    ensures
        r is Ok && r->Ok_0.buf@ == packet_bytes(CMD_HANDSHAKE, Seq::empty()),
{
    let payload: Vec<u8> = Vec::new();
    Packet::new(CMD_HANDSHAKE, payload.as_slice())
}

/// The device identity carried by a handshake reply.
pub open spec fn handshake_info(p: Seq<u8>) -> DeviceInfo {
    DeviceInfo { hw_id: le32_at(p, 0), fw_ver: le32_at(p, 4), flash_size: le32_at(p, 8) }
}

/// Reads the device identity from a handshake reply.
pub fn parse_handshake(packet: &Packet) -> (r: Result<DeviceInfo, HubError>)
    ensures
        packet.buf@[0] != CMD_HANDSHAKE ==> r == Err::<DeviceInfo, HubError>(
            HubError::UnexpectedCommand,
        ),
        packet.buf@[0] == CMD_HANDSHAKE ==> r == Ok::<DeviceInfo, HubError>(
            handshake_info(payload_of(packet.buf@)),
        ),
{
    if packet.cmd_id() != CMD_HANDSHAKE {
        return Err(HubError::UnexpectedCommand);
    }
    let p = packet.payload();
    Ok(DeviceInfo { hw_id: read_u32_le(p, 0), fw_ver: read_u32_le(p, 4), flash_size: read_u32_le(p, 8) })
}

/// The request for the configuration record.
pub fn build_config_read() -> (r: Result<Packet, HubError>)
    ensures
        r is Ok && r->Ok_0.buf@ == packet_bytes(CMD_CONFIG, seq![1u8]),
{
    let mut payload: Vec<u8> = Vec::new();
    payload.push(1);
    Packet::new(CMD_CONFIG, payload.as_slice())
}

/// The request that starts flash programming of `total_size` bytes.
pub fn build_flash_start(total_size: u32) -> (r: Result<Packet, HubError>)
    ensures
        r is Ok && r->Ok_0.buf@ == packet_bytes(
            CMD_FLASH,
            seq![FLASH_SUB_START] + le32_bytes(total_size),
        ),
{
    let mut payload: Vec<u8> = Vec::new();
    payload.push(FLASH_SUB_START);
    push_u32_le(&mut payload, total_size);
    Packet::new(CMD_FLASH, payload.as_slice())
}

/// The payload answering a request for `length` bytes at `offset`: the
/// sub-command, the echoed offset and length, then at most 244 bytes of
/// `data`.
pub open spec fn flash_data_payload(offset: u32, length: u16, data: Seq<u8>) -> Seq<u8> {
    let n = if data.len() < 244 {
        data.len() as int
    } else {
        244
    };
    seq![FLASH_SUB_DATA] + le32_bytes(offset) + le16_bytes(length) + data.subrange(0, n)
}

/// The answer to the device's request for `length` bytes at `offset`.
pub fn build_flash_data_response(offset: u32, length: u16, data: &[u8]) -> (r: Result<
    Packet,
    HubError,
>)
    ensures
        r is Ok && r->Ok_0.buf@ == packet_bytes(
            CMD_FLASH,
            flash_data_payload(offset, length, data@),
        ),
{
    let mut payload: Vec<u8> = Vec::new();
    payload.push(FLASH_SUB_DATA);
    push_u32_le(&mut payload, offset);
    push_u16_le(&mut payload, length);
    let len = if data.len() < FLASH_DATA_MAX {
        data.len()
    } else {
        FLASH_DATA_MAX
    };
    push_bytes(&mut payload, &data[0..len]);
    assert(payload@ =~= flash_data_payload(offset, length, data@));
    Packet::new(CMD_FLASH, payload.as_slice())
}

/// The request to read the whole flash back.
pub fn build_flash_readback() -> (r: Result<Packet, HubError>)
    ensures
        r is Ok && r->Ok_0.buf@ == packet_bytes(CMD_FLASH, seq![FLASH_SUB_READBACK]),
{
    let mut payload: Vec<u8> = Vec::new();
    payload.push(FLASH_SUB_READBACK);
    Packet::new(CMD_FLASH, payload.as_slice())
}

/// The factory reset request.
pub fn build_factory_reset() -> (r: Result<Packet, HubError>)
    ensures
        r is Ok && r->Ok_0.buf@ == packet_bytes(CMD_FACTORY_RESET, Seq::empty()),
{
    let payload: Vec<u8> = Vec::new();
    Packet::new(CMD_FACTORY_RESET, payload.as_slice())
}

/// The power reading carried by a power packet's payload.
pub open spec fn power_stats_of(p: Seq<u8>) -> PowerStats {
    PowerStats {
        bus_voltage: le16_at(p, 0),
        current_port1: le16_at(p, 2),
        current_port2: le16_at(p, 4),
        current_port3: le16_at(p, 6),
    }
}

/// Reads a power reading.
pub fn parse_power_stats(packet: &Packet) -> (r: Result<PowerStats, HubError>)
    ensures
        packet.buf@[0] != CMD_POWER ==> r == Err::<PowerStats, HubError>(
            HubError::UnexpectedCommand,
        ),
        packet.buf@[0] == CMD_POWER ==> r == Ok::<PowerStats, HubError>(
            power_stats_of(payload_of(packet.buf@)),
        ),
{
    if packet.cmd_id() != CMD_POWER {
        return Err(HubError::UnexpectedCommand);
    }
    let p = packet.payload();
    Ok(PowerStats {
        bus_voltage: read_u16_le(p, 0),
        current_port1: read_u16_le(p, 2),
        current_port2: read_u16_le(p, 4),
        current_port3: read_u16_le(p, 6),
    })
}

/// The bytes of a log message: a length byte, capped at the 250 bytes that
/// follow it, then the text.
pub open spec fn log_bytes(p: Seq<u8>) -> Seq<u8> {
    let len = if p[0] < 250 {
        p[0] as int
    } else {
        250
    };
    p.subrange(1, 1 + len)
}

/// Reads a log message, replacing invalid UTF-8.
pub fn parse_log(packet: &Packet) -> (r: Result<String, HubError>)
    ensures
        packet.buf@[0] != CMD_LOG ==> r == Err::<String, HubError>(HubError::UnexpectedCommand),
        packet.buf@[0] == CMD_LOG ==> r is Ok && r->Ok_0@ == lossy_utf8(
            log_bytes(payload_of(packet.buf@)),
        ),
{
    if packet.cmd_id() != CMD_LOG {
        return Err(HubError::UnexpectedCommand);
    }
    let p = packet.payload();
    let len = if (p[0] as usize) < PAYLOAD_SIZE - 1 {
        p[0] as usize
    } else {
        PAYLOAD_SIZE - 1
    };
    Ok(utf8_lossy(&p[1..1 + len]))
}

} // verus!
