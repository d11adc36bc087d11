//! The decisions of a device session, one packet at a time. The caller owns
//! the transport: it sends what these functions build, receives the next
//! packet under the timeout they name, and hands it back.

use vstd::prelude::*;
use crate::bytes::{le16_at, le32_at, read_u16_le, read_u32_le};
use crate::chunked::{feed_spec, ChunkedReceiver, ReceiverView};
use crate::commands::{
    build_flash_data_response, flash_data_payload, log_bytes, lossy_utf8, parse_log,
    parse_power_stats, power_stats_of, PowerStats, FLASH_SUB_DATA, FLASH_SUB_DONE,
    FLASH_SUB_READBACK, FLASH_SUB_START,
};
use crate::config::{config_from_bytes, DeviceConfig};
use crate::consts::{
    CMD_CONFIG, CMD_FLASH, CMD_LOG, CMD_POWER, ERASE_TIMEOUT_MS, NORMAL_TIMEOUT_MS,
    STRAY_PACKET_LIMIT,
};
use crate::error::HubError;
use crate::packet::{packet_bytes, payload_of, Packet};

verus! {

/// Configuration sub-command: the device is not ready yet.
pub const CONFIG_SUB_WAIT: u8 = 1;
/// Configuration sub-command: a piece of the record follows.
pub const CONFIG_SUB_DATA: u8 = 2;

/// Erase progress: the device is erasing.
pub const ERASE_BUSY: u8 = 2;
/// Erase progress: the erase has finished.
pub const ERASE_DONE: u8 = 4;

/// The text of a log packet.
pub open spec fn log_text(pkt: Seq<u8>) -> Seq<char> {
    lossy_utf8(log_bytes(payload_of(pkt)))
}

/// What a configuration read does after one packet.
pub enum ConfigReadStep {
    /// Keep receiving.
    Waiting,
    /// A device log line to show; keep receiving.
    Log(String),
    /// The record has arrived.
    Done(DeviceConfig),
}

/// The outcome of one configuration-read packet, as a value.
pub enum ConfigStepView {
    Waiting,
    Log(Seq<char>),
    Done(DeviceConfig),
}

pub open spec fn config_step_view(r: Result<ConfigReadStep, HubError>) -> Result<
    ConfigStepView,
    HubError,
> {
    match r {
        Ok(ConfigReadStep::Waiting) => Ok(ConfigStepView::Waiting),
        Ok(ConfigReadStep::Log(t)) => Ok(ConfigStepView::Log(t@)),
        Ok(ConfigReadStep::Done(c)) => Ok(ConfigStepView::Done(c)),
        Err(e) => Err(e),
    }
}

/// Whether a packet counts against the stray budget of a configuration read:
/// anything but a configuration packet of a known sub-command, a log packet
/// or a power packet.
pub open spec fn is_config_stray(pkt: Seq<u8>) -> bool {
    if pkt[0] == CMD_CONFIG {
        payload_of(pkt)[0] != CONFIG_SUB_WAIT && payload_of(pkt)[0] != CONFIG_SUB_DATA
    } else {
        pkt[0] != CMD_LOG && pkt[0] != CMD_POWER
    }
}

/// The outcome of one packet in a configuration read whose reassembler is
/// `rx` and which has seen `strays` stray packets.
pub open spec fn config_step(rx: ReceiverView, strays: u32, pkt: Seq<u8>) -> Result<
    ConfigStepView,
    HubError,
> {
    if is_config_stray(pkt) {
        if strays + 1 > 10 {
            Err(HubError::TooManyStrayPackets)
        } else {
            Ok(ConfigStepView::Waiting)
        }
    } else if pkt[0] == CMD_LOG {
        Ok(ConfigStepView::Log(log_text(pkt)))
    } else if pkt[0] == CMD_POWER || payload_of(pkt)[0] == CONFIG_SUB_WAIT {
        Ok(ConfigStepView::Waiting)
    } else {
        match feed_spec(rx, payload_of(pkt).subrange(1, 251)).1 {
            Err(e) => Err(e),
            Ok(None) => Ok(ConfigStepView::Waiting),
            Ok(Some(d)) => if d.len() < 24 {
                Err(HubError::ConfigTooShort)
            } else {
                Ok(ConfigStepView::Done(config_from_bytes(d)))
            },
        }
    }
}

/// The reassembler after one packet of a configuration read.
pub open spec fn config_step_receiver(rx: ReceiverView, pkt: Seq<u8>) -> ReceiverView {
    if pkt[0] == CMD_CONFIG && payload_of(pkt)[0] == CONFIG_SUB_DATA {
        feed_spec(rx, payload_of(pkt).subrange(1, 251)).0
    } else {
        rx
    }
}

/// The stray count after one packet of a configuration read.
pub open spec fn config_step_strays(strays: u32, pkt: Seq<u8>) -> u32 {
    if is_config_stray(pkt) && strays + 1 <= 10 {
        (strays + 1) as u32
    } else {
        strays
    }
}

/// The state of one configuration read: the reassembler for the record and
/// the number of stray packets seen.
pub struct ConfigReader {
    receiver: ChunkedReceiver,
    strays: u32,
}

impl ConfigReader {
    pub closed spec fn wf(&self) -> bool {
        self.receiver.wf() && self.strays <= STRAY_PACKET_LIMIT
    }

    pub closed spec fn receiver_view(&self) -> ReceiverView {
        self.receiver@
    }

    pub closed spec fn stray_count(&self) -> u32 {
        self.strays
    }

    /// A read that has received nothing yet.
    pub fn new() -> (r: ConfigReader)
        ensures
            r.wf(),
            r.receiver_view() == crate::chunked::fresh_receiver(),
            r.stray_count() == 0,
    {
        ConfigReader { receiver: ChunkedReceiver::new(), strays: 0 }
    }

    /// Takes the next packet. Waits on "not ready" and power packets, passes
    /// log lines on, feeds record pieces to the reassembler, and fails once
    /// more than ten stray packets have arrived.
    pub fn on_packet(&mut self, pkt: &Packet) -> (r: Result<ConfigReadStep, HubError>)
        requires
            old(self).wf(),
        ensures
            final(self).wf(),
            config_step_view(r) == config_step(
                old(self).receiver_view(),
                old(self).stray_count(),
                pkt.buf@,
            ),
            final(self).receiver_view() == config_step_receiver(
                old(self).receiver_view(),
                pkt.buf@,
            ),
            final(self).stray_count() == config_step_strays(old(self).stray_count(), pkt.buf@),
    {
        let cmd = pkt.cmd_id();
        let payload = pkt.payload();
        if cmd == CMD_CONFIG && (payload[0] == CONFIG_SUB_WAIT || payload[0] == CONFIG_SUB_DATA) {
            if payload[0] == CONFIG_SUB_WAIT {
                return Ok(ConfigReadStep::Waiting);
            }
            match self.receiver.feed(&payload[1..payload.len()]) {
                Err(e) => Err(e),
                Ok(None) => Ok(ConfigReadStep::Waiting),
                Ok(Some(data)) => match DeviceConfig::from_bytes(data.as_slice()) {
                    Ok(c) => Ok(ConfigReadStep::Done(c)),
                    Err(e) => Err(e),
                },
            }
        } else if cmd == CMD_LOG {
            match parse_log(pkt) {
                Ok(t) => Ok(ConfigReadStep::Log(t)),
                Err(e) => Err(e),
            }
        } else if cmd == CMD_POWER {
            Ok(ConfigReadStep::Waiting)
        } else {
            if self.strays + 1 > STRAY_PACKET_LIMIT {
                return Err(HubError::TooManyStrayPackets);
            }
            self.strays = self.strays + 1;
            Ok(ConfigReadStep::Waiting)
        }
    }
}

/// Where a flash upload stands.
#[derive(Debug, Clone, Copy, PartialEq, Eq, Structural)]
pub enum UploadPhase {
    /// Waiting for the device to finish erasing.
    AwaitErase,
    /// Answering the device's requests for data.
    Transfer,
    /// The device has signalled completion.
    Finished,
}

/// What a flash upload does after one packet.
pub enum UploadStep {
    /// Keep receiving.
    Waiting,
    /// The device reports that it is erasing.
    Erasing,
    /// The erase has finished; requests for data follow.
    EraseComplete,
    /// Send `packet`, the answer to a request; `progress` is where the
    /// answered range ends in the source, at most its length.
    Send { packet: Packet, progress: usize },
    /// A device log line to show.
    Log(String),
    /// The device has all the data.
    Complete,
}

/// Where the slice that answers a request for `length` bytes at `offset`
/// starts and ends in a source of `len` bytes: the requested range, clamped
/// to the source's end.
pub open spec fn clamp_range(offset: u32, length: u16, len: int) -> (int, int) {
    let start = if offset as int <= len {
        offset as int
    } else {
        len
    };
    let end = if offset as int + length as int <= len {
        offset as int + length as int
    } else {
        len
    };
    (start, end)
}

/// A flash upload: the host answers the device's pull requests from the
/// source image.
pub struct FlashUpload {
    pub phase: UploadPhase,
}

impl FlashUpload {
    /// An upload whose start request has just been sent.
    pub fn new() -> (r: FlashUpload)
        ensures
            r.phase == UploadPhase::AwaitErase,
    {
        FlashUpload { phase: UploadPhase::AwaitErase }
    }

    /// The read timeout for the next packet: long while the device erases,
    /// normal afterwards.
    pub fn timeout_ms(&self) -> (r: u64)
        ensures
            self.phase == UploadPhase::AwaitErase ==> r == ERASE_TIMEOUT_MS,
            self.phase != UploadPhase::AwaitErase ==> r == NORMAL_TIMEOUT_MS,
    {
        match self.phase {
            UploadPhase::AwaitErase => ERASE_TIMEOUT_MS,
            _ => NORMAL_TIMEOUT_MS,
        }
    }

    /// Takes the next packet. While the device erases, follows its progress;
    /// afterwards answers each request with exactly the requested slice of
    /// `data`, clamped to its end, until the device signals completion. Log
    /// packets are passed on in every phase.
    pub fn on_packet(&mut self, pkt: &Packet, data: &[u8]) -> (r: UploadStep)
        ensures
            pkt.buf@[0] == CMD_LOG ==> (r matches UploadStep::Log(t) && t@ == log_text(pkt.buf@))
                && final(self).phase == old(self).phase,
            pkt.buf@[0] != CMD_LOG && pkt.buf@[0] != CMD_FLASH ==> r is Waiting
                && final(self).phase == old(self).phase,
            pkt.buf@[0] == CMD_FLASH && old(self).phase == UploadPhase::AwaitErase ==> {
                let p = payload_of(pkt.buf@);
                if p[0] == FLASH_SUB_START && p[1] == ERASE_DONE {
                    r is EraseComplete && final(self).phase == UploadPhase::Transfer
                } else if p[0] == FLASH_SUB_START && p[1] == ERASE_BUSY {
                    r is Erasing && final(self).phase == UploadPhase::AwaitErase
                } else {
                    r is Waiting && final(self).phase == UploadPhase::AwaitErase
                }
            },
            pkt.buf@[0] == CMD_FLASH && old(self).phase == UploadPhase::Transfer ==> {
                let p = payload_of(pkt.buf@);
                let offset = le32_at(p, 1);
                let length = le16_at(p, 5);
                let range = clamp_range(offset, length, data@.len() as int);
                if p[0] == FLASH_SUB_DATA {
                    &&& r matches UploadStep::Send { packet, progress }
                    &&& packet.buf@ == packet_bytes(
                        CMD_FLASH,
                        flash_data_payload(offset, length, data@.subrange(range.0, range.1)),
                    )
                    &&& progress == range.1
                    &&& final(self).phase == UploadPhase::Transfer
                } else if p[0] == FLASH_SUB_DONE {
                    r is Complete && final(self).phase == UploadPhase::Finished
                } else {
                    r is Waiting && final(self).phase == UploadPhase::Transfer
                }
            },
            pkt.buf@[0] == CMD_FLASH && old(self).phase == UploadPhase::Finished ==> r is Complete
                && final(self).phase == UploadPhase::Finished,
    {
        let cmd = pkt.cmd_id();
        if cmd == CMD_LOG {
            return match parse_log(pkt) {
                Ok(t) => UploadStep::Log(t),
                Err(_) => UploadStep::Waiting,
            };
        }
        if cmd != CMD_FLASH {
            return UploadStep::Waiting;
        }
        let p = pkt.payload();
        match self.phase {
            UploadPhase::AwaitErase => {
                if p[0] == FLASH_SUB_START && p[1] == ERASE_DONE {
                    self.phase = UploadPhase::Transfer;
                    UploadStep::EraseComplete
                } else if p[0] == FLASH_SUB_START && p[1] == ERASE_BUSY {
                    UploadStep::Erasing
                } else {
                    UploadStep::Waiting
                }
            },
            UploadPhase::Transfer => {
                if p[0] == FLASH_SUB_DATA {
                    let offset = read_u32_le(p, 1);
                    let length = read_u16_le(p, 5);
                    let len = data.len();
                    let start = if (offset as usize) <= len {
                        offset as usize
                    } else {
                        len
                    };
                    let end = if (length as usize) <= len - start && start == offset as usize {
                        start + length as usize
                    } else {
                        len
                    };
                    let packet = match build_flash_data_response(offset, length, &data[start..end]) {
                        Ok(pk) => pk,
                        Err(_) => {
                            return UploadStep::Waiting;
                        },
                    };
                    UploadStep::Send { packet, progress: end }
                } else if p[0] == FLASH_SUB_DONE {
                    self.phase = UploadPhase::Finished;
                    UploadStep::Complete
                } else {
                    UploadStep::Waiting
                }
            },
            UploadPhase::Finished => UploadStep::Complete,
        }
    }
}

/// What a flash readback does after one packet.
pub enum ReadbackStep {
    /// Keep receiving.
    Waiting,
    /// A range arrived; `progress` is where it ends. A range that does not
    /// fit the destination was dropped.
    Stored { progress: u64 },
    /// A device log line to show.
    Log(String),
    /// The device has sent everything.
    Complete,
}

/// Whether a readback range of `length` bytes at `offset` is copied into a
/// destination of `len` bytes: it must fit the packet and the destination.
pub open spec fn readback_fits(offset: u32, length: u16, len: int) -> bool {
    7 + length as int <= 251 && offset as int + length as int <= len
}

/// The destination after a readback packet: a data range that fits is copied
/// in at its offset, and anything else leaves it as it was.
pub open spec fn readback_result(buffer: Seq<u8>, pkt: Seq<u8>) -> Seq<u8> {
    let p = payload_of(pkt);
    let offset = le32_at(p, 1);
    let length = le16_at(p, 5);
    if pkt[0] == CMD_FLASH && p[0] == FLASH_SUB_READBACK && readback_fits(
        offset,
        length,
        buffer.len() as int,
    ) {
        buffer.subrange(0, offset as int) + p.subrange(7, 7 + length as int) + buffer.subrange(
            offset as int + length as int,
            buffer.len() as int,
        )
    } else {
        buffer
    }
}

/// Takes the next packet of a flash readback into `buffer`.
pub fn readback_step(buffer: &mut Vec<u8>, pkt: &Packet) -> (r: ReadbackStep)
    ensures
        final(buffer)@ == readback_result(old(buffer)@, pkt.buf@),
        pkt.buf@[0] == CMD_LOG ==> (r matches ReadbackStep::Log(t) && t@ == log_text(pkt.buf@)),
        pkt.buf@[0] == CMD_FLASH && payload_of(pkt.buf@)[0] == FLASH_SUB_READBACK ==> (
        r matches ReadbackStep::Stored { progress } && progress == le32_at(payload_of(pkt.buf@), 1)
            + le16_at(payload_of(pkt.buf@), 5)),
        pkt.buf@[0] == CMD_FLASH && payload_of(pkt.buf@)[0] == FLASH_SUB_DONE ==> r is Complete,
        pkt.buf@[0] != CMD_LOG && !(pkt.buf@[0] == CMD_FLASH && (payload_of(pkt.buf@)[0]
            == FLASH_SUB_READBACK || payload_of(pkt.buf@)[0] == FLASH_SUB_DONE)) ==> r is Waiting,
{
    let cmd = pkt.cmd_id();
    if cmd == CMD_LOG {
        return match parse_log(pkt) {
            Ok(t) => ReadbackStep::Log(t),
            Err(_) => ReadbackStep::Waiting,
        };
    }
    if cmd != CMD_FLASH {
        return ReadbackStep::Waiting;
    }
    let p = pkt.payload();
    if p[0] == FLASH_SUB_READBACK {
        let offset = read_u32_le(p, 1);
        let length = read_u16_le(p, 5);
        let len = buffer.len();
        if 7 + (length as usize) <= p.len() && (offset as usize) <= len && (length as usize) <= len
            - offset as usize {
            crate::bytes::copy_into(buffer, offset as usize, &p[7..7 + length as usize]);
        }
        ReadbackStep::Stored { progress: offset as u64 + length as u64 }
    } else if p[0] == FLASH_SUB_DONE {
        ReadbackStep::Complete
    } else {
        ReadbackStep::Waiting
    }
}

/// What a power poll or the monitor does after one packet.
pub enum PowerStep {
    /// A power reading.
    Stats(PowerStats),
    /// A device log line to show.
    Log(String),
    /// Anything else, which is skipped.
    Ignored,
}

/// Sorts the next packet of a power poll or of the monitor.
pub fn power_step(pkt: &Packet) -> (r: PowerStep)
    ensures
        pkt.buf@[0] == CMD_POWER ==> r == PowerStep::Stats(power_stats_of(payload_of(pkt.buf@))),
        pkt.buf@[0] == CMD_LOG ==> (r matches PowerStep::Log(t) && t@ == log_text(pkt.buf@)),
        pkt.buf@[0] != CMD_POWER && pkt.buf@[0] != CMD_LOG ==> r is Ignored,
{
    if pkt.cmd_id() == CMD_POWER {
        match parse_power_stats(pkt) {
            Ok(s) => PowerStep::Stats(s),
            Err(_) => PowerStep::Ignored,
        }
    } else if pkt.cmd_id() == CMD_LOG {
        match parse_log(pkt) {
            Ok(t) => PowerStep::Log(t),
            Err(_) => PowerStep::Ignored,
        }
    } else {
        PowerStep::Ignored
    }
}

/// How healthy a bus voltage is.
#[derive(Debug, Clone, Copy, PartialEq, Eq, Structural)]
pub enum VoltageRating {
    Healthy,
    Warning,
    Critical,
}

/// Rates a bus voltage in millivolts: healthy from 4750, a warning from 4250,
/// critical below.
pub fn voltage_rating(millivolts: u16) -> (r: VoltageRating)
    ensures
        millivolts >= 4750 ==> r == VoltageRating::Healthy,
        4250 <= millivolts < 4750 ==> r == VoltageRating::Warning,
        millivolts < 4250 ==> r == VoltageRating::Critical,
{
    if millivolts >= 4750 {
        VoltageRating::Healthy
    } else if millivolts >= 4250 {
        VoltageRating::Warning
    } else {
        VoltageRating::Critical
    }
}

} // verus!
