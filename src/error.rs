use vstd::prelude::*;

verus! {

/// The broad classes of failure.
#[derive(Debug, Clone, Copy, PartialEq, Eq, Structural)]
pub enum ErrorKind {
    Integrity,
    Protocol,
    Format,
}

/// Every failure the library reports.
#[derive(Debug, Clone, Copy, PartialEq, Eq, Structural)]
pub enum HubError {
    /// A packet payload longer than the frame can carry.
    PayloadTooLarge,
    /// A received packet whose CRC32 does not match its contents.
    PacketCrcMismatch,
    /// A reassembled chunked transfer whose CRC32 does not match.
    ChunkCrcMismatch,
    /// A completed chunked transfer shorter than its own CRC32.
    ChunkTooShort,
    /// A chunk piece whose header or length does not fit its payload.
    MalformedChunk,
    /// Data too long to be split into a 16-bit number of pieces.
    ChunkCountOverflow,
    /// A packet whose command id is not the one a parser expects.
    UnexpectedCommand,
    /// More stray packets than one operation tolerates.
    TooManyStrayPackets,
    /// A configuration record shorter than 24 bytes.
    ConfigTooShort,
    /// A configuration field name that is not known.
    UnknownField,
    /// A configuration value that is not a number of the field's type.
    InvalidValue,
    /// A configuration value outside the field's range.
    ValueOutOfRange,
    /// A frame header slot shorter than 28 bytes.
    HeaderTooShort,
    /// A frame header whose CRC32 does not match its leading bytes.
    HeaderCrcMismatch,
    /// More albums than the header table can hold.
    TooManyAlbums,
    /// More frames than the device's flash can hold.
    CapacityExceeded,
    /// A frame whose size is not that of one display frame.
    FrameSizeMismatch,
    /// A backup shorter than the smallest valid backup.
    BackupTooShort,
    /// A backup that does not start with the magic tag.
    BackupBadMagic,
    /// A backup of a version this library does not read.
    BackupUnsupportedVersion,
    /// A backup whose trailing CRC32 does not match.
    BackupCrcMismatch,
    /// A backup whose sections run past its end.
    BackupTruncated,
}

impl HubError {
    pub open spec fn spec_kind(self) -> ErrorKind {
        match self {
            HubError::PacketCrcMismatch | HubError::ChunkCrcMismatch
            | HubError::HeaderCrcMismatch | HubError::BackupCrcMismatch => ErrorKind::Integrity,
            HubError::BackupTooShort | HubError::BackupTruncated
            | HubError::HeaderTooShort | HubError::ConfigTooShort
            | HubError::FrameSizeMismatch => ErrorKind::Format,
            _ => ErrorKind::Protocol,
        }
    }

    /// The class this failure belongs to.
    pub fn kind(&self) -> (r: ErrorKind)
        ensures
            r == self.spec_kind(),
    {
        match self {
            HubError::PacketCrcMismatch | HubError::ChunkCrcMismatch
            | HubError::HeaderCrcMismatch | HubError::BackupCrcMismatch => ErrorKind::Integrity,
            HubError::BackupTooShort | HubError::BackupTruncated
            | HubError::HeaderTooShort | HubError::ConfigTooShort
            | HubError::FrameSizeMismatch => ErrorKind::Format,
            _ => ErrorKind::Protocol,
        }
    }
}

} // verus!
