//! Host-side protocol library for a small USB display hub: the fixed packet
//! frame, the chunked-transfer codec, command payloads, the session decision
//! logic, the on-flash image layout and the backup container.

pub mod backup;
pub mod bytes;
pub mod chunked;
pub mod commands;
pub mod config;
pub mod consts;
pub mod crc;
pub mod error;
pub mod flash;
pub mod frame_header;
pub mod image;
pub mod packet;
pub mod session;
