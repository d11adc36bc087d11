//! The whole-device backup file: a magic tag, a version byte, the
//! length-prefixed configuration and flash sections, and a CRC32 over all of
//! that.

use vstd::prelude::*;
use crate::bytes::{
    le32_at, le32_bytes, lemma_le32_read_write, lemma_le32_write_read, push_bytes, push_u32_le,
    read_u32_le,
};
use crate::crc::{crc32, crc32_of};
use crate::error::HubError;

verus! {

/// The only backup version.
pub const BACKUP_VERSION: u8 = 1;

/// Size of a backup with two empty sections.
pub const BACKUP_MIN_SIZE: usize = 18;

/// The magic tag `HMHUB`.
pub open spec fn backup_magic() -> Seq<u8> {
    seq![0x48u8, 0x4Du8, 0x48u8, 0x55u8, 0x42u8]
}

/// Whether `d` starts with the magic tag.
pub open spec fn has_magic(d: Seq<u8>) -> bool {
    d.len() >= 5 && d.subrange(0, 5) == backup_magic()
}

/// Everything a backup holds before its CRC32.
pub open spec fn backup_body(config: Seq<u8>, flash: Seq<u8>) -> Seq<u8> {
    backup_magic() + seq![1u8] + le32_bytes(config.len() as u32) + config + le32_bytes(
        flash.len() as u32,
    ) + flash
}

/// The backup of a configuration record and a flash image.
pub open spec fn backup_bytes(config: Seq<u8>, flash: Seq<u8>) -> Seq<u8> {
    backup_body(config, flash) + le32_bytes(crc32_of(backup_body(config, flash)))
}

/// What reading a backup gives: its two sections, or the first check that
/// fails, in the order size, magic, version, CRC32, section bounds.
pub open spec fn read_backup(d: Seq<u8>) -> Result<(Seq<u8>, Seq<u8>), HubError> {
    if d.len() < 18 {
        Err(HubError::BackupTooShort)
    } else if !has_magic(d) {
        Err(HubError::BackupBadMagic)
    } else if d[5] != 1 {
        Err(HubError::BackupUnsupportedVersion)
    } else if le32_at(d, d.len() - 4) != crc32_of(d.subrange(0, d.len() - 4)) {
        Err(HubError::BackupCrcMismatch)
    } else {
        let end = d.len() - 4;
        let cl = le32_at(d, 6) as int;
        if 14 + cl > end {
            Err(HubError::BackupTruncated)
        } else {
            let fl = le32_at(d, 10 + cl) as int;
            if 14 + cl + fl > end {
                Err(HubError::BackupTruncated)
            } else {
                Ok((d.subrange(10, 10 + cl), d.subrange(14 + cl, 14 + cl + fl)))
            }
        }
    }
}

/// Builds the backup of a configuration record and a flash image.
pub fn serialize_backup(config: &[u8], flash: &[u8]) -> (r: Vec<u8>)
    requires
        config@.len() <= u32::MAX,
        flash@.len() <= u32::MAX,
    ensures
        r@ == backup_bytes(config@, flash@),
{
    let mut out: Vec<u8> = Vec::new();
    out.push(0x48);
    out.push(0x4D);
    out.push(0x48);
    out.push(0x55);
    out.push(0x42);
    out.push(BACKUP_VERSION);
    push_u32_le(&mut out, config.len() as u32);
    push_bytes(&mut out, config);
    push_u32_le(&mut out, flash.len() as u32);
    push_bytes(&mut out, flash);
    assert(out@ =~= backup_body(config@, flash@));
    let checksum = crc32(out.as_slice());
    push_u32_le(&mut out, checksum);
    out
}

/// Reads a backup back into its configuration and flash sections. Nothing is
/// taken from it unless its magic tag, version and CRC32 are all right.
pub fn deserialize_backup(data: &[u8]) -> (r: Result<(Vec<u8>, Vec<u8>), HubError>)
    ensures
        r matches Ok(p) ==> read_backup(data@) == Ok::<(Seq<u8>, Seq<u8>), HubError>(
            (p.0@, p.1@),
        ),
        r matches Err(e) ==> read_backup(data@) == Err::<(Seq<u8>, Seq<u8>), HubError>(e),
{
    if data.len() < BACKUP_MIN_SIZE {
        return Err(HubError::BackupTooShort);
    }
    if !(data[0] == 0x48 && data[1] == 0x4D && data[2] == 0x48 && data[3] == 0x55 && data[4]
        == 0x42) {
        proof {
            if has_magic(data@) {
                assert(data@[0] == data@.subrange(0, 5)[0]);
                assert(data@[1] == data@.subrange(0, 5)[1]);
                assert(data@[2] == data@.subrange(0, 5)[2]);
                assert(data@[3] == data@.subrange(0, 5)[3]);
                assert(data@[4] == data@.subrange(0, 5)[4]);
            }
        }
        return Err(HubError::BackupBadMagic);
    }
    assert(data@.subrange(0, 5) =~= backup_magic());
    if data[5] != BACKUP_VERSION {
        return Err(HubError::BackupUnsupportedVersion);
    }
    let end = data.len() - 4;
    let stored_crc = read_u32_le(data, end);
    let computed_crc = crc32(&data[0..end]);
    if stored_crc != computed_crc {
        return Err(HubError::BackupCrcMismatch);
    }
    let config_len = read_u32_le(data, 6) as usize;
    if config_len > end - 14 {
        return Err(HubError::BackupTruncated);
    }
    let flash_len = read_u32_le(data, 10 + config_len) as usize;
    if flash_len > end - 14 - config_len {
        return Err(HubError::BackupTruncated);
    }
    let mut config: Vec<u8> = Vec::new();
    push_bytes(&mut config, &data[10..10 + config_len]);
    let mut flash: Vec<u8> = Vec::new();
    push_bytes(&mut flash, &data[14 + config_len..14 + config_len + flash_len]);
    Ok((config, flash))
}

/// Reading a backup gives back byte for byte the sections it was built from.
pub proof fn lemma_backup_round_trip(config: Seq<u8>, flash: Seq<u8>)
    requires
        config.len() <= u32::MAX,
        flash.len() <= u32::MAX,
    ensures
        read_backup(backup_bytes(config, flash)) == Ok::<(Seq<u8>, Seq<u8>), HubError>(
            (config, flash),
        ),
{
    let b = backup_bytes(config, flash);
    let body = backup_body(config, flash);
    let cl = config.len() as int;
    let fl = flash.len() as int;
    assert(b.len() == 18 + cl + fl);
    assert(b.subrange(0, 5) =~= backup_magic());
    assert(b.subrange(6, 10) =~= le32_bytes(cl as u32));
    lemma_le32_read_write(cl as u32, b, 6);
    assert(b.subrange(10 + cl, 14 + cl) =~= le32_bytes(fl as u32));
    lemma_le32_read_write(fl as u32, b, 10 + cl);
    assert(b.subrange(0, b.len() - 4) =~= body);
    assert(b.subrange(b.len() - 4, b.len() as int) =~= le32_bytes(crc32_of(body)));
    lemma_le32_read_write(crc32_of(body), b, b.len() - 4);
    assert(b.subrange(10, 10 + cl) =~= config);
    assert(b.subrange(14 + cl, 14 + cl + fl) =~= flash);
}

/// Changing the last byte of a backup (part of its CRC32) makes it fail with
/// a CRC mismatch.
pub proof fn lemma_backup_last_byte_flip(config: Seq<u8>, flash: Seq<u8>, x: u8)
    requires
        config.len() <= u32::MAX,
        flash.len() <= u32::MAX,
        x != backup_bytes(config, flash).last(),
    ensures
        ({
            let b = backup_bytes(config, flash);
            read_backup(b.update(b.len() - 1, x)) == Err::<(Seq<u8>, Seq<u8>), HubError>(
                HubError::BackupCrcMismatch,
            )
        }),
{
    let b = backup_bytes(config, flash);
    let c = b.update(b.len() - 1, x);
    let n = b.len() as int;
    lemma_backup_round_trip(config, flash);
    assert(c.subrange(0, 5) =~= b.subrange(0, 5));
    assert(c.subrange(0, n - 4) =~= b.subrange(0, n - 4));
    lemma_le32_write_read(b, n - 4);
    lemma_le32_write_read(c, n - 4);
    assert(b.subrange(n - 4, n)[3] != c.subrange(n - 4, n)[3]);
}

/// Anything shorter than the smallest backup is refused as too short.
pub proof fn lemma_backup_too_short(d: Seq<u8>)
    requires
        d.len() < 18,
    ensures
        read_backup(d) == Err::<(Seq<u8>, Seq<u8>), HubError>(HubError::BackupTooShort),
{
}

} // verus!
