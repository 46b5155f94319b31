//! File metadata as plain values, and what the metadata queries return.
use vstd::prelude::*;
use super::errno::einval;

verus! {

#[derive(Debug, Clone, PartialEq, Eq, Structural)]
pub struct FileMetadata {
    pub size: u64,
    pub permissions: u32,
    pub modified_unix: i64,
}

/// When a file was last modified, as the system reports it.
#[derive(Debug, Clone, Copy, PartialEq, Eq)]
pub enum ModifiedTime {
    /// This many whole seconds after the Unix epoch.
    AfterEpoch(u64),
    /// Before the Unix epoch.
    BeforeEpoch,
    /// The system could not tell; the error code it gave.
    Unavailable(i32),
}

/// The metadata of a file from its length, its permission bits, and the time
/// it was last modified: a time the system could not give is an error with
/// its code, a time before the epoch is `EINVAL`, and whole seconds are
/// stored as `i64` by wrapping.
pub fn metadata_from(size: u64, permissions: u32, modified: ModifiedTime) -> (r: Result<
    FileMetadata,
    i32,
>)
    ensures
        r == (match modified {
            ModifiedTime::AfterEpoch(secs) => Ok(
                FileMetadata { size, permissions, modified_unix: secs as i64 },
            ),
            ModifiedTime::BeforeEpoch => Err(22),
            ModifiedTime::Unavailable(e) => Err(e),
        }),
{
    match modified {
        ModifiedTime::AfterEpoch(secs) => Ok(
            FileMetadata { size, permissions, modified_unix: secs as i64 },
        ),
        ModifiedTime::BeforeEpoch => Err(einval()),
        ModifiedTime::Unavailable(e) => Err(e),
    }
}

/// The size in bytes that a `stat` gave, or its error.
pub fn size(stat: Result<FileMetadata, i32>) -> (r: Result<u64, i32>)
    ensures
        r == (match stat {
            Ok(m) => Ok(m.size),
            Err(e) => Err(e),
        }),
{
    match stat {
        Ok(m) => Ok(m.size),
        Err(e) => Err(e),
    }
}

/// The permission bits that a `stat` gave, or its error.
pub fn permissions(stat: Result<FileMetadata, i32>) -> (r: Result<u32, i32>)
    ensures
        r == (match stat {
            Ok(m) => Ok(m.permissions),
            Err(e) => Err(e),
        }),
{
    match stat {
        Ok(m) => Ok(m.permissions),
        Err(e) => Err(e),
    }
}

/// The modification time, in seconds since the epoch, that a `stat` gave, or its error.
pub fn modified_time(stat: Result<FileMetadata, i32>) -> (r: Result<i64, i32>)
    ensures
        r == (match stat {
            Ok(m) => Ok(m.modified_unix),
            Err(e) => Err(e),
        }),
{
    match stat {
        Ok(m) => Ok(m.modified_unix),
        Err(e) => Err(e),
    }
}

} // verus!
