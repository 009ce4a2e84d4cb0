//! The model of one filesystem entry.
//!
//! Metadata is captured once, at discovery time, by a stat call that does not
//! follow symbolic links; the caller converts it to the plain values held
//! here. Fields that a platform may not provide are `Option`s, and the
//! formatting functions substitute the documented placeholders for `None`.

use vstd::prelude::*;

verus! {

/// The metadata snapshot of one entry, from a single non-following stat.
#[derive(Clone, Copy)]
pub struct Meta {
    /// The entry is a directory.
    pub is_dir: bool,
    /// The entry itself is a symbolic link (never true together with
    /// `is_dir`, since a non-following stat reports a link as a link).
    pub is_symlink: bool,
    /// Length in bytes.
    pub size: u64,
    /// Permission bits (the low 9 bits matter), where the platform has them.
    pub mode: Option<u32>,
    /// Hard-link count, where the platform has it.
    pub nlink: Option<u64>,
    /// Numeric owner id, where the platform has it.
    pub uid: Option<u32>,
    /// Numeric group id, where the platform has it.
    pub gid: Option<u32>,
    /// Modification time as seconds since the epoch; `None` when it cannot
    /// be read.
    pub mtime: Option<i64>,
}

/// One filesystem entry being listed.
pub struct Entry {
    /// The base name as the directory read produced it.
    pub name: String,
    /// The metadata snapshot.
    pub meta: Meta,
    /// For a symlink, its target path when it could be read at discovery
    /// time; `None` otherwise (a broken or unreadable link is shown without
    /// its target).
    pub link_target: Option<String>,
}

impl Entry {
    /// The key used when sorting by time: seconds since the epoch, with an
    /// unreadable or pre-epoch time treated as the epoch start.
    pub open spec fn time_key(self) -> int {
        match self.meta.mtime {
            Some(t) => if t >= 0 { t as int } else { 0 },
            None => 0,
        }
    }
}

} // verus!
