//! File attributes as plain values, and the rules for changing them.
//!
//! The backing source is read and changed by the caller.  This module turns
//! what a `stat` of a path gave into the attributes that are reported for an
//! inode, and turns a request to change attributes into the list of changes
//! to apply to the backing file.

use vstd::prelude::*;

verus! {

/// The kind of a directory entry.
#[derive(Clone, Copy, Debug, PartialEq, Eq, Structural)]
pub enum FileType {
    RegularFile,
    Directory,
}

/// A point in time, counted from the Unix epoch.
#[derive(Clone, Copy, Debug, PartialEq, Eq, Structural)]
pub struct Timestamp {
    pub secs: u64,
    pub nanos: u32,
}

/// A time given in a request: a fixed one, or the moment of the request.
#[derive(Clone, Copy, Debug, PartialEq, Eq, Structural)]
pub enum TimeOrNow {
    SpecificTime(Timestamp),
    Now,
}

/// What a `stat` of a path in the backing source gave.
#[derive(Clone, Copy, Debug, PartialEq, Eq)]
pub struct Metadata {
    pub size: u64,
    pub blocks: u64,
    pub accessed: Timestamp,
    pub modified: Timestamp,
    pub created: Timestamp,
    /// The nanosecond part of the time of the last status change.
    pub ctime_nsec: i64,
    pub is_dir: bool,
    pub is_file: bool,
    pub mode: u32,
    pub nlink: u64,
    pub uid: u32,
    pub gid: u32,
    pub rdev: u64,
    pub blksize: u64,
}

/// The attributes reported for an inode.
#[derive(Clone, Copy, Debug, PartialEq, Eq, Structural)]
pub struct FileAttr {
    pub ino: u64,
    pub size: u64,
    pub blocks: u64,
    pub atime: Timestamp,
    pub mtime: Timestamp,
    pub ctime: Timestamp,
    pub crtime: Timestamp,
    pub kind: FileType,
    pub perm: u16,
    pub nlink: u32,
    pub uid: u32,
    pub gid: u32,
    pub rdev: u32,
    pub blksize: u32,
    pub flags: u32,
}

/// Nanoseconds in a second.
pub const NANOS_PER_SEC: u64 = 1_000_000_000;

/// The bits of a mode that `chmod` sets.
pub const PERMISSION_BITS: u32 = 0o7777;

/// The bits of a reported mode that tell the kind of the file.
pub const FORMAT_BITS: u16 = 0xf000;

/// The time that lies `nanos` nanoseconds after the epoch.
pub open spec fn timestamp_of_nanos(nanos: u64) -> Timestamp {
    Timestamp { secs: nanos / NANOS_PER_SEC, nanos: (nanos % NANOS_PER_SEC) as u32 }
}

/// The kind reported for a path: a regular file only where the path is one
/// and is no directory; everything else is shown as a directory.
pub open spec fn kind_of(metadata: Metadata) -> FileType {
    if !metadata.is_dir && metadata.is_file {
        FileType::RegularFile
    } else {
        FileType::Directory
    }
}

/// The attributes of inode `ino` for a path with the given metadata.  Wide
/// fields are cut to the width of the reported ones, and the time of the last
/// status change is taken from its nanosecond part alone.
pub open spec fn attr_of(ino: u64, metadata: Metadata) -> FileAttr {
    FileAttr {
        ino,
        size: metadata.size,
        blocks: metadata.blocks,
        atime: metadata.accessed,
        mtime: metadata.modified,
        ctime: timestamp_of_nanos(metadata.ctime_nsec as u64),
        crtime: metadata.created,
        kind: kind_of(metadata),
        perm: metadata.mode as u16,
        nlink: metadata.nlink as u32,
        uid: metadata.uid,
        gid: metadata.gid,
        rdev: metadata.rdev as u32,
        blksize: metadata.blksize as u32,
        flags: 0,
    }
}

/// Builds the attributes of inode `ino` from the metadata of its path.
pub fn file_attr_of_file(ino: u64, metadata: &Metadata) -> (attr: FileAttr)
    ensures
        attr == attr_of(ino, *metadata),
{
    let nanos: u64 = metadata.ctime_nsec as u64;
    let ctime = Timestamp {
        secs: nanos / NANOS_PER_SEC,
        nanos: (nanos % NANOS_PER_SEC) as u32,
    };
    let kind = if metadata.is_dir {
        FileType::Directory
    } else if metadata.is_file {
        FileType::RegularFile
    } else {
        FileType::Directory
    };
    FileAttr {
        ino,
        size: metadata.size,
        blocks: metadata.blocks,
        atime: metadata.accessed,
        mtime: metadata.modified,
        ctime,
        crtime: metadata.created,
        kind,
        perm: metadata.mode as u16,
        nlink: metadata.nlink as u32,
        uid: metadata.uid,
        gid: metadata.gid,
        rdev: metadata.rdev as u32,
        blksize: metadata.blksize as u32,
        flags: 0,
    }
}

/// The time that a request names, with `now` for the moment of the request
/// and `current` where the request names none.
pub open spec fn resolved_time(
    requested: Option<TimeOrNow>,
    current: Timestamp,
    now: Timestamp,
) -> Timestamp {
    match requested {
        Some(TimeOrNow::SpecificTime(t)) => t,
        Some(TimeOrNow::Now) => now,
        None => current,
    }
}

/// The mode reported after `chmod` to `mode`: the kind of the file stays,
/// the permission bits are the new ones.
pub open spec fn perm_after(perm: u16, mode: Option<u32>) -> u16 {
    match mode {
        Some(m) => (perm & FORMAT_BITS) | ((m & PERMISSION_BITS) as u16),
        None => perm,
    }
}

/// The changes to apply to a backing file, in this order: permissions,
/// owner, size, times.  The first one that fails ends the request with its
/// error; `attr` is reported when all have succeeded.
#[derive(Clone, Copy, Debug, PartialEq, Eq)]
pub struct SetAttrPlan {
    /// The mode to set, if one was given.
    pub chmod: Option<u32>,
    /// The owner and group to set, if either differs from the current one.
    pub chown: Option<(u32, u32)>,
    /// The size to cut or extend the file to, if it differs from the current one.
    pub truncate: Option<u64>,
    /// The access and modification times to set in one call, if either
    /// differs from the current one.
    pub utimens: Option<(Timestamp, Timestamp)>,
    /// The attributes after the changes.
    pub attr: FileAttr,
}

/// The plan for a request against a file whose attributes are `attr`.
pub open spec fn setattr_plan(
    attr: FileAttr,
    mode: Option<u32>,
    uid: Option<u32>,
    gid: Option<u32>,
    size: Option<u64>,
    atime: Option<TimeOrNow>,
    mtime: Option<TimeOrNow>,
    now: Timestamp,
) -> SetAttrPlan {
    let new_uid = if uid is Some { uid->0 } else { attr.uid };
    let new_gid = if gid is Some { gid->0 } else { attr.gid };
    let new_size = if size is Some { size->0 } else { attr.size };
    let new_atime = resolved_time(atime, attr.atime, now);
    let new_mtime = resolved_time(mtime, attr.mtime, now);
    SetAttrPlan {
        chmod: mode,
        chown: if new_uid != attr.uid || new_gid != attr.gid {
            Some((new_uid, new_gid))
        } else {
            None
        },
        truncate: if new_size != attr.size {
            Some(new_size)
        } else {
            None
        },
        utimens: if new_atime != attr.atime || new_mtime != attr.mtime {
            Some((new_atime, new_mtime))
        } else {
            None
        },
        attr: FileAttr {
            size: new_size,
            atime: new_atime,
            mtime: new_mtime,
            perm: perm_after(attr.perm, mode),
            uid: new_uid,
            gid: new_gid,
            ..attr
        },
    }
}

fn resolve_time(requested: Option<TimeOrNow>, current: Timestamp, now: Timestamp) -> (t:
    Timestamp)
    ensures
        t == resolved_time(requested, current, now),
{
    match requested {
        Some(TimeOrNow::SpecificTime(t)) => t,
        Some(TimeOrNow::Now) => now,
        None => current,
    }
}

/// Works out the changes that a request asks of a backing file.
///
/// A field that the request leaves out, or sets to the value it already has,
/// is not touched; only a given mode is always applied.
pub fn plan_setattr(
    attr: FileAttr,
    mode: Option<u32>,
    uid: Option<u32>,
    gid: Option<u32>,
    size: Option<u64>,
    atime: Option<TimeOrNow>,
    mtime: Option<TimeOrNow>,
    now: Timestamp,
) -> (plan: SetAttrPlan)
    ensures
        plan == setattr_plan(attr, mode, uid, gid, size, atime, mtime, now),
{
    let new_uid: u32 = match uid {
        Some(u) => u,
        None => attr.uid,
    };
    let new_gid: u32 = match gid {
        Some(g) => g,
        None => attr.gid,
    };
    let chown = if new_uid != attr.uid || new_gid != attr.gid {
        Some((new_uid, new_gid))
    } else {
        None
    };
    let new_size: u64 = match size {
        Some(s) => s,
        None => attr.size,
    };
    let truncate = if new_size != attr.size {
        Some(new_size)
    } else {
        None
    };
    let new_atime = resolve_time(atime, attr.atime, now);
    let new_mtime = resolve_time(mtime, attr.mtime, now);
    let utimens = if new_atime != attr.atime || new_mtime != attr.mtime {
        Some((new_atime, new_mtime))
    } else {
        None
    };
    let perm: u16 = match mode {
        Some(m) => (attr.perm & FORMAT_BITS) | ((m & PERMISSION_BITS) as u16),
        None => attr.perm,
    };
    SetAttrPlan {
        chmod: mode,
        chown,
        truncate,
        utimens,
        attr: FileAttr {
            ino: attr.ino,
            size: new_size,
            blocks: attr.blocks,
            atime: new_atime,
            mtime: new_mtime,
            ctime: attr.ctime,
            crtime: attr.crtime,
            kind: attr.kind,
            perm,
            nlink: attr.nlink,
            uid: new_uid,
            gid: new_gid,
            rdev: attr.rdev,
            blksize: attr.blksize,
            flags: attr.flags,
        },
    }
}

/// The answer to a request for the statistics of the file system.
#[derive(Clone, Copy, Debug, PartialEq, Eq, Structural)]
pub struct StatFs {
    pub blocks: u64,
    pub bfree: u64,
    pub bavail: u64,
    pub files: u64,
    pub ffree: u64,
    pub bsize: u32,
    pub namelen: u32,
    pub frsize: u32,
}

/// The statistics of the file system: blocks of 512 bytes, names of up to
/// 255 bytes, and no counts.
pub fn statfs() -> (s: StatFs)
    ensures
        s == (StatFs {
            blocks: 0,
            bfree: 0,
            bavail: 0,
            files: 0,
            ffree: 0,
            bsize: 512,
            namelen: 255,
            frsize: 0,
        }),
{
    StatFs {
        blocks: 0,
        bfree: 0,
        bavail: 0,
        files: 0,
        ffree: 0,
        bsize: 512,
        namelen: 255,
        frsize: 0,
    }
}

} // verus!
