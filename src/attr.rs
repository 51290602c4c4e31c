//! File attributes as the filesystem reports them.

use vstd::prelude::*;

verus! {

/// Size of one accounting block, in bytes.
pub const BLOCK_SIZE: u32 = 512;

/// Permission bits of every directory.
pub const DIR_PERM: u16 = 0o755;

/// Permission bits of every regular file.
pub const FILE_PERM: u16 = 0o444;

/// Owner and group id of every node.
pub const OWNER_ID: u32 = 1000;

/// How long, in seconds, a caller may cache an entry or attribute reply.
pub const ATTR_TTL_SECS: u64 = 1;

/// The inode of the filesystem root.
pub const ROOT_INO: u64 = 1;

#[derive(Clone, Copy, Debug, PartialEq, Eq, Structural)]
pub enum FileKind {
    Directory,
    RegularFile,
}

/// Attributes of one node. Timestamps are whole seconds since the Unix epoch.
#[derive(Clone, Copy, Debug, PartialEq, Eq, Structural)]
pub struct FileAttr {
    pub ino: u64,
    pub size: u64,
    pub blocks: u64,
    pub atime: u64,
    pub mtime: u64,
    pub ctime: u64,
    pub crtime: u64,
    pub kind: FileKind,
    pub perm: u16,
    pub nlink: u32,
    pub uid: u32,
    pub gid: u32,
    pub rdev: u32,
    pub flags: u32,
    pub blksize: u32,
}

/// The number of blocks that `size` bytes occupy: `ceil(size / 512)`.
pub open spec fn blocks_for(size: nat) -> nat {
    if size % 512 == 0 {
        size / 512
    } else {
        size / 512 + 1
    }
}

/// A creation timestamp as seconds since the epoch; an absent or negative
/// timestamp falls back to the epoch itself.
pub open spec fn epoch_secs(created: Option<i64>) -> u64 {
    match created {
        Some(s) => if s >= 0 {
            s as u64
        } else {
            0
        },
        None => 0,
    }
}

pub open spec fn dir_attr_spec(ino: u64, time: u64, nlink: u32) -> FileAttr {
    FileAttr {
        ino,
        size: 0,
        blocks: 0,
        atime: time,
        mtime: time,
        ctime: time,
        crtime: time,
        kind: FileKind::Directory,
        perm: DIR_PERM,
        nlink,
        uid: OWNER_ID,
        gid: OWNER_ID,
        rdev: 0,
        flags: 0,
        blksize: BLOCK_SIZE,
    }
}

pub open spec fn file_attr_spec(ino: u64, size: u64, time: u64) -> FileAttr {
    FileAttr {
        ino,
        size,
        blocks: blocks_for(size as nat) as u64,
        atime: time,
        mtime: time,
        ctime: time,
        crtime: time,
        kind: FileKind::RegularFile,
        perm: FILE_PERM,
        nlink: 1,
        uid: OWNER_ID,
        gid: OWNER_ID,
        rdev: 0,
        flags: 0,
        blksize: BLOCK_SIZE,
    }
}

/// `ceil(size / BLOCK_SIZE)`.
pub fn block_count(size: u64) -> (r: u64)
    ensures
        r as nat == blocks_for(size as nat),
{
    let whole = size / (BLOCK_SIZE as u64);
    if size % (BLOCK_SIZE as u64) == 0 {
        whole
    } else {
        whole + 1
    }
}

/// Seconds since the epoch of an optional creation timestamp.
pub fn creation_secs(created: Option<i64>) -> (r: u64)
    ensures
        r == epoch_secs(created),
{
    match created {
        Some(s) => if s >= 0 {
            s as u64
        } else {
            0
        },
        None => 0,
    }
}

/// Attributes of a directory with the given inode, timestamp and link count.
pub fn dir_attr(ino: u64, time: u64, nlink: u32) -> (r: FileAttr)
    ensures
        r == dir_attr_spec(ino, time, nlink),
{
    FileAttr {
        ino,
        size: 0,
        blocks: 0,
        atime: time,
        mtime: time,
        ctime: time,
        crtime: time,
        kind: FileKind::Directory,
        perm: DIR_PERM,
        nlink,
        uid: OWNER_ID,
        gid: OWNER_ID,
        rdev: 0,
        flags: 0,
        blksize: BLOCK_SIZE,
    }
}

/// Attributes of a read-only regular file of `size` bytes.
pub fn file_attr(ino: u64, size: u64, time: u64) -> (r: FileAttr)
    ensures
        r == file_attr_spec(ino, size, time),
{
    let blocks = block_count(size);
    FileAttr {
        ino,
        size,
        blocks,
        atime: time,
        mtime: time,
        ctime: time,
        crtime: time,
        kind: FileKind::RegularFile,
        perm: FILE_PERM,
        nlink: 1,
        uid: OWNER_ID,
        gid: OWNER_ID,
        rdev: 0,
        flags: 0,
        blksize: BLOCK_SIZE,
    }
}

} // verus!
