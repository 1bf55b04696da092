//! Inode numbers, file kinds and file attributes, as the filesystem hands
//! them out.

use std::time::SystemTime;
use vstd::prelude::*;

verus! {

/// `std::time::SystemTime`, carried through unchanged.
#[verifier::external_type_specification]
#[verifier::external_body]
pub struct ExSystemTime(SystemTime);

/// Calls `SystemTime::now`. The clock decides the value; nothing is stated of it.
#[verifier::external_body]
pub(crate) fn current_time() -> SystemTime {
    SystemTime::now()
}

/// An inode number.
#[derive(Clone, Copy, Debug, PartialEq, Eq, Hash, Structural)]
pub struct INodeNo(pub u64);

impl INodeNo {
    /// The root directory's inode number.
    pub fn root() -> (r: INodeNo)
        ensures
            r.0 == 1,
    {
        INodeNo(1)
    }
}

/// What an inode is.
#[derive(Clone, Copy, Debug, PartialEq, Eq, Structural)]
pub enum FileType {
    RegularFile,
    Directory,
}

/// The attributes reported for an inode (owner ids are filled in by the
/// host side when the attributes are sent to the kernel).
#[derive(Clone, Copy, Debug)]
pub struct FileAttr {
    pub ino: INodeNo,
    pub size: u64,
    /// Allocated size in 512-byte blocks.
    pub blocks: u64,
    pub atime: SystemTime,
    pub mtime: SystemTime,
    pub ctime: SystemTime,
    pub crtime: SystemTime,
    pub kind: FileType,
    pub perm: u16,
    pub nlink: u32,
    pub rdev: u32,
    pub blksize: u32,
    pub flags: u32,
}

/// The number of 512-byte blocks that `size` bytes occupy (rounded up).
pub open spec fn blocks_for(size: u64) -> u64 {
    ((size as int + 511) / 512) as u64
}

/// Computes `blocks_for`.
pub fn blocks_of(size: u64) -> (b: u64)
    ensures
        b == blocks_for(size),
{
    let q = size / 512;
    if size % 512 == 0 {
        q
    } else {
        q + 1
    }
}

/// The attributes of a fresh inode: every time stamp is `time`.
pub open spec fn attr_spec(
    ino: u64,
    kind: FileType,
    size: u64,
    perm: u16,
    nlink: u32,
    time: SystemTime,
) -> FileAttr {
    FileAttr {
        ino: INodeNo(ino),
        size,
        blocks: blocks_for(size),
        atime: time,
        mtime: time,
        ctime: time,
        crtime: time,
        kind,
        perm,
        nlink,
        rdev: 0,
        blksize: 512,
        flags: 0,
    }
}

/// Builds the attributes of an inode.
pub fn mk_attr(
    ino: INodeNo,
    kind: FileType,
    size: u64,
    perm: u16,
    nlink: u32,
    time: SystemTime,
) -> (a: FileAttr)
    ensures
        a == attr_spec(ino.0, kind, size, perm, nlink, time),
        a.ino == ino && a.kind == kind && a.size == size && a.perm == perm && a.nlink == nlink,
        a.atime == time && a.mtime == time && a.ctime == time && a.crtime == time,
{
    FileAttr {
        ino,
        size,
        blocks: blocks_of(size),
        atime: time,
        mtime: time,
        ctime: time,
        crtime: time,
        kind,
        perm,
        nlink,
        rdev: 0,
        blksize: 512,
        flags: 0,
    }
}

} // verus!
