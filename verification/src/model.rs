//! The mathematical view of the filesystem and what each operation does to it.

use std::time::SystemTime;
use vstd::prelude::*;

use crate::attr::{attr_spec, blocks_for, FileAttr, FileType};
use crate::errno::Errno;
use crate::name_order::name_before;

verus! {

/// What an inode holds: file bytes, or a directory's entries (name to inode number).
pub enum DataView {
    File(Seq<u8>),
    Dir(Map<Seq<char>, u64>),
}

/// One inode: its attributes, its parent directory (the answer to `..`) and its data.
pub struct InodeView {
    pub attr: FileAttr,
    pub parent: u64,
    pub data: DataView,
}

/// The whole filesystem: the inode table and the next inode number to hand out.
pub struct FsView {
    pub inodes: Map<u64, InodeView>,
    pub next_ino: u64,
}

/// The entries of a directory's data (empty for a file).
pub open spec fn entries_of(d: DataView) -> Map<Seq<char>, u64> {
    match d {
        DataView::Dir(m) => m,
        DataView::File(_) => Map::empty(),
    }
}

/// `iv` with its directory entries replaced by `d`.
pub open spec fn with_entries(iv: InodeView, d: Map<Seq<char>, u64>) -> InodeView {
    InodeView { data: DataView::Dir(d), ..iv }
}

/// `a` with its link count replaced by `n`.
pub open spec fn with_nlink(a: FileAttr, n: u32) -> FileAttr {
    FileAttr { nlink: n, ..a }
}

/// What every state of the filesystem satisfies: inode numbers below the
/// counter, block counts that match sizes, and kinds that match the data.
pub open spec fn view_wf(v: FsView) -> bool {
    forall|k: u64| #[trigger] v.inodes.contains_key(k) ==> {
        &&& k < v.next_ino
        &&& v.inodes[k].attr.blocks == blocks_for(v.inodes[k].attr.size)
        &&& (v.inodes[k].attr.kind == FileType::Directory <==> v.inodes[k].data is Dir)
    }
}

/// `getattr`: the attributes of `ino`.
pub open spec fn getattr_spec(m: Map<u64, InodeView>, ino: u64) -> Result<FileAttr, Errno> {
    if m.contains_key(ino) {
        Ok(m[ino].attr)
    } else {
        Err(Errno::ENOENT)
    }
}

/// The entries of directory `ino`, or why there are none.
pub open spec fn dir_spec(m: Map<u64, InodeView>, ino: u64) -> Result<Map<Seq<char>, u64>, Errno> {
    if !m.contains_key(ino) {
        Err(Errno::ENOENT)
    } else {
        match m[ino].data {
            DataView::Dir(d) => Ok(d),
            DataView::File(_) => Err(Errno::ENOTDIR),
        }
    }
}

/// `lookup`: the attributes of the entry `name` of directory `parent`.
pub open spec fn lookup_spec(m: Map<u64, InodeView>, parent: u64, name: Seq<char>) -> Result<
    FileAttr,
    Errno,
> {
    match dir_spec(m, parent) {
        Err(e) => Err(e),
        Ok(d) => if d.contains_key(name) {
            getattr_spec(m, d[name])
        } else {
            Err(Errno::ENOENT)
        },
    }
}

/// The bytes from `offset` on, at most `size` of them, clipped to the buffer.
pub open spec fn read_range(buf: Seq<u8>, offset: int, size: int) -> Seq<u8> {
    let start = if offset < buf.len() { offset } else { buf.len() as int };
    let end = if start + size < buf.len() { start + size } else { buf.len() as int };
    buf.subrange(start, end)
}

/// `read`: bytes of file `ino` from `offset`.
pub open spec fn read_spec(m: Map<u64, InodeView>, ino: u64, offset: u64, size: u32) -> Result<
    Seq<u8>,
    Errno,
> {
    if !m.contains_key(ino) {
        Err(Errno::ENOENT)
    } else {
        match m[ino].data {
            DataView::File(buf) => Ok(read_range(buf, (offset as usize) as int, size as int)),
            DataView::Dir(_) => Err(Errno::EISDIR),
        }
    }
}

/// The kind a listing reports for `child`: its own, or a regular file if it is gone.
pub open spec fn kind_of(m: Map<u64, InodeView>, child: u64) -> FileType {
    if m.contains_key(child) {
        m[child].attr.kind
    } else {
        FileType::RegularFile
    }
}

/// `l` lists directory `ino`: `.`, `..`, then every entry once, in name order.
pub open spec fn is_listing(m: Map<u64, InodeView>, ino: u64, l: Seq<(u64, FileType, Seq<char>)>) -> bool {
    let d = entries_of(m[ino].data);
    let c = l.skip(2);
    &&& l.len() >= 2
    &&& l[0] == (ino, FileType::Directory, seq!['.'])
    &&& l[1] == (m[ino].parent, FileType::Directory, seq!['.', '.'])
    &&& forall|i: int, j: int| 0 <= i < j < c.len() ==> name_before(#[trigger] c[i].2, #[trigger] c[j].2)
    &&& forall|i: int|
        0 <= i < c.len() ==> {
            &&& d.contains_key(#[trigger] c[i].2)
            &&& d[c[i].2] == c[i].0
            &&& c[i].1 == kind_of(m, c[i].0)
        }
    &&& forall|k: Seq<char>| #[trigger] d.contains_key(k) ==> exists|i: int| 0 <= i < c.len() && #[trigger] c[i].2 == k
}

/// `n` zero bytes.
pub open spec fn zeros(n: nat) -> Seq<u8> {
    Seq::new(n, |i: int| 0u8)
}

/// `buf` cut or zero-extended to `n` bytes.
pub open spec fn resized(buf: Seq<u8>, n: int) -> Seq<u8> {
    if n <= buf.len() {
        buf.subrange(0, n)
    } else {
        buf + zeros((n - buf.len()) as nat)
    }
}

/// `buf` with `data` written at `offset`, zero-filling any gap past the end.
pub open spec fn written(buf: Seq<u8>, offset: int, data: Seq<u8>) -> Seq<u8> {
    let end = offset + data.len();
    let grown = if buf.len() < end { resized(buf, end) } else { buf };
    Seq::new(grown.len(), |i: int| if offset <= i < end { data[i - offset] } else { grown[i] })
}

/// Why `write` to `ino` fails, if it does.
pub open spec fn file_error(m: Map<u64, InodeView>, ino: u64) -> Option<Errno> {
    if !m.contains_key(ino) {
        Some(Errno::ENOENT)
    } else if m[ino].data is Dir {
        Some(Errno::EISDIR)
    } else {
        None
    }
}

/// `write` at time `t`.
pub open spec fn write_spec(v: FsView, ino: u64, offset: u64, data: Seq<u8>, t: SystemTime) -> Result<
    FsView,
    Errno,
> {
    if !v.inodes.contains_key(ino) {
        Err(Errno::ENOENT)
    } else {
        let iv = v.inodes[ino];
        match iv.data {
            DataView::Dir(_) => Err(Errno::EISDIR),
            DataView::File(buf) => {
                let nb = written(buf, (offset as usize) as int, data);
                let size = nb.len() as u64;
                let attr = FileAttr { size, blocks: blocks_for(size), mtime: t, ..iv.attr };
                Ok(
                    FsView {
                        inodes: v.inodes.insert(
                            ino,
                            InodeView { attr, parent: iv.parent, data: DataView::File(nb) },
                        ),
                        next_ino: v.next_ino,
                    },
                )
            },
        }
    }
}

/// The attributes after `setattr`.
pub open spec fn setattr_attr(
    a: FileAttr,
    size: Option<u64>,
    perm: Option<u16>,
    atime: Option<SystemTime>,
    mtime: Option<SystemTime>,
) -> FileAttr {
    let a1 = match size {
        Some(sz) => FileAttr { size: sz, blocks: blocks_for(sz), ..a },
        None => a,
    };
    let a2 = match perm {
        Some(p) => FileAttr { perm: p, ..a1 },
        None => a1,
    };
    let a3 = match atime {
        Some(t) => FileAttr { atime: t, ..a2 },
        None => a2,
    };
    match mtime {
        Some(t) => FileAttr { mtime: t, ..a3 },
        None => a3,
    }
}

/// `setattr`: the new state and the attributes it answers with.
pub open spec fn setattr_spec(
    v: FsView,
    ino: u64,
    size: Option<u64>,
    perm: Option<u16>,
    atime: Option<SystemTime>,
    mtime: Option<SystemTime>,
) -> Result<(FsView, FileAttr), Errno> {
    if !v.inodes.contains_key(ino) {
        Err(Errno::ENOENT)
    } else {
        let iv = v.inodes[ino];
        let attr = setattr_attr(iv.attr, size, perm, atime, mtime);
        let data = match (size, iv.data) {
            (Some(sz), DataView::File(buf)) => DataView::File(resized(buf, (sz as usize) as int)),
            (_, d) => d,
        };
        Ok(
            (
                FsView {
                    inodes: v.inodes.insert(ino, InodeView { attr, parent: iv.parent, data }),
                    next_ino: v.next_ino,
                },
                attr,
            ),
        )
    }
}

/// Why `create`/`mkdir` of `name` in `parent` fails, if it does.
pub open spec fn child_error(m: Map<u64, InodeView>, parent: u64, name: Seq<char>) -> Option<Errno> {
    match dir_spec(m, parent) {
        Err(e) => Some(e),
        Ok(d) => if d.contains_key(name) {
            Some(Errno::EEXIST)
        } else {
            None
        },
    }
}

/// The state after `create`/`mkdir` adds inode `v.next_ino` with attributes
/// `attr` and data `data` as entry `name` of `parent`.
pub open spec fn with_child(v: FsView, parent: u64, name: Seq<char>, attr: FileAttr, data: DataView) -> FsView {
    let ino = v.next_ino;
    let pv = v.inodes[parent];
    let pattr = if data is Dir {
        with_nlink(pv.attr, (pv.attr.nlink + 1) as u32)
    } else {
        pv.attr
    };
    FsView {
        inodes: v.inodes.insert(ino, InodeView { attr, parent, data }).insert(
            parent,
            InodeView { attr: pattr, parent: pv.parent, data: DataView::Dir(entries_of(pv.data).insert(name, ino)) },
        ),
        next_ino: (ino + 1) as u64,
    }
}

/// The inode that entry `name` of directory `parent` names, if the directory has it.
pub open spec fn entry_target(m: Map<u64, InodeView>, parent: u64, name: Seq<char>) -> Result<u64, Errno> {
    match dir_spec(m, parent) {
        Err(e) => Err(e),
        Ok(d) => if d.contains_key(name) {
            Ok(d[name])
        } else {
            Err(Errno::ENOENT)
        },
    }
}

/// `unlink`.
pub open spec fn unlink_spec(v: FsView, parent: u64, name: Seq<char>) -> Result<FsView, Errno> {
    let m = v.inodes;
    match entry_target(m, parent, name) {
        Err(e) => Err(e),
        Ok(ino) => if m.contains_key(ino) && m[ino].data is Dir {
            Err(Errno::EISDIR)
        } else {
            let pv = m[parent];
            Ok(
                FsView {
                    inodes: m.insert(parent, with_entries(pv, entries_of(pv.data).remove(name))).remove(ino),
                    next_ino: v.next_ino,
                },
            )
        },
    }
}

/// `rmdir`.
pub open spec fn rmdir_spec(v: FsView, parent: u64, name: Seq<char>) -> Result<FsView, Errno> {
    let m = v.inodes;
    match entry_target(m, parent, name) {
        Err(e) => Err(e),
        Ok(ino) => if !m.contains_key(ino) {
            Err(Errno::ENOENT)
        } else {
            match m[ino].data {
                DataView::File(_) => Err(Errno::ENOTDIR),
                DataView::Dir(e) => if e != Map::<Seq<char>, u64>::empty() {
                    Err(Errno::ENOTEMPTY)
                } else {
                    let pv = m[parent];
                    let n = if pv.attr.nlink == 0 { 0u32 } else { (pv.attr.nlink - 1) as u32 };
                    let np = InodeView {
                        attr: with_nlink(pv.attr, n),
                        parent: pv.parent,
                        data: DataView::Dir(entries_of(pv.data).remove(name)),
                    };
                    Ok(FsView { inodes: m.insert(parent, np).remove(ino), next_ino: v.next_ino })
                },
            }
        },
    }
}

/// Whether `x` is a directory of the table.
pub open spec fn is_dir_in(m: Map<u64, InodeView>, x: u64) -> bool {
    m.contains_key(x) && m[x].data is Dir
}

/// The inode that `rename` would overwrite: the one the destination entry
/// names, unless that entry is the source entry itself or names the same inode.
pub open spec fn rename_target(
    m: Map<u64, InodeView>,
    parent: u64,
    name: Seq<char>,
    newparent: u64,
    newname: Seq<char>,
    ino: u64,
) -> Option<u64> {
    let nd = entries_of(m[newparent].data);
    if (parent == newparent && name == newname) || !nd.contains_key(newname) || nd[newname] == ino {
        None
    } else {
        Some(nd[newname])
    }
}

/// Why inode `src` may not replace inode `dst`: a directory that still has
/// entries is never replaced, a file never replaces a directory and a
/// directory never replaces a file.
pub open spec fn replace_error(m: Map<u64, InodeView>, src: u64, dst: u64) -> Option<Errno> {
    if !m.contains_key(dst) {
        None
    } else {
        match m[dst].data {
            DataView::Dir(e) => if e != Map::<Seq<char>, u64>::empty() {
                Some(Errno::ENOTEMPTY)
            } else if !is_dir_in(m, src) {
                Some(Errno::EISDIR)
            } else {
                None
            },
            DataView::File(_) => if is_dir_in(m, src) {
                Some(Errno::ENOTDIR)
            } else {
                None
            },
        }
    }
}

/// Why `rename` fails, if it does: the destination directory is checked first,
/// then the source entry, then what the destination entry names.
pub open spec fn rename_error(
    m: Map<u64, InodeView>,
    parent: u64,
    name: Seq<char>,
    newparent: u64,
    newname: Seq<char>,
) -> Option<Errno> {
    match dir_spec(m, newparent) {
        Err(e) => Some(e),
        Ok(_) => match entry_target(m, parent, name) {
            Err(e) => Some(e),
            Ok(ino) => match rename_target(m, parent, name, newparent, newname, ino) {
                Some(d) => replace_error(m, ino, d),
                None => None,
            },
        },
    }
}

/// `rename`: when `rename_error` finds nothing, the source entry moves; an
/// entry it replaces loses its inode (a file, or an empty directory), and the
/// moved inode's parent becomes the destination.
pub open spec fn rename_spec(
    v: FsView,
    parent: u64,
    name: Seq<char>,
    newparent: u64,
    newname: Seq<char>,
) -> Result<FsView, Errno> {
    let m = v.inodes;
    match rename_error(m, parent, name, newparent, newname) {
        Some(e) => Err(e),
        None => {
            let ino = entries_of(m[parent].data)[name];
            let m1 = m.insert(parent, with_entries(m[parent], entries_of(m[parent].data).remove(name)));
            let nd = entries_of(m1[newparent].data);
            let m2 = m1.insert(newparent, with_entries(m1[newparent], nd.insert(newname, ino)));
            let m3 = if nd.contains_key(newname) { m2.remove(nd[newname]) } else { m2 };
            let m4 = if m3.contains_key(ino) {
                m3.insert(ino, InodeView { parent: newparent, ..m3[ino] })
            } else {
                m3
            };
            Ok(FsView { inodes: m4, next_ino: v.next_ino })
        },
    }
}

/// The contents the filesystem starts with in `hello.txt`: "Hello from rustFS!\n".
pub open spec fn greeting() -> Seq<u8> {
    seq![72u8, 101, 108, 108, 111, 32, 102, 114, 111, 109, 32, 114, 117, 115, 116, 70, 83, 33, 10]
}

/// The starting state at time `t`: the root directory (inode 1, its own parent)
/// holding `hello.txt` (inode 2).
pub open spec fn initial_view(t: SystemTime) -> FsView {
    let hello = seq!['h', 'e', 'l', 'l', 'o', '.', 't', 'x', 't'];
    FsView {
        inodes: Map::empty().insert(
            1,
            InodeView {
                attr: attr_spec(1, FileType::Directory, 0, 0o755, 2, t),
                parent: 1,
                data: DataView::Dir(Map::empty().insert(hello, 2)),
            },
        ).insert(
            2,
            InodeView {
                attr: attr_spec(2, FileType::RegularFile, 19, 0o644, 1, t),
                parent: 1,
                data: DataView::File(greeting()),
            },
        ),
        next_ino: 3,
    }
}

} // verus!
