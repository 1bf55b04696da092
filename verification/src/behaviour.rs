//! What each operation answers, stated as relations between its inputs and
//! its results that do not depend on how the operation is written.

use std::time::SystemTime;
use vstd::prelude::*;

use crate::attr::{attr_spec, FileAttr, FileType, INodeNo};
use crate::errno::Errno;
use crate::model::{
    entry_target, getattr_spec, is_dir_in, lookup_spec, rename_error, rename_spec, setattr_spec,
    unlink_spec, view_wf, DataView, FsView,
};
use crate::tree::{dir_entries, tree_ok};

verus! {

/// A fresh inode's attributes carry exactly what was asked for: its number,
/// kind, size, permission bits and link count, and one time for all four
/// time stamps, with blocks rounded up from the size.
pub proof fn law_fresh_attributes(ino: u64, kind: FileType, size: u64, perm: u16, nlink: u32, t: SystemTime)
    ensures
        ({
            let a = attr_spec(ino, kind, size, perm, nlink, t);
            &&& a.ino == INodeNo(ino)
            &&& a.kind == kind
            &&& a.size == size
            &&& a.perm == perm
            &&& a.nlink == nlink
            &&& a.atime == t && a.mtime == t && a.ctime == t && a.crtime == t
            &&& a.blocks * 512 >= size && (a.blocks == 0 || (a.blocks - 1) * 512 < size)
        }),
{
}

/// `getattr` reports an inode's kind truly: a directory exactly when the
/// inode holds entries, and a file's size as its length; `lookup` of a
/// name answers what `getattr` of the inode it names answers.
pub proof fn law_getattr_reports_the_inode(v: FsView, ino: u64, parent: u64, name: Seq<char>)
    requires
        view_wf(v),
        tree_ok(v.inodes),
    ensures
        v.inodes.contains_key(ino) <==> getattr_spec(v.inodes, ino) is Ok,
        getattr_spec(v.inodes, ino) is Ok ==> {
            let a = getattr_spec(v.inodes, ino)->Ok_0;
            &&& (a.kind == FileType::Directory <==> v.inodes[ino].data is Dir)
            &&& (a.kind == FileType::RegularFile <==> v.inodes[ino].data is File)
            &&& (v.inodes[ino].data matches DataView::File(b) ==> (a.size as usize) == b.len())
        },
        is_dir_in(v.inodes, parent) && dir_entries(v.inodes, parent).contains_key(name) ==> lookup_spec(
            v.inodes,
            parent,
            name,
        ) == getattr_spec(v.inodes, dir_entries(v.inodes, parent)[name]),
{
    if v.inodes.contains_key(ino) {
        assert(crate::tree::sizes_ok(v.inodes));
    }
}

/// `unlink` of an entry that names a file always succeeds, whatever the file
/// holds: the inode is gone, the name is gone, and nothing else changes.
pub proof fn law_unlink_file_succeeds(v: FsView, parent: u64, name: Seq<char>)
    requires
        tree_ok(v.inodes),
        entry_target(v.inodes, parent, name) is Ok,
        v.inodes[entry_target(v.inodes, parent, name)->Ok_0].data is File,
    ensures
        ({
            let i = entry_target(v.inodes, parent, name)->Ok_0;
            let r = unlink_spec(v, parent, name);
            &&& r is Ok
            &&& !r->Ok_0.inodes.contains_key(i)
            &&& lookup_spec(r->Ok_0.inodes, parent, name) == Err::<FileAttr, Errno>(Errno::ENOENT)
            &&& r->Ok_0.next_ino == v.next_ino
            &&& forall|x: u64| x != i && x != parent ==> (#[trigger] r->Ok_0.inodes.contains_key(x)
                <==> v.inodes.contains_key(x)) && (v.inodes.contains_key(x) ==> r->Ok_0.inodes[x]
                == v.inodes[x])
        }),
{
    let i = entry_target(v.inodes, parent, name)->Ok_0;
    assert(is_dir_in(v.inodes, parent) && dir_entries(v.inodes, parent).contains_key(name));
    assert(v.inodes.contains_key(i) && i != parent);
}

/// `rename` fails only for a bad destination directory, a missing source
/// entry, or a destination that may not be replaced: moving a file to a free
/// name, or over another file, in the same directory or another, succeeds,
/// and the destination name then names the moved inode.
pub proof fn law_rename_file_succeeds(v: FsView, parent: u64, name: Seq<char>, newparent: u64, newname: Seq<char>)
    requires
        tree_ok(v.inodes),
        is_dir_in(v.inodes, newparent),
        entry_target(v.inodes, parent, name) is Ok,
        v.inodes[entry_target(v.inodes, parent, name)->Ok_0].data is File,
        dir_entries(v.inodes, newparent).contains_key(newname) ==> v.inodes[dir_entries(
            v.inodes,
            newparent,
        )[newname]].data is File,
    ensures
        ({
            let i = entry_target(v.inodes, parent, name)->Ok_0;
            let r = rename_spec(v, parent, name, newparent, newname);
            &&& rename_error(v.inodes, parent, name, newparent, newname) is None
            &&& r is Ok
            &&& dir_entries(r->Ok_0.inodes, newparent).contains_key(newname)
            &&& dir_entries(r->Ok_0.inodes, newparent)[newname] == i
            &&& r->Ok_0.inodes.contains_key(i)
            &&& r->Ok_0.inodes[i].parent == newparent
            &&& r->Ok_0.inodes[i].data == v.inodes[i].data
            &&& r->Ok_0.inodes[i].attr == v.inodes[i].attr
        }),
{
    let m = v.inodes;
    let d = dir_entries(m, parent);
    let i = d[name];
    assert(m.contains_key(i) && m[i].parent == parent && i != 1);
    let nd0 = dir_entries(m, newparent);
    if nd0.contains_key(newname) {
        let g = nd0[newname];
        assert(m.contains_key(g) && m[g].parent == newparent);
    }
    let m1 = m.insert(parent, crate::model::with_entries(m[parent], d.remove(name)));
    let nd = dir_entries(m1, newparent);
    if nd.contains_key(newname) {
        let g = nd[newname];
        if parent == newparent {
            assert(d.contains_key(newname) && newname != name);
            assert(d[newname] != d[name]);
        } else {
            assert(nd0.contains_key(newname));
            assert(m[g].parent == newparent);
        }
        assert(g != i);
        assert(g != newparent);
    }
}

/// `setattr` sets exactly what it is given and keeps the rest: the size (and
/// blocks), the permission bits, the access time and the modification time
/// each take the given value when there is one and keep the old one when
/// there is none; the inode number, kind, link count and other time stamps
/// never change; and the stored attributes are the ones answered.
pub proof fn law_setattr_sets_what_is_given(
    v: FsView,
    ino: u64,
    size: Option<u64>,
    perm: Option<u16>,
    atime: Option<SystemTime>,
    mtime: Option<SystemTime>,
)
    requires
        v.inodes.contains_key(ino),
    ensures
        ({
            let old = v.inodes[ino].attr;
            let r = setattr_spec(v, ino, size, perm, atime, mtime);
            let a = r->Ok_0.1;
            &&& r is Ok
            &&& r->Ok_0.0.inodes[ino].attr == a
            &&& a.size == (match size { Some(s) => s, None => old.size })
            &&& a.perm == (match perm { Some(p) => p, None => old.perm })
            &&& a.atime == (match atime { Some(t) => t, None => old.atime })
            &&& a.mtime == (match mtime { Some(t) => t, None => old.mtime })
            &&& a.ino == old.ino && a.kind == old.kind && a.nlink == old.nlink
            &&& a.ctime == old.ctime && a.crtime == old.crtime
            &&& a.rdev == old.rdev && a.blksize == old.blksize && a.flags == old.flags
            &&& size is None ==> a.blocks == old.blocks
        }),
{
}

} // verus!
