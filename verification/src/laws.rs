//! Properties that relate several operations, stated over the view.

use std::time::SystemTime;
use vstd::prelude::*;

use crate::attr::FileType;
use crate::errno::Errno;
use crate::model::{
    child_error, entries_of, file_error, lookup_spec, read_spec, rename_spec, resized,
    rmdir_spec, setattr_spec, unlink_spec, view_wf, with_child, write_spec, zeros, DataView, FsView,
};
use crate::attr::FileAttr;
use crate::model::is_listing;
use crate::name_order::{lemma_name_before_asymmetric, lemma_name_before_irreflexive, name_before};

verus! {

/// The bytes of file `ino` (empty for anything else).
pub open spec fn file_bytes(v: FsView, ino: u64) -> Seq<u8> {
    match v.inodes[ino].data {
        DataView::File(b) => b,
        DataView::Dir(_) => Seq::empty(),
    }
}

/// Reading back the range just written gives the bytes written; bytes of the
/// old file outside that range are unchanged, and a gap between the old end
/// and the offset reads as zeros.
pub proof fn law_read_after_write(v: FsView, ino: u64, offset: u64, data: Seq<u8>, t: SystemTime)
    requires
        file_error(v.inodes, ino) is None,
        offset + data.len() <= usize::MAX,
        data.len() <= u32::MAX,
        file_bytes(v, ino).len() <= usize::MAX,
    ensures
        ({
            let w = write_spec(v, ino, offset, data, t)->Ok_0;
            let old = file_bytes(v, ino);
            let new = file_bytes(w, ino);
            &&& write_spec(v, ino, offset, data, t) is Ok
            &&& read_spec(w.inodes, ino, offset, data.len() as u32) == Ok::<Seq<u8>, Errno>(data)
            &&& forall|i: int|
                0 <= i < old.len() && !(offset <= i < offset + data.len()) ==> #[trigger] new[i] == old[i]
            &&& old.len() < offset && offset - old.len() <= u32::MAX ==> read_spec(w.inodes, ino, old.len() as u64, (offset - old.len()) as u32)
                == Ok::<Seq<u8>, Errno>(zeros((offset - old.len()) as nat))
            &&& new.len() == if old.len() < offset + data.len() { offset + data.len() } else { old.len() as int }
            &&& w.inodes[ino].attr.size == new.len()
        }),
{
    let w = write_spec(v, ino, offset, data, t)->Ok_0;
    let old = file_bytes(v, ino);
    let new = file_bytes(w, ino);
    assert(new.subrange(offset as int, offset + data.len()) =~= data);
    if old.len() < offset && offset - old.len() <= u32::MAX {
        assert(new.subrange(old.len() as int, offset as int) =~= zeros((offset - old.len()) as nat));
    }
}

/// Truncating or extending a file with `setattr` leaves exactly its first
/// `size` bytes, zero-extended, and reports that size.
pub proof fn law_setattr_resizes(
    v: FsView,
    ino: u64,
    size: u64,
    perm: Option<u16>,
    atime: Option<SystemTime>,
    mtime: Option<SystemTime>,
)
    requires
        file_error(v.inodes, ino) is None,
        size <= usize::MAX,
    ensures
        ({
            let r = setattr_spec(v, ino, Some(size), perm, atime, mtime);
            &&& r is Ok
            &&& file_bytes(r->Ok_0.0, ino) == resized(file_bytes(v, ino), size as int)
            &&& file_bytes(r->Ok_0.0, ino).len() == size
            &&& r->Ok_0.1.size == size
            &&& r->Ok_0.0.inodes[ino].attr == r->Ok_0.1
        }),
{
}

/// The entry that `create` or `mkdir` adds is found by `lookup`, with the
/// attributes the call returned; a second `create` of the same name is refused.
pub proof fn law_lookup_finds_new_child(v: FsView, parent: u64, name: Seq<char>, attr: FileAttr, data: DataView)
    requires
        view_wf(v),
        child_error(v.inodes, parent, name) is None,
    ensures
        lookup_spec(with_child(v, parent, name, attr, data).inodes, parent, name) == Ok::<FileAttr, Errno>(attr),
        child_error(with_child(v, parent, name, attr, data).inodes, parent, name) == Some(Errno::EEXIST),
        !v.inodes.contains_key(v.next_ino),
{
    assert(parent < v.next_ino);
}

/// `mkdir` bumps its parent's link count by one, and `rmdir` of the new,
/// still empty directory gives back the state as it was, but for the inode
/// counter.
pub proof fn law_rmdir_undoes_mkdir(v: FsView, parent: u64, name: Seq<char>, attr: FileAttr)
    requires
        view_wf(v),
        child_error(v.inodes, parent, name) is None,
        v.inodes[parent].attr.nlink < u32::MAX,
    ensures
        with_child(v, parent, name, attr, DataView::Dir(Map::empty())).inodes[parent].attr.nlink
            == v.inodes[parent].attr.nlink + 1,
        rmdir_spec(with_child(v, parent, name, attr, DataView::Dir(Map::empty())), parent, name)
            == Ok::<FsView, Errno>(FsView { inodes: v.inodes, next_ino: (v.next_ino + 1) as u64 }),
{
    let w = with_child(v, parent, name, attr, DataView::Dir(Map::empty()));
    let ino = v.next_ino;
    assert(parent < v.next_ino);
    let d = entries_of(v.inodes[parent].data);
    assert(d.insert(name, ino).remove(name) =~= d);
    let pv = w.inodes[parent];
    let n = if pv.attr.nlink == 0 { 0u32 } else { (pv.attr.nlink - 1) as u32 };
    let r = rmdir_spec(w, parent, name)->Ok_0;
    assert(r.inodes[parent] == v.inodes[parent]);
    assert(r.inodes =~= v.inodes);
}

/// `unlink` of a file just made by `create` gives back the state as it was,
/// but for the inode counter.
pub proof fn law_unlink_undoes_create(v: FsView, parent: u64, name: Seq<char>, attr: FileAttr)
    requires
        view_wf(v),
        child_error(v.inodes, parent, name) is None,
    ensures
        unlink_spec(with_child(v, parent, name, attr, DataView::File(Seq::empty())), parent, name)
            == Ok::<FsView, Errno>(FsView { inodes: v.inodes, next_ino: (v.next_ino + 1) as u64 }),
{
    let w = with_child(v, parent, name, attr, DataView::File(Seq::empty()));
    let ino = v.next_ino;
    assert(parent < v.next_ino);
    let d = entries_of(v.inodes[parent].data);
    assert(d.insert(name, ino).remove(name) =~= d);
    let r = unlink_spec(w, parent, name)->Ok_0;
    assert(r.inodes[parent] == v.inodes[parent]);
    assert(r.inodes =~= v.inodes);
}

/// After `unlink`, the name is gone from its directory.
pub proof fn law_unlink_removes_name(v: FsView, parent: u64, name: Seq<char>)
    requires
        unlink_spec(v, parent, name) is Ok,
    ensures
        lookup_spec(unlink_spec(v, parent, name)->Ok_0.inodes, parent, name) == Err::<FileAttr, Errno>(Errno::ENOENT),
{
}

/// After a successful `rename` to another place, the old name is gone, the new
/// name finds the moved inode, and that inode's `..` is the new directory.
/// (The law leaves out a destination entry that names the moved inode or the
/// destination directory itself.)
pub proof fn law_rename_moves_entry(v: FsView, parent: u64, name: Seq<char>, newparent: u64, newname: Seq<char>)
    requires
        rename_spec(v, parent, name, newparent, newname) is Ok,
        parent != newparent || name != newname,
        v.inodes.contains_key(entries_of(v.inodes[parent].data)[name]),
        entries_of(v.inodes[newparent].data).contains_key(newname) ==> {
            let old = entries_of(v.inodes[newparent].data)[newname];
            old != entries_of(v.inodes[parent].data)[name] && old != newparent
        },
    ensures
        ({
            let w = rename_spec(v, parent, name, newparent, newname)->Ok_0;
            let ino = entries_of(v.inodes[parent].data)[name];
            &&& w.inodes.contains_key(ino)
            &&& w.inodes[ino].parent == newparent
            &&& lookup_spec(w.inodes, newparent, newname) == Ok::<FileAttr, Errno>(w.inodes[ino].attr)
            &&& w.inodes[ino].attr == v.inodes[ino].attr
            &&& w.inodes[ino].data == v.inodes[ino].data || ino == newparent || ino == parent
            &&& lookup_spec(w.inodes, parent, name) is Err
        }),
{
    let m = v.inodes;
    let ino = entries_of(m[parent].data)[name];
    let m1 = m.insert(parent, crate::model::with_entries(m[parent], entries_of(m[parent].data).remove(name)));
    let nd = entries_of(m1[newparent].data);
    if parent != newparent && nd.contains_key(newname) {
        assert(nd[newname] == entries_of(m[newparent].data)[newname]);
    }
}

/// Strictly increasing names.
pub open spec fn strictly_sorted(s: Seq<Seq<char>>) -> bool {
    forall|i: int, j: int| 0 <= i < j < s.len() ==> name_before(#[trigger] s[i], #[trigger] s[j])
}

/// Two strictly sorted sequences of names with the same members are equal.
pub proof fn lemma_sorted_names_unique(a: Seq<Seq<char>>, b: Seq<Seq<char>>)
    requires
        strictly_sorted(a),
        strictly_sorted(b),
        forall|x: Seq<char>| a.contains(x) <==> b.contains(x),
    ensures
        a == b,
    decreases a.len() + b.len(),
{
    if a.len() == 0 {
        if b.len() > 0 {
            assert(b.contains(b[0]));
        }
        assert(a =~= b);
    } else if b.len() == 0 {
        assert(a.contains(a[0]));
    } else {
        assert(a.contains(a[0]));
        assert(b.contains(b[0]));
        let k = choose|k: int| 0 <= k < b.len() && b[k] == a[0];
        let j = choose|j: int| 0 <= j < a.len() && a[j] == b[0];
        if a[0] != b[0] {
            assert(k > 0 && j > 0);
            assert(name_before(b[0], b[k]));
            assert(name_before(a[0], a[j]));
            lemma_name_before_asymmetric(a[0], b[0]);
        }
        let a1 = a.drop_first();
        let b1 = b.drop_first();
        assert forall|x: Seq<char>| a1.contains(x) <==> b1.contains(x) by {
            if a1.contains(x) {
                let i = choose|i: int| 0 <= i < a1.len() && a1[i] == x;
                assert(a.contains(x));
                assert(name_before(a[0], a[i + 1]));
                lemma_name_before_irreflexive(x);
                let q = choose|q: int| 0 <= q < b.len() && b[q] == x;
                assert(q != 0);
                assert(b1[q - 1] == x);
            }
            if b1.contains(x) {
                let i = choose|i: int| 0 <= i < b1.len() && b1[i] == x;
                assert(b.contains(x));
                assert(name_before(b[0], b[i + 1]));
                lemma_name_before_irreflexive(x);
                let q = choose|q: int| 0 <= q < a.len() && a[q] == x;
                assert(q != 0);
                assert(a1[q - 1] == x);
            }
        }
        assert(strictly_sorted(a1)) by {
            assert forall|i: int, j: int| 0 <= i < j < a1.len() implies name_before(#[trigger] a1[i], #[trigger] a1[j]) by {
                assert(name_before(a[i + 1], a[j + 1]));
            }
        }
        assert(strictly_sorted(b1)) by {
            assert forall|i: int, j: int| 0 <= i < j < b1.len() implies name_before(#[trigger] b1[i], #[trigger] b1[j]) by {
                assert(name_before(b[i + 1], b[j + 1]));
            }
        }
        lemma_sorted_names_unique(a1, b1);
        assert(a =~= b) by {
            assert forall|i: int| 0 <= i < a.len() implies a[i] == b[i] by {
                if i > 0 {
                    assert(a[i] == a1[i - 1]);
                    assert(b[i] == b1[i - 1]);
                }
            }
        }
    }
}

/// A directory has exactly one listing: `readdir`'s answer is determined by the state.
pub proof fn law_listing_unique(
    m: Map<u64, crate::model::InodeView>,
    ino: u64,
    l1: Seq<(u64, FileType, Seq<char>)>,
    l2: Seq<(u64, FileType, Seq<char>)>,
)
    requires
        is_listing(m, ino, l1),
        is_listing(m, ino, l2),
    ensures
        l1 == l2,
{
    let c1 = l1.skip(2);
    let c2 = l2.skip(2);
    let n1 = c1.map_values(|e: (u64, FileType, Seq<char>)| e.2);
    let n2 = c2.map_values(|e: (u64, FileType, Seq<char>)| e.2);
    let d = entries_of(m[ino].data);
    assert(strictly_sorted(n1)) by {
        assert forall|i: int, j: int| 0 <= i < j < n1.len() implies name_before(#[trigger] n1[i], #[trigger] n1[j]) by {
            assert(name_before(c1[i].2, c1[j].2));
        }
    }
    assert(strictly_sorted(n2)) by {
        assert forall|i: int, j: int| 0 <= i < j < n2.len() implies name_before(#[trigger] n2[i], #[trigger] n2[j]) by {
            assert(name_before(c2[i].2, c2[j].2));
        }
    }
    assert forall|x: Seq<char>| n1.contains(x) <==> n2.contains(x) by {
        if n1.contains(x) {
            let i = choose|i: int| 0 <= i < n1.len() && n1[i] == x;
            assert(d.contains_key(c1[i].2));
            let q = choose|q: int| 0 <= q < c2.len() && #[trigger] c2[q].2 == x;
            assert(n2[q] == x);
        }
        if n2.contains(x) {
            let i = choose|i: int| 0 <= i < n2.len() && n2[i] == x;
            assert(d.contains_key(c2[i].2));
            let q = choose|q: int| 0 <= q < c1.len() && #[trigger] c1[q].2 == x;
            assert(n1[q] == x);
        }
    }
    lemma_sorted_names_unique(n1, n2);
    assert(c1.len() == c2.len()) by {
        assert(n1.len() == n2.len());
    }
    assert forall|i: int| 0 <= i < c1.len() implies c1[i] == c2[i] by {
        assert(n1[i] == n2[i]);
        assert(d.contains_key(c1[i].2));
        assert(d.contains_key(c2[i].2));
    }
    assert(l1 =~= l2) by {
        assert forall|i: int| 0 <= i < l1.len() implies l1[i] == l2[i] by {
            if i >= 2 {
                assert(l1[i] == c1[i - 2]);
                assert(l2[i] == c2[i - 2]);
            }
        }
    }
}

/// Two reads of adjacent ranges together give the read of the whole range.
/// (Stated where the second read's offset fits in `usize`, so that the reads'
/// casts are exact.)
pub proof fn law_adjacent_reads(m: Map<u64, crate::model::InodeView>, ino: u64, offset: u64, a: u32, b: u32)
    requires
        file_error(m, ino) is None,
        offset + a <= usize::MAX,
        a + b <= u32::MAX,
    ensures
        read_spec(m, ino, offset, a) is Ok,
        read_spec(m, ino, (offset + a) as u64, b) is Ok,
        read_spec(m, ino, offset, a)->Ok_0 + read_spec(m, ino, (offset + a) as u64, b)->Ok_0
            == read_spec(m, ino, offset, (a + b) as u32)->Ok_0,
{
    let r1 = read_spec(m, ino, offset, a)->Ok_0;
    let r2 = read_spec(m, ino, (offset + a) as u64, b)->Ok_0;
    assert(r1 + r2 =~= read_spec(m, ino, offset, (a + b) as u32)->Ok_0);
}

} // verus!
