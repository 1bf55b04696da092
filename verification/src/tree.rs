//! The shape of the inode table as a tree: every entry names an inode whose
//! `..` is the directory holding the entry, every inode but the root is named
//! once in its parent, and file sizes match file contents. Each operation
//! keeps this shape.

use std::time::SystemTime;
use vstd::prelude::*;

use crate::attr::FileAttr;
use crate::model::{
    entries_of, initial_view, is_dir_in, rename_spec, rmdir_spec, setattr_spec, unlink_spec,
    view_wf, with_child, write_spec, DataView, FsView, InodeView,
};

verus! {

/// The entries of inode `p` in table `m` (empty unless it is a directory).
pub open spec fn dir_entries(m: Map<u64, InodeView>, p: u64) -> Map<Seq<char>, u64> {
    entries_of(m[p].data)
}

/// The root (inode 1) is a directory and its own parent.
pub open spec fn root_ok(m: Map<u64, InodeView>) -> bool {
    is_dir_in(m, 1) && m[1].parent == 1
}

/// Every entry names an inode of the table, never the root, whose parent is
/// the directory holding the entry.
pub open spec fn entries_point_home(m: Map<u64, InodeView>) -> bool {
    forall|p: u64, n: Seq<char>|
        is_dir_in(m, p) && #[trigger] dir_entries(m, p).contains_key(n) ==> {
            let c = dir_entries(m, p)[n];
            &&& m.contains_key(c)
            &&& c != 1
            &&& m[c].parent == p
        }
}

/// No directory names one inode twice.
pub open spec fn names_unique(m: Map<u64, InodeView>) -> bool {
    forall|p: u64, n1: Seq<char>, n2: Seq<char>|
        is_dir_in(m, p) && dir_entries(m, p).contains_key(n1) && dir_entries(m, p).contains_key(n2)
            && n1 != n2 ==> #[trigger] dir_entries(m, p)[n1] != #[trigger] dir_entries(m, p)[n2]
}

/// Every inode but the root is named in its parent, which is a directory.
pub open spec fn all_named(m: Map<u64, InodeView>) -> bool {
    forall|c: u64|
        #[trigger] m.contains_key(c) && c != 1 ==> {
            &&& is_dir_in(m, m[c].parent)
            &&& exists|n: Seq<char>|
                #[trigger] dir_entries(m, m[c].parent).contains_key(n) && dir_entries(m, m[c].parent)[n] == c
        }
}

/// A file's size is its length.
pub open spec fn sizes_ok(m: Map<u64, InodeView>) -> bool {
    forall|c: u64|
        #[trigger] m.contains_key(c) ==> match m[c].data {
            DataView::File(b) => b.len() <= usize::MAX && (m[c].attr.size as usize) == b.len(),
            DataView::Dir(_) => true,
        }
}

/// The table is a tree of named inodes, with file sizes that match contents.
pub open spec fn tree_ok(m: Map<u64, InodeView>) -> bool {
    &&& root_ok(m)
    &&& entries_point_home(m)
    &&& names_unique(m)
    &&& all_named(m)
    &&& sizes_ok(m)
}

/// The filesystem starts as a tree.
pub proof fn law_initial_tree(t: SystemTime)
    ensures
        tree_ok(initial_view(t).inodes),
{
    let m = initial_view(t).inodes;
    let hello = seq!['h', 'e', 'l', 'l', 'o', '.', 't', 'x', 't'];
    assert forall|c: u64| #[trigger] m.contains_key(c) && c != 1 implies {
        &&& is_dir_in(m, m[c].parent)
        &&& exists|n: Seq<char>|
            #[trigger] dir_entries(m, m[c].parent).contains_key(n) && dir_entries(m, m[c].parent)[n] == c
    } by {
        assert(dir_entries(m, 1).contains_key(hello));
    }
}

/// Writing to a file keeps the tree.
pub proof fn law_write_keeps_tree(v: FsView, ino: u64, offset: u64, data: Seq<u8>, t: SystemTime)
    requires
        tree_ok(v.inodes),
        write_spec(v, ino, offset, data, t) is Ok,
        ((offset as usize) + data.len()) <= usize::MAX,
    ensures
        tree_ok(write_spec(v, ino, offset, data, t)->Ok_0.inodes),
{
    let m = v.inodes;
    let w = write_spec(v, ino, offset, data, t)->Ok_0.inodes;
    assert forall|p: u64| #[trigger] is_dir_in(w, p) implies is_dir_in(m, p) && dir_entries(w, p) == dir_entries(m, p) by {}
    assert forall|c: u64| #[trigger] m.contains_key(c) && c != 1 implies {
        &&& is_dir_in(w, w[c].parent)
        &&& exists|n: Seq<char>|
            #[trigger] dir_entries(w, w[c].parent).contains_key(n) && dir_entries(w, w[c].parent)[n] == c
    } by {
        let p = m[c].parent;
        let n = choose|n: Seq<char>| #[trigger] dir_entries(m, p).contains_key(n) && dir_entries(m, p)[n] == c;
        assert(dir_entries(w, p).contains_key(n));
    }
}

/// `setattr` keeps the tree.
pub proof fn law_setattr_keeps_tree(
    v: FsView,
    ino: u64,
    size: Option<u64>,
    perm: Option<u16>,
    atime: Option<SystemTime>,
    mtime: Option<SystemTime>,
)
    requires
        tree_ok(v.inodes),
        setattr_spec(v, ino, size, perm, atime, mtime) is Ok,
    ensures
        tree_ok(setattr_spec(v, ino, size, perm, atime, mtime)->Ok_0.0.inodes),
{
    let m = v.inodes;
    let w = setattr_spec(v, ino, size, perm, atime, mtime)->Ok_0.0.inodes;
    assert forall|p: u64| #[trigger] is_dir_in(w, p) implies is_dir_in(m, p) && dir_entries(w, p) == dir_entries(m, p) by {}
    assert forall|c: u64| #[trigger] m.contains_key(c) && c != 1 implies {
        &&& is_dir_in(w, w[c].parent)
        &&& exists|n: Seq<char>|
            #[trigger] dir_entries(w, w[c].parent).contains_key(n) && dir_entries(w, w[c].parent)[n] == c
    } by {
        let p = m[c].parent;
        let n = choose|n: Seq<char>| #[trigger] dir_entries(m, p).contains_key(n) && dir_entries(m, p)[n] == c;
        assert(dir_entries(w, p).contains_key(n));
    }
}

/// `create` and `mkdir` keep the tree: the new inode is named once, in its parent.
pub proof fn law_create_keeps_tree(v: FsView, parent: u64, name: Seq<char>, attr: FileAttr, data: DataView)
    requires
        view_wf(v),
        tree_ok(v.inodes),
        crate::model::child_error(v.inodes, parent, name) is None,
        attr.size == 0,
        data == DataView::File(Seq::empty()) || data == DataView::Dir(Map::empty()),
    ensures
        tree_ok(with_child(v, parent, name, attr, data).inodes),
{
    let m = v.inodes;
    let w = with_child(v, parent, name, attr, data).inodes;
    let c0 = v.next_ino;
    assert(parent < c0);
    assert(!m.contains_key(c0));
    let d = dir_entries(m, parent);
    assert(dir_entries(w, parent) == d.insert(name, c0));
    assert forall|p: u64, n: Seq<char>| is_dir_in(w, p) && #[trigger] dir_entries(w, p).contains_key(n) implies {
        let c = dir_entries(w, p)[n];
        &&& w.contains_key(c)
        &&& c != 1
        &&& w[c].parent == p
    } by {
        if p == parent {
            if n != name {
                assert(d.contains_key(n));
            }
        } else if p == c0 {
            assert(dir_entries(w, p) == Map::<Seq<char>, u64>::empty());
        } else {
            assert(dir_entries(w, p) == dir_entries(m, p));
            assert(dir_entries(m, p).contains_key(n));
            assert(dir_entries(m, p)[n] != c0);
        }
    }
    assert forall|p: u64, n1: Seq<char>, n2: Seq<char>|
        is_dir_in(w, p) && dir_entries(w, p).contains_key(n1) && dir_entries(w, p).contains_key(n2)
            && n1 != n2 implies #[trigger] dir_entries(w, p)[n1] != #[trigger] dir_entries(w, p)[n2] by {
        if p == parent {
            if n1 != name && n2 != name {
                assert(d[n1] != d[n2]);
            } else if n1 == name {
                assert(d.contains_key(n2));
                assert(d[n2] != c0);
            } else {
                assert(d.contains_key(n1));
                assert(d[n1] != c0);
            }
        } else if p == c0 {
            assert(dir_entries(w, p) == Map::<Seq<char>, u64>::empty());
        } else {
            assert(dir_entries(w, p) == dir_entries(m, p));
        }
    }
    assert forall|c: u64| #[trigger] w.contains_key(c) && c != 1 implies {
        &&& is_dir_in(w, w[c].parent)
        &&& exists|n: Seq<char>|
            #[trigger] dir_entries(w, w[c].parent).contains_key(n) && dir_entries(w, w[c].parent)[n] == c
    } by {
        if c == c0 {
            assert(dir_entries(w, parent).contains_key(name));
        } else {
            let p = m[c].parent;
            assert(m.contains_key(c));
            let n = choose|n: Seq<char>| #[trigger] dir_entries(m, p).contains_key(n) && dir_entries(m, p)[n] == c;
            assert(p != c0);
            if p == parent {
                assert(n != name);
                assert(dir_entries(w, p).contains_key(n));
            } else {
                assert(dir_entries(w, p) == dir_entries(m, p));
                assert(dir_entries(w, p).contains_key(n));
            }
        }
    }
    assert(sizes_ok(w)) by {
        assert forall|c: u64| #[trigger] w.contains_key(c) implies match w[c].data {
            DataView::File(b) => b.len() <= usize::MAX && (w[c].attr.size as usize) == b.len(),
            DataView::Dir(_) => true,
        } by {
            if c != c0 && c != parent {
                assert(m.contains_key(c));
            }
        }
    }
}

/// Removing the entry `n` of directory `p`, and the inode it names when that
/// is a file or an empty directory, keeps the tree.
pub proof fn lemma_detach_keeps_tree(m: Map<u64, InodeView>, p: u64, n: Seq<char>, a: FileAttr)
    requires
        tree_ok(m),
        is_dir_in(m, p),
        dir_entries(m, p).contains_key(n),
        m[dir_entries(m, p)[n]].data is File || dir_entries(m, dir_entries(m, p)[n]) == Map::<Seq<char>, u64>::empty(),
    ensures
        tree_ok(
            m.insert(
                p,
                InodeView { attr: a, parent: m[p].parent, data: DataView::Dir(dir_entries(m, p).remove(n)) },
            ).remove(dir_entries(m, p)[n]),
        ),
{
    let d = dir_entries(m, p);
    let c = d[n];
    let w = m.insert(p, InodeView { attr: a, parent: m[p].parent, data: DataView::Dir(d.remove(n)) }).remove(c);
    assert(m.contains_key(c) && c != 1 && m[c].parent == p);
    assert(c != p) by {
        if c == p {
            assert(dir_entries(m, c).contains_key(n));
        }
    }
    // Nothing has `c` as its parent.
    assert forall|x: u64| #[trigger] m.contains_key(x) && x != 1 implies m[x].parent != c by {
        if m[x].parent == c {
            let k = choose|k: Seq<char>| #[trigger] dir_entries(m, c).contains_key(k) && dir_entries(m, c)[k] == x;
        }
    }
    assert forall|q: u64, k: Seq<char>| is_dir_in(w, q) && #[trigger] dir_entries(w, q).contains_key(k) implies {
        let x = dir_entries(w, q)[k];
        &&& w.contains_key(x)
        &&& x != 1
        &&& w[x].parent == q
    } by {
        if q == p {
            assert(k != n);
            assert(d.contains_key(k));
            assert(d[k] != c);
        } else {
            assert(dir_entries(w, q) == dir_entries(m, q));
            assert(m.contains_key(dir_entries(m, q)[k]));
        }
    }
    assert forall|q: u64, n1: Seq<char>, n2: Seq<char>|
        is_dir_in(w, q) && dir_entries(w, q).contains_key(n1) && dir_entries(w, q).contains_key(n2)
            && n1 != n2 implies #[trigger] dir_entries(w, q)[n1] != #[trigger] dir_entries(w, q)[n2] by {
        if q == p {
            assert(d[n1] != d[n2]);
        } else {
            assert(dir_entries(w, q) == dir_entries(m, q));
        }
    }
    assert forall|x: u64| #[trigger] w.contains_key(x) && x != 1 implies {
        &&& is_dir_in(w, w[x].parent)
        &&& exists|k: Seq<char>|
            #[trigger] dir_entries(w, w[x].parent).contains_key(k) && dir_entries(w, w[x].parent)[k] == x
    } by {
        assert(m.contains_key(x));
        let q = m[x].parent;
        assert(w[x].parent == q);
        let k = choose|k: Seq<char>| #[trigger] dir_entries(m, q).contains_key(k) && dir_entries(m, q)[k] == x;
        assert(q != c);
        if q == p {
            assert(k != n);
            assert(dir_entries(w, q).contains_key(k));
        } else {
            assert(dir_entries(w, q) == dir_entries(m, q));
            assert(dir_entries(w, q).contains_key(k));
        }
    }
    assert(sizes_ok(w)) by {
        assert forall|x: u64| #[trigger] w.contains_key(x) implies match w[x].data {
            DataView::File(b) => b.len() <= usize::MAX && (w[x].attr.size as usize) == b.len(),
            DataView::Dir(_) => true,
        } by {
            if x != p {
                assert(m.contains_key(x));
            }
        }
    }
}

/// `unlink` keeps the tree.
pub proof fn law_unlink_keeps_tree(v: FsView, parent: u64, name: Seq<char>)
    requires
        tree_ok(v.inodes),
        unlink_spec(v, parent, name) is Ok,
    ensures
        tree_ok(unlink_spec(v, parent, name)->Ok_0.inodes),
{
    let m = v.inodes;
    lemma_detach_keeps_tree(m, parent, name, m[parent].attr);
    assert(crate::model::with_entries(m[parent], dir_entries(m, parent).remove(name)) == InodeView {
        attr: m[parent].attr,
        parent: m[parent].parent,
        data: DataView::Dir(dir_entries(m, parent).remove(name)),
    });
}

/// `rmdir` keeps the tree.
pub proof fn law_rmdir_keeps_tree(v: FsView, parent: u64, name: Seq<char>)
    requires
        tree_ok(v.inodes),
        rmdir_spec(v, parent, name) is Ok,
    ensures
        tree_ok(rmdir_spec(v, parent, name)->Ok_0.inodes),
{
    let m = v.inodes;
    let pv = m[parent];
    let k = if pv.attr.nlink == 0 { 0u32 } else { (pv.attr.nlink - 1) as u32 };
    lemma_detach_keeps_tree(m, parent, name, crate::model::with_nlink(pv.attr, k));
}

/// `rename` keeps the tree: the moved inode is named once, in its new
/// parent, and what it replaces (a file or an empty directory) leaves no
/// inode behind it.
#[verifier::rlimit(50)]
pub proof fn law_rename_keeps_tree(v: FsView, parent: u64, name: Seq<char>, newparent: u64, newname: Seq<char>)
    requires
        tree_ok(v.inodes),
        rename_spec(v, parent, name, newparent, newname) is Ok,
    ensures
        tree_ok(rename_spec(v, parent, name, newparent, newname)->Ok_0.inodes),
{
    let m = v.inodes;
    let w = rename_spec(v, parent, name, newparent, newname)->Ok_0.inodes;
    let d = dir_entries(m, parent);
    let ino = d[name];
    assert(is_dir_in(m, parent) && is_dir_in(m, newparent));
    assert(m.contains_key(ino) && ino != 1 && m[ino].parent == parent);
    let m1 = m.insert(parent, crate::model::with_entries(m[parent], d.remove(name)));
    let nd = dir_entries(m1, newparent);
    let base = if parent == newparent { d.remove(name) } else { dir_entries(m, newparent) };
    assert(nd == base);
    let enp = base.insert(newname, ino);
    let has_gone = nd.contains_key(newname);
    let gone = nd[newname];
    if has_gone {
        assert(dir_entries(m, newparent).contains_key(newname));
        assert(dir_entries(m, newparent)[newname] == gone);
        assert(m.contains_key(gone) && gone != 1 && m[gone].parent == newparent);
        assert(gone != ino) by {
            if gone == ino {
                assert(parent == newparent);
                assert(d[name] == d[newname]);
            }
        }
        assert(crate::model::rename_target(m, parent, name, newparent, newname, ino) == Some(gone));
        assert(m[gone].data is File || dir_entries(m, gone) == Map::<Seq<char>, u64>::empty());
        assert(gone != newparent) by {
            if gone == newparent {
                assert(dir_entries(m, gone).contains_key(newname));
            }
        }
        assert(gone != parent) by {
            if gone == parent {
                assert(dir_entries(m, gone).contains_key(name));
            }
        }
    }
    let keeps = |x: u64| !(has_gone && x == gone);
    // The shape of the new table.
    assert forall|x: u64| #[trigger] w.contains_key(x) <==> m.contains_key(x) && keeps(x) by {}
    assert forall|x: u64| #[trigger] w.contains_key(x) implies w[x].parent == (if x == ino { newparent } else { m[x].parent })
        && w[x].attr == m[x].attr && (w[x].data is Dir <==> m[x].data is Dir) by {}
    assert forall|x: u64| #[trigger] w.contains_key(x) implies dir_entries(w, x) == (if x == newparent {
        enp
    } else if x == parent {
        d.remove(name)
    } else {
        dir_entries(m, x)
    }) by {}
    assert forall|x: u64| #[trigger] w.contains_key(x) && m[x].data is File implies w[x].data == m[x].data by {}
    // Entries point home.
    assert forall|q: u64, k: Seq<char>| is_dir_in(w, q) && #[trigger] dir_entries(w, q).contains_key(k) implies {
        let x = dir_entries(w, q)[k];
        &&& w.contains_key(x)
        &&& x != 1
        &&& w[x].parent == q
    } by {
        assert(w.contains_key(q));
        if q == newparent {
            if k != newname {
                let x = base[k];
                if parent == newparent {
                    assert(d.contains_key(k) && k != name);
                    assert(d[k] != d[name]);
                } else {
                    assert(dir_entries(m, newparent).contains_key(k));
                }
                assert(m.contains_key(x) && m[x].parent == newparent);
                assert(x != ino);
                if has_gone {
                    assert(x != gone) by {
                        if parent == newparent {
                            assert(d.contains_key(newname));
                            assert(d[k] != d[newname]);
                        } else {
                            assert(dir_entries(m, newparent)[k] != dir_entries(m, newparent)[newname]);
                        }
                    }
                }
            }
        } else if q == parent {
            assert(d.contains_key(k) && k != name);
            assert(d[k] != d[name]);
            let x = d[k];
            assert(m.contains_key(x) && m[x].parent == parent);
            if has_gone {
                assert(x != gone);
            }
        } else {
            let x = dir_entries(m, q)[k];
            assert(is_dir_in(m, q));
            assert(m.contains_key(x) && m[x].parent == q);
            assert(x != ino);
            if has_gone {
                assert(x != gone);
            }
        }
    }
    // Names stay unique.
    assert forall|q: u64, n1: Seq<char>, n2: Seq<char>|
        is_dir_in(w, q) && dir_entries(w, q).contains_key(n1) && dir_entries(w, q).contains_key(n2)
            && n1 != n2 implies #[trigger] dir_entries(w, q)[n1] != #[trigger] dir_entries(w, q)[n2] by {
        assert(w.contains_key(q));
        if q == newparent {
            if n1 != newname && n2 != newname {
                if parent == newparent {
                    assert(d[n1] != d[n2]);
                } else {
                    assert(dir_entries(m, newparent)[n1] != dir_entries(m, newparent)[n2]);
                }
            } else {
                let k = if n1 == newname { n2 } else { n1 };
                if parent == newparent {
                    assert(d.contains_key(k) && k != name);
                    assert(d[k] != d[name]);
                } else {
                    assert(dir_entries(m, newparent).contains_key(k));
                    assert(m[dir_entries(m, newparent)[k]].parent == newparent);
                }
            }
        } else if q == parent {
            assert(d[n1] != d[n2]);
        } else {
            assert(is_dir_in(m, q));
            assert(dir_entries(m, q)[n1] != dir_entries(m, q)[n2]);
        }
    }
    // Every inode is named in its parent.
    assert forall|x: u64| #[trigger] w.contains_key(x) && x != 1 implies {
        &&& is_dir_in(w, w[x].parent)
        &&& exists|k: Seq<char>|
            #[trigger] dir_entries(w, w[x].parent).contains_key(k) && dir_entries(w, w[x].parent)[k] == x
    } by {
        if x == ino {
            assert(w.contains_key(newparent));
            assert(dir_entries(w, newparent).contains_key(newname));
        } else {
            assert(m.contains_key(x));
            let q = m[x].parent;
            let k = choose|k: Seq<char>| #[trigger] dir_entries(m, q).contains_key(k) && dir_entries(m, q)[k] == x;
            assert(is_dir_in(m, q));
            if has_gone {
                assert(q != gone) by {
                    if q == gone {
                        assert(dir_entries(m, gone).contains_key(k));
                    }
                }
            }
            assert(w.contains_key(q));
            if q == parent {
                assert(k != name);
            }
            if q == newparent && has_gone {
                assert(k != newname) by {
                    if k == newname {
                        if parent == newparent {
                            assert(d.remove(name)[newname] == d[newname]);
                        }
                    }
                }
            }
            if q == newparent {
                if parent == newparent {
                    assert(d.remove(name).contains_key(k));
                } else {
                    assert(dir_entries(m, newparent).contains_key(k));
                }
                if !has_gone {
                    assert(k != newname);
                }
                assert(enp.contains_key(k) && enp[k] == x);
            } else if q == parent {
                assert(d.remove(name).contains_key(k));
            }
            assert(dir_entries(w, q).contains_key(k));
        }
    }
    assert(sizes_ok(w)) by {
        assert forall|x: u64| #[trigger] w.contains_key(x) implies match w[x].data {
            DataView::File(b) => b.len() <= usize::MAX && (w[x].attr.size as usize) == b.len(),
            DataView::Dir(_) => true,
        } by {
            assert(m.contains_key(x));
        }
    }
    assert(root_ok(w)) by {
        assert(m.contains_key(1));
        if has_gone {
            assert(gone != 1);
        }
    }
}

/// Renaming an entry to a free name and back gives the table back as it was.
#[verifier::rlimit(50)]
pub proof fn law_rename_back_restores(v: FsView, parent: u64, name: Seq<char>, newparent: u64, newname: Seq<char>)
    requires
        tree_ok(v.inodes),
        rename_spec(v, parent, name, newparent, newname) is Ok,
        parent != newparent || name != newname,
        !dir_entries(v.inodes, newparent).contains_key(newname),
    ensures
        rename_spec(rename_spec(v, parent, name, newparent, newname)->Ok_0, newparent, newname, parent, name)
            == Ok::<FsView, crate::errno::Errno>(v),
{
    let m = v.inodes;
    let v1 = rename_spec(v, parent, name, newparent, newname)->Ok_0;
    let w = v1.inodes;
    let d = dir_entries(m, parent);
    let ino = d[name];
    assert(is_dir_in(m, parent) && is_dir_in(m, newparent));
    assert(m.contains_key(ino) && ino != 1 && m[ino].parent == parent);
    let base = if parent == newparent { d.remove(name) } else { dir_entries(m, newparent) };
    let m1 = m.insert(parent, crate::model::with_entries(m[parent], d.remove(name)));
    assert(dir_entries(m1, newparent) == base);
    assert(!base.contains_key(newname));
    // The table after the first rename.
    assert forall|x: u64| #[trigger] w.contains_key(x) <==> m.contains_key(x) by {}
    assert forall|x: u64| #[trigger] w.contains_key(x) implies w[x].parent == (if x == ino { newparent } else { m[x].parent })
        && w[x].attr == m[x].attr && (w[x].data is Dir <==> m[x].data is Dir) by {}
    assert forall|x: u64| #[trigger] w.contains_key(x) && m[x].data is File implies w[x].data == m[x].data by {}
    assert(dir_entries(w, newparent) == base.insert(newname, ino));
    assert(parent != newparent ==> dir_entries(w, parent) == d.remove(name));
    // The second rename finds nothing in its way.
    let wd = dir_entries(w, newparent);
    assert(wd.contains_key(newname) && wd[newname] == ino);
    assert(!dir_entries(w, parent).contains_key(name)) by {
        if parent == newparent {
            assert(dir_entries(w, parent) == d.remove(name).insert(newname, ino));
        }
    }
    assert(crate::model::rename_error(w, newparent, newname, parent, name) is None);
    let v2 = rename_spec(v1, newparent, newname, parent, name)->Ok_0;
    let u = v2.inodes;
    assert forall|x: u64| #[trigger] m.contains_key(x) implies u.contains_key(x) && u[x] == m[x] by {
        assert(w.contains_key(x));
        if x == parent {
            assert(dir_entries(u, parent) =~= d) by {
                if parent == newparent {
                    assert(base.insert(newname, ino).remove(newname).insert(name, ino) =~= d);
                } else {
                    assert(d.remove(name).insert(name, ino) =~= d);
                }
            }
        } else if x == newparent {
            assert(dir_entries(u, newparent) =~= dir_entries(m, newparent)) by {
                assert(base.insert(newname, ino).remove(newname) =~= base);
            }
        }
        if m[x].data is File {
            assert(u[x].data == m[x].data);
        }
    }
    assert forall|x: u64| #[trigger] u.contains_key(x) implies m.contains_key(x) by {}
    assert(u =~= m);
}

/// The names in `e` that name directories of `m`.
pub open spec fn subdir_names(m: Map<u64, InodeView>, e: Map<Seq<char>, u64>) -> Set<Seq<char>> {
    e.dom().filter(|n: Seq<char>| is_dir_in(m, e[n]))
}

/// Link counts: a directory has two links (its entry and its `.`) plus one
/// per subdirectory (their `..`); a file has one.
pub open spec fn links_ok(m: Map<u64, InodeView>) -> bool {
    forall|x: u64|
        #[trigger] m.contains_key(x) ==> match m[x].data {
            DataView::Dir(e) => e.dom().finite() && m[x].attr.nlink == 2 + subdir_names(m, e).len(),
            DataView::File(_) => m[x].attr.nlink == 1,
        }
}

/// A finite entry map has finitely many subdirectory names.
proof fn lemma_subdirs_finite(m: Map<u64, InodeView>, e: Map<Seq<char>, u64>)
    requires
        e.dom().finite(),
    ensures
        subdir_names(m, e).finite(),
{
    e.dom().lemma_len_filter(|n: Seq<char>| is_dir_in(m, e[n]));
}

/// The filesystem starts with correct link counts.
pub proof fn law_initial_links(t: SystemTime)
    ensures
        links_ok(initial_view(t).inodes),
{
    let m = initial_view(t).inodes;
    let hello = seq!['h', 'e', 'l', 'l', 'o', '.', 't', 'x', 't'];
    let e = dir_entries(m, 1);
    assert(e.dom() =~= Set::<Seq<char>>::empty().insert(hello));
    assert(subdir_names(m, e) =~= Set::<Seq<char>>::empty());
}

/// Entries of `m` keep their subdirectory names in `w` when every inode
/// they name keeps whether it is a directory.
proof fn lemma_subdirs_same(m: Map<u64, InodeView>, w: Map<u64, InodeView>, e: Map<Seq<char>, u64>)
    requires
        forall|n: Seq<char>| #[trigger] e.contains_key(n) ==> is_dir_in(w, e[n]) == is_dir_in(m, e[n]),
    ensures
        subdir_names(w, e) == subdir_names(m, e),
{
    assert(subdir_names(w, e) =~= subdir_names(m, e));
}

/// `create` and `mkdir` keep the link counts: `mkdir` adds one link to the parent.
pub proof fn law_create_keeps_links(v: FsView, parent: u64, name: Seq<char>, attr: FileAttr, data: DataView)
    requires
        view_wf(v),
        tree_ok(v.inodes),
        links_ok(v.inodes),
        crate::model::child_error(v.inodes, parent, name) is None,
        data == DataView::File(Seq::empty()) && attr.nlink == 1 || data == DataView::Dir(Map::empty())
            && attr.nlink == 2,
        data is Dir ==> v.inodes[parent].attr.nlink < u32::MAX,
    ensures
        links_ok(with_child(v, parent, name, attr, data).inodes),
{
    let m = v.inodes;
    let w = with_child(v, parent, name, attr, data).inodes;
    let c0 = v.next_ino;
    assert(parent < c0);
    assert(!m.contains_key(c0));
    let d = dir_entries(m, parent);
    assert forall|x: u64| #[trigger] w.contains_key(x) implies match w[x].data {
        DataView::Dir(e) => e.dom().finite() && w[x].attr.nlink == 2 + subdir_names(w, e).len(),
        DataView::File(_) => w[x].attr.nlink == 1,
    } by {
        if x == c0 {
            if data is Dir {
                let e = Map::<Seq<char>, u64>::empty();
                assert(e.dom() =~= Set::<Seq<char>>::empty());
                assert(subdir_names(w, e) =~= Set::<Seq<char>>::empty());
            }
        } else {
            assert(m.contains_key(x));
            if m[x].data is Dir {
                let e = dir_entries(m, x);
                assert forall|n: Seq<char>| #[trigger] e.contains_key(n) implies is_dir_in(w, e[n]) == is_dir_in(m, e[n]) by {
                    assert(m.contains_key(e[n]));
                }
                lemma_subdirs_same(m, w, e);
                lemma_subdirs_finite(m, e);
                if x == parent {
                    let e2 = e.insert(name, c0);
                    assert forall|n: Seq<char>| #[trigger] e.contains_key(n) implies is_dir_in(w, e2[n]) == is_dir_in(m, e[n]) by {
                        assert(n != name);
                        assert(m.contains_key(e[n]));
                    }
                    if data is Dir {
                        assert(subdir_names(w, e2) =~= subdir_names(m, e).insert(name));
                    } else {
                        assert(subdir_names(w, e2) =~= subdir_names(m, e));
                    }
                }
            }
        }
    }
}

/// Removing a file's entry, or an empty directory's entry with one link of
/// its parent, keeps the link counts.
proof fn lemma_detach_keeps_links(m: Map<u64, InodeView>, p: u64, n: Seq<char>, a: FileAttr)
    requires
        tree_ok(m),
        links_ok(m),
        is_dir_in(m, p),
        dir_entries(m, p).contains_key(n),
        m[dir_entries(m, p)[n]].data is File && a == m[p].attr
            || dir_entries(m, dir_entries(m, p)[n]) == Map::<Seq<char>, u64>::empty() && m[dir_entries(m, p)[n]].data is Dir
            && a == crate::model::with_nlink(m[p].attr, (m[p].attr.nlink - 1) as u32),
    ensures
        links_ok(
            m.insert(
                p,
                InodeView { attr: a, parent: m[p].parent, data: DataView::Dir(dir_entries(m, p).remove(n)) },
            ).remove(dir_entries(m, p)[n]),
        ),
{
    let d = dir_entries(m, p);
    let c = d[n];
    let w = m.insert(p, InodeView { attr: a, parent: m[p].parent, data: DataView::Dir(d.remove(n)) }).remove(c);
    assert(m.contains_key(c) && c != 1 && m[c].parent == p);
    assert(c != p) by {
        if c == p {
            assert(dir_entries(m, c).contains_key(n));
        }
    }
    assert forall|x: u64| #[trigger] w.contains_key(x) implies match w[x].data {
        DataView::Dir(e) => e.dom().finite() && w[x].attr.nlink == 2 + subdir_names(w, e).len(),
        DataView::File(_) => w[x].attr.nlink == 1,
    } by {
        assert(m.contains_key(x));
        if m[x].data is Dir {
            let e = dir_entries(m, x);
            lemma_subdirs_finite(m, e);
            if x == p {
                let e2 = d.remove(n);
                assert forall|k: Seq<char>| #[trigger] e2.contains_key(k) implies is_dir_in(w, e2[k]) == is_dir_in(m, e[k]) by {
                    assert(d[k] != d[n]);
                    assert(m.contains_key(d[k]));
                }
                if m[c].data is File {
                    assert(subdir_names(w, e2) =~= subdir_names(m, e));
                } else {
                    assert(subdir_names(w, e2) =~= subdir_names(m, e).remove(n));
                    assert(subdir_names(m, e).contains(n));
                }
            } else {
                assert forall|k: Seq<char>| #[trigger] e.contains_key(k) implies is_dir_in(w, e[k]) == is_dir_in(m, e[k]) by {
                    assert(m.contains_key(e[k]) && m[e[k]].parent == x);
                }
                lemma_subdirs_same(m, w, e);
            }
        }
    }
}

/// `unlink` keeps the link counts.
pub proof fn law_unlink_keeps_links(v: FsView, parent: u64, name: Seq<char>)
    requires
        tree_ok(v.inodes),
        links_ok(v.inodes),
        unlink_spec(v, parent, name) is Ok,
    ensures
        links_ok(unlink_spec(v, parent, name)->Ok_0.inodes),
{
    let m = v.inodes;
    lemma_detach_keeps_links(m, parent, name, m[parent].attr);
    assert(crate::model::with_entries(m[parent], dir_entries(m, parent).remove(name)) == InodeView {
        attr: m[parent].attr,
        parent: m[parent].parent,
        data: DataView::Dir(dir_entries(m, parent).remove(name)),
    });
}

/// `rmdir` keeps the link counts: the parent loses the link the removed
/// directory's `..` held.
pub proof fn law_rmdir_keeps_links(v: FsView, parent: u64, name: Seq<char>)
    requires
        tree_ok(v.inodes),
        links_ok(v.inodes),
        rmdir_spec(v, parent, name) is Ok,
    ensures
        links_ok(rmdir_spec(v, parent, name)->Ok_0.inodes),
{
    let m = v.inodes;
    let d = dir_entries(m, parent);
    let c = d[name];
    lemma_subdirs_finite(m, d);
    assert(subdir_names(m, d).contains(name));
    assert(m[parent].attr.nlink >= 3) by {
        vstd::set_lib::lemma_set_empty_equivalency_len(subdir_names(m, d));
    }
    lemma_detach_keeps_links(m, parent, name, crate::model::with_nlink(m[parent].attr, (m[parent].attr.nlink - 1) as u32));
}

/// Writing to a file keeps the link counts.
pub proof fn law_write_keeps_links(v: FsView, ino: u64, offset: u64, data: Seq<u8>, t: SystemTime)
    requires
        links_ok(v.inodes),
        write_spec(v, ino, offset, data, t) is Ok,
    ensures
        links_ok(write_spec(v, ino, offset, data, t)->Ok_0.inodes),
{
    let m = v.inodes;
    let w = write_spec(v, ino, offset, data, t)->Ok_0.inodes;
    assert forall|x: u64| #[trigger] w.contains_key(x) implies match w[x].data {
        DataView::Dir(e) => e.dom().finite() && w[x].attr.nlink == 2 + subdir_names(w, e).len(),
        DataView::File(_) => w[x].attr.nlink == 1,
    } by {
        assert(m.contains_key(x));
        if m[x].data is Dir {
            let e = dir_entries(m, x);
            assert forall|k: Seq<char>| #[trigger] e.contains_key(k) implies is_dir_in(w, e[k]) == is_dir_in(m, e[k]) by {}
            lemma_subdirs_same(m, w, e);
        }
    }
}

/// `setattr` keeps the link counts.
pub proof fn law_setattr_keeps_links(
    v: FsView,
    ino: u64,
    size: Option<u64>,
    perm: Option<u16>,
    atime: Option<SystemTime>,
    mtime: Option<SystemTime>,
)
    requires
        links_ok(v.inodes),
        setattr_spec(v, ino, size, perm, atime, mtime) is Ok,
    ensures
        links_ok(setattr_spec(v, ino, size, perm, atime, mtime)->Ok_0.0.inodes),
{
    let m = v.inodes;
    let w = setattr_spec(v, ino, size, perm, atime, mtime)->Ok_0.0.inodes;
    assert forall|x: u64| #[trigger] w.contains_key(x) implies match w[x].data {
        DataView::Dir(e) => e.dom().finite() && w[x].attr.nlink == 2 + subdir_names(w, e).len(),
        DataView::File(_) => w[x].attr.nlink == 1,
    } by {
        assert(m.contains_key(x));
        if m[x].data is Dir {
            let e = dir_entries(m, x);
            assert forall|k: Seq<char>| #[trigger] e.contains_key(k) implies is_dir_in(w, e[k]) == is_dir_in(m, e[k]) by {}
            lemma_subdirs_same(m, w, e);
        }
    }
}

/// `rename` keeps the link counts when it moves a file, or moves a directory
/// to a free name in the same directory. (Moving a directory to another
/// directory, or over an empty directory, leaves the link counts of the
/// directories involved as they were.)
#[verifier::rlimit(50)]
pub proof fn law_rename_keeps_links(v: FsView, parent: u64, name: Seq<char>, newparent: u64, newname: Seq<char>)
    requires
        tree_ok(v.inodes),
        links_ok(v.inodes),
        rename_spec(v, parent, name, newparent, newname) is Ok,
        v.inodes[dir_entries(v.inodes, parent)[name]].data is File || (parent == newparent
            && !dir_entries(v.inodes, newparent).contains_key(newname)),
    ensures
        links_ok(rename_spec(v, parent, name, newparent, newname)->Ok_0.inodes),
{
    let m = v.inodes;
    let w = rename_spec(v, parent, name, newparent, newname)->Ok_0.inodes;
    let d = dir_entries(m, parent);
    let ino = d[name];
    assert(is_dir_in(m, parent) && is_dir_in(m, newparent));
    assert(m.contains_key(ino) && ino != 1 && m[ino].parent == parent);
    let m1 = m.insert(parent, crate::model::with_entries(m[parent], d.remove(name)));
    let nd = dir_entries(m1, newparent);
    let base = if parent == newparent { d.remove(name) } else { dir_entries(m, newparent) };
    assert(nd == base);
    let enp = base.insert(newname, ino);
    let has_gone = nd.contains_key(newname);
    let gone = nd[newname];
    if has_gone {
        assert(dir_entries(m, newparent).contains_key(newname));
        assert(dir_entries(m, newparent)[newname] == gone);
        assert(m.contains_key(gone) && gone != 1 && m[gone].parent == newparent);
        assert(gone != ino) by {
            if gone == ino {
                assert(parent == newparent);
                assert(d[name] == d[newname]);
            }
        }
        assert(crate::model::rename_target(m, parent, name, newparent, newname, ino) == Some(gone));
        assert(m[ino].data is File);
        assert(m[gone].data is File);
        assert(gone != newparent && gone != parent);
    }
    let keeps = |x: u64| !(has_gone && x == gone);
    assert forall|x: u64| #[trigger] w.contains_key(x) <==> m.contains_key(x) && keeps(x) by {}
    assert forall|x: u64| #[trigger] w.contains_key(x) implies w[x].attr == m[x].attr && (w[x].data is Dir
        <==> m[x].data is Dir) by {}
    assert forall|x: u64| #[trigger] w.contains_key(x) implies dir_entries(w, x) == (if x == newparent {
        enp
    } else if x == parent {
        d.remove(name)
    } else {
        dir_entries(m, x)
    }) by {}
    assert forall|x: u64| #[trigger] w.contains_key(x) implies match w[x].data {
        DataView::Dir(e) => e.dom().finite() && w[x].attr.nlink == 2 + subdir_names(w, e).len(),
        DataView::File(_) => w[x].attr.nlink == 1,
    } by {
        assert(m.contains_key(x));
        if m[x].data is Dir {
            let e = dir_entries(m, x);
            lemma_subdirs_finite(m, e);
            // Every inode an entry of `m` names keeps its kind in `w`, unless it is gone.
            assert forall|q: u64, k: Seq<char>| is_dir_in(m, q) && #[trigger] dir_entries(m, q).contains_key(k)
                && !(has_gone && dir_entries(m, q)[k] == gone) implies is_dir_in(w, dir_entries(m, q)[k])
                == is_dir_in(m, dir_entries(m, q)[k]) by {
                assert(m.contains_key(dir_entries(m, q)[k]));
            }
            if x == newparent {
                if parent == newparent {
                    if m[ino].data is File {
                        assert forall|k: Seq<char>| #[trigger] e.contains_key(k) && k != name && k != newname
                            implies is_dir_in(w, enp[k]) == is_dir_in(m, e[k]) by {
                            if has_gone {
                                assert(e[k] != e[newname]);
                            }
                        }
                        assert(subdir_names(w, enp) =~= subdir_names(m, e));
                    } else {
                        assert(newname != name) by {
                            if newname == name {
                                assert(false);
                            }
                        };
                        assert forall|k: Seq<char>| #[trigger] e.contains_key(k) && k != name
                            implies is_dir_in(w, enp[k]) == is_dir_in(m, e[k]) by {}
                        let s = subdir_names(m, e);
                        assert(s.contains(name));
                        assert(!s.contains(newname));
                        assert(subdir_names(w, enp) =~= s.remove(name).insert(newname));
                    }
                } else {
                    assert forall|k: Seq<char>| #[trigger] e.contains_key(k) && k != newname
                        implies is_dir_in(w, enp[k]) == is_dir_in(m, e[k]) by {
                        if has_gone {
                            assert(e[k] != e[newname]);
                        }
                    }
                    if has_gone {
                        assert(subdir_names(w, enp) =~= subdir_names(m, e));
                    } else {
                        assert(subdir_names(w, enp) =~= subdir_names(m, e));
                    }
                }
            } else if x == parent {
                assert forall|k: Seq<char>| #[trigger] e.contains_key(k) && k != name
                    implies is_dir_in(w, e[k]) == is_dir_in(m, e[k]) by {
                    if has_gone {
                        assert(m[e[k]].parent == parent);
                    }
                }
                assert(subdir_names(w, d.remove(name)) =~= subdir_names(m, e));
            } else {
                assert forall|k: Seq<char>| #[trigger] e.contains_key(k) implies is_dir_in(w, e[k]) == is_dir_in(
                    m,
                    e[k],
                ) by {
                    if has_gone {
                        assert(m[e[k]].parent == x);
                    }
                }
                lemma_subdirs_same(m, w, e);
            }
        }
    }
}

} // verus!
