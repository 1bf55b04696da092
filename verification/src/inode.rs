//! The inode table and the filesystem's operations on it.

use std::collections::HashMap;
use std::time::SystemTime;
use vstd::prelude::*;

use crate::attr::{blocks_of, current_time, mk_attr, FileAttr, FileType, INodeNo};
use crate::dir::Directory;
use crate::errno::Errno;
use crate::name_order::{compare_names, NameOrder};
use crate::tree::{
    law_create_keeps_tree, law_initial_tree, law_rename_keeps_tree, law_rmdir_keeps_tree,
    law_setattr_keeps_tree, law_unlink_keeps_tree, law_write_keeps_tree, tree_ok,
};
use crate::model::{
    child_error, dir_spec, entries_of, file_error, getattr_spec, greeting, initial_view,
    is_listing, lookup_spec, read_range, read_spec, rename_spec, replace_error, resized, rmdir_spec,
    setattr_attr, setattr_spec, unlink_spec, view_wf, with_child, with_nlink, write_spec, written,
    DataView, FsView, InodeView,
};

verus! {

broadcast use vstd::std_specs::hash::group_hash_axioms;

/// One inode: attributes, parent directory (`..`; the root is its own parent) and data.
pub struct Inode {
    pub attr: FileAttr,
    pub parent: INodeNo,
    pub data: NodeData,
}

/// A file's bytes or a directory's entries.
pub enum NodeData {
    File(Vec<u8>),
    Dir(Directory),
}

impl View for NodeData {
    type V = DataView;

    open spec fn view(&self) -> DataView {
        match self {
            NodeData::File(b) => DataView::File(b@),
            NodeData::Dir(d) => DataView::Dir(d@),
        }
    }
}

impl NodeData {
    /// A directory's entries are kept sorted.
    pub open spec fn wf(&self) -> bool {
        match self {
            NodeData::File(_) => true,
            NodeData::Dir(d) => d.wf(),
        }
    }
}

impl View for Inode {
    type V = InodeView;

    open spec fn view(&self) -> InodeView {
        InodeView { attr: self.attr, parent: self.parent.0, data: self.data@ }
    }
}

/// The filesystem: inodes by number, and the next number to hand out.
pub struct FsState {
    inodes: HashMap<u64, Inode>,
    next_ino: u64,
}

impl View for FsState {
    type V = FsView;

    closed spec fn view(&self) -> FsView {
        FsView { inodes: self.inodes@.map_values(|i: Inode| i@), next_ino: self.next_ino }
    }
}

impl FsState {
    /// The table's own invariant: that of its view, and sorted directories.
    closed spec fn tables_ok(&self) -> bool {
        &&& view_wf(self@)
        &&& forall|k: u64| #[trigger] self.inodes@.contains_key(k) ==> self.inodes@[k].data.wf()
    }

    /// The state's invariant: the table's, and the shape of a tree.
    pub closed spec fn wf(&self) -> bool {
        &&& self.tables_ok()
        &&& tree_ok(self@.inodes)
    }

    /// A well-formed state has a well-formed view that is a tree.
    pub proof fn lemma_wf_view(&self)
        requires
            self.wf(),
        ensures
            view_wf(self@),
            tree_ok(self@.inodes),
    {
    }

    /// Fresh filesystem: root (inode 1) containing `hello.txt` (inode 2).
    pub fn new() -> (s: FsState)
        ensures
            s.wf(),
            s@ == initial_view(s@.inodes[1].attr.atime),
    {
        let now = current_time();
        let mut inodes: HashMap<u64, Inode> = HashMap::new();

        let mut root_entries = Directory::new();
        root_entries.insert("hello.txt", 2);
        proof {
            reveal_strlit("hello.txt");
        }
        inodes.insert(
            1,
            Inode {
                attr: mk_attr(INodeNo(1), FileType::Directory, 0, 0o755, 2, now),
                parent: INodeNo(1),
                data: NodeData::Dir(root_entries),
            },
        );

        let content: Vec<u8> = vec![72u8, 101, 108, 108, 111, 32, 102, 114, 111, 109, 32, 114, 117, 115, 116, 70, 83, 33, 10];
        let len = content.len() as u64;
        inodes.insert(
            2,
            Inode {
                attr: mk_attr(INodeNo(2), FileType::RegularFile, len, 0o644, 1, now),
                parent: INodeNo(1),
                data: NodeData::File(content),
            },
        );
        let s = FsState { inodes, next_ino: 3 };
        proof {
            assert(content@ =~= greeting());
            assert("hello.txt"@ =~= seq!['h', 'e', 'l', 'l', 'o', '.', 't', 'x', 't']);
            let v = initial_view(now);
            assert(s@.inodes.dom() =~= v.inodes.dom());
            assert(s@.inodes[1] == v.inodes[1]);
            assert(s@.inodes[2] == v.inodes[2]);
            assert(s@.inodes =~= v.inodes);
            law_initial_tree(now);
        }
        s
    }

    /// Whether `create`/`mkdir` of `name` in `parent` would add an inode.
    pub fn adds_child(&self, parent: INodeNo, name: &str) -> (b: bool)
        requires
            self.wf(),
        ensures
            b == (child_error(self@.inodes, parent.0, name@) is None),
    {
        match self.dir_map(parent.0) {
            Err(_) => false,
            Ok(d) => !d.contains_key(name),
        }
    }

    /// Whether an inode number is left to hand out.
    pub fn can_allocate(&self) -> (b: bool)
        ensures
            b == (self@.next_ino < u64::MAX),
    {
        self.next_ino < u64::MAX
    }

    fn alloc_ino(&mut self) -> (ino: INodeNo)
        requires
            old(self).next_ino < u64::MAX,
        ensures
            ino.0 == old(self).next_ino,
            final(self).next_ino == old(self).next_ino + 1,
            final(self).inodes == old(self).inodes,
    {
        let ino = INodeNo(self.next_ino);
        self.next_ino = self.next_ino + 1;
        ino
    }

    // ---- read operations ----

    pub fn getattr(&self, ino: INodeNo) -> (r: Result<FileAttr, Errno>)
        ensures
            r == getattr_spec(self@.inodes, ino.0),
    {
        match self.inodes.get(&ino.0) {
            Some(i) => Ok(i.attr),
            None => Err(Errno::ENOENT),
        }
    }

    fn dir_map(&self, ino: u64) -> (r: Result<&Directory, Errno>)
        requires
            self.tables_ok(),
        ensures
            match r {
                Ok(d) => dir_spec(self@.inodes, ino) == Ok::<Map<Seq<char>, u64>, Errno>(d@) && d.wf(),
                Err(e) => dir_spec(self@.inodes, ino) == Err::<Map<Seq<char>, u64>, Errno>(e),
            },
    {
        match self.inodes.get(&ino) {
            Some(inode) => match &inode.data {
                NodeData::Dir(m) => Ok(m),
                NodeData::File(_) => Err(Errno::ENOTDIR),
            },
            None => Err(Errno::ENOENT),
        }
    }

    pub fn lookup(&self, parent: INodeNo, name: &str) -> (r: Result<FileAttr, Errno>)
        requires
            self.wf(),
        ensures
            r == lookup_spec(self@.inodes, parent.0, name@),
    {
        let ino = match self.dir_map(parent.0) {
            Err(e) => return Err(e),
            Ok(d) => match d.get(name) {
                Some(i) => i,
                None => return Err(Errno::ENOENT),
            },
        };
        self.getattr(INodeNo(ino))
    }

    /// Listing: `.`, `..`, then each child in name order.
    pub fn readdir(&self, ino: INodeNo) -> (r: Result<Vec<(INodeNo, FileType, String)>, Errno>)
        requires
            self.wf(),
        ensures
            match r {
                Ok(out) => dir_spec(self@.inodes, ino.0) is Ok && is_listing(
                    self@.inodes,
                    ino.0,
                    out@.map_values(|e: (INodeNo, FileType, String)| (e.0.0, e.1, e.2@)),
                ),
                Err(e) => dir_spec(self@.inodes, ino.0) == Err::<Map<Seq<char>, u64>, Errno>(e),
            },
    {
        let inode = match self.inodes.get(&ino.0) {
            Some(i) => i,
            None => return Err(Errno::ENOENT),
        };
        let entries = match &inode.data {
            NodeData::Dir(m) => m,
            NodeData::File(_) => return Err(Errno::ENOTDIR),
        };
        proof {
            entries.lemma_listing_matches_view();
        }
        let mut out: Vec<(INodeNo, FileType, String)> = Vec::new();
        out.push((ino, FileType::Directory, ".".to_string()));
        out.push((inode.parent, FileType::Directory, "..".to_string()));
        proof {
            reveal_strlit(".");
            reveal_strlit("..");
        }
        let n = entries.len();
        let ghost m = self@.inodes;
        let ghost s = entries.listing();
        let mut i: usize = 0;
        while i < n
            invariant
                n == s.len(),
                i <= n,
                self.wf(),
                m == self@.inodes,
                s == entries.listing(),
                out@.len() == i + 2,
                out@[0].0.0 == ino.0 && out@[0].1 == FileType::Directory && out@[0].2@ == seq!['.'],
                out@[1].0.0 == inode.parent.0 && out@[1].1 == FileType::Directory && out@[1].2@ == seq!['.', '.'],
                forall|j: int| 0 <= j < i ==> {
                    &&& (#[trigger] out@[j + 2]).0.0 == s[j].1
                    &&& out@[j + 2].2@ == s[j].0
                    &&& out@[j + 2].1 == crate::model::kind_of(m, s[j].1)
                },
            decreases n - i,
        {
            let (name, child) = entries.entry_at(i);
            let kind = match self.inodes.get(&child) {
                Some(c) => c.attr.kind,
                None => FileType::RegularFile,
            };
            out.push((INodeNo(child), kind, name.clone()));
            i = i + 1;
        }
        proof {
            let l = out@.map_values(|e: (INodeNo, FileType, String)| (e.0.0, e.1, e.2@));
            let c = l.skip(2);
            assert(c.len() == s.len());
            assert forall|j: int| 0 <= j < c.len() implies c[j] == (s[j].1, crate::model::kind_of(m, s[j].1), s[j].0) by {
                assert(out@[j + 2].0.0 == s[j].1);
            }
            assert forall|k: Seq<char>| #[trigger] entries@.contains_key(k) implies exists|j: int| 0 <= j < c.len() && #[trigger] c[j].2 == k by {
                let j = choose|j: int| 0 <= j < s.len() && #[trigger] s[j].0 == k;
                assert(c[j].2 == k);
            }
            assert(m[ino.0].data == DataView::Dir(entries@));
            assert(l[0] == (ino.0, FileType::Directory, seq!['.']));
            assert(l[1] == (m[ino.0].parent, FileType::Directory, seq!['.', '.']));
        }
        Ok(out)
    }

    pub fn read(&self, ino: INodeNo, offset: u64, size: u32) -> (r: Result<Vec<u8>, Errno>)
        ensures
            match r {
                Ok(bytes) => read_spec(self@.inodes, ino.0, offset, size) == Ok::<Seq<u8>, Errno>(bytes@),
                Err(e) => read_spec(self@.inodes, ino.0, offset, size) == Err::<Seq<u8>, Errno>(e),
            },
    {
        match self.inodes.get(&ino.0) {
            Some(inode) => match &inode.data {
                NodeData::File(buf) => {
                    let len = buf.len();
                    let off = offset as usize;
                    let start = if off < len { off } else { len };
                    let end0 = start.saturating_add(size as usize);
                    let end = if end0 < len { end0 } else { len };
                    let bytes = vstd::slice::slice_to_vec(vstd::slice::slice_subrange(buf.as_slice(), start, end));
                    proof {
                        assert(bytes@ =~= read_range(buf@, off as int, size as int));
                    }
                    Ok(bytes)
                },
                NodeData::Dir(_) => Err(Errno::EISDIR),
            },
            None => Err(Errno::ENOENT),
        }
    }

    // ---- write operations ----

    /// The view after `self.inodes` maps `k` to `v`.
    proof fn lemma_put(self, k: u64, v: Inode, m: Map<u64, Inode>)
        requires
            m == self.inodes@.insert(k, v),
        ensures
            m.map_values(|i: Inode| i@) == self@.inodes.insert(k, v@),
    {
        assert(m.map_values(|i: Inode| i@) =~= self@.inodes.insert(k, v@));
    }

    pub fn create(&mut self, parent: INodeNo, name: &str, perm: u16) -> (r: Result<FileAttr, Errno>)
        requires
            old(self).wf(),
            child_error(old(self)@.inodes, parent.0, name@) is None ==> old(self)@.next_ino < u64::MAX,
        ensures
            final(self).wf(),
            match r {
                Ok(a) => {
                    &&& child_error(old(self)@.inodes, parent.0, name@) is None
                    &&& a == crate::attr::attr_spec(old(self)@.next_ino, FileType::RegularFile, 0, perm, 1, a.atime)
                    &&& !old(self)@.inodes.contains_key(a.ino.0)
                    &&& final(self)@ == with_child(old(self)@, parent.0, name@, a, DataView::File(Seq::empty()))
                },
                Err(e) => {
                    &&& child_error(old(self)@.inodes, parent.0, name@) == Some(e)
                    &&& final(self)@ == old(self)@
                    &&& final(self)@.next_ino == old(self)@.next_ino
                },
            },
    {
        let empty: Vec<u8> = Vec::new();
        assert(empty@ =~= Seq::<u8>::empty());
        let r = self.insert_child(parent, name, NodeData::File(empty), FileType::RegularFile, perm, 1);
        proof {
            if let Ok(a) = r {
                law_create_keeps_tree(old(self)@, parent.0, name@, a, DataView::File(Seq::empty()));
            }
        }
        r
    }

    pub fn mkdir(&mut self, parent: INodeNo, name: &str, perm: u16) -> (r: Result<FileAttr, Errno>)
        requires
            old(self).wf(),
            child_error(old(self)@.inodes, parent.0, name@) is None ==> old(self)@.next_ino < u64::MAX
                && old(self)@.inodes[parent.0].attr.nlink < u32::MAX,
        ensures
            final(self).wf(),
            match r {
                Ok(a) => {
                    &&& child_error(old(self)@.inodes, parent.0, name@) is None
                    &&& a == crate::attr::attr_spec(old(self)@.next_ino, FileType::Directory, 0, perm, 2, a.atime)
                    &&& !old(self)@.inodes.contains_key(a.ino.0)
                    &&& final(self)@ == with_child(old(self)@, parent.0, name@, a, DataView::Dir(Map::empty()))
                },
                Err(e) => {
                    &&& child_error(old(self)@.inodes, parent.0, name@) == Some(e)
                    &&& final(self)@ == old(self)@
                    &&& final(self)@.next_ino == old(self)@.next_ino
                },
            },
    {
        let empty = Directory::new();
        let r = self.insert_child(parent, name, NodeData::Dir(empty), FileType::Directory, perm, 2);
        proof {
            if let Ok(a) = r {
                law_create_keeps_tree(old(self)@, parent.0, name@, a, DataView::Dir(Map::empty()));
            }
        }
        r
    }

    /// Shared body of `create`/`mkdir`.
    fn insert_child(
        &mut self,
        parent: INodeNo,
        name: &str,
        data: NodeData,
        kind: FileType,
        perm: u16,
        nlink: u32,
    ) -> (r: Result<FileAttr, Errno>)
        requires
            old(self).tables_ok(),
            data.wf(),
            data@ == DataView::File(Seq::empty()) || data@ == DataView::Dir(Map::empty()),
            kind == FileType::Directory <==> data@ is Dir,
            child_error(old(self)@.inodes, parent.0, name@) is None ==> old(self)@.next_ino < u64::MAX,
            child_error(old(self)@.inodes, parent.0, name@) is None && data@ is Dir
                ==> old(self)@.inodes[parent.0].attr.nlink < u32::MAX,
        ensures
            final(self).tables_ok(),
            match r {
                Ok(a) => {
                    &&& child_error(old(self)@.inodes, parent.0, name@) is None
                    &&& a == crate::attr::attr_spec(old(self)@.next_ino, kind, 0, perm, nlink, a.atime)
                    &&& final(self)@ == with_child(old(self)@, parent.0, name@, a, data@)
                },
                Err(e) => {
                    &&& child_error(old(self)@.inodes, parent.0, name@) == Some(e)
                    &&& final(self)@ == old(self)@
                },
            },
    {
        match self.dir_map(parent.0) {
            Err(e) => return Err(e),
            Ok(d) => {
                if d.contains_key(name) {
                    return Err(Errno::EEXIST);
                }
            },
        }
        let ghost v0 = self@;
        let is_dir = match &data {
            NodeData::Dir(_) => true,
            NodeData::File(_) => false,
        };
        let ino = self.alloc_ino();
        let attr = mk_attr(ino, kind, 0, perm, nlink, current_time());
        assert(self@.inodes == v0.inodes);
        assert(parent.0 != ino.0);
        let new_inode = Inode { attr, parent, data };
        proof {
            self.lemma_put(ino.0, new_inode, self.inodes@.insert(ino.0, new_inode));
        }
        self.inodes.insert(ino.0, new_inode);
        let p = self.inodes.remove(&parent.0);
        match p {
            Some(pi) => {
                let Inode { attr: pattr, parent: pparent, data: pdata } = pi;
                match pdata {
                    NodeData::Dir(mut entries) => {
                        entries.insert(name, ino.0);
                        let mut new_attr = pattr;
                        if is_dir {
                            new_attr.nlink = pattr.nlink + 1;
                        }
                        let np = Inode { attr: new_attr, parent: pparent, data: NodeData::Dir(entries) };
                        proof {
                            self.lemma_put(parent.0, np, self.inodes@.insert(parent.0, np));
                        }
                        self.inodes.insert(parent.0, np);
                    },
                    NodeData::File(b) => {
                        assert(false);
                    },
                }
            },
            None => {
                assert(false);
            },
        }
        proof {
            let want = with_child(v0, parent.0, name@, attr, data@);
            assert(self@.inodes =~= want.inodes);
        }
        Ok(attr)
    }

    /// Write `data` at `offset`, growing (and zero-filling gaps in) the file;
    /// the modification time becomes the clock's now.
    pub fn write(&mut self, ino: INodeNo, offset: u64, data: &[u8]) -> (r: Result<u32, Errno>)
        requires
            old(self).wf(),
            file_error(old(self)@.inodes, ino.0) is None ==> (offset as usize) + data@.len() <= usize::MAX,
        ensures
            final(self).wf(),
            match r {
                Ok(n) => {
                    &&& file_error(old(self)@.inodes, ino.0) is None
                    &&& n == data@.len() as u32
                    &&& write_spec(old(self)@, ino.0, offset, data@, final(self)@.inodes[ino.0].attr.mtime)
                        == Ok::<FsView, Errno>(final(self)@)
                },
                Err(e) => {
                    &&& file_error(old(self)@.inodes, ino.0) == Some(e)
                    &&& final(self)@ == old(self)@
                },
            },
    {
        self.write_at(ino, offset, data, current_time())
    }

    /// `write` with modification time `now`.
    pub fn write_at(&mut self, ino: INodeNo, offset: u64, data: &[u8], now: SystemTime) -> (r: Result<u32, Errno>)
        requires
            old(self).wf(),
            file_error(old(self)@.inodes, ino.0) is None ==> (offset as usize) + data@.len() <= usize::MAX,
        ensures
            final(self).wf(),
            match r {
                Ok(n) => {
                    &&& file_error(old(self)@.inodes, ino.0) is None
                    &&& n == data@.len() as u32
                    &&& write_spec(old(self)@, ino.0, offset, data@, now) == Ok::<FsView, Errno>(final(self)@)
                },
                Err(e) => {
                    &&& file_error(old(self)@.inodes, ino.0) == Some(e)
                    &&& final(self)@ == old(self)@
                },
            },
    {
        let ghost v0 = self@;
        let inode = match self.inodes.remove(&ino.0) {
            Some(i) => i,
            None => {
                proof {
                    assert(self.inodes@ =~= old(self).inodes@);
                }
                return Err(Errno::ENOENT);
            },
        };
        let Inode { attr, parent, data: idata } = inode;
        match idata {
            NodeData::Dir(d) => {
                let back = Inode { attr, parent, data: NodeData::Dir(d) };
                proof {
                    self.lemma_put(ino.0, back, self.inodes@.insert(ino.0, back));
                }
                self.inodes.insert(ino.0, back);
                proof {
                    assert(self@.inodes =~= v0.inodes);
                }
                Err(Errno::EISDIR)
            },
            NodeData::File(mut buf) => {
                let ghost old_buf = buf@;
                let ghost want = written(old_buf, (offset as usize) as int, data@);
                let start = offset as usize;
                let end = start + data.len();
                if buf.len() < end {
                    buf.resize(end, 0u8);
                }
                let ghost grown = buf@;
                assert(grown =~= (if old_buf.len() < end { resized(old_buf, end as int) } else { old_buf }));
                let mut i: usize = 0;
                while i < data.len()
                    invariant
                        start == offset as usize,
                        end == start + data@.len(),
                        end <= buf@.len(),
                        buf@.len() == grown.len(),
                        i <= data@.len(),
                        forall|j: int| 0 <= j < grown.len() && !(start <= j < start + i) ==> buf@[j] == grown[j],
                        forall|j: int| start <= j < start + i ==> buf@[j] == data@[j - start],
                    decreases data@.len() - i,
                {
                    buf.set(start + i, data[i]);
                    i = i + 1;
                }
                assert(buf@ =~= want);
                let new_len = buf.len() as u64;
                let mut a = attr;
                a.size = new_len;
                a.blocks = blocks_of(new_len);
                a.mtime = now;
                let back = Inode { attr: a, parent, data: NodeData::File(buf) };
                proof {
                    self.lemma_put(ino.0, back, self.inodes@.insert(ino.0, back));
                }
                self.inodes.insert(ino.0, back);
                proof {
                    let w = write_spec(v0, ino.0, offset, data@, a.mtime);
                    assert(self@.inodes =~= w->Ok_0.inodes);
                    law_write_keeps_tree(v0, ino.0, offset, data@, now);
                }
                Ok(data.len() as u32)
            },
        }
    }

    /// Apply attribute changes. `size` truncates/extends file contents.
    pub fn setattr(
        &mut self,
        ino: INodeNo,
        size: Option<u64>,
        perm: Option<u16>,
        atime: Option<SystemTime>,
        mtime: Option<SystemTime>,
    ) -> (r: Result<FileAttr, Errno>)
        requires
            old(self).wf(),
        ensures
            final(self).wf(),
            match r {
                Ok(a) => setattr_spec(old(self)@, ino.0, size, perm, atime, mtime) == Ok::<(FsView, FileAttr), Errno>((final(self)@, a)),
                Err(e) => {
                    &&& setattr_spec(old(self)@, ino.0, size, perm, atime, mtime) == Err::<(FsView, FileAttr), Errno>(e)
                    &&& final(self)@ == old(self)@
                },
            },
    {
        let ghost v0 = self@;
        let inode = match self.inodes.remove(&ino.0) {
            Some(i) => i,
            None => {
                proof {
                    assert(self.inodes@ =~= old(self).inodes@);
                }
                return Err(Errno::ENOENT);
            },
        };
        let Inode { attr, parent, data } = inode;
        let mut a = attr;
        let mut d = data;
        if let Some(sz) = size {
            d = match d {
                NodeData::File(mut buf) => {
                    let ghost old_buf = buf@;
                    buf.resize(sz as usize, 0u8);
                    assert(buf@ =~= resized(old_buf, (sz as usize) as int));
                    NodeData::File(buf)
                },
                other => other,
            };
            a.size = sz;
            a.blocks = blocks_of(sz);
        }
        if let Some(p) = perm {
            a.perm = p;
        }
        if let Some(t) = atime {
            a.atime = t;
        }
        if let Some(t) = mtime {
            a.mtime = t;
        }
        let back = Inode { attr: a, parent, data: d };
        proof {
            self.lemma_put(ino.0, back, self.inodes@.insert(ino.0, back));
        }
        self.inodes.insert(ino.0, back);
        proof {
            let w = setattr_spec(v0, ino.0, size, perm, atime, mtime);
            assert(a == setattr_attr(attr, size, perm, atime, mtime));
            assert(d@ == w->Ok_0.0.inodes[ino.0].data);
            assert(self@.inodes =~= w->Ok_0.0.inodes);
            law_setattr_keeps_tree(v0, ino.0, size, perm, atime, mtime);
        }
        Ok(a)
    }

    /// Removes entry `name` from directory `parent`, dropping one of its links if asked.
    fn detach(&mut self, parent: u64, name: &str, drop_link: bool)
        requires
            old(self).tables_ok(),
            dir_spec(old(self)@.inodes, parent) is Ok,
        ensures
            final(self).tables_ok(),
            final(self)@.next_ino == old(self)@.next_ino,
            final(self)@.inodes == old(self)@.inodes.insert(
                parent,
                ({
                    let pv = old(self)@.inodes[parent];
                    let n = if pv.attr.nlink == 0 { 0u32 } else { (pv.attr.nlink - 1) as u32 };
                    InodeView {
                        attr: if drop_link { with_nlink(pv.attr, n) } else { pv.attr },
                        parent: pv.parent,
                        data: DataView::Dir(entries_of(pv.data).remove(name@)),
                    }
                }),
            ),
    {
        let p = self.inodes.remove(&parent);
        match p {
            Some(pi) => {
                let Inode { attr: pattr, parent: pparent, data: pdata } = pi;
                match pdata {
                    NodeData::Dir(mut entries) => {
                        entries.remove(name);
                        let mut new_attr = pattr;
                        if drop_link {
                            new_attr.nlink = pattr.nlink.saturating_sub(1);
                        }
                        let np = Inode { attr: new_attr, parent: pparent, data: NodeData::Dir(entries) };
                        proof {
                            self.lemma_put(parent, np, self.inodes@.insert(parent, np));
                        }
                        self.inodes.insert(parent, np);
                    },
                    NodeData::File(_) => {
                        assert(false);
                    },
                }
            },
            None => {
                assert(false);
            },
        }
        proof {
            assert(self@.inodes =~= old(self)@.inodes.insert(parent, self@.inodes[parent]));
        }
    }

    /// Removes inode `ino` from the table.
    fn drop_inode(&mut self, ino: u64)
        requires
            old(self).tables_ok(),
        ensures
            final(self).tables_ok(),
            final(self)@ == (FsView { inodes: old(self)@.inodes.remove(ino), next_ino: old(self)@.next_ino }),
    {
        self.inodes.remove(&ino);
        proof {
            assert(self@.inodes =~= old(self)@.inodes.remove(ino));
        }
    }

    pub fn unlink(&mut self, parent: INodeNo, name: &str) -> (r: Result<(), Errno>)
        requires
            old(self).wf(),
        ensures
            final(self).wf(),
            match r {
                Ok(()) => unlink_spec(old(self)@, parent.0, name@) == Ok::<FsView, Errno>(final(self)@),
                Err(e) => {
                    &&& unlink_spec(old(self)@, parent.0, name@) == Err::<FsView, Errno>(e)
                    &&& final(self)@ == old(self)@
                },
            },
    {
        let ino = match self.dir_map(parent.0) {
            Err(e) => return Err(e),
            Ok(d) => match d.get(name) {
                Some(i) => i,
                None => return Err(Errno::ENOENT),
            },
        };
        let is_dir = match self.inodes.get(&ino) {
            Some(i) => match &i.data {
                NodeData::Dir(_) => true,
                NodeData::File(_) => false,
            },
            None => false,
        };
        if is_dir {
            return Err(Errno::EISDIR);
        }
        self.detach(parent.0, name, false);
        self.drop_inode(ino);
        proof {
            law_unlink_keeps_tree(old(self)@, parent.0, name@);
        }
        Ok(())
    }

    pub fn rmdir(&mut self, parent: INodeNo, name: &str) -> (r: Result<(), Errno>)
        requires
            old(self).wf(),
        ensures
            final(self).wf(),
            match r {
                Ok(()) => rmdir_spec(old(self)@, parent.0, name@) == Ok::<FsView, Errno>(final(self)@),
                Err(e) => {
                    &&& rmdir_spec(old(self)@, parent.0, name@) == Err::<FsView, Errno>(e)
                    &&& final(self)@ == old(self)@
                },
            },
    {
        let ino = match self.dir_map(parent.0) {
            Err(e) => return Err(e),
            Ok(d) => match d.get(name) {
                Some(i) => i,
                None => return Err(Errno::ENOENT),
            },
        };
        match self.inodes.get(&ino) {
            Some(i) => match &i.data {
                NodeData::Dir(entries) => {
                    if !entries.is_empty() {
                        return Err(Errno::ENOTEMPTY);
                    }
                },
                NodeData::File(_) => return Err(Errno::ENOTDIR),
            },
            None => return Err(Errno::ENOENT),
        }
        // Detach and undo the parent's `..` link bump (`tree::law_rmdir_keeps_links`).
        self.detach(parent.0, name, true);
        self.drop_inode(ino);
        proof {
            law_rmdir_keeps_tree(old(self)@, parent.0, name@);
        }
        Ok(())
    }

    /// Why inode `src` may not replace inode `dst`.
    fn replace_error(&self, src: u64, dst: u64) -> (r: Option<Errno>)
        requires
            self.tables_ok(),
        ensures
            r == replace_error(self@.inodes, src, dst),
    {
        let src_is_dir = match self.inodes.get(&src) {
            Some(i) => match &i.data {
                NodeData::Dir(_) => true,
                NodeData::File(_) => false,
            },
            None => false,
        };
        match self.inodes.get(&dst) {
            Some(i) => match &i.data {
                NodeData::Dir(entries) => {
                    if !entries.is_empty() {
                        Some(Errno::ENOTEMPTY)
                    } else if !src_is_dir {
                        Some(Errno::EISDIR)
                    } else {
                        None
                    }
                },
                NodeData::File(_) => {
                    if src_is_dir {
                        Some(Errno::ENOTDIR)
                    } else {
                        None
                    }
                },
            },
            None => None,
        }
    }

    #[verifier::rlimit(40)]
    pub fn rename(&mut self, parent: INodeNo, name: &str, newparent: INodeNo, newname: &str) -> (r: Result<(), Errno>)
        requires
            old(self).wf(),
        ensures
            final(self).wf(),
            match r {
                Ok(()) => rename_spec(old(self)@, parent.0, name@, newparent.0, newname@) == Ok::<FsView, Errno>(final(self)@),
                Err(e) => {
                    &&& rename_spec(old(self)@, parent.0, name@, newparent.0, newname@) == Err::<FsView, Errno>(e)
                    &&& final(self)@ == old(self)@
                },
            },
    {
        // Validate destination first so failure never leaves the source half-modified.
        match self.dir_map(newparent.0) {
            Err(e) => return Err(e),
            Ok(_) => {},
        }
        let ino = match self.dir_map(parent.0) {
            Err(e) => return Err(e),
            Ok(d) => match d.get(name) {
                Some(i) => i,
                None => return Err(Errno::ENOENT),
            },
        };
        // A directory with entries is never replaced; a file never replaces a
        // directory, nor a directory a file.
        let same = parent.0 == newparent.0 && compare_names(name, newname) == NameOrder::Equal;
        if !same {
            let target = match self.dir_map(newparent.0) {
                Ok(nd) => nd.get(newname),
                Err(e) => return Err(e),
            };
            if let Some(d) = target {
                if d != ino {
                    if let Some(e) = self.replace_error(ino, d) {
                        return Err(e);
                    }
                }
            }
        }
        self.detach(parent.0, name, false);

        // Attach at destination, capturing any entry it overwrites.
        let ghost v1 = self@;
        assert(v1.inodes.contains_key(newparent.0));
        assert(self.inodes@.contains_key(newparent.0));
        let replaced = match self.inodes.remove(&newparent.0) {
            Some(np) => {
                let Inode { attr: nattr, parent: nparent, data: ndata } = np;
                match ndata {
                    NodeData::Dir(mut entries) => {
                        let old_entry = entries.insert(newname, ino);
                        let back = Inode { attr: nattr, parent: nparent, data: NodeData::Dir(entries) };
                        proof {
                            self.lemma_put(newparent.0, back, self.inodes@.insert(newparent.0, back));
                        }
                        self.inodes.insert(newparent.0, back);
                        old_entry
                    },
                    NodeData::File(_) => {
                        assert(false);
                        None
                    },
                }
            },
            None => {
                assert(false);
                None
            },
        };
        proof {
            assert(self@.inodes =~= v1.inodes.insert(newparent.0, self@.inodes[newparent.0]));
        }
        if let Some(old) = replaced {
            self.drop_inode(old);
        }

        // Repoint at new parent (keeps `..` correct: `tree::law_rename_keeps_tree`).
        let ghost v3 = self@;
        match self.inodes.remove(&ino) {
            Some(inode) => {
                let Inode { attr, parent: _, data } = inode;
                let back = Inode { attr, parent: newparent, data };
                proof {
                    self.lemma_put(ino, back, self.inodes@.insert(ino, back));
                }
                self.inodes.insert(ino, back);
            },
            None => {
                proof {
                    assert(self@.inodes =~= v3.inodes);
                }
            },
        }
        proof {
            let w = rename_spec(old(self)@, parent.0, name@, newparent.0, newname@);
            assert(self@.inodes =~= w->Ok_0.inodes);
            law_rename_keeps_tree(old(self)@, parent.0, name@, newparent.0, newname@);
        }
        Ok(())
    }
}

} // verus!
