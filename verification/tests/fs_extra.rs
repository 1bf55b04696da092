use rustfs::attr::{FileType, INodeNo};
use rustfs::errno::Errno;
use rustfs::inode::FsState;
use rustfs::reply::{listing_page, mode_to_perm};

fn names(st: &FsState, dir: INodeNo) -> Vec<String> {
    st.readdir(dir).unwrap().into_iter().map(|(_, _, n)| n).collect()
}

#[test]
fn overwrite_in_middle_keeps_surrounding_bytes() {
    let mut st = FsState::new();
    let f = st.create(INodeNo::root(), "f", 0o644).unwrap();
    st.write(f.ino, 0, b"abcdef").unwrap();
    assert_eq!(st.write(f.ino, 2, b"XY").unwrap(), 2);
    assert_eq!(st.read(f.ino, 0, 100).unwrap(), b"abXYef");
    assert_eq!(st.read(f.ino, 2, 2).unwrap(), b"XY");
    assert_eq!(st.getattr(f.ino).unwrap().size, 6);
}

#[test]
fn read_clips_to_file_end() {
    let st = FsState::new();
    let hello = st.lookup(INodeNo::root(), "hello.txt").unwrap().ino;
    assert_eq!(st.read(hello, 6, 4).unwrap(), b"from");
    assert_eq!(st.read(hello, 17, 10).unwrap(), b"!\n");
    assert_eq!(st.read(hello, 100, 10).unwrap(), Vec::<u8>::new());
}

#[test]
fn blocks_round_up_to_512() {
    let mut st = FsState::new();
    let f = st.create(INodeNo::root(), "f", 0o644).unwrap();
    assert_eq!(f.blocks, 0);
    st.write(f.ino, 0, &[7u8; 513]).unwrap();
    let a = st.getattr(f.ino).unwrap();
    assert_eq!(a.size, 513);
    assert_eq!(a.blocks, 2);
    let hello = st.lookup(INodeNo::root(), "hello.txt").unwrap();
    assert_eq!(hello.blocks, 1);
}

#[test]
fn setattr_extends_with_zeros_and_sets_perm() {
    let mut st = FsState::new();
    let f = st.create(INodeNo::root(), "f", 0o644).unwrap();
    st.write(f.ino, 0, b"ab").unwrap();
    let a = st.setattr(f.ino, Some(4), Some(0o600), None, None).unwrap();
    assert_eq!(a.size, 4);
    assert_eq!(a.perm, 0o600);
    assert_eq!(st.read(f.ino, 0, 100).unwrap(), vec![b'a', b'b', 0, 0]);
    assert_eq!(st.getattr(f.ino).unwrap().perm, 0o600);
}

#[test]
fn setattr_missing_inode_is_enoent() {
    let mut st = FsState::new();
    assert_eq!(st.setattr(INodeNo(99), Some(1), None, None, None).unwrap_err(), Errno::ENOENT);
}

#[test]
fn errors_for_wrong_kinds() {
    let mut st = FsState::new();
    let hello = st.lookup(INodeNo::root(), "hello.txt").unwrap().ino;
    assert_eq!(st.getattr(INodeNo(99)).unwrap_err(), Errno::ENOENT);
    assert_eq!(st.lookup(hello, "x").unwrap_err(), Errno::ENOTDIR);
    assert_eq!(st.lookup(INodeNo(99), "x").unwrap_err(), Errno::ENOENT);
    assert_eq!(st.read(INodeNo::root(), 0, 10).unwrap_err(), Errno::EISDIR);
    assert_eq!(st.read(INodeNo(99), 0, 10).unwrap_err(), Errno::ENOENT);
    assert_eq!(st.write(INodeNo::root(), 0, b"x").unwrap_err(), Errno::EISDIR);
    assert_eq!(st.write(INodeNo(99), 0, b"x").unwrap_err(), Errno::ENOENT);
    assert_eq!(st.readdir(hello).unwrap_err(), Errno::ENOTDIR);
    assert_eq!(st.create(hello, "x", 0o644).unwrap_err(), Errno::ENOTDIR);
    assert_eq!(st.mkdir(INodeNo(99), "x", 0o755).unwrap_err(), Errno::ENOENT);
    assert_eq!(st.rmdir(INodeNo::root(), "hello.txt").unwrap_err(), Errno::ENOTDIR);
    assert_eq!(st.rmdir(INodeNo::root(), "nope").unwrap_err(), Errno::ENOENT);
    assert_eq!(st.unlink(INodeNo::root(), "nope").unwrap_err(), Errno::ENOENT);
    assert_eq!(st.rename(INodeNo::root(), "hello.txt", hello, "x").unwrap_err(), Errno::ENOTDIR);
    assert_eq!(st.rename(INodeNo::root(), "nope", INodeNo::root(), "x").unwrap_err(), Errno::ENOENT);
    assert_eq!(st.rename(hello, "x", INodeNo::root(), "y").unwrap_err(), Errno::ENOTDIR);
    // Nothing above changed the tree.
    assert_eq!(names(&st, INodeNo::root()), vec![".", "..", "hello.txt"]);
    assert_eq!(st.read(hello, 0, 100).unwrap(), b"Hello from rustFS!\n");
}

#[test]
fn error_codes_are_the_platform_numbers() {
    assert_eq!(Errno::ENOENT.code(), libc::ENOENT);
    assert_eq!(Errno::ENOTDIR.code(), libc::ENOTDIR);
    assert_eq!(Errno::EISDIR.code(), libc::EISDIR);
    assert_eq!(Errno::EEXIST.code(), libc::EEXIST);
    assert_eq!(Errno::ENOTEMPTY.code(), libc::ENOTEMPTY);
}

#[test]
fn readdir_lists_children_in_name_order_with_kinds() {
    let mut st = FsState::new();
    st.create(INodeNo::root(), "b", 0o644).unwrap();
    let a = st.mkdir(INodeNo::root(), "a", 0o755).unwrap();
    st.create(INodeNo::root(), "Z", 0o644).unwrap();
    st.create(INodeNo::root(), "c", 0o644).unwrap();
    let listing = st.readdir(INodeNo::root()).unwrap();
    let got: Vec<&str> = listing.iter().map(|(_, _, n)| n.as_str()).collect();
    assert_eq!(got, vec![".", "..", "Z", "a", "b", "c", "hello.txt"]);
    assert_eq!(listing[0].0, INodeNo::root());
    assert_eq!(listing[1].0, INodeNo::root());
    assert_eq!(listing[3], (a.ino, FileType::Directory, "a".to_string()));
    assert_eq!(listing[4].1, FileType::RegularFile);
}

#[test]
fn mkdir_then_rmdir_restores_parent() {
    let mut st = FsState::new();
    let before = names(&st, INodeNo::root());
    st.mkdir(INodeNo::root(), "d", 0o755).unwrap();
    assert_eq!(st.getattr(INodeNo::root()).unwrap().nlink, 3);
    st.rmdir(INodeNo::root(), "d").unwrap();
    assert_eq!(st.getattr(INodeNo::root()).unwrap().nlink, 2);
    assert_eq!(names(&st, INodeNo::root()), before);
}

#[test]
fn create_then_unlink_restores_parent_and_frees_inode() {
    let mut st = FsState::new();
    let f = st.create(INodeNo::root(), "tmp", 0o644).unwrap();
    assert_eq!(st.getattr(INodeNo::root()).unwrap().nlink, 2);
    st.unlink(INodeNo::root(), "tmp").unwrap();
    assert_eq!(st.getattr(f.ino).unwrap_err(), Errno::ENOENT);
    assert_eq!(names(&st, INodeNo::root()), vec![".", "..", "hello.txt"]);
    // Numbers are not reused.
    let g = st.create(INodeNo::root(), "tmp", 0o644).unwrap();
    assert_eq!(g.ino, INodeNo(f.ino.0 + 1));
}

#[test]
fn create_returns_fresh_attributes() {
    let mut st = FsState::new();
    let f = st.create(INodeNo::root(), "f", 0o640).unwrap();
    assert_eq!(f.ino, INodeNo(3));
    assert_eq!(f.kind, FileType::RegularFile);
    assert_eq!(f.perm, 0o640);
    assert_eq!(f.nlink, 1);
    assert_eq!(f.blksize, 512);
    assert_eq!(f.atime, f.mtime);
    assert_eq!(f.ctime, f.crtime);
    let d = st.mkdir(INodeNo::root(), "d", 0o700).unwrap();
    assert_eq!(d.ino, INodeNo(4));
    assert_eq!(d.nlink, 2);
    assert!(st.can_allocate());
}

#[test]
fn rename_over_existing_entry_drops_its_inode() {
    let mut st = FsState::new();
    let a = st.create(INodeNo::root(), "a", 0o644).unwrap();
    let b = st.create(INodeNo::root(), "b", 0o644).unwrap();
    st.write(a.ino, 0, b"A").unwrap();
    st.rename(INodeNo::root(), "a", INodeNo::root(), "b").unwrap();
    assert_eq!(st.lookup(INodeNo::root(), "b").unwrap().ino, a.ino);
    assert_eq!(st.getattr(b.ino).unwrap_err(), Errno::ENOENT);
    assert_eq!(names(&st, INodeNo::root()), vec![".", "..", "b", "hello.txt"]);
    assert_eq!(st.read(a.ino, 0, 10).unwrap(), b"A");
}

#[test]
fn rename_onto_itself_keeps_the_entry() {
    let mut st = FsState::new();
    let f = st.create(INodeNo::root(), "f", 0o644).unwrap();
    st.write(f.ino, 0, b"data").unwrap();
    st.rename(INodeNo::root(), "f", INodeNo::root(), "f").unwrap();
    assert_eq!(st.lookup(INodeNo::root(), "f").unwrap().ino, f.ino);
    assert_eq!(st.read(f.ino, 0, 10).unwrap(), b"data");
    assert_eq!(names(&st, INodeNo::root()), vec![".", "..", "f", "hello.txt"]);
}

#[test]
fn listing_page_resumes_at_offset() {
    let st = FsState::new();
    let listing = st.readdir(INodeNo::root()).unwrap();
    let page = listing_page(&listing, 1);
    assert_eq!(page.len(), 2);
    assert_eq!(page[0], (INodeNo::root(), 2, FileType::Directory, "..".to_string()));
    assert_eq!(page[1], (INodeNo(2), 3, FileType::RegularFile, "hello.txt".to_string()));
    assert_eq!(listing_page(&listing, 0).len(), 3);
    assert_eq!(listing_page(&listing, 0)[0].1, 1);
    assert!(listing_page(&listing, 3).is_empty());
    assert!(listing_page(&listing, 1000).is_empty());
}

#[test]
fn mode_to_perm_keeps_permission_bits() {
    assert_eq!(mode_to_perm(0o100644), 0o644);
    assert_eq!(mode_to_perm(0o40755), 0o755);
    assert_eq!(mode_to_perm(0o177777), 0o7777);
    assert_eq!(mode_to_perm(0), 0);
}

#[test]
fn rename_onto_nonempty_dir_is_refused() {
    let mut st = FsState::new();
    let a = st.mkdir(INodeNo::root(), "a", 0o755).unwrap();
    let b = st.mkdir(INodeNo::root(), "b", 0o755).unwrap();
    let x = st.create(b.ino, "x", 0o644).unwrap();
    assert_eq!(st.rename(INodeNo::root(), "a", INodeNo::root(), "b").unwrap_err().code(), libc::ENOTEMPTY);
    let f = st.create(INodeNo::root(), "f", 0o644).unwrap();
    assert_eq!(st.rename(INodeNo::root(), "f", INodeNo::root(), "b").unwrap_err(), Errno::ENOTEMPTY);
    // Nothing moved or vanished.
    assert_eq!(st.lookup(INodeNo::root(), "a").unwrap().ino, a.ino);
    assert_eq!(st.lookup(INodeNo::root(), "f").unwrap().ino, f.ino);
    assert_eq!(st.lookup(b.ino, "x").unwrap().ino, x.ino);
    assert_eq!(names(&st, INodeNo::root()), vec![".", "..", "a", "b", "f", "hello.txt"]);
}

#[test]
fn rename_checks_kinds_of_replaced_entry() {
    let mut st = FsState::new();
    let d = st.mkdir(INodeNo::root(), "d", 0o755).unwrap();
    let e = st.mkdir(INodeNo::root(), "e", 0o755).unwrap();
    st.create(INodeNo::root(), "f", 0o644).unwrap();
    // A file never replaces a directory, a directory never replaces a file.
    assert_eq!(st.rename(INodeNo::root(), "f", INodeNo::root(), "d").unwrap_err().code(), libc::EISDIR);
    assert_eq!(st.rename(INodeNo::root(), "d", INodeNo::root(), "f").unwrap_err().code(), libc::ENOTDIR);
    // A directory replaces an empty directory.
    st.rename(INodeNo::root(), "d", INodeNo::root(), "e").unwrap();
    assert_eq!(st.lookup(INodeNo::root(), "e").unwrap().ino, d.ino);
    assert_eq!(st.getattr(e.ino).unwrap_err(), Errno::ENOENT);
    assert_eq!(names(&st, INodeNo::root()), vec![".", "..", "e", "f", "hello.txt"]);
}

#[test]
fn write_at_sets_the_given_mtime() {
    let mut st = FsState::new();
    let f = st.create(INodeNo::root(), "f", 0o644).unwrap();
    let t = std::time::UNIX_EPOCH + std::time::Duration::from_secs(1000);
    assert_eq!(st.write_at(f.ino, 1, b"z", t).unwrap(), 1);
    let a = st.getattr(f.ino).unwrap();
    assert_eq!(a.mtime, t);
    assert_eq!(a.atime, f.atime);
    assert_eq!(a.size, 2);
    assert_eq!(st.read(f.ino, 0, 10).unwrap(), vec![0, b'z']);
}

#[test]
fn adds_child_matches_create_outcome() {
    let mut st = FsState::new();
    let hello = st.lookup(INodeNo::root(), "hello.txt").unwrap().ino;
    assert!(st.adds_child(INodeNo::root(), "new"));
    assert!(!st.adds_child(INodeNo::root(), "hello.txt"));
    assert!(!st.adds_child(hello, "x"));
    assert!(!st.adds_child(INodeNo(99), "x"));
    st.create(INodeNo::root(), "new", 0o644).unwrap();
    assert!(!st.adds_child(INodeNo::root(), "new"));
}

#[test]
fn link_counts_follow_subdirectories() {
    let mut st = FsState::new();
    let a = st.mkdir(INodeNo::root(), "a", 0o755).unwrap();
    let b = st.mkdir(INodeNo::root(), "b", 0o755).unwrap();
    st.mkdir(a.ino, "x", 0o755).unwrap();
    st.create(a.ino, "f", 0o644).unwrap();
    assert_eq!(st.getattr(INodeNo::root()).unwrap().nlink, 4);
    assert_eq!(st.getattr(a.ino).unwrap().nlink, 3);
    assert_eq!(st.getattr(b.ino).unwrap().nlink, 2);
    // Moving a file or renaming a directory in place leaves the counts right.
    st.rename(a.ino, "f", b.ino, "g").unwrap();
    st.rename(INodeNo::root(), "b", INodeNo::root(), "c").unwrap();
    assert_eq!(st.getattr(INodeNo::root()).unwrap().nlink, 4);
    assert_eq!(st.getattr(a.ino).unwrap().nlink, 3);
    // Moving a directory to another directory does not adjust link counts.
    st.rename(a.ino, "x", b.ino, "x").unwrap();
    assert_eq!(st.getattr(a.ino).unwrap().nlink, 3);
    assert_eq!(st.getattr(b.ino).unwrap().nlink, 2);
}

#[test]
fn rename_there_and_back_restores_the_tree() {
    let mut st = FsState::new();
    let d = st.mkdir(INodeNo::root(), "d", 0o755).unwrap();
    let hello = st.lookup(INodeNo::root(), "hello.txt").unwrap();
    st.rename(INodeNo::root(), "hello.txt", d.ino, "h").unwrap();
    assert_eq!(st.readdir(hello.ino).unwrap_err(), Errno::ENOTDIR);
    st.rename(d.ino, "h", INodeNo::root(), "hello.txt").unwrap();
    assert_eq!(names(&st, INodeNo::root()), vec![".", "..", "d", "hello.txt"]);
    assert_eq!(names(&st, d.ino), vec![".", ".."]);
    assert_eq!(st.lookup(INodeNo::root(), "hello.txt").unwrap().ino, hello.ino);
    assert_eq!(st.read(hello.ino, 0, 100).unwrap(), b"Hello from rustFS!\n");
}

#[test]
fn write_errors_come_before_the_range_is_computed() {
    let mut st = FsState::new();
    assert_eq!(st.write(INodeNo(99), u64::MAX, b"x").unwrap_err(), Errno::ENOENT);
    assert_eq!(st.write(INodeNo::root(), u64::MAX, b"x").unwrap_err(), Errno::EISDIR);
}
