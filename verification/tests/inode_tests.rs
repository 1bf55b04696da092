use rustfs::attr::{FileType, INodeNo};
use rustfs::inode::FsState;

#[test]
fn seeded_root_contains_hello() {
    let st = FsState::new();
    let attr = st.lookup(INodeNo::root(), "hello.txt").unwrap();
    assert_eq!(attr.kind, FileType::RegularFile);
    assert_eq!(attr.size, 19);
    assert_eq!(st.read(attr.ino, 0, 100).unwrap(), b"Hello from rustFS!\n");
}

#[test]
fn create_write_read_roundtrip() {
    let mut st = FsState::new();
    let attr = st.create(INodeNo::root(), "foo", 0o644).unwrap();
    assert_eq!(attr.size, 0);
    assert_eq!(st.write(attr.ino, 0, b"hello").unwrap(), 5);
    assert_eq!(st.read(attr.ino, 0, 100).unwrap(), b"hello");
    assert_eq!(st.getattr(attr.ino).unwrap().size, 5);
}

#[test]
fn duplicate_create_is_eexist() {
    let mut st = FsState::new();
    st.create(INodeNo::root(), "foo", 0o644).unwrap();
    let err = st.create(INodeNo::root(), "foo", 0o644).unwrap_err();
    assert_eq!(err.code(), libc::EEXIST);
}

#[test]
fn write_past_eof_zero_fills_gap() {
    let mut st = FsState::new();
    let f = st.create(INodeNo::root(), "f", 0o644).unwrap();
    st.write(f.ino, 3, b"X").unwrap();
    assert_eq!(st.read(f.ino, 0, 100).unwrap(), vec![0, 0, 0, b'X']);
}

#[test]
fn setattr_truncates() {
    let mut st = FsState::new();
    let f = st.create(INodeNo::root(), "f", 0o644).unwrap();
    st.write(f.ino, 0, b"abcdef").unwrap();
    let attr = st.setattr(f.ino, Some(2), None, None, None).unwrap();
    assert_eq!(attr.size, 2);
    assert_eq!(st.read(f.ino, 0, 100).unwrap(), b"ab");
}

#[test]
fn mkdir_bumps_parent_nlink_and_nests() {
    let mut st = FsState::new();
    let d = st.mkdir(INodeNo::root(), "sub", 0o755).unwrap();
    assert_eq!(d.kind, FileType::Directory);
    assert_eq!(st.getattr(INodeNo::root()).unwrap().nlink, 3); // 2 + new "sub/.."
    let inner = st.create(d.ino, "inner", 0o644).unwrap();
    assert_eq!(st.lookup(d.ino, "inner").unwrap().ino, inner.ino);
}

#[test]
fn unlink_removes_file_but_refuses_dir() {
    let mut st = FsState::new();
    st.create(INodeNo::root(), "foo", 0o644).unwrap();
    st.unlink(INodeNo::root(), "foo").unwrap();
    assert_eq!(st.lookup(INodeNo::root(), "foo").unwrap_err().code(), libc::ENOENT);

    st.mkdir(INodeNo::root(), "d", 0o755).unwrap();
    assert_eq!(st.unlink(INodeNo::root(), "d").unwrap_err().code(), libc::EISDIR);
}

#[test]
fn rmdir_requires_empty_and_restores_nlink() {
    let mut st = FsState::new();
    let d = st.mkdir(INodeNo::root(), "d", 0o755).unwrap();
    st.create(d.ino, "x", 0o644).unwrap();
    assert_eq!(st.rmdir(INodeNo::root(), "d").unwrap_err().code(), libc::ENOTEMPTY);

    st.unlink(d.ino, "x").unwrap();
    assert_eq!(st.getattr(INodeNo::root()).unwrap().nlink, 3);
    st.rmdir(INodeNo::root(), "d").unwrap();
    assert_eq!(st.getattr(INodeNo::root()).unwrap().nlink, 2);
}

#[test]
fn rename_moves_file_across_dirs() {
    let mut st = FsState::new();
    let d = st.mkdir(INodeNo::root(), "sub", 0o755).unwrap();
    let f = st.create(INodeNo::root(), "foo", 0o644).unwrap();
    st.rename(INodeNo::root(), "foo", d.ino, "bar").unwrap();

    assert_eq!(st.lookup(INodeNo::root(), "foo").unwrap_err().code(), libc::ENOENT);
    assert_eq!(st.lookup(d.ino, "bar").unwrap().ino, f.ino);
}

#[test]
fn rename_dir_repoints_its_dotdot() {
    let mut st = FsState::new();
    let a = st.mkdir(INodeNo::root(), "a", 0o755).unwrap();
    let b = st.mkdir(INodeNo::root(), "b", 0o755).unwrap();
    st.rename(INodeNo::root(), "a", b.ino, "a2").unwrap();

    assert_eq!(st.lookup(INodeNo::root(), "a").unwrap_err().code(), libc::ENOENT);
    assert_eq!(st.lookup(b.ino, "a2").unwrap().ino, a.ino);
    // `..` now resolves to new parent `b`.
    let listing = st.readdir(a.ino).unwrap();
    let dotdot = listing.iter().find(|(_, _, n)| n == "..").unwrap();
    assert_eq!(dotdot.0, b.ino);
}

#[test]
fn readdir_includes_dot_dotdot_and_children() {
    let st = FsState::new();
    let names: Vec<String> = st
        .readdir(INodeNo::root())
        .unwrap()
        .into_iter()
        .map(|(_, _, n)| n)
        .collect();
    assert!(names.contains(&".".to_string()));
    assert!(names.contains(&"..".to_string()));
    assert!(names.contains(&"hello.txt".to_string()));
}
