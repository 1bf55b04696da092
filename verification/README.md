# rustFS

An in-memory FUSE filesystem whose data model and operations are a Verus
library with machine-checked contracts.

- `src/` — the verified library: the inode table (`inode.rs`), directory
  entries kept in name order (`dir.rs`, `name_order.rs`), attributes and
  errors (`attr.rs`, `errno.rs`), the mathematical view and what each
  operation does to it (`model.rs`), properties relating several operations
  (`laws.rs`), and what the kernel-facing side computes before replying
  (`reply.rs`).
- `tree.rs` states the shape every state keeps (entries name inodes whose
  `..` is the directory holding them, each inode but the root named once,
  file sizes equal to contents) and the link counts (two per directory plus
  one per subdirectory) with what each operation does to them.
- Directory entries are a `Vec` of (name, inode number) pairs kept sorted by
  name in `dir.rs`, in place of a `BTreeMap<String, _>`: vstd's
  specification of `BTreeMap` holds only for keys whose ordering it knows,
  and it knows none for `String`, so nothing about such a map could be
  proved. The sorted vector lists entries in the same order a `BTreeMap`
  would.
- `app/` — the `fuser` glue and `main`: mounting, locking, converting values
  to `fuser`'s types and replying.
- `tests/` — executable tests of the library.
