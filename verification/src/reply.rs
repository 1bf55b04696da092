//! What the kernel-facing side computes before it replies: the permission bits
//! of a mode, and the slice of a directory listing that a read resumes from.

use vstd::prelude::*;

use crate::attr::{FileType, INodeNo};

verus! {

/// The permission bits (`0o7777`) of a mode.
pub fn mode_to_perm(mode: u32) -> (p: u16)
    ensures
        p == mode % 4096,
{
    let bits = mode & 0o7777;
    assert(bits == mode % 4096) by (bit_vector)
        requires
            bits == mode & 0o7777,
    ;
    bits as u16
}

/// The entries of `listing` from index `offset` on, each with the offset at
/// which a later read resumes after it (its index plus one).
pub fn listing_page(listing: &Vec<(INodeNo, FileType, String)>, offset: u64) -> (page: Vec<(INodeNo, u64, FileType, String)>)
    ensures
        ({
            let n = listing@.len() as int;
            let start = if (offset as usize) < n { (offset as usize) as int } else { n };
            &&& page@.len() == n - start
            &&& forall|i: int|
                0 <= i < page@.len() ==> {
                    &&& (#[trigger] page@[i]).0 == listing@[start + i].0
                    &&& page@[i].1 == start + i + 1
                    &&& page@[i].2 == listing@[start + i].1
                    &&& page@[i].3@ == listing@[start + i].2@
                }
        }),
{
    let n = listing.len();
    let off = offset as usize;
    let start = if off < n { off } else { n };
    let mut page: Vec<(INodeNo, u64, FileType, String)> = Vec::new();
    let mut i: usize = start;
    while i < n
        invariant
            start <= i <= n,
            n == listing@.len(),
            start == (if (offset as usize) < n { (offset as usize) as int } else { n as int }),
            page@.len() == i - start,
            forall|j: int|
                0 <= j < page@.len() ==> {
                    &&& (#[trigger] page@[j]).0 == listing@[start + j].0
                    &&& page@[j].1 == start + j + 1
                    &&& page@[j].2 == listing@[start + j].1
                    &&& page@[j].3@ == listing@[start + j].2@
                },
        decreases n - i,
    {
        let (ino, kind, name) = &listing[i];
        page.push((*ino, (i + 1) as u64, *kind, name.clone()));
        i = i + 1;
    }
    page
}

} // verus!
