//! A directory's entries: names mapped to inode numbers, stored sorted by name
//! so that listings come out in name order.

use vstd::prelude::*;
use crate::name_order::{
    compare_names, lemma_name_before_irreflexive, lemma_name_before_transitive, name_before,
    NameOrder,
};

verus! {

/// The names and inode numbers of a sequence of entries, as spec values.
pub open spec fn entry_pairs(v: Seq<(String, u64)>) -> Seq<(Seq<char>, u64)> {
    v.map_values(|e: (String, u64)| (e.0@, e.1))
}

/// Every name sorts strictly before the names that follow it.
pub open spec fn sorted_by_name(s: Seq<(Seq<char>, u64)>) -> bool {
    forall|i: int, j: int| 0 <= i < j < s.len() ==> name_before(#[trigger] s[i].0, #[trigger] s[j].0)
}

/// A position of the entry named `k`, where there is one.
pub open spec fn position_of(s: Seq<(Seq<char>, u64)>, k: Seq<char>) -> int {
    choose|i: int| 0 <= i < s.len() && #[trigger] s[i].0 == k
}

/// The map from names to inode numbers that a sequence of entries describes.
pub open spec fn pairs_to_map(s: Seq<(Seq<char>, u64)>) -> Map<Seq<char>, u64> {
    Map::new(
        |k: Seq<char>| exists|i: int| 0 <= i < s.len() && #[trigger] s[i].0 == k,
        |k: Seq<char>| s[position_of(s, k)].1,
    )
}

/// In a sorted sequence, each entry is what the map gives for its name.
pub proof fn lemma_pairs_to_map_index(s: Seq<(Seq<char>, u64)>, i: int)
    requires
        sorted_by_name(s),
        0 <= i < s.len(),
    ensures
        pairs_to_map(s).contains_key(s[i].0),
        pairs_to_map(s)[s[i].0] == s[i].1,
{
    let k = s[i].0;
    assert(pairs_to_map(s).contains_key(k));
    let j = position_of(s, k);
    if j < i {
        lemma_name_before_irreflexive(k);
        assert(name_before(s[j].0, s[i].0));
    } else if i < j {
        lemma_name_before_irreflexive(k);
        assert(name_before(s[i].0, s[j].0));
    }
}

/// The entries of one directory.
pub struct Directory {
    entries: Vec<(String, u64)>,
}

impl View for Directory {
    type V = Map<Seq<char>, u64>;

    open spec fn view(&self) -> Map<Seq<char>, u64> {
        pairs_to_map(self.listing())
    }
}

impl Directory {
    /// The entries in the order they are listed.
    pub closed spec fn listing(&self) -> Seq<(Seq<char>, u64)> {
        entry_pairs(self.entries@)
    }

    /// Entries are kept in strictly increasing name order.
    pub open spec fn wf(&self) -> bool {
        sorted_by_name(self.listing())
    }

    /// The listing holds exactly the directory's entries, each once.
    pub proof fn lemma_listing_matches_view(&self)
        requires
            self.wf(),
        ensures
            forall|i: int|
                0 <= i < self.listing().len() ==> (self@.contains_key(#[trigger] self.listing()[i].0)
                    && self@[self.listing()[i].0] == self.listing()[i].1),
            forall|k: Seq<char>|
                #[trigger] self@.contains_key(k) ==> exists|i: int|
                    0 <= i < self.listing().len() && #[trigger] self.listing()[i].0 == k,
            self@.dom().finite(),
            self@.len() == self.listing().len(),
    {
        assert forall|i: int| 0 <= i < self.listing().len() implies (self@.contains_key(
            #[trigger] self.listing()[i].0,
        ) && self@[self.listing()[i].0] == self.listing()[i].1) by {
            lemma_pairs_to_map_index(self.listing(), i);
        }
        lemma_sorted_map_len(self.listing());
    }

    pub fn new() -> (d: Directory)
        ensures
            d.wf(),
            d@ == Map::<Seq<char>, u64>::empty(),
    {
        let d = Directory { entries: Vec::new() };
        assert(d@ =~= Map::<Seq<char>, u64>::empty());
        d
    }

    pub fn len(&self) -> (n: usize)
        requires
            self.wf(),
        ensures
            n == self.listing().len(),
            n == self@.len(),
    {
        proof {
            self.lemma_listing_matches_view();
        }
        self.entries.len()
    }

    pub fn is_empty(&self) -> (b: bool)
        requires
            self.wf(),
        ensures
            b <==> self@.is_empty(),
            b <==> self@ == Map::<Seq<char>, u64>::empty(),
    {
        proof {
            self.lemma_listing_matches_view();
            if self.entries.len() > 0 {
                lemma_pairs_to_map_index(self.listing(), 0);
            } else {
                assert(self@ =~= Map::<Seq<char>, u64>::empty());
            }
        }
        self.entries.len() == 0
    }

    /// The name and inode number of the `i`th entry of the listing.
    pub fn entry_at(&self, i: usize) -> (e: (&String, u64))
        requires
            i < self.listing().len(),
        ensures
            e.0@ == self.listing()[i as int].0,
            e.1 == self.listing()[i as int].1,
    {
        (&self.entries[i].0, self.entries[i].1)
    }

    /// Where `name` is, or where it would be inserted to keep the order.
    fn locate(&self, name: &str) -> (r: (bool, usize))
        requires
            self.wf(),
        ensures
            r.1 <= self.listing().len(),
            r.0 ==> r.1 < self.listing().len() && self.listing()[r.1 as int].0 == name@,
            !r.0 ==> !self@.contains_key(name@),
            forall|j: int| 0 <= j < r.1 ==> name_before(#[trigger] self.listing()[j].0, name@),
            forall|j: int|
                r.1 <= j < self.listing().len() && !(r.0 && j == r.1) ==> name_before(
                    name@,
                    #[trigger] self.listing()[j].0,
                ),
    {
        let ghost s = self.listing();
        let mut i: usize = 0;
        while i < self.entries.len()
            invariant
                self.wf(),
                s == self.listing(),
                s.len() == self.entries.len(),
                i <= s.len(),
                forall|j: int| 0 <= j < i ==> name_before(#[trigger] s[j].0, name@),
            decreases self.entries.len() - i,
        {
            let o = compare_names(self.entries[i].0.as_str(), name);
            match o {
                NameOrder::Less => {
                    i = i + 1;
                },
                NameOrder::Equal => {
                    proof {
                        assert forall|j: int| i < j < s.len() implies name_before(
                            name@,
                            #[trigger] s[j].0,
                        ) by {
                            assert(name_before(s[i as int].0, s[j].0));
                        }
                    }
                    return (true, i);
                },
                NameOrder::Greater => {
                    proof {
                        assert forall|j: int| i <= j < s.len() implies name_before(
                            name@,
                            #[trigger] s[j].0,
                        ) by {
                            if j > i {
                                lemma_name_before_transitive(name@, s[i as int].0, s[j].0);
                            }
                        }
                        self.lemma_absent(name@, i as int);
                    }
                    return (false, i);
                },
            }
        }
        proof {
            self.lemma_absent(name@, i as int);
        }
        (false, i)
    }

    /// A name that sorts after the first `pos` entries and before the rest is absent.
    proof fn lemma_absent(&self, name: Seq<char>, pos: int)
        requires
            self.wf(),
            0 <= pos <= self.listing().len(),
            forall|j: int| 0 <= j < pos ==> name_before(#[trigger] self.listing()[j].0, name),
            forall|j: int|
                pos <= j < self.listing().len() ==> name_before(name, #[trigger] self.listing()[j].0),
        ensures
            !self@.contains_key(name),
    {
        let s = self.listing();
        if self@.contains_key(name) {
            let j = choose|j: int| 0 <= j < s.len() && #[trigger] s[j].0 == name;
            lemma_name_before_irreflexive(name);
            if j < pos {
                assert(name_before(s[j].0, name));
            } else {
                assert(name_before(name, s[j].0));
            }
        }
    }

    /// The inode number stored under `name`.
    pub fn get(&self, name: &str) -> (r: Option<u64>)
        requires
            self.wf(),
        ensures
            r == (if self@.contains_key(name@) { Some(self@[name@]) } else { None::<u64> }),
    {
        let (found, pos) = self.locate(name);
        if found {
            proof {
                lemma_pairs_to_map_index(self.listing(), pos as int);
            }
            Some(self.entries[pos].1)
        } else {
            None
        }
    }

    pub fn contains_key(&self, name: &str) -> (b: bool)
        requires
            self.wf(),
        ensures
            b == self@.contains_key(name@),
    {
        let (found, pos) = self.locate(name);
        proof {
            if found {
                lemma_pairs_to_map_index(self.listing(), pos as int);
            }
        }
        found
    }

    /// Maps `name` to `ino`, returning the inode number it replaced.
    pub fn insert(&mut self, name: &str, ino: u64) -> (r: Option<u64>)
        requires
            old(self).wf(),
        ensures
            final(self).wf(),
            final(self)@ == old(self)@.insert(name@, ino),
            r == (if old(self)@.contains_key(name@) { Some(old(self)@[name@]) } else { None::<u64> }),
    {
        let (found, pos) = self.locate(name);
        let ghost s = self.listing();
        if found {
            proof {
                lemma_pairs_to_map_index(s, pos as int);
            }
            let (old_name, old_ino) = self.entries.remove(pos);
            self.entries.insert(pos, (old_name, ino));
            let ghost t = self.listing();
            proof {
                assert(t =~= s.update(pos as int, (name@, ino)));
                assert(sorted_by_name(t));
                lemma_update_map(s, pos as int, ino);
            }
            Some(old_ino)
        } else {
            let owned = name.to_string();
            self.entries.insert(pos, (owned, ino));
            let ghost t = self.listing();
            proof {
                assert(t =~= s.insert(pos as int, (name@, ino)));
                assert forall|i: int, j: int| 0 <= i < j < t.len() implies name_before(
                    #[trigger] t[i].0,
                    #[trigger] t[j].0,
                ) by {
                    if j < pos {
                    } else if i > pos {
                        assert(name_before(s[i - 1].0, s[j - 1].0));
                    } else if i == pos {
                        assert(t[j].0 == s[j - 1].0);
                    } else if j == pos {
                    } else {
                        assert(name_before(s[i].0, s[j - 1].0));
                    }
                }
                lemma_insert_map(s, pos as int, name@, ino);
            }
            None
        }
    }

    /// Removes `name`, returning the inode number it held.
    pub fn remove(&mut self, name: &str) -> (r: Option<u64>)
        requires
            old(self).wf(),
        ensures
            final(self).wf(),
            final(self)@ == old(self)@.remove(name@),
            r == (if old(self)@.contains_key(name@) { Some(old(self)@[name@]) } else { None::<u64> }),
    {
        let (found, pos) = self.locate(name);
        let ghost s = self.listing();
        if found {
            proof {
                lemma_pairs_to_map_index(s, pos as int);
            }
            let (_old_name, old_ino) = self.entries.remove(pos);
            let ghost t = self.listing();
            proof {
                assert(t =~= s.remove(pos as int));
                assert forall|i: int, j: int| 0 <= i < j < t.len() implies name_before(
                    #[trigger] t[i].0,
                    #[trigger] t[j].0,
                ) by {
                    if i >= pos {
                        assert(name_before(s[i + 1].0, s[j + 1].0));
                    } else if j >= pos {
                        assert(name_before(s[i].0, s[j + 1].0));
                    } else {
                        assert(name_before(s[i].0, s[j].0));
                    }
                }
                lemma_remove_map(s, pos as int);
            }
            Some(old_ino)
        } else {
            proof {
                assert(self@ =~= self@.remove(name@));
            }
            None
        }
    }
}

/// Replacing the inode number at `pos` updates the map at that name.
proof fn lemma_update_map(s: Seq<(Seq<char>, u64)>, pos: int, ino: u64)
    requires
        sorted_by_name(s),
        0 <= pos < s.len(),
    ensures
        pairs_to_map(s.update(pos, (s[pos].0, ino))) == pairs_to_map(s).insert(s[pos].0, ino),
{
    let t = s.update(pos, (s[pos].0, ino));
    assert(sorted_by_name(t)) by {
        assert forall|i: int, j: int| 0 <= i < j < t.len() implies name_before(
            #[trigger] t[i].0,
            #[trigger] t[j].0,
        ) by {
            assert(name_before(s[i].0, s[j].0));
        }
    }
    let m = pairs_to_map(s).insert(s[pos].0, ino);
    assert forall|k: Seq<char>| #[trigger] m.contains_key(k) implies pairs_to_map(t).contains_key(k)
        && pairs_to_map(t)[k] == m[k] by {
        if k == s[pos].0 {
            lemma_pairs_to_map_index(t, pos);
        } else {
            let i = choose|i: int| 0 <= i < s.len() && #[trigger] s[i].0 == k;
            lemma_pairs_to_map_index(s, i);
            lemma_pairs_to_map_index(t, i);
        }
    }
    assert forall|k: Seq<char>| #[trigger] pairs_to_map(t).contains_key(k) implies m.contains_key(k) by {
        let i = choose|i: int| 0 <= i < t.len() && #[trigger] t[i].0 == k;
        assert(s[i].0 == k);
    }
    assert(pairs_to_map(t) =~= m);
}

/// Inserting a new entry at `pos` of a sorted sequence inserts it into the map.
proof fn lemma_insert_map(s: Seq<(Seq<char>, u64)>, pos: int, name: Seq<char>, ino: u64)
    requires
        sorted_by_name(s),
        sorted_by_name(s.insert(pos, (name, ino))),
        0 <= pos <= s.len(),
    ensures
        pairs_to_map(s.insert(pos, (name, ino))) == pairs_to_map(s).insert(name, ino),
{
    let t = s.insert(pos, (name, ino));
    let m = pairs_to_map(s).insert(name, ino);
    assert forall|k: Seq<char>| #[trigger] m.contains_key(k) implies pairs_to_map(t).contains_key(k)
        && pairs_to_map(t)[k] == m[k] by {
        if k == name {
            lemma_pairs_to_map_index(t, pos);
        } else {
            let i = choose|i: int| 0 <= i < s.len() && #[trigger] s[i].0 == k;
            lemma_pairs_to_map_index(s, i);
            if i < pos {
                lemma_pairs_to_map_index(t, i);
            } else {
                assert(t[i + 1] == s[i]);
                lemma_pairs_to_map_index(t, i + 1);
            }
        }
    }
    assert forall|k: Seq<char>| #[trigger] pairs_to_map(t).contains_key(k) implies m.contains_key(k) by {
        let i = choose|i: int| 0 <= i < t.len() && #[trigger] t[i].0 == k;
        if i < pos {
            assert(s[i].0 == k);
        } else if i > pos {
            assert(s[i - 1].0 == k);
        }
    }
    assert(pairs_to_map(t) =~= m);
}

/// Removing the entry at `pos` of a sorted sequence removes its name from the map.
proof fn lemma_remove_map(s: Seq<(Seq<char>, u64)>, pos: int)
    requires
        sorted_by_name(s),
        sorted_by_name(s.remove(pos)),
        0 <= pos < s.len(),
    ensures
        pairs_to_map(s.remove(pos)) == pairs_to_map(s).remove(s[pos].0),
{
    let t = s.remove(pos);
    let name = s[pos].0;
    let m = pairs_to_map(s).remove(name);
    assert forall|k: Seq<char>| #[trigger] m.contains_key(k) implies pairs_to_map(t).contains_key(k)
        && pairs_to_map(t)[k] == m[k] by {
        let i = choose|i: int| 0 <= i < s.len() && #[trigger] s[i].0 == k;
        lemma_pairs_to_map_index(s, i);
        if i < pos {
            lemma_pairs_to_map_index(t, i);
        } else {
            assert(i != pos);
            assert(t[i - 1] == s[i]);
            lemma_pairs_to_map_index(t, i - 1);
        }
    }
    assert forall|k: Seq<char>| #[trigger] pairs_to_map(t).contains_key(k) implies m.contains_key(k) by {
        let i = choose|i: int| 0 <= i < t.len() && #[trigger] t[i].0 == k;
        lemma_pairs_to_map_index(t, i);
        if i < pos {
            assert(s[i].0 == k);
            lemma_name_before_irreflexive(k);
            assert(name_before(s[i].0, s[pos].0));
        } else {
            assert(s[i + 1].0 == k);
            lemma_name_before_irreflexive(k);
            assert(name_before(s[pos].0, s[i + 1].0));
        }
    }
    assert(pairs_to_map(t) =~= m);
}

/// A sorted sequence describes a finite map with as many entries as it has.
proof fn lemma_sorted_map_len(s: Seq<(Seq<char>, u64)>)
    requires
        sorted_by_name(s),
    ensures
        pairs_to_map(s).dom().finite(),
        pairs_to_map(s).len() == s.len(),
    decreases s.len(),
{
    if s.len() == 0 {
        assert(pairs_to_map(s).dom() =~= Set::<Seq<char>>::empty());
    } else {
        let last = s.len() - 1;
        let p = s.drop_last();
        assert(sorted_by_name(p)) by {
            assert forall|i: int, j: int| 0 <= i < j < p.len() implies name_before(
                #[trigger] p[i].0,
                #[trigger] p[j].0,
            ) by {
                assert(name_before(s[i].0, s[j].0));
            }
        }
        lemma_sorted_map_len(p);
        assert(p.insert(last, s[last]) =~= s);
        lemma_insert_map(p, last, s[last].0, s[last].1);
        assert(!pairs_to_map(p).contains_key(s[last].0)) by {
            if pairs_to_map(p).contains_key(s[last].0) {
                let i = choose|i: int| 0 <= i < p.len() && #[trigger] p[i].0 == s[last].0;
                lemma_name_before_irreflexive(s[last].0);
                assert(name_before(s[i].0, s[last].0));
            }
        }
    }
}

} // verus!
