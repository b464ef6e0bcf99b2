use vstd::prelude::*;
use crate::block::{ChainLength, HeaderHash, Ref};

verus! {

/// Retention token handed out by [`Multiverse::insert`]. While it is held,
/// the entry it names, and every entry of that entry's lineage, stays stored.
#[derive(Debug)]
pub struct GCRoot {
    pub chain_length: ChainLength,
    pub hash: HeaderHash,
}

/// One stored block reference and the number of live roots on it.
#[derive(Clone, Copy, Debug)]
pub struct Entry {
    pub r: Ref,
    pub roots: u64,
}

/// Versioned store of block references over every known branch, indexed by
/// chain length and hash, with reference-counted retention roots.
#[derive(Clone, Debug)]
pub struct Multiverse {
    pub entries: Vec<Entry>,
}

/// Whether `v` holds the hash `h`.
pub fn contains_hash(v: &Vec<HeaderHash>, h: HeaderHash) -> (r: bool)
    ensures
        r == v@.contains(h),
{
    let mut i: usize = 0;
    while i < v.len()
        invariant
            i <= v@.len(),
            forall|k: int| 0 <= k < i ==> v@[k] != h,
        decreases v@.len() - i,
    {
        if v[i] == h {
            return true;
        }
        i = i + 1;
    }
    false
}

impl Multiverse {
    /// Hashes are unique among the entries.
    pub open spec fn wf(&self) -> bool {
        forall|i: int, j: int|
            0 <= i < self.entries@.len() && 0 <= j < self.entries@.len() && i != j
                ==> self.entries@[i].r.header.hash != self.entries@[j].r.header.hash
    }

    pub open spec fn has_hash(&self, h: HeaderHash) -> bool {
        exists|i: int| 0 <= i < self.entries@.len() && self.entries@[i].r.header.hash == h
    }

    /// The entry stored under hash `h`, if any.
    pub open spec fn entry_of(&self, h: HeaderHash) -> Option<Entry> {
        if self.has_hash(h) {
            let i = choose|i: int| 0 <= i < self.entries@.len() && self.entries@[i].r.header.hash == h;
            Some(self.entries@[i])
        } else {
            None
        }
    }

    /// The reference stored under hash `h`, if any.
    pub open spec fn ref_of(&self, h: HeaderHash) -> Option<Ref> {
        match self.entry_of(h) {
            Some(e) => Some(e.r),
            None => None,
        }
    }

    /// Number of live roots on the entry of hash `h` (zero when absent).
    pub open spec fn roots_of(&self, h: HeaderHash) -> nat {
        match self.entry_of(h) {
            Some(e) => e.roots as nat,
            None => 0,
        }
    }

    /// Some stored entry names `h` as its parent.
    pub open spec fn has_child(&self, h: HeaderHash) -> bool {
        exists|i: int| 0 <= i < self.entries@.len() && self.entries@[i].r.header.parent == h
    }

    /// Whether a sweep that spares the hashes in `tips` keeps the entry of hash `h`.
    pub open spec fn retained(&self, tips: Seq<HeaderHash>, h: HeaderHash) -> bool {
        self.roots_of(h) > 0 || tips.contains(h) || self.has_child(h)
    }

    pub proof fn lemma_entry_at(&self, i: int)
        requires
            self.wf(),
            0 <= i < self.entries@.len(),
        ensures
            self.has_hash(self.entries@[i].r.header.hash),
            self.entry_of(self.entries@[i].r.header.hash) == Some(self.entries@[i]),
    {
        let h = self.entries@[i].r.header.hash;
        assert(self.has_hash(h));
    }

    pub fn new() -> (r: Multiverse)
        ensures
            r.wf(),
            forall|h: HeaderHash| !r.has_hash(h),
    {
        Multiverse { entries: Vec::new() }
    }

    /// Position of the entry of hash `h`.
    fn find(&self, h: HeaderHash) -> (r: Option<usize>)
        requires
            self.wf(),
        ensures
            match r {
                Some(i) => i < self.entries@.len() && self.entries@[i as int].r.header.hash == h
                    && self.entry_of(h) == Some(self.entries@[i as int]),
                None => !self.has_hash(h) && self.entry_of(h).is_none(),
            },
    {
        let mut i: usize = 0;
        while i < self.entries.len()
            invariant
                self.wf(),
                i <= self.entries@.len(),
                forall|k: int| 0 <= k < i ==> self.entries@[k].r.header.hash != h,
            decreases self.entries@.len() - i,
        {
            if self.entries[i].r.header.hash == h {
                proof {
                    self.lemma_entry_at(i as int);
                }
                return Some(i);
            }
            i = i + 1;
        }
        None
    }

    /// Records `r` and returns a root on it. A reference already stored under
    /// the same hash is kept and gains one more root.
    pub fn insert(&mut self, r: Ref) -> (root: GCRoot)
        requires
            old(self).wf(),
            old(self).roots_of(r.header.hash) < u64::MAX,
        ensures
            final(self).wf(),
            root.hash == r.header.hash,
            root.chain_length == r.header.chain_length,
            final(self).ref_of(r.header.hash) == if old(self).has_hash(r.header.hash) {
                old(self).ref_of(r.header.hash)
            } else {
                Some(r)
            },
            final(self).roots_of(r.header.hash) == old(self).roots_of(r.header.hash) + 1,
            forall|h: HeaderHash| h != r.header.hash ==> final(self).entry_of(h) == old(self).entry_of(h),
            forall|h: HeaderHash| #[trigger] final(self).has_child(h) <==> old(self).has_child(h) || h == r.header.parent
                && !old(self).has_hash(r.header.hash),
    {
        let h = r.header.hash;
        let ghost pre = *self;
        match self.find(h) {
            Some(i) => {
                let e = self.entries[i];
                self.entries.set(i, Entry { r: e.r, roots: e.roots + 1 });
                proof {
                    assert(self.wf());
                    self.lemma_entry_at(i as int);
                    assert forall|h2: HeaderHash| h2 != h implies self.entry_of(h2) == pre.entry_of(h2) by {
                        if pre.has_hash(h2) {
                            let k = choose|k: int| 0 <= k < pre.entries@.len() && pre.entries@[k].r.header.hash == h2;
                            pre.lemma_entry_at(k);
                            self.lemma_entry_at(k);
                        } else {
                            if self.has_hash(h2) {
                                let k = choose|k: int| 0 <= k < self.entries@.len() && self.entries@[k].r.header.hash == h2;
                                assert(pre.entries@[k].r.header.hash == h2);
                            }
                        }
                    }
                    assert forall|h2: HeaderHash| #[trigger] self.has_child(h2) <==> pre.has_child(h2) by {
                        if self.has_child(h2) {
                            let k = choose|k: int| 0 <= k < self.entries@.len() && self.entries@[k].r.header.parent == h2;
                            assert(pre.entries@[k].r.header.parent == h2);
                        }
                        if pre.has_child(h2) {
                            let k = choose|k: int| 0 <= k < pre.entries@.len() && pre.entries@[k].r.header.parent == h2;
                            assert(self.entries@[k].r.header.parent == h2);
                        }
                    }
                }
            },
            None => {
                self.entries.push(Entry { r, roots: 1 });
                proof {
                    let n = pre.entries@.len() as int;
                    assert(self.entries@[n].r.header.hash == h);
                    assert(self.wf());
                    self.lemma_entry_at(n);
                    assert forall|h2: HeaderHash| h2 != h implies self.entry_of(h2) == pre.entry_of(h2) by {
                        if pre.has_hash(h2) {
                            let k = choose|k: int| 0 <= k < pre.entries@.len() && pre.entries@[k].r.header.hash == h2;
                            pre.lemma_entry_at(k);
                            self.lemma_entry_at(k);
                        } else {
                            if self.has_hash(h2) {
                                let k = choose|k: int| 0 <= k < self.entries@.len() && self.entries@[k].r.header.hash == h2;
                                assert(pre.entries@[k].r.header.hash == h2);
                            }
                        }
                    }
                    assert forall|h2: HeaderHash| #[trigger] self.has_child(h2) <==> pre.has_child(h2) || h2 == r.header.parent by {
                        if self.has_child(h2) {
                            let k = choose|k: int| 0 <= k < self.entries@.len() && self.entries@[k].r.header.parent == h2;
                            if k < n {
                                assert(pre.entries@[k].r.header.parent == h2);
                            }
                        }
                        if pre.has_child(h2) {
                            let k = choose|k: int| 0 <= k < pre.entries@.len() && pre.entries@[k].r.header.parent == h2;
                            assert(self.entries@[k].r.header.parent == h2);
                        }
                        if h2 == r.header.parent {
                            assert(self.entries@[n].r.header.parent == h2);
                        }
                    }
                }
            },
        }
        GCRoot { chain_length: r.header.chain_length, hash: h }
    }

    /// The reference stored at chain length `chain_length` under hash `hash`.
    pub fn lookup(&self, chain_length: ChainLength, hash: HeaderHash) -> (r: Option<Ref>)
        requires
            self.wf(),
        ensures
            r == match self.ref_of(hash) {
                Some(x) => if x.header.chain_length == chain_length { Some(x) } else { None },
                None => None,
            },
    {
        match self.find(hash) {
            Some(i) => {
                let x = self.entries[i].r;
                if x.header.chain_length == chain_length {
                    Some(x)
                } else {
                    None
                }
            },
            None => None,
        }
    }

    /// The reference stored under hash `hash`, whatever its chain length.
    pub fn get(&self, hash: HeaderHash) -> (r: Option<Ref>)
        requires
            self.wf(),
        ensures
            r == self.ref_of(hash),
    {
        match self.find(hash) {
            Some(i) => Some(self.entries[i].r),
            None => None,
        }
    }

    /// `after` is what a sweep of `self` that spares the hashes in `tips`
    /// leaves: exactly the retained entries, unchanged.
    pub open spec fn swept(&self, tips: Seq<HeaderHash>, after: Multiverse) -> bool {
        forall|h: HeaderHash| #[trigger] after.entry_of(h) == if self.has_hash(h) && self.retained(tips, h) {
            self.entry_of(h)
        } else {
            None
        }
    }

    /// `path` runs from an entry that holds a live root down through its
    /// parents, each of them stored.
    pub open spec fn rooted_lineage(&self, path: Seq<HeaderHash>) -> bool {
        &&& path.len() > 0
        &&& self.roots_of(path[0]) > 0
        &&& forall|i: int| 0 <= i < path.len() ==> #[trigger] self.has_hash(path[i])
        &&& forall|i: int| 0 <= i < path.len() - 1 ==> #[trigger] self.ref_of(path[i]).unwrap().header.parent
            == path[i + 1]
    }

    /// Whether some entry names `h` as its parent.
    fn has_child_exec(&self, h: HeaderHash) -> (r: bool)
        ensures
            r == self.has_child(h),
    {
        let mut i: usize = 0;
        while i < self.entries.len()
            invariant
                i <= self.entries@.len(),
                forall|k: int| 0 <= k < i ==> self.entries@[k].r.header.parent != h,
            decreases self.entries@.len() - i,
        {
            if self.entries[i].r.header.parent == h {
                return true;
            }
            i = i + 1;
        }
        false
    }

    /// Gives back a root. The entry it names loses one live root; no entry
    /// is removed.
    pub fn release(&mut self, root: GCRoot)
        requires
            old(self).wf(),
        ensures
            final(self).wf(),
            forall|h: HeaderHash| #[trigger] final(self).ref_of(h) == old(self).ref_of(h),
            forall|h: HeaderHash| h != root.hash ==> #[trigger] final(self).roots_of(h) == old(self).roots_of(h),
            final(self).roots_of(root.hash) == if old(self).roots_of(root.hash) > 0 {
                (old(self).roots_of(root.hash) - 1) as nat
            } else {
                0
            },
    {
        let ghost pre = *self;
        match self.find(root.hash) {
            Some(i) => {
                let e = self.entries[i];
                let roots = if e.roots > 0 { e.roots - 1 } else { 0 };
                self.entries.set(i, Entry { r: e.r, roots });
                proof {
                    assert(self.wf());
                    self.lemma_entry_at(i as int);
                    assert forall|h2: HeaderHash| h2 != root.hash implies self.entry_of(h2) == pre.entry_of(h2) by {
                        if pre.has_hash(h2) {
                            let k = choose|k: int| 0 <= k < pre.entries@.len() && pre.entries@[k].r.header.hash == h2;
                            pre.lemma_entry_at(k);
                            self.lemma_entry_at(k);
                        } else {
                            if self.has_hash(h2) {
                                let k = choose|k: int| 0 <= k < self.entries@.len() && self.entries@[k].r.header.hash == h2;
                                assert(pre.entries@[k].r.header.hash == h2);
                            }
                        }
                    }
                    assert forall|h2: HeaderHash| #[trigger] self.ref_of(h2) == pre.ref_of(h2) by {
                        if h2 != root.hash {
                            assert(self.entry_of(h2) == pre.entry_of(h2));
                        }
                    }
                    assert forall|h2: HeaderHash| h2 != root.hash implies #[trigger] self.roots_of(h2) == pre.roots_of(h2) by {
                        assert(self.entry_of(h2) == pre.entry_of(h2));
                    }
                }
            },
            None => {},
        }
    }

    /// Removes every entry that holds no live root, is not one of `tips`, and
    /// is no stored entry's parent. An entry whose children all go in the
    /// same sweep stays until a later one.
    pub fn gc(&mut self, tips: &Vec<HeaderHash>)
        requires
            old(self).wf(),
        ensures
            final(self).wf(),
            old(self).swept(tips@, *final(self)),
    {
        let ghost pre = *self;
        let mut kept: Vec<Entry> = Vec::new();
        let ghost mut idx: Seq<int> = Seq::empty();
        let mut i: usize = 0;
        while i < self.entries.len()
            invariant
                *self == pre,
                pre.wf(),
                i <= pre.entries@.len(),
                kept@.len() == idx.len(),
                forall|j: int| 0 <= j < kept@.len() ==> 0 <= #[trigger] idx[j] < i && kept@[j] == pre.entries@[idx[j]]
                    && pre.retained(tips@, pre.entries@[idx[j]].r.header.hash),
                forall|j1: int, j2: int| 0 <= j1 < j2 < kept@.len() ==> idx[j1] < idx[j2],
                forall|k: int| 0 <= k < i && pre.retained(tips@, pre.entries@[k].r.header.hash)
                    ==> exists|j: int| 0 <= j < kept@.len() && idx[j] == k,
            decreases pre.entries@.len() - i,
        {
            let e = self.entries[i];
            let h = e.r.header.hash;
            proof {
                pre.lemma_entry_at(i as int);
            }
            let ghost idx0 = idx;
            let ghost n0 = kept@.len();
            let keep = e.roots > 0 || contains_hash(tips, h) || self.has_child_exec(h);
            assert(keep == pre.retained(tips@, h));
            if keep {
                kept.push(e);
                proof {
                    idx = idx.push(i as int);
                    assert(idx[kept@.len() - 1] == i);
                }
            }
            proof {
                assert forall|k: int| 0 <= k < i + 1 && pre.retained(tips@, pre.entries@[k].r.header.hash)
                    implies exists|j: int| 0 <= j < kept@.len() && idx[j] == k by {
                    if k == i {
                        assert(idx[kept@.len() - 1] == k);
                    } else {
                        let j = choose|j: int| 0 <= j < n0 && idx0[j] == k;
                        assert(idx[j] == idx0[j]);
                    }
                }
            }
            i = i + 1;
        }
        self.entries = kept;
        proof {
            assert forall|j1: int, j2: int|
                0 <= j1 < self.entries@.len() && 0 <= j2 < self.entries@.len() && j1 != j2
                implies self.entries@[j1].r.header.hash != self.entries@[j2].r.header.hash by {
                assert(idx[j1] != idx[j2]);
            }
            assert forall|h: HeaderHash| #[trigger] self.entry_of(h) == if pre.has_hash(h) && pre.retained(tips@, h) {
                pre.entry_of(h)
            } else {
                None
            } by {
                if pre.has_hash(h) && pre.retained(tips@, h) {
                    let k = choose|k: int| 0 <= k < pre.entries@.len() && pre.entries@[k].r.header.hash == h;
                    pre.lemma_entry_at(k);
                    let j = choose|j: int| 0 <= j < kept@.len() && idx[j] == k;
                    self.lemma_entry_at(j);
                } else if self.has_hash(h) {
                    let j = choose|j: int| 0 <= j < self.entries@.len() && self.entries@[j].r.header.hash == h;
                    pre.lemma_entry_at(idx[j]);
                }
            }
        }
    }

    /// A sweep never removes an entry of a lineage that starts at a live
    /// root: after it, every hash of the lineage is still found, under the
    /// same reference, and the lineage still starts at a live root.
    pub proof fn lemma_sweep_keeps_rooted_lineage(
        &self,
        tips: Seq<HeaderHash>,
        after: Multiverse,
        path: Seq<HeaderHash>,
    )
        requires
            self.wf(),
            self.swept(tips, after),
            self.rooted_lineage(path),
        ensures
            after.rooted_lineage(path),
            forall|i: int| 0 <= i < path.len() ==> #[trigger] after.ref_of(path[i]) == self.ref_of(path[i]),
    {
        assert forall|i: int| 0 <= i < path.len() implies #[trigger] after.entry_of(path[i]) == self.entry_of(path[i]) by {
            assert(self.has_hash(path[i]));
            if i > 0 {
                let k = choose|k: int| 0 <= k < self.entries@.len() && self.entries@[k].r.header.hash == path[i - 1];
                assert(self.has_hash(path[i - 1]));
                self.lemma_entry_at(k);
                assert(self.ref_of(path[i - 1]).unwrap().header.parent == path[(i - 1) + 1]);
                assert(self.entries@[k].r.header.parent == path[i]);
                assert(self.has_child(path[i]));
            }
            assert(self.retained(tips, path[i]));
        }
        assert(after.entry_of(path[0]) == self.entry_of(path[0]));
        assert forall|i: int| 0 <= i < path.len() implies #[trigger] after.has_hash(path[i]) by {
            assert(after.entry_of(path[i]) == self.entry_of(path[i]));
        }
        assert forall|i: int| 0 <= i < path.len() implies #[trigger] after.ref_of(path[i]) == self.ref_of(path[i]) by {
            assert(after.entry_of(path[i]) == self.entry_of(path[i]));
        }
        assert forall|i: int| 0 <= i < path.len() - 1 implies #[trigger] after.ref_of(path[i]).unwrap().header.parent
            == path[i + 1] by {
            assert(after.entry_of(path[i]) == self.entry_of(path[i]));
        }
    }
}

} // verus!
