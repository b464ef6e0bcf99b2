use vstd::prelude::*;
use crate::block::{Block, Header, HeaderHash, LedgerHandle, Ref};
use crate::branch::Branch;
use crate::multiverse::{GCRoot, Multiverse};

verus! {

/// Why block storage refused a read or a write.
#[derive(Clone, Debug, PartialEq, Eq)]
pub enum StorageError {
    BlockNotFound,
    BlockAlreadyPresent,
    Backend(String),
}

/// Why a header failed verification.
#[derive(Clone, Debug, PartialEq, Eq)]
pub enum HeaderError {
    /// It does not name the parent, or is not one block longer than it.
    NotExtendingParent,
    /// The block's header differs from the header that was checked.
    BlockMismatch,
    /// The ledger rules refused it, for the reason given.
    RuleViolation(String),
}

/// What can go wrong while validating or storing a block.
#[derive(Clone, Debug, PartialEq, Eq)]
pub enum ErrorKind {
    /// Reading or writing block storage failed.
    Storage(StorageError),
    /// The ledger rules refused the block's content.
    Ledger(String),
    /// The genesis block or the initial configuration is inconsistent.
    Block0(String),
    /// The parent of this header is not stored locally.
    MissingParentBlockFromStorage(Header),
    /// The header breaks a structural or consensus rule.
    BlockHeaderVerificationFailed(HeaderError),
}

/// Outcome of the cheap check of a header against local storage.
#[derive(Clone, Copy, Debug, PartialEq, Eq, Structural)]
pub enum PreCheckedHeader {
    /// The block is stored already; its reference when it is still cached.
    AlreadyPresent { header: Header, cached_reference: Option<Ref> },
    /// The parent of the header is unknown here.
    MissingParent { header: Header },
    /// The parent is known, with its reference.
    HeaderWithCache { header: Header, parent_ref: Ref },
}

/// A header that passed the full check against its parent's state.
#[derive(Clone, Copy, Debug, PartialEq, Eq, Structural)]
pub struct PostCheckedHeader {
    pub header: Header,
    pub parent_ref: Ref,
}

/// Block storage and the references of the accepted blocks.
#[derive(Debug)]
pub struct Blockchain {
    pub blocks: Vec<Block>,
    pub multiverse: Multiverse,
    pub roots: Vec<GCRoot>,
}

/// `header` directly extends the block of `parent`.
pub open spec fn extends(header: Header, parent: Ref) -> bool {
    header.parent == parent.header.hash && header.chain_length == parent.header.chain_length + 1
}

/// The references met walking down from `r` through cached parents, `r`
/// first, as long as chain lengths go down.
pub open spec fn ancestry(mv: Multiverse, r: Ref) -> Seq<Ref>
    decreases r.header.chain_length,
{
    match mv.ref_of(r.header.parent) {
        Some(p) => if p.header.chain_length < r.header.chain_length {
            seq![r] + ancestry(mv, p)
        } else {
            seq![r]
        },
        None => seq![r],
    }
}

/// The hashes of `refs`, in order.
pub open spec fn hashes(refs: Seq<Ref>) -> Seq<HeaderHash> {
    refs.map_values(|r: Ref| r.header.hash)
}

/// The elements of `w` at positions `d`, `2d`, `4d`, ... within its length.
pub open spec fn sample(w: Seq<HeaderHash>, d: nat) -> Seq<HeaderHash>
    decreases (if d < w.len() { w.len() - d } else { 0 }),
{
    if 0 < d < w.len() {
        seq![w[d as int]] + sample(w, 2 * d)
    } else {
        Seq::empty()
    }
}

/// Checkpoints below `tip`: its hash, then the hashes of its ancestors at
/// distances 1, 2, 4, ..., then the oldest ancestor reached if not yet
/// there.
pub open spec fn checkpoints(mv: Multiverse, tip: Ref) -> Seq<HeaderHash> {
    let w = hashes(ancestry(mv, tip));
    let s = seq![w[0]] + sample(w, 1);
    if s.last() == w.last() {
        s
    } else {
        s.push(w.last())
    }
}

impl Blockchain {
    pub open spec fn has_block(&self, h: HeaderHash) -> bool {
        exists|i: int| 0 <= i < self.blocks@.len() && self.blocks@[i].header.hash == h
    }

    /// The stored block of hash `h`, if any.
    pub open spec fn block_of(&self, h: HeaderHash) -> Option<Block> {
        if self.has_block(h) {
            let i = choose|i: int| 0 <= i < self.blocks@.len() && self.blocks@[i].header.hash == h;
            Some(self.blocks@[i])
        } else {
            None
        }
    }

    /// Stored blocks have distinct hashes, and a reference exists only for a
    /// stored block.
    pub open spec fn wf(&self) -> bool {
        &&& self.multiverse.wf()
        &&& forall|i: int, j: int|
            0 <= i < self.blocks@.len() && 0 <= j < self.blocks@.len() && i != j
                ==> self.blocks@[i].header.hash != self.blocks@[j].header.hash
        &&& forall|h: HeaderHash| #[trigger] self.multiverse.has_hash(h) ==> self.has_block(h)
    }

    /// The classification that [`Blockchain::pre_check_header`] makes.
    pub open spec fn pre_check(&self, header: Header) -> PreCheckedHeader {
        if self.has_block(header.hash) {
            PreCheckedHeader::AlreadyPresent { header, cached_reference: self.multiverse.ref_of(header.hash) }
        } else {
            match self.multiverse.ref_of(header.parent) {
                Some(p) => PreCheckedHeader::HeaderWithCache { header, parent_ref: p },
                None => PreCheckedHeader::MissingParent { header },
            }
        }
    }

    /// What [`Blockchain::apply_and_store_block`] returns for a block of
    /// header `header`.
    pub open spec fn apply_outcome(
        &self,
        post_checked: PostCheckedHeader,
        header: Header,
        applied: Result<LedgerHandle, String>,
    ) -> Result<Ref, ErrorKind> {
        if header != post_checked.header {
            Err(ErrorKind::BlockHeaderVerificationFailed(HeaderError::BlockMismatch))
        } else if self.has_block(header.hash) {
            Err(ErrorKind::Storage(StorageError::BlockAlreadyPresent))
        } else {
            match applied {
                Ok(l) => Ok(Ref { header, ledger: l }),
                Err(m) => Err(ErrorKind::Ledger(m)),
            }
        }
    }

    /// `self` is `before` with `block` stored and `r` recorded under one
    /// fresh root, every other block and entry as they were.
    pub open spec fn stores_new(&self, before: Blockchain, block: Block, r: Ref) -> bool {
        &&& self.wf()
        &&& r.header == block.header
        &&& self.block_of(block.header.hash) == Some(block)
        &&& self.multiverse.ref_of(block.header.hash) == Some(r)
        &&& self.multiverse.roots_of(block.header.hash) == 1
        &&& forall|h: HeaderHash| h != block.header.hash ==> #[trigger] self.block_of(h) == before.block_of(h)
        &&& forall|h: HeaderHash| h != block.header.hash ==> #[trigger] self.multiverse.entry_of(h)
            == before.multiverse.entry_of(h)
    }

    proof fn lemma_block_at(&self, i: int)
        requires
            self.wf(),
            0 <= i < self.blocks@.len(),
        ensures
            self.has_block(self.blocks@[i].header.hash),
            self.block_of(self.blocks@[i].header.hash) == Some(self.blocks@[i]),
    {
        assert(self.has_block(self.blocks@[i].header.hash));
    }

    /// Starts a chain from its genesis block, whose ledger state is `ledger`.
    pub fn new(block0: Block, ledger: LedgerHandle) -> (r: Blockchain)
        ensures
            r.wf(),
            forall|h: HeaderHash| #[trigger] r.has_block(h) <==> h == block0.header.hash,
            r.block_of(block0.header.hash) == Some(block0),
            forall|h: HeaderHash| #[trigger] r.multiverse.ref_of(h) == if h == block0.header.hash {
                Some(Ref { header: block0.header, ledger })
            } else {
                None
            },
    {
        let header = block0.header;
        let mut multiverse = Multiverse::new();
        let root = multiverse.insert(Ref { header, ledger });
        let mut blocks: Vec<Block> = Vec::new();
        blocks.push(block0);
        let mut roots: Vec<GCRoot> = Vec::new();
        roots.push(root);
        let r = Blockchain { blocks, multiverse, roots };
        proof {
            assert(r.blocks@[0].header.hash == header.hash);
            assert(r.has_block(header.hash));
            assert forall|h: HeaderHash| #[trigger] r.has_block(h) <==> h == header.hash by {
                if r.has_block(h) {
                    let k = choose|k: int| 0 <= k < r.blocks@.len() && r.blocks@[k].header.hash == h;
                    assert(k == 0);
                }
            }
            assert forall|h: HeaderHash| #[trigger] r.multiverse.has_hash(h) implies r.has_block(h) by {
                if h != header.hash {
                    assert(r.multiverse.entry_of(h).is_none());
                }
            }
            r.lemma_block_at(0);
            assert forall|h: HeaderHash| #[trigger] r.multiverse.ref_of(h) == if h == header.hash {
                Some(Ref { header, ledger })
            } else {
                None
            } by {
                if h != header.hash {
                    assert(r.multiverse.entry_of(h).is_none());
                }
            }
        }
        r
    }

    /// Position of the stored block of hash `h`.
    fn find_block(&self, h: HeaderHash) -> (r: Option<usize>)
        requires
            self.wf(),
        ensures
            match r {
                Some(i) => i < self.blocks@.len() && self.blocks@[i as int].header.hash == h
                    && self.block_of(h) == Some(self.blocks@[i as int]),
                None => !self.has_block(h) && self.block_of(h).is_none(),
            },
    {
        let mut i: usize = 0;
        while i < self.blocks.len()
            invariant
                self.wf(),
                i <= self.blocks@.len(),
                forall|k: int| 0 <= k < i ==> self.blocks@[k].header.hash != h,
            decreases self.blocks@.len() - i,
        {
            if self.blocks[i].header.hash == h {
                proof {
                    self.lemma_block_at(i as int);
                }
                return Some(i);
            }
            i = i + 1;
        }
        None
    }

    /// Whether the block of hash `h` is stored.
    pub fn contains_block(&self, h: HeaderHash) -> (r: bool)
        requires
            self.wf(),
        ensures
            r == self.has_block(h),
    {
        self.find_block(h).is_some()
    }

    /// The stored block of hash `h`.
    pub fn get_block(&self, h: HeaderHash) -> (r: Option<&Block>)
        requires
            self.wf(),
        ensures
            match r {
                Some(b) => self.block_of(h) == Some(*b),
                None => self.block_of(h).is_none(),
            },
    {
        match self.find_block(h) {
            Some(i) => Some(&self.blocks[i]),
            None => None,
        }
    }

    /// The reference of the accepted block of hash `h`, if it is cached.
    pub fn get_ref(&self, h: HeaderHash) -> (r: Option<Ref>)
        requires
            self.wf(),
        ensures
            r == self.multiverse.ref_of(h),
    {
        self.multiverse.get(h)
    }

    /// Classifies `header` against local storage without changing anything:
    /// already stored, parent unknown, or parent known.
    pub fn pre_check_header(&self, header: Header) -> (r: PreCheckedHeader)
        requires
            self.wf(),
        ensures
            r == self.pre_check(header),
    {
        if self.contains_block(header.hash) {
            PreCheckedHeader::AlreadyPresent { header, cached_reference: self.multiverse.get(header.hash) }
        } else {
            match self.multiverse.get(header.parent) {
                Some(p) => PreCheckedHeader::HeaderWithCache { header, parent_ref: p },
                None => PreCheckedHeader::MissingParent { header },
            }
        }
    }

    /// Checks `header` against its parent. The header must name the parent
    /// and be one block longer; then `verdict`, what the ledger rules say of
    /// the header in the parent's state, decides.
    pub fn post_check_header(
        &self,
        header: Header,
        parent_ref: Ref,
        verdict: Result<(), String>,
    ) -> (r: Result<PostCheckedHeader, ErrorKind>)
        ensures
            r == if !extends(header, parent_ref) {
                Err(ErrorKind::BlockHeaderVerificationFailed(HeaderError::NotExtendingParent))
            } else {
                match verdict {
                    Ok(()) => Ok(PostCheckedHeader { header, parent_ref }),
                    Err(m) => Err(ErrorKind::BlockHeaderVerificationFailed(HeaderError::RuleViolation(m))),
                }
            },
    {
        if !(header.parent == parent_ref.header.hash && parent_ref.header.chain_length < u32::MAX
            && header.chain_length == parent_ref.header.chain_length + 1) {
            return Err(ErrorKind::BlockHeaderVerificationFailed(HeaderError::NotExtendingParent));
        }
        match verdict {
            Ok(()) => Ok(PostCheckedHeader { header, parent_ref }),
            Err(m) => Err(ErrorKind::BlockHeaderVerificationFailed(HeaderError::RuleViolation(m))),
        }
    }

    /// Stores `block`, checked as `post_checked`, and its reference. `applied`
    /// is what the ledger rules gave for the block's content on the parent's
    /// state: the new state, or why the content was refused. Either all is
    /// recorded, or nothing changes.
    pub fn apply_and_store_block(
        &mut self,
        post_checked: PostCheckedHeader,
        block: Block,
        applied: Result<LedgerHandle, String>,
    ) -> (r: Result<Ref, ErrorKind>)
        requires
            old(self).wf(),
        ensures
            final(self).wf(),
            r == old(self).apply_outcome(post_checked, block.header, applied),
            r is Err ==> *final(self) == *old(self),
            r is Ok ==> final(self).stores_new(*old(self), block, r->Ok_0),
    {
        let header = block.header;
        if header != post_checked.header {
            return Err(ErrorKind::BlockHeaderVerificationFailed(HeaderError::BlockMismatch));
        }
        if self.contains_block(header.hash) {
            return Err(ErrorKind::Storage(StorageError::BlockAlreadyPresent));
        }
        let ledger = match applied {
            Ok(l) => l,
            Err(m) => {
                return Err(ErrorKind::Ledger(m));
            },
        };
        let new_ref = Ref { header, ledger };
        let ghost pre = *self;
        proof {
            assert(!self.multiverse.has_hash(header.hash));
        }
        self.blocks.push(block);
        let root = self.multiverse.insert(new_ref);
        self.roots.push(root);
        proof {
            let n = pre.blocks@.len() as int;
            assert(self.blocks@[n].header.hash == header.hash);
            assert(self.wf()) by {
                assert forall|h: HeaderHash| #[trigger] self.multiverse.has_hash(h) implies self.has_block(h) by {
                    if h != header.hash {
                        assert(self.multiverse.entry_of(h) == pre.multiverse.entry_of(h));
                        assert(pre.multiverse.has_hash(h));
                        let k = choose|k: int| 0 <= k < pre.blocks@.len() && pre.blocks@[k].header.hash == h;
                        assert(self.blocks@[k].header.hash == h);
                    }
                }
            }
            self.lemma_block_at(n);
            assert forall|h: HeaderHash| h != header.hash implies #[trigger] self.block_of(h) == pre.block_of(h) by {
                if pre.has_block(h) {
                    let k = choose|k: int| 0 <= k < pre.blocks@.len() && pre.blocks@[k].header.hash == h;
                    pre.lemma_block_at(k);
                    self.lemma_block_at(k);
                } else if self.has_block(h) {
                    let k = choose|k: int| 0 <= k < self.blocks@.len() && self.blocks@[k].header.hash == h;
                    assert(pre.blocks@[k].header.hash == h);
                }
            }
        }
        Ok(new_ref)
    }

    /// Hashes to offer a peer as starting points of a header pull: the tip of
    /// `branch` first, then its cached ancestors at distances 1, 2, 4, 8, ...,
    /// and last the oldest ancestor that the walk down the parents reaches.
    pub fn get_checkpoints(&self, branch: &Branch) -> (r: Vec<HeaderHash>)
        requires
            self.wf(),
        ensures
            r@ == checkpoints(self.multiverse, branch.tip),
    {
        let tip = branch.tip;
        let mut walk: Vec<HeaderHash> = Vec::new();
        let mut cur = tip;
        loop
            invariant_except_break
                hashes(ancestry(self.multiverse, tip)) == walk@ + hashes(ancestry(self.multiverse, cur)),
            invariant
                self.wf(),
            ensures
                hashes(ancestry(self.multiverse, tip)) == walk@,
            decreases cur.header.chain_length,
        {
            let ghost before = walk@;
            walk.push(cur.header.hash);
            match self.multiverse.get(cur.header.parent) {
                Some(p) => {
                    if p.header.chain_length >= cur.header.chain_length {
                        proof {
                            assert(hashes(ancestry(self.multiverse, cur)) =~= seq![cur.header.hash]);
                            assert(walk@ =~= before + seq![cur.header.hash]);
                        }
                        break;
                    }
                    proof {
                        let rest = ancestry(self.multiverse, p);
                        assert(ancestry(self.multiverse, cur) == seq![cur] + rest);
                        assert(hashes(seq![cur] + rest) =~= seq![cur.header.hash] + hashes(rest));
                        assert(walk@ + hashes(rest) =~= before + (seq![cur.header.hash] + hashes(rest)));
                    }
                    cur = p;
                },
                None => {
                    proof {
                        assert(hashes(ancestry(self.multiverse, cur)) =~= seq![cur.header.hash]);
                        assert(walk@ =~= before + seq![cur.header.hash]);
                    }
                    break;
                },
            }
        }
        let ghost w = hashes(ancestry(self.multiverse, tip));
        proof {
            assert(w =~= walk@);
        }
        let len = walk.len();
        let mut out: Vec<HeaderHash> = Vec::new();
        out.push(walk[0]);
        let mut d: usize = 1;
        while d < len
            invariant
                len == walk@.len(),
                w == walk@,
                len >= 1,
                1 <= d,
                seq![w[0]] + sample(w, 1) == out@ + sample(w, d as nat),
            decreases len - d,
        {
            let ghost before = out@;
            proof {
                assert(sample(w, d as nat) == seq![w[d as int]] + sample(w, 2 * d as nat));
            }
            out.push(walk[d]);
            proof {
                assert(before + (seq![w[d as int]] + sample(w, 2 * d as nat)) =~= out@ + sample(w, 2 * d as nat));
            }
            if d > len / 2 {
                proof {
                    assert(sample(w, 2 * d as nat) == Seq::<HeaderHash>::empty());
                    assert(sample(w, len as nat) == Seq::<HeaderHash>::empty());
                }
                d = len;
            } else {
                d = d * 2;
            }
        }
        proof {
            assert(sample(w, d as nat) == Seq::<HeaderHash>::empty());
            assert(out@ =~= seq![w[0]] + sample(w, 1));
        }
        let oldest = walk[len - 1];
        if out[out.len() - 1] != oldest {
            out.push(oldest);
        }
        out
    }
}

} // verus!
