use vstd::prelude::*;
use std::collections::HashMap;
use crate::block::{ChainLength, FragmentId, HeaderHash, Ref};
use crate::blockchain::{Blockchain, StorageError};
use crate::multiverse::{GCRoot, Multiverse};
use crate::process::Input;

verus! {

broadcast use vstd::std_specs::hash::group_hash_axioms;

/// Why indexing a reference failed.
#[derive(Debug)]
pub enum Error {
    /// The block of the reference could not be read back from storage.
    BlockNotFound,
    StorageError(StorageError),
}

/// Read-side index of accepted blocks: references by chain length, and the
/// block that holds each transaction.
#[derive(Debug)]
pub struct ExplorerDB {
    pub multiverse: Multiverse,
    pub chain_length_to_hash: HashMap<ChainLength, Vec<Ref>>,
    pub transaction_to_block: HashMap<FragmentId, Ref>,
}

/// A message for the explorer task.
#[derive(Debug)]
pub enum ExplorerMsg {
    NewBlock(Ref),
}

/// The explorer task.
#[derive(Debug)]
pub struct Process {}

impl ExplorerDB {
    /// References indexed at chain length `l`, in the order they came.
    pub open spec fn refs_at(&self, l: ChainLength) -> Seq<Ref> {
        if self.chain_length_to_hash@.contains_key(l) {
            self.chain_length_to_hash@[l]@
        } else {
            Seq::empty()
        }
    }

    /// The multiverse is well formed and holds no live root: each root
    /// taken while storing is given back at once.
    pub open spec fn wf(&self) -> bool {
        &&& self.multiverse.wf()
        &&& forall|h: HeaderHash| #[trigger] self.multiverse.roots_of(h) == 0
    }

    pub fn new() -> (r: ExplorerDB)
        ensures
            r.wf(),
            forall|h: HeaderHash| !r.multiverse.has_hash(h),
            forall|l: ChainLength| #[trigger] r.refs_at(l) == Seq::<Ref>::empty(),
            r.transaction_to_block@ == Map::<FragmentId, Ref>::empty(),
    {
        ExplorerDB {
            multiverse: Multiverse::new(),
            chain_length_to_hash: HashMap::new(),
            transaction_to_block: HashMap::new(),
        }
    }

    /// Appends `new_block_ref` to the list of its chain length and records it
    /// in the multiverse, returning the root taken on it.
    pub fn store_ref(&mut self, new_block_ref: Ref) -> (root: GCRoot)
        requires
            old(self).multiverse.wf(),
            old(self).multiverse.roots_of(new_block_ref.header.hash) < u64::MAX,
        ensures
            final(self).multiverse.wf(),
            root.hash == new_block_ref.header.hash,
            root.chain_length == new_block_ref.header.chain_length,
            final(self).refs_at(new_block_ref.header.chain_length) == old(self).refs_at(
                new_block_ref.header.chain_length,
            ).push(new_block_ref),
            forall|l: ChainLength| l != new_block_ref.header.chain_length ==> #[trigger] final(self).refs_at(l)
                == old(self).refs_at(l),
            final(self).multiverse.ref_of(new_block_ref.header.hash) == if old(self).multiverse.has_hash(
                new_block_ref.header.hash,
            ) {
                old(self).multiverse.ref_of(new_block_ref.header.hash)
            } else {
                Some(new_block_ref)
            },
            final(self).multiverse.roots_of(new_block_ref.header.hash) == old(self).multiverse.roots_of(
                new_block_ref.header.hash,
            ) + 1,
            forall|h: HeaderHash| h != new_block_ref.header.hash ==> #[trigger] final(self).multiverse.entry_of(h)
                == old(self).multiverse.entry_of(h),
            final(self).transaction_to_block@ == old(self).transaction_to_block@,
    {
        let chain_length = new_block_ref.chain_length();
        let mut refs = match self.chain_length_to_hash.remove(&chain_length) {
            Some(v) => v,
            None => Vec::new(),
        };
        refs.push(new_block_ref);
        self.chain_length_to_hash.insert(chain_length, refs);
        self.multiverse.insert(new_block_ref)
    }

    /// Maps every transaction of the stored block of `new_block_ref` to it.
    /// Fails, changing nothing, when the block cannot be read back.
    pub fn index_transactions(&mut self, new_block_ref: Ref, blockchain: &Blockchain) -> (r: Result<(), Error>)
        requires
            blockchain.wf(),
        ensures
            final(self).multiverse == old(self).multiverse,
            final(self).chain_length_to_hash@ == old(self).chain_length_to_hash@,
            match blockchain.block_of(new_block_ref.header.hash) {
                None => r matches Err(Error::BlockNotFound) && final(self).transaction_to_block@
                    == old(self).transaction_to_block@,
                Some(b) => r is Ok && forall|id: FragmentId| #[trigger]
                    final(self).transaction_to_block@.get(id) == if b.contents@.contains(id) {
                        Some(new_block_ref)
                    } else {
                        old(self).transaction_to_block@.get(id)
                    },
            },
    {
        let block = match blockchain.get_block(new_block_ref.hash()) {
            Some(b) => b,
            None => {
                return Err(Error::BlockNotFound);
            },
        };
        let ghost pre = self.transaction_to_block@;
        let mut i: usize = 0;
        while i < block.contents.len()
            invariant
                self.multiverse == old(self).multiverse,
                self.chain_length_to_hash@ == old(self).chain_length_to_hash@,
                pre == old(self).transaction_to_block@,
                i <= block.contents@.len(),
                forall|id: FragmentId| #[trigger]
                    self.transaction_to_block@.get(id) == if block.contents@.take(i as int).contains(id) {
                        Some(new_block_ref)
                    } else {
                        pre.get(id)
                    },
            decreases block.contents@.len() - i,
        {
            let id = block.contents[i];
            let ghost prev = self.transaction_to_block@;
            self.transaction_to_block.insert(id, new_block_ref);
            proof {
                assert(block.contents@.take(i + 1) =~= block.contents@.take(i as int).push(id));
                assert forall|x: FragmentId| #[trigger] self.transaction_to_block@.get(x) == if block.contents@.take(
                    i + 1,
                ).contains(x) {
                    Some(new_block_ref)
                } else {
                    pre.get(x)
                } by {
                    assert(self.transaction_to_block@ == prev.insert(id, new_block_ref));
                    if x != id {
                        assert(self.transaction_to_block@.get(x) == prev.get(x));
                        if block.contents@.take(i + 1).contains(x) {
                            let k = choose|k: int| 0 <= k < i + 1 && #[trigger] block.contents@.take(i + 1)[k] == x;
                            assert(block.contents@.take(i as int)[k] == x);
                        }
                    }
                    if block.contents@.take(i as int).contains(x) {
                        let k = choose|k: int| 0 <= k < i && block.contents@.take(i as int)[k] == x;
                        assert(block.contents@.take(i + 1)[k] == x);
                    }
                    if x == id {
                        assert(block.contents@.take(i + 1)[i as int] == x);
                    }
                }
            }
            i = i + 1;
        }
        proof {
            assert(block.contents@.take(i as int) =~= block.contents@);
        }
        Ok(())
    }
}

impl Process {
    pub fn new() -> (r: Process) {
        Process {}
    }

    /// Indexes a newly stored reference: it is appended to the list of its
    /// chain length, then its transactions are indexed. When the block cannot
    /// be read back the error is returned and the chain-length entry stays.
    pub fn handle_input(
        &mut self,
        input: Input<ExplorerMsg>,
        explorer_db: &mut ExplorerDB,
        blockchain: &Blockchain,
    ) -> (r: Result<(), Error>)
        requires
            old(explorer_db).wf(),
            blockchain.wf(),
        ensures
            final(explorer_db).wf(),
            match input {
                Input::Shutdown => {
                    &&& r is Ok
                    &&& final(explorer_db).multiverse == old(explorer_db).multiverse
                    &&& final(explorer_db).chain_length_to_hash@ == old(explorer_db).chain_length_to_hash@
                    &&& final(explorer_db).transaction_to_block@ == old(explorer_db).transaction_to_block@
                },
                Input::Input(ExplorerMsg::NewBlock(x)) => {
                    &&& final(explorer_db).refs_at(x.header.chain_length) == old(explorer_db).refs_at(
                        x.header.chain_length,
                    ).push(x)
                    &&& forall|l: ChainLength| l != x.header.chain_length ==> #[trigger] final(explorer_db).refs_at(l)
                        == old(explorer_db).refs_at(l)
                    &&& final(explorer_db).multiverse.ref_of(x.header.hash) == if old(explorer_db).multiverse.has_hash(
                        x.header.hash,
                    ) {
                        old(explorer_db).multiverse.ref_of(x.header.hash)
                    } else {
                        Some(x)
                    }
                    &&& match blockchain.block_of(x.header.hash) {
                        None => r matches Err(Error::BlockNotFound) && final(explorer_db).transaction_to_block@
                            == old(explorer_db).transaction_to_block@,
                        Some(b) => r is Ok && forall|id: FragmentId| #[trigger]
                            final(explorer_db).transaction_to_block@.get(id) == if b.contents@.contains(id) {
                                Some(x)
                            } else {
                                old(explorer_db).transaction_to_block@.get(id)
                            },
                    }
                },
            },
    {
        match input {
            Input::Shutdown => Ok(()),
            Input::Input(ExplorerMsg::NewBlock(new_block_ref)) => {
                let ghost pre = *explorer_db;
                let root = explorer_db.store_ref(new_block_ref);
                let ghost stored = *explorer_db;
                explorer_db.multiverse.release(root);
                proof {
                    assert forall|h: HeaderHash| #[trigger] explorer_db.multiverse.roots_of(h) == 0 by {
                        if h != new_block_ref.header.hash {
                            assert(pre.multiverse.roots_of(h) == 0);
                        }
                    }
                }
                let ghost mid = *explorer_db;
                let r = explorer_db.index_transactions(new_block_ref, blockchain);
                proof {
                    assert forall|l: ChainLength| l != new_block_ref.header.chain_length implies #[trigger] explorer_db.refs_at(l)
                        == pre.refs_at(l) by {
                        assert(stored.refs_at(l) == pre.refs_at(l));
                        assert(mid.chain_length_to_hash == stored.chain_length_to_hash);
                    }
                }
                r
            },
        }
    }
}

} // verus!
