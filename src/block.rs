use vstd::prelude::*;

verus! {

/// Identifier of a block: the hash of its header.
pub type HeaderHash = u64;

/// Number of blocks from genesis to a block, genesis included.
pub type ChainLength = u32;

/// Index of an epoch, a window of block-production slots.
pub type Epoch = u32;

/// Identifier of a fragment (a transaction) held in a block.
pub type FragmentId = u64;

/// Identifier of a peer node.
pub type NodeId = u64;

/// Handle on a ledger state kept by the ledger rule engine.
pub type LedgerHandle = u64;

/// A block header: its own hash, the hash of its parent and its chain length.
#[derive(Clone, Copy, Debug, PartialEq, Eq, Structural)]
pub struct Header {
    pub hash: HeaderHash,
    pub parent: HeaderHash,
    pub chain_length: ChainLength,
}

/// A full block: a header and the identifiers of the fragments it carries.
#[derive(Clone, Debug)]
pub struct Block {
    pub header: Header,
    pub contents: Vec<FragmentId>,
}

/// Handle on an accepted block: its header and the ledger state that applying
/// it produced. Created once per accepted block and never changed.
#[derive(Clone, Copy, Debug, PartialEq, Eq, Structural)]
pub struct Ref {
    pub header: Header,
    pub ledger: LedgerHandle,
}

impl Header {
    pub fn new(hash: HeaderHash, parent: HeaderHash, chain_length: ChainLength) -> (r: Header)
        ensures
            r.hash == hash,
            r.parent == parent,
            r.chain_length == chain_length,
    {
        Header { hash, parent, chain_length }
    }
}

impl Block {
    pub fn new(header: Header, contents: Vec<FragmentId>) -> (r: Block)
        ensures
            r.header == header,
            r.contents@ == contents@,
    {
        Block { header, contents }
    }

    /// The header of the block.
    pub fn header(&self) -> (r: Header)
        ensures
            r == self.header,
    {
        self.header
    }

    /// The hash of the block's parent.
    pub fn parent_id(&self) -> (r: HeaderHash)
        ensures
            r == self.header.parent,
    {
        self.header.parent
    }
}

impl Ref {
    pub fn new(header: Header, ledger: LedgerHandle) -> (r: Ref)
        ensures
            r.header == header,
            r.ledger == ledger,
    {
        Ref { header, ledger }
    }

    /// The header of the accepted block.
    pub fn header(&self) -> (r: Header)
        ensures
            r == self.header,
    {
        self.header
    }

    /// The hash of the accepted block.
    pub fn hash(&self) -> (r: HeaderHash)
        ensures
            r == self.header.hash,
    {
        self.header.hash
    }

    /// The chain length of the accepted block.
    pub fn chain_length(&self) -> (r: ChainLength)
        ensures
            r == self.header.chain_length,
    {
        self.header.chain_length
    }
}

} // verus!
