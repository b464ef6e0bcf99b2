use vstd::prelude::*;
use crate::block::{Block, Epoch, Header, HeaderHash, LedgerHandle, NodeId, Ref};
use crate::blockchain::{checkpoints, extends, Blockchain, ErrorKind, HeaderError, PostCheckedHeader, PreCheckedHeader};
use crate::branch::{advance, Branch};

verus! {

/// What the ledger rules say of a block on its parent's state: whether its
/// header passes, and the state that applying its content gives, or why the
/// content is refused.
#[derive(Debug)]
pub struct LedgerVerdict {
    pub header_check: Result<(), String>,
    pub applied: Result<LedgerHandle, String>,
}

/// An event for the block processor.
#[derive(Debug)]
pub enum BlockMsg {
    /// Local minting says that this epoch is ending.
    LeadershipExpectEndOfEpoch(Epoch),
    /// A block minted here, with the ledger's verdict on it.
    LeadershipBlock(Block, LedgerVerdict),
    /// A peer announced a header.
    AnnouncedBlock(Header, NodeId),
    /// A peer delivered a full block, with the ledger's verdict on it.
    NetworkBlock(Block, LedgerVerdict),
    /// A peer delivered a run of headers.
    ChainHeaders(Vec<Header>),
}

/// An input of a service task: a message, or the signal to stop.
#[derive(Debug)]
pub enum Input<T> {
    Shutdown,
    Input(T),
}

/// A request to the network task.
#[derive(Clone, Debug)]
pub enum NetworkMsg {
    /// Broadcast the header of a new block.
    Propagate(Header),
    /// Ask `node_id` for the headers from the checkpoints `from` up to `to`.
    PullHeaders { node_id: NodeId, from: Vec<HeaderHash>, to: HeaderHash },
    /// Ask a peer for one full block.
    GetNextBlock(NodeId, HeaderHash),
}

/// What the leadership scheduler needs to plan an epoch: its number and the
/// tip whose ledger state the schedule is drawn from.
#[derive(Clone, Copy, Debug, PartialEq, Eq, Structural)]
pub struct NewEpochToSchedule {
    pub epoch: Epoch,
    pub tip: Ref,
}

/// Code of a failure reply to a peer.
#[derive(Clone, Copy, Debug, PartialEq, Eq, Structural)]
pub enum ReplyErrorCode {
    Failed,
    FailedPrecondition,
    InvalidArgument,
}

/// An effect that the block processor asks its collaborators to carry out.
#[derive(Debug)]
pub enum Action {
    Network(NetworkMsg),
    Schedule(NewEpochToSchedule),
    /// Hand a stored reference to the explorer index.
    Explorer(Ref),
    /// Answer a peer that delivered a block.
    Reply(Result<(), ReplyErrorCode>),
    /// Answer a peer that delivered headers: the blocks to fetch.
    ReplyHeaders(Result<Vec<HeaderHash>, ReplyErrorCode>),
    /// A block minted here failed validation: a defect to report loudly.
    LeadershipFailure(ErrorKind),
}

/// The reply code that a failure of a delivered block maps to.
pub open spec fn reply_code(e: ErrorKind) -> ReplyErrorCode {
    match e {
        ErrorKind::Storage(_) => ReplyErrorCode::Failed,
        ErrorKind::Ledger(_) => ReplyErrorCode::FailedPrecondition,
        ErrorKind::Block0(_) => ReplyErrorCode::Failed,
        ErrorKind::MissingParentBlockFromStorage(_) => ReplyErrorCode::FailedPrecondition,
        ErrorKind::BlockHeaderVerificationFailed(_) => ReplyErrorCode::InvalidArgument,
    }
}

/// Result of checking a header of known parent `parent` and applying its
/// block, given the ledger's verdict.
pub open spec fn validation_outcome(bc: Blockchain, header: Header, parent: Ref, verdict: LedgerVerdict) -> Result<
    Ref,
    ErrorKind,
> {
    if !extends(header, parent) {
        Err(ErrorKind::BlockHeaderVerificationFailed(HeaderError::NotExtendingParent))
    } else {
        match verdict.header_check {
            Err(m) => Err(ErrorKind::BlockHeaderVerificationFailed(HeaderError::RuleViolation(m))),
            Ok(()) => bc.apply_outcome(PostCheckedHeader { header, parent_ref: parent }, header, verdict.applied),
        }
    }
}

/// Result of a block minted here: its parent must be cached; no pre-check.
pub open spec fn leadership_outcome(bc: Blockchain, header: Header, verdict: LedgerVerdict) -> Result<
    Ref,
    ErrorKind,
> {
    match bc.multiverse.ref_of(header.parent) {
        None => Err(ErrorKind::MissingParentBlockFromStorage(header)),
        Some(p) => validation_outcome(bc, header, p, verdict),
    }
}

/// Result of a block delivered by a peer: `None` when it is stored already.
pub open spec fn network_outcome(bc: Blockchain, header: Header, verdict: LedgerVerdict) -> Result<
    Option<Ref>,
    ErrorKind,
> {
    match bc.pre_check(header) {
        PreCheckedHeader::AlreadyPresent { .. } => Ok(None),
        PreCheckedHeader::MissingParent { header } => Err(ErrorKind::MissingParentBlockFromStorage(header)),
        PreCheckedHeader::HeaderWithCache { header, parent_ref } => match validation_outcome(
            bc,
            header,
            parent_ref,
            verdict,
        ) {
            Ok(r) => Ok(Some(r)),
            Err(e) => Err(e),
        },
    }
}

/// Some header of `staged` has hash `h`.
pub open spec fn staged_has(staged: Seq<Header>, h: HeaderHash) -> bool {
    exists|i: int| 0 <= i < staged.len() && staged[i].hash == h
}

/// The headers of the run `hs` whose blocks are to be fetched, in order, or
/// the first header whose parent is neither stored nor earlier in the run. A
/// header stored already, or met before in the run, is skipped.
pub open spec fn staged_run(bc: Blockchain, hs: Seq<Header>) -> Result<Seq<Header>, Header>
    decreases hs.len(),
{
    if hs.len() == 0 {
        Ok(Seq::empty())
    } else {
        match staged_run(bc, hs.drop_last()) {
            Err(h) => Err(h),
            Ok(acc) => {
                let h = hs.last();
                if bc.has_block(h.hash) || staged_has(acc, h.hash) {
                    Ok(acc)
                } else if bc.multiverse.has_hash(h.parent) || staged_has(acc, h.parent) {
                    Ok(acc.push(h))
                } else {
                    Err(h)
                }
            },
        }
    }
}

/// A failure of a prefix of the run is the failure of the whole run.
proof fn lemma_staged_failure_persists(bc: Blockchain, hs: Seq<Header>, k: int)
    requires
        0 <= k <= hs.len(),
        staged_run(bc, hs.take(k)) is Err,
    ensures
        staged_run(bc, hs) == staged_run(bc, hs.take(k)),
    decreases hs.len() - k,
{
    if k < hs.len() {
        assert(hs.take(k + 1).drop_last() =~= hs.take(k));
        lemma_staged_failure_persists(bc, hs, k + 1);
    } else {
        assert(hs.take(k) =~= hs);
    }
}

/// The hashes of `hs`, in order.
pub open spec fn hashes_of(hs: Seq<Header>) -> Seq<HeaderHash> {
    hs.map_values(|h: Header| h.hash)
}

/// Maps the failure of a delivered block to the code of the reply to the
/// peer.
pub fn network_block_error_into_reply(err: &ErrorKind) -> (r: ReplyErrorCode)
    ensures
        r == reply_code(*err),
{
    match err {
        ErrorKind::Storage(_) => ReplyErrorCode::Failed,
        ErrorKind::Ledger(_) => ReplyErrorCode::FailedPrecondition,
        ErrorKind::Block0(_) => ReplyErrorCode::Failed,
        ErrorKind::MissingParentBlockFromStorage(_) => ReplyErrorCode::FailedPrecondition,
        ErrorKind::BlockHeaderVerificationFailed(_) => ReplyErrorCode::InvalidArgument,
    }
}

/// The schedule request for `epoch`, drawn from the tip of `tip`.
pub fn handle_end_of_epoch(tip: &Branch, epoch: Epoch) -> (r: NewEpochToSchedule)
    ensures
        r == (NewEpochToSchedule { epoch, tip: tip.tip }),
{
    NewEpochToSchedule { epoch, tip: tip.get_ref() }
}

/// Post-checks `header` against `parent_ref` and stores `block`.
fn check_and_apply(
    blockchain: &mut Blockchain,
    header: Header,
    parent_ref: Ref,
    block: Block,
    verdict: LedgerVerdict,
) -> (r: Result<Ref, ErrorKind>)
    requires
        old(blockchain).wf(),
        block.header == header,
    ensures
        final(blockchain).wf(),
        r == validation_outcome(*old(blockchain), header, parent_ref, verdict),
        r is Err ==> *final(blockchain) == *old(blockchain),
        r is Ok ==> final(blockchain).stores_new(*old(blockchain), block, r->Ok_0),
{
    let post_checked = match blockchain.post_check_header(header, parent_ref, verdict.header_check) {
        Ok(p) => p,
        Err(e) => {
            return Err(e);
        },
    };
    blockchain.apply_and_store_block(post_checked, block, verdict.applied)
}

/// Validates and stores a block minted here. It is trusted, so it skips the
/// pre-check: its parent must be cached, and the full check decides.
pub fn process_leadership_block(blockchain: &mut Blockchain, block: Block, verdict: LedgerVerdict) -> (r: Result<
    Ref,
    ErrorKind,
>)
    requires
        old(blockchain).wf(),
    ensures
        final(blockchain).wf(),
        r == leadership_outcome(*old(blockchain), block.header, verdict),
        r is Err ==> *final(blockchain) == *old(blockchain),
        r is Ok ==> final(blockchain).stores_new(*old(blockchain), block, r->Ok_0),
{
    let header = block.header();
    match blockchain.get_ref(block.parent_id()) {
        Some(parent_ref) => check_and_apply(blockchain, header, parent_ref, block, verdict),
        None => Err(ErrorKind::MissingParentBlockFromStorage(header)),
    }
}

/// Validates and stores a block that a peer delivered: pre-check first; a
/// stored block gives `Ok(None)`, an unknown parent fails, a known parent
/// leads to the full check and the store. Storage changes only when the
/// pre-check found the parent and all checks passed.
pub fn process_network_block(blockchain: &mut Blockchain, block: Block, verdict: LedgerVerdict) -> (r: Result<
    Option<Ref>,
    ErrorKind,
>)
    requires
        old(blockchain).wf(),
    ensures
        final(blockchain).wf(),
        r == network_outcome(*old(blockchain), block.header, verdict),
        !(r matches Ok(Some(_))) ==> *final(blockchain) == *old(blockchain),
        r matches Ok(Some(x)) ==> old(blockchain).pre_check(block.header) is HeaderWithCache
            && final(blockchain).stores_new(*old(blockchain), block, x),
{
    let header = block.header();
    match blockchain.pre_check_header(header) {
        PreCheckedHeader::AlreadyPresent { .. } => Ok(None),
        PreCheckedHeader::MissingParent { header } => Err(ErrorKind::MissingParentBlockFromStorage(header)),
        PreCheckedHeader::HeaderWithCache { header, parent_ref } => {
            match check_and_apply(blockchain, header, parent_ref, block, verdict) {
                Ok(r) => Ok(Some(r)),
                Err(e) => Err(e),
            }
        },
    }
}

/// The request that a header announced by `node_id` calls for: none when
/// the block is stored; a header pull from the local checkpoints up to it
/// when its parent is unknown; the block itself when its parent is known.
pub fn process_block_announcement(blockchain: &Blockchain, branch: &Branch, header: Header, node_id: NodeId) -> (r:
    Option<NetworkMsg>)
    requires
        blockchain.wf(),
    ensures
        match blockchain.pre_check(header) {
            PreCheckedHeader::AlreadyPresent { .. } => r is None,
            PreCheckedHeader::MissingParent { .. } => match r {
                Some(NetworkMsg::PullHeaders { node_id: n, from, to }) => n == node_id && to == header.hash
                    && from@ == checkpoints(blockchain.multiverse, branch.tip),
                _ => false,
            },
            PreCheckedHeader::HeaderWithCache { .. } => r == Some(NetworkMsg::GetNextBlock(node_id, header.hash)),
        },
{
    match blockchain.pre_check_header(header) {
        PreCheckedHeader::AlreadyPresent { .. } => None,
        PreCheckedHeader::MissingParent { header } => {
            let from = blockchain.get_checkpoints(branch);
            Some(NetworkMsg::PullHeaders { node_id, from, to: header.hash })
        },
        PreCheckedHeader::HeaderWithCache { header, .. } => Some(NetworkMsg::GetNextBlock(node_id, header.hash)),
    }
}

/// Whether some header of `staged` has hash `h`.
fn staged_contains(staged: &Vec<Header>, h: HeaderHash) -> (r: bool)
    ensures
        r == staged_has(staged@, h),
{
    let mut i: usize = 0;
    while i < staged.len()
        invariant
            i <= staged@.len(),
            forall|k: int| 0 <= k < i ==> staged@[k].hash != h,
        decreases staged@.len() - i,
    {
        if staged[i].hash == h {
            return true;
        }
        i = i + 1;
    }
    false
}

/// Reduces a run of headers from a peer to the hashes of the blocks to
/// fetch. Each header is pre-checked: a stored one is skipped; one whose
/// parent is cached, or is an earlier header of the run, is kept; any other
/// fails the whole run.
pub fn process_chain_headers_into_block_request(blockchain: &Blockchain, headers: &Vec<Header>) -> (r: Result<
    Vec<HeaderHash>,
    ErrorKind,
>)
    requires
        blockchain.wf(),
    ensures
        match staged_run(*blockchain, headers@) {
            Ok(acc) => r matches Ok(v) && v@ == hashes_of(acc),
            Err(h) => r == Err::<Vec<HeaderHash>, ErrorKind>(ErrorKind::MissingParentBlockFromStorage(h)),
        },
{
    let mut staged: Vec<Header> = Vec::new();
    let mut out: Vec<HeaderHash> = Vec::new();
    let mut i: usize = 0;
    while i < headers.len()
        invariant
            blockchain.wf(),
            i <= headers@.len(),
            staged_run(*blockchain, headers@.take(i as int)) == Ok::<Seq<Header>, Header>(staged@),
            out@ == hashes_of(staged@),
        decreases headers@.len() - i,
    {
        let header = headers[i];
        proof {
            assert(headers@.take(i + 1).drop_last() =~= headers@.take(i as int));
            assert(headers@.take(i + 1).last() == header);
        }
        let seen = staged_contains(&staged, header.hash);
        match blockchain.pre_check_header(header) {
            PreCheckedHeader::AlreadyPresent { .. } => {},
            PreCheckedHeader::MissingParent { header } => {
                if !seen {
                    if !staged_contains(&staged, header.parent) {
                        proof {
                            lemma_staged_failure_persists(*blockchain, headers@, i + 1);
                        }
                        return Err(ErrorKind::MissingParentBlockFromStorage(header));
                    }
                    staged.push(header);
                    out.push(header.hash);
                }
            },
            PreCheckedHeader::HeaderWithCache { header, .. } => {
                if !seen {
                    staged.push(header);
                    out.push(header.hash);
                }
            },
        }
        proof {
            assert(out@ =~= hashes_of(staged@));
        }
        i = i + 1;
    }
    proof {
        assert(headers@.take(i as int) =~= headers@);
    }
    Ok(out)
}

/// Once a block is stored, submitting it again, or announcing its header,
/// finds it present: delivery gives "no update", whatever the ledger says,
/// and announcement asks for nothing.
pub proof fn lemma_resubmission_is_idempotent(bc: Blockchain, header: Header, verdict: LedgerVerdict)
    requires
        bc.wf(),
        bc.has_block(header.hash),
    ensures
        bc.pre_check(header) is AlreadyPresent,
        network_outcome(bc, header, verdict) == Ok::<Option<Ref>, ErrorKind>(None),
{
}

/// A delivered block whose parent the pre-check cannot resolve never
/// reaches the full check: the outcome is the missing-parent failure, the
/// same whatever the ledger would say, and (by `process_network_block`)
/// storage stays as it was.
pub proof fn lemma_unknown_parent_skips_post_check(
    bc: Blockchain,
    header: Header,
    first: LedgerVerdict,
    second: LedgerVerdict,
)
    requires
        bc.wf(),
        !bc.has_block(header.hash),
        bc.multiverse.ref_of(header.parent) is None,
    ensures
        bc.pre_check(header) == (PreCheckedHeader::MissingParent { header }),
        network_outcome(bc, header, first) == Err::<Option<Ref>, ErrorKind>(
            ErrorKind::MissingParentBlockFromStorage(header),
        ),
        network_outcome(bc, header, first) == network_outcome(bc, header, second),
{
}

/// Submitting a block a second time, after the first submission stored it
/// (as `process_network_block` or `process_leadership_block` report by
/// `stores_new`), finds it present and gives "no update", whatever the
/// ledger says the second time.
pub proof fn lemma_second_submission_changes_nothing(
    before: Blockchain,
    after: Blockchain,
    block: Block,
    r: Ref,
    verdict: LedgerVerdict,
)
    requires
        after.stores_new(before, block, r),
    ensures
        after.pre_check(block.header) is AlreadyPresent,
        network_outcome(after, block.header, verdict) == Ok::<Option<Ref>, ErrorKind>(None),
{
    lemma_resubmission_is_idempotent(after, block.header, verdict);
}

/// Handles one event of the block processor and returns the effects it
/// calls for, in order. Storage and tip change only as the handlers of
/// blocks say; a stored block moves the tip by [`advance`].
pub fn handle_input(blockchain: &mut Blockchain, tip: &mut Branch, input: Input<BlockMsg>) -> (r: Vec<Action>)
    requires
        old(blockchain).wf(),
    ensures
        final(blockchain).wf(),
        match input {
            Input::Shutdown => r@.len() == 0 && *final(blockchain) == *old(blockchain) && *final(tip) == *old(tip),
            Input::Input(BlockMsg::LeadershipExpectEndOfEpoch(e)) => {
                &&& *final(blockchain) == *old(blockchain)
                &&& *final(tip) == *old(tip)
                &&& r@ == if e < u32::MAX {
                    seq![Action::Schedule(NewEpochToSchedule { epoch: (e + 1) as u32, tip: old(tip).tip })]
                } else {
                    Seq::<Action>::empty()
                }
            },
            Input::Input(BlockMsg::LeadershipBlock(b, v)) => match leadership_outcome(*old(blockchain), b.header, v) {
                Ok(x) => {
                    &&& final(blockchain).stores_new(*old(blockchain), b, x)
                    &&& final(tip).tip == advance(old(tip).tip, x)
                    &&& r@ == seq![Action::Network(NetworkMsg::Propagate(x.header)), Action::Explorer(x)]
                },
                Err(e) => {
                    &&& *final(blockchain) == *old(blockchain)
                    &&& *final(tip) == *old(tip)
                    &&& r@ == seq![Action::LeadershipFailure(e)]
                },
            },
            Input::Input(BlockMsg::AnnouncedBlock(h, n)) => {
                &&& *final(blockchain) == *old(blockchain)
                &&& *final(tip) == *old(tip)
                &&& match old(blockchain).pre_check(h) {
                    PreCheckedHeader::AlreadyPresent { .. } => r@.len() == 0,
                    PreCheckedHeader::MissingParent { .. } => r@.len() == 1 && match r@[0] {
                        Action::Network(NetworkMsg::PullHeaders { node_id, from, to }) => node_id == n && to
                            == h.hash && from@ == checkpoints(old(blockchain).multiverse, old(tip).tip),
                        _ => false,
                    },
                    PreCheckedHeader::HeaderWithCache { .. } => r@ == seq![
                        Action::Network(NetworkMsg::GetNextBlock(n, h.hash)),
                    ],
                }
            },
            Input::Input(BlockMsg::NetworkBlock(b, v)) => match network_outcome(*old(blockchain), b.header, v) {
                Ok(Some(x)) => {
                    &&& final(blockchain).stores_new(*old(blockchain), b, x)
                    &&& final(tip).tip == advance(old(tip).tip, x)
                    &&& r@ == seq![
                        Action::Network(NetworkMsg::Propagate(x.header)),
                        Action::Explorer(x),
                        Action::Reply(Ok(())),
                    ]
                },
                Ok(None) => {
                    &&& *final(blockchain) == *old(blockchain)
                    &&& *final(tip) == *old(tip)
                    &&& r@ == seq![Action::Reply(Ok(()))]
                },
                Err(e) => {
                    &&& *final(blockchain) == *old(blockchain)
                    &&& *final(tip) == *old(tip)
                    &&& r@ == seq![Action::Reply(Err(reply_code(e)))]
                },
            },
            Input::Input(BlockMsg::ChainHeaders(hs)) => {
                &&& *final(blockchain) == *old(blockchain)
                &&& *final(tip) == *old(tip)
                &&& r@.len() == 1
                &&& match staged_run(*old(blockchain), hs@) {
                    Ok(acc) => r@[0] matches Action::ReplyHeaders(Ok(v)) && v@ == hashes_of(acc),
                    Err(_) => r@[0] == Action::ReplyHeaders(Err(ReplyErrorCode::FailedPrecondition)),
                }
            },
        },
{
    let mut actions: Vec<Action> = Vec::new();
    let msg = match input {
        Input::Shutdown => {
            return actions;
        },
        Input::Input(msg) => msg,
    };
    match msg {
        BlockMsg::LeadershipExpectEndOfEpoch(epoch) => {
            if epoch < u32::MAX {
                actions.push(Action::Schedule(handle_end_of_epoch(tip, epoch + 1)));
            }
        },
        BlockMsg::LeadershipBlock(block, verdict) => {
            match process_leadership_block(blockchain, block, verdict) {
                Ok(new_ref) => {
                    tip.update_ref(new_ref);
                    actions.push(Action::Network(NetworkMsg::Propagate(new_ref.header())));
                    actions.push(Action::Explorer(new_ref));
                },
                Err(e) => {
                    actions.push(Action::LeadershipFailure(e));
                },
            }
        },
        BlockMsg::AnnouncedBlock(header, node_id) => {
            match process_block_announcement(blockchain, tip, header, node_id) {
                Some(m) => {
                    actions.push(Action::Network(m));
                },
                None => {},
            }
        },
        BlockMsg::NetworkBlock(block, verdict) => {
            match process_network_block(blockchain, block, verdict) {
                Ok(Some(new_ref)) => {
                    tip.update_ref(new_ref);
                    actions.push(Action::Network(NetworkMsg::Propagate(new_ref.header())));
                    actions.push(Action::Explorer(new_ref));
                    actions.push(Action::Reply(Ok(())));
                },
                Ok(None) => {
                    actions.push(Action::Reply(Ok(())));
                },
                Err(e) => {
                    let code = network_block_error_into_reply(&e);
                    actions.push(Action::Reply(Err(code)));
                },
            }
        },
        BlockMsg::ChainHeaders(headers) => {
            match process_chain_headers_into_block_request(blockchain, &headers) {
                Ok(hashes) => {
                    actions.push(Action::ReplyHeaders(Ok(hashes)));
                },
                Err(_) => {
                    actions.push(Action::ReplyHeaders(Err(ReplyErrorCode::FailedPrecondition)));
                },
            }
        },
    }
    actions
}

} // verus!
