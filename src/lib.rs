//! Block validation and branch storage for a proof-based blockchain node.
//!
//! The library holds the pipeline that classifies and validates incoming
//! headers and blocks, the multi-branch store with its retention roots, the
//! tip pointer of a branch, the event dispatch of the block processor and the
//! secondary index used by explorers.
mod block;
mod blockchain;
mod branch;
mod explorer;
mod multiverse;
mod network;
mod process;

pub use block::{Block, ChainLength, Epoch, FragmentId, Header, HeaderHash, LedgerHandle, NodeId, Ref};
pub use blockchain::{ancestry, checkpoints, extends, hashes, sample, Blockchain, ErrorKind, HeaderError, PostCheckedHeader, PreCheckedHeader, StorageError};
pub use branch::{advance, lemma_tip_monotonic, tip_after, Branch};
pub use explorer::{Error, ExplorerDB, ExplorerMsg, Process};
pub use multiverse::{contains_hash, Entry, GCRoot, Multiverse};
pub use network::subscription_node_id;
pub use process::{
    handle_end_of_epoch, handle_input, hashes_of, lemma_resubmission_is_idempotent, lemma_second_submission_changes_nothing,
    lemma_unknown_parent_skips_post_check, leadership_outcome, network_block_error_into_reply, network_outcome,
    process_block_announcement, process_chain_headers_into_block_request, process_leadership_block,
    process_network_block, reply_code, staged_has, staged_run, validation_outcome, Action, BlockMsg, Input,
    LedgerVerdict, NetworkMsg, NewEpochToSchedule, ReplyErrorCode,
};
