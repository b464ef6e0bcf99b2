use jormungandr::{
    handle_end_of_epoch, handle_input, network_block_error_into_reply, process_block_announcement,
    process_chain_headers_into_block_request, process_leadership_block, process_network_block, subscription_node_id,
    Action, Block, BlockMsg, Blockchain, Branch, ErrorKind, Header, HeaderError, Input, LedgerVerdict, NetworkMsg,
    NewEpochToSchedule, Ref, ReplyErrorCode, StorageError,
};

fn genesis() -> Block {
    Block::new(Header::new(100, 0, 1), vec![])
}

fn child(hash: u64, parent: &Header) -> Header {
    Header::new(hash, parent.hash, parent.chain_length + 1)
}

fn accept(ledger: u64) -> LedgerVerdict {
    LedgerVerdict { header_check: Ok(()), applied: Ok(ledger) }
}

fn node() -> (Blockchain, Branch) {
    let bc = Blockchain::new(genesis(), 0);
    let tip = Branch::new(bc.get_ref(100).unwrap());
    (bc, tip)
}

#[test]
fn network_block_is_applied_once() {
    let (mut bc, _) = node();
    let h1 = child(101, &Header::new(100, 0, 1));
    let first = process_network_block(&mut bc, Block::new(h1, vec![1]), accept(9));
    assert_eq!(first, Ok(Some(Ref::new(h1, 9))));
    let blocks_after_first = bc.blocks.len();
    let second = process_network_block(&mut bc, Block::new(h1, vec![1]), accept(10));
    assert_eq!(second, Ok(None));
    assert_eq!(bc.blocks.len(), blocks_after_first);
    assert_eq!(bc.get_ref(101), Some(Ref::new(h1, 9)));
}

#[test]
fn resubmitted_block_through_processor_sends_nothing() {
    let (mut bc, mut tip) = node();
    let h1 = child(101, &Header::new(100, 0, 1));
    let first = handle_input(&mut bc, &mut tip, Input::Input(BlockMsg::NetworkBlock(Block::new(h1, vec![]), accept(1))));
    assert_eq!(first.len(), 3);
    assert!(matches!(first[0], Action::Network(NetworkMsg::Propagate(h)) if h == h1));
    let second = handle_input(&mut bc, &mut tip, Input::Input(BlockMsg::NetworkBlock(Block::new(h1, vec![]), accept(2))));
    assert_eq!(second.len(), 1);
    assert!(matches!(second[0], Action::Reply(Ok(()))));
    let announced = handle_input(&mut bc, &mut tip, Input::Input(BlockMsg::AnnouncedBlock(h1, 7)));
    assert!(announced.is_empty());
}

#[test]
fn unknown_parent_is_missing_and_stores_nothing() {
    let (mut bc, _) = node();
    let orphan = Header::new(500, 499, 9);
    let r = process_network_block(&mut bc, Block::new(orphan, vec![]), accept(1));
    assert_eq!(r, Err(ErrorKind::MissingParentBlockFromStorage(orphan)));
    assert_eq!(bc.blocks.len(), 1);
    assert!(!bc.contains_block(500));
}

#[test]
fn network_block_failures_map_to_reply_codes() {
    let (mut bc, mut tip) = node();
    let orphan = Header::new(500, 499, 9);
    let r = handle_input(&mut bc, &mut tip, Input::Input(BlockMsg::NetworkBlock(Block::new(orphan, vec![]), accept(1))));
    assert!(matches!(r[0], Action::Reply(Err(ReplyErrorCode::FailedPrecondition))));
    let h1 = child(101, &Header::new(100, 0, 1));
    let refused = LedgerVerdict { header_check: Err("bad signature".to_string()), applied: Ok(1) };
    let r = handle_input(&mut bc, &mut tip, Input::Input(BlockMsg::NetworkBlock(Block::new(h1, vec![]), refused)));
    assert_eq!(r.len(), 1);
    assert!(matches!(r[0], Action::Reply(Err(ReplyErrorCode::InvalidArgument))));
    let overspent = LedgerVerdict { header_check: Ok(()), applied: Err("overspent".to_string()) };
    let r = handle_input(&mut bc, &mut tip, Input::Input(BlockMsg::NetworkBlock(Block::new(h1, vec![]), overspent)));
    assert!(matches!(r[0], Action::Reply(Err(ReplyErrorCode::FailedPrecondition))));
    assert_eq!(tip.get_ref().hash(), 100);
}

#[test]
fn error_kinds_map_to_reply_codes() {
    let h = Header::new(1, 0, 1);
    assert_eq!(network_block_error_into_reply(&ErrorKind::MissingParentBlockFromStorage(h)), ReplyErrorCode::FailedPrecondition);
    assert_eq!(
        network_block_error_into_reply(&ErrorKind::BlockHeaderVerificationFailed(HeaderError::NotExtendingParent)),
        ReplyErrorCode::InvalidArgument
    );
    assert_eq!(network_block_error_into_reply(&ErrorKind::Storage(StorageError::BlockNotFound)), ReplyErrorCode::Failed);
    assert_eq!(network_block_error_into_reply(&ErrorKind::Ledger("x".to_string())), ReplyErrorCode::FailedPrecondition);
    assert_eq!(network_block_error_into_reply(&ErrorKind::Block0("x".to_string())), ReplyErrorCode::Failed);
}

#[test]
fn leadership_block_updates_tip_and_propagates() {
    let (mut bc, mut tip) = node();
    let h1 = child(101, &Header::new(100, 0, 1));
    let actions = handle_input(&mut bc, &mut tip, Input::Input(BlockMsg::LeadershipBlock(Block::new(h1, vec![]), accept(3))));
    let r = Ref::new(h1, 3);
    assert_eq!(actions.len(), 2);
    assert!(matches!(actions[0], Action::Network(NetworkMsg::Propagate(h)) if h == h1));
    assert!(matches!(actions[1], Action::Explorer(x) if x == r));
    assert_eq!(tip.get_ref(), r);
}

#[test]
fn leadership_block_failure_is_reported() {
    let (mut bc, mut tip) = node();
    let orphan = Header::new(500, 499, 9);
    assert_eq!(
        process_leadership_block(&mut bc, Block::new(orphan, vec![]), accept(1)),
        Err(ErrorKind::MissingParentBlockFromStorage(orphan))
    );
    let actions = handle_input(&mut bc, &mut tip, Input::Input(BlockMsg::LeadershipBlock(Block::new(orphan, vec![]), accept(1))));
    assert!(matches!(actions[0], Action::LeadershipFailure(ErrorKind::MissingParentBlockFromStorage(h)) if h == orphan));
}

#[test]
fn end_of_epoch_schedules_next_epoch() {
    let (mut bc, mut tip) = node();
    let g = tip.get_ref();
    assert_eq!(handle_end_of_epoch(&tip, 4), NewEpochToSchedule { epoch: 4, tip: g });
    let actions = handle_input(&mut bc, &mut tip, Input::Input(BlockMsg::LeadershipExpectEndOfEpoch(4)));
    assert!(matches!(actions[0], Action::Schedule(s) if s == NewEpochToSchedule { epoch: 5, tip: g }));
    let last = handle_input(&mut bc, &mut tip, Input::Input(BlockMsg::LeadershipExpectEndOfEpoch(u32::MAX)));
    assert!(last.is_empty());
}

#[test]
fn shutdown_does_nothing() {
    let (mut bc, mut tip) = node();
    assert!(handle_input(&mut bc, &mut tip, Input::Shutdown).is_empty());
    assert_eq!(bc.blocks.len(), 1);
}

#[test]
fn announcement_requests() {
    let (bc, tip) = node();
    let h1 = child(101, &Header::new(100, 0, 1));
    assert!(matches!(process_block_announcement(&bc, &tip, h1, 7), Some(NetworkMsg::GetNextBlock(7, 101))));
    let far = Header::new(900, 899, 5);
    match process_block_announcement(&bc, &tip, far, 7) {
        Some(NetworkMsg::PullHeaders { node_id, from, to }) => {
            assert_eq!(node_id, 7);
            assert_eq!(from, vec![100]);
            assert_eq!(to, 900);
        }
        _ => panic!("expected a header pull"),
    }
    assert!(process_block_announcement(&bc, &tip, Header::new(100, 0, 1), 7).is_none());
}

#[test]
fn header_run_reduces_to_fetch_list() {
    let (bc, _) = node();
    let g = Header::new(100, 0, 1);
    let h1 = child(101, &g);
    let h2 = child(102, &h1);
    let h3 = child(103, &h2);
    let run = vec![g, h1, h2, h1, h3];
    assert_eq!(process_chain_headers_into_block_request(&bc, &run), Ok(vec![101, 102, 103]));
    let broken = vec![h1, h3];
    assert_eq!(
        process_chain_headers_into_block_request(&bc, &broken),
        Err(ErrorKind::MissingParentBlockFromStorage(h3))
    );
    assert_eq!(process_chain_headers_into_block_request(&bc, &vec![]), Ok(vec![]));
}

#[test]
fn header_run_through_processor() {
    let (mut bc, mut tip) = node();
    let g = Header::new(100, 0, 1);
    let h1 = child(101, &g);
    let r = handle_input(&mut bc, &mut tip, Input::Input(BlockMsg::ChainHeaders(vec![h1])));
    assert!(matches!(&r[0], Action::ReplyHeaders(Ok(v)) if *v == vec![101]));
    let orphan = Header::new(500, 499, 9);
    let r = handle_input(&mut bc, &mut tip, Input::Input(BlockMsg::ChainHeaders(vec![orphan])));
    assert!(matches!(&r[0], Action::ReplyHeaders(Err(ReplyErrorCode::FailedPrecondition))));
}

#[test]
fn subscription_ids_must_agree() {
    assert_eq!(subscription_node_id(4, 4), Some(4));
    assert_eq!(subscription_node_id(4, 5), None);
}

#[test]
fn two_nodes_catch_up_scenario() {
    // node1 builds a chain up to length 5.
    let (mut bc1, mut tip1) = node();
    let mut prev = Header::new(100, 0, 1);
    for i in 0..4u64 {
        let h = child(101 + i, &prev);
        handle_input(&mut bc1, &mut tip1, Input::Input(BlockMsg::LeadershipBlock(Block::new(h, vec![i]), accept(i))));
        prev = h;
    }
    let b = tip1.get_ref();
    assert_eq!(b.chain_length(), 5);
    // node2 has only genesis; it hears of B from node1.
    let (mut bc2, mut tip2) = node();
    let actions = handle_input(&mut bc2, &mut tip2, Input::Input(BlockMsg::AnnouncedBlock(b.header(), 1)));
    assert_eq!(actions.len(), 1);
    match &actions[0] {
        Action::Network(NetworkMsg::PullHeaders { node_id, from, to }) => {
            assert_eq!(*node_id, 1);
            assert_eq!(*from, bc2.get_checkpoints(&tip2));
            assert_eq!(*to, b.hash());
        }
        _ => panic!("expected a header pull"),
    }
    // node1 answers with the headers; node2 fetches the blocks in order.
    let headers: Vec<Header> = bc1.blocks.iter().map(|blk| blk.header()).collect();
    let reply = handle_input(&mut bc2, &mut tip2, Input::Input(BlockMsg::ChainHeaders(headers)));
    let wanted = match &reply[0] {
        Action::ReplyHeaders(Ok(v)) => v.clone(),
        _ => panic!("expected a fetch list"),
    };
    assert_eq!(wanted, vec![101, 102, 103, 104]);
    for hash in wanted {
        let blk = bc1.get_block(hash).unwrap().clone();
        let ledger = bc1.get_ref(hash).unwrap().ledger;
        if hash == b.hash() {
            assert!(matches!(bc2.pre_check_header(blk.header()), jormungandr::PreCheckedHeader::HeaderWithCache { .. }));
        }
        let actions = handle_input(&mut bc2, &mut tip2, Input::Input(BlockMsg::NetworkBlock(blk, accept(ledger))));
        assert!(matches!(actions.last(), Some(Action::Reply(Ok(())))));
    }
    assert_eq!(tip2.get_ref(), b);
}
