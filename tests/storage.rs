use jormungandr::{Block, Blockchain, Branch, ErrorKind, Header, HeaderError, Multiverse, PostCheckedHeader, PreCheckedHeader, Ref, StorageError};

fn genesis() -> Block {
    Block::new(Header::new(100, 0, 1), vec![])
}

fn child(hash: u64, parent: &Header) -> Header {
    Header::new(hash, parent.hash, parent.chain_length + 1)
}

#[test]
fn multiverse_insert_and_lookup() {
    let mut mv = Multiverse::new();
    let r = Ref::new(Header::new(7, 6, 3), 42);
    let root = mv.insert(r);
    assert_eq!(root.hash, 7);
    assert_eq!(root.chain_length, 3);
    assert_eq!(mv.lookup(3, 7), Some(r));
    assert_eq!(mv.lookup(4, 7), None);
    assert_eq!(mv.lookup(3, 8), None);
    assert_eq!(mv.get(7), Some(r));
}

#[test]
fn multiverse_second_insert_keeps_first_ref() {
    let mut mv = Multiverse::new();
    let first = Ref::new(Header::new(7, 6, 3), 1);
    let second = Ref::new(Header::new(7, 6, 3), 2);
    let _a = mv.insert(first);
    let _b = mv.insert(second);
    assert_eq!(mv.get(7), Some(first));
    assert_eq!(mv.entries.len(), 1);
    assert_eq!(mv.entries[0].roots, 2);
}

#[test]
fn multiverse_gc_keeps_rooted_lineage() {
    // a <- b <- c is rooted at c; a <- d is an unrooted fork.
    let mut mv = Multiverse::new();
    let a = Ref::new(Header::new(1, 0, 1), 0);
    let b = Ref::new(Header::new(2, 1, 2), 0);
    let c = Ref::new(Header::new(3, 2, 3), 0);
    let d = Ref::new(Header::new(4, 1, 2), 0);
    let ra = mv.insert(a);
    let rb = mv.insert(b);
    let _rc = mv.insert(c);
    let rd = mv.insert(d);
    mv.release(ra);
    mv.release(rb);
    mv.release(rd);
    mv.gc(&vec![]);
    assert_eq!(mv.lookup(1, 1), Some(a));
    assert_eq!(mv.lookup(2, 2), Some(b));
    assert_eq!(mv.lookup(3, 3), Some(c));
    assert_eq!(mv.lookup(2, 4), None);
    mv.gc(&vec![]);
    assert_eq!(mv.lookup(1, 1), Some(a));
    assert_eq!(mv.lookup(3, 3), Some(c));
}

#[test]
fn multiverse_gc_spares_tips() {
    let mut mv = Multiverse::new();
    let a = Ref::new(Header::new(1, 0, 1), 0);
    let ra = mv.insert(a);
    mv.release(ra);
    mv.gc(&vec![1]);
    assert_eq!(mv.get(1), Some(a));
    mv.gc(&vec![]);
    assert_eq!(mv.get(1), None);
}

#[test]
fn branch_tip_never_shortens() {
    let g = Ref::new(Header::new(1, 0, 1), 0);
    let long = Ref::new(Header::new(3, 2, 3), 0);
    let short = Ref::new(Header::new(9, 1, 2), 0);
    let fork = Ref::new(Header::new(4, 2, 3), 0);
    let mut branch = Branch::new(g);
    assert!(branch.update_ref(long));
    assert_eq!(branch.get_ref(), long);
    assert!(!branch.update_ref(short));
    assert_eq!(branch.get_ref(), long);
    assert!(branch.update_ref(fork));
    assert_eq!(branch.get_ref(), fork);
}

#[test]
fn pre_check_classifies_headers() {
    let g = genesis();
    let gh = g.header();
    let bc = Blockchain::new(g, 5);
    let genesis_ref = Ref::new(gh, 5);
    assert_eq!(
        bc.pre_check_header(gh),
        PreCheckedHeader::AlreadyPresent { header: gh, cached_reference: Some(genesis_ref) }
    );
    let h1 = child(101, &gh);
    assert_eq!(
        bc.pre_check_header(h1),
        PreCheckedHeader::HeaderWithCache { header: h1, parent_ref: genesis_ref }
    );
    let orphan = Header::new(300, 299, 7);
    assert_eq!(bc.pre_check_header(orphan), PreCheckedHeader::MissingParent { header: orphan });
}

#[test]
fn post_check_outcomes() {
    let g = genesis();
    let gh = g.header();
    let bc = Blockchain::new(g, 5);
    let parent = bc.get_ref(gh.hash).unwrap();
    let h1 = child(101, &gh);
    assert_eq!(
        bc.post_check_header(h1, parent, Ok(())),
        Ok(PostCheckedHeader { header: h1, parent_ref: parent })
    );
    assert_eq!(
        bc.post_check_header(h1, parent, Err("bad leader".to_string())),
        Err(ErrorKind::BlockHeaderVerificationFailed(HeaderError::RuleViolation("bad leader".to_string())))
    );
    let wrong_length = Header::new(101, gh.hash, 5);
    assert_eq!(
        bc.post_check_header(wrong_length, parent, Ok(())),
        Err(ErrorKind::BlockHeaderVerificationFailed(HeaderError::NotExtendingParent))
    );
    let wrong_parent = Header::new(101, 55, 2);
    assert_eq!(
        bc.post_check_header(wrong_parent, parent, Ok(())),
        Err(ErrorKind::BlockHeaderVerificationFailed(HeaderError::NotExtendingParent))
    );
}

#[test]
fn apply_stores_block_and_ref() {
    let g = genesis();
    let gh = g.header();
    let mut bc = Blockchain::new(g, 5);
    let parent = bc.get_ref(gh.hash).unwrap();
    let h1 = child(101, &gh);
    let checked = bc.post_check_header(h1, parent, Ok(())).unwrap();
    let r = bc.apply_and_store_block(checked, Block::new(h1, vec![11, 12]), Ok(6)).unwrap();
    assert_eq!(r, Ref::new(h1, 6));
    assert_eq!(r.chain_length(), 2);
    assert_eq!(bc.get_ref(101), Some(r));
    assert!(bc.contains_block(101));
    assert_eq!(bc.get_block(101).unwrap().contents, vec![11, 12]);
}

#[test]
fn apply_errors_leave_storage_unchanged() {
    let g = genesis();
    let gh = g.header();
    let mut bc = Blockchain::new(g, 5);
    let parent = bc.get_ref(gh.hash).unwrap();
    let h1 = child(101, &gh);
    let checked = bc.post_check_header(h1, parent, Ok(())).unwrap();
    assert_eq!(
        bc.apply_and_store_block(checked, Block::new(h1, vec![]), Err("overspent".to_string())),
        Err(ErrorKind::Ledger("overspent".to_string()))
    );
    assert!(!bc.contains_block(101));
    let other = child(102, &gh);
    assert_eq!(
        bc.apply_and_store_block(checked, Block::new(other, vec![]), Ok(6)),
        Err(ErrorKind::BlockHeaderVerificationFailed(HeaderError::BlockMismatch))
    );
    assert!(!bc.contains_block(102));
    bc.apply_and_store_block(checked, Block::new(h1, vec![]), Ok(6)).unwrap();
    assert_eq!(
        bc.apply_and_store_block(checked, Block::new(h1, vec![]), Ok(7)),
        Err(ErrorKind::Storage(StorageError::BlockAlreadyPresent))
    );
    assert_eq!(bc.get_ref(101), Some(Ref::new(h1, 6)));
}

#[test]
fn checkpoints_sample_ancestors() {
    let g = genesis();
    let mut prev = g.header();
    let mut bc = Blockchain::new(g, 0);
    let mut tip = bc.get_ref(prev.hash).unwrap();
    for i in 0..10u64 {
        let h = child(200 + i, &prev);
        let parent = bc.get_ref(prev.hash).unwrap();
        let checked = bc.post_check_header(h, parent, Ok(())).unwrap();
        tip = bc.apply_and_store_block(checked, Block::new(h, vec![]), Ok(i)).unwrap();
        prev = h;
    }
    // tip 209 at length 11; distances 1, 2, 4, 8 then the oldest, genesis.
    let cps = bc.get_checkpoints(&Branch::new(tip));
    assert_eq!(cps, vec![209, 208, 207, 205, 201, 100]);
    let short_chain = {
        let g = genesis();
        let mut prev = g.header();
        let mut bc = Blockchain::new(g, 0);
        let mut tip = bc.get_ref(prev.hash).unwrap();
        for i in 0..4u64 {
            let h = child(300 + i, &prev);
            let parent = bc.get_ref(prev.hash).unwrap();
            let checked = bc.post_check_header(h, parent, Ok(())).unwrap();
            tip = bc.apply_and_store_block(checked, Block::new(h, vec![]), Ok(i)).unwrap();
            prev = h;
        }
        bc.get_checkpoints(&Branch::new(tip))
    };
    // the oldest ancestor sits at distance 4 and is not repeated.
    assert_eq!(short_chain, vec![303, 302, 301, 100]);
    let alone = Blockchain::new(genesis(), 0);
    let g_ref = alone.get_ref(100).unwrap();
    assert_eq!(alone.get_checkpoints(&Branch::new(g_ref)), vec![100]);
}
