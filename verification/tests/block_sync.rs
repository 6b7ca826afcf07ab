use hotstuff_rs::application::ValidateBlockResponse;
use ed25519_dalek::SigningKey;
use hotstuff_rs::block::Block;
use hotstuff_rs::block_sync::client::{
    is_sync_server_address, BlockSyncClient, BlockSyncClientConfiguration, BlockSyncClientState, SyncStep,
};
use hotstuff_rs::block_sync::messages::{
    AdvertisePC, BlockSyncAdvertiseMessage, BlockSyncMessage, BlockSyncRequest, BlockSyncResponse,
};
use hotstuff_rs::block_sync::server::{BlockSyncServer, BlockSyncServerConfiguration};
use hotstuff_rs::block_tree::accessors::BlockTreeSnapshot;
use hotstuff_rs::block_tree::BlockTree;
use hotstuff_rs::hotstuff::types::{Phase, QuorumCertificate, SignatureSet};
use hotstuff_rs::validator_set::{ValidatorSet, ValidatorSetUpdates};

fn secret(n: u8) -> [u8; 32] {
    [n; 32]
}

fn public(n: u8) -> [u8; 32] {
    SigningKey::from_bytes(&secret(n)).verifying_key().to_bytes()
}

fn validators() -> ValidatorSet {
    let mut vs = ValidatorSet::new();
    vs.put(&public(1), 1);
    vs.put(&public(2), 1);
    vs
}

fn qc(block: [u8; 32], view: u64) -> QuorumCertificate {
    QuorumCertificate { chain_id: 1, view, block, phase: Phase::Generic, signatures: SignatureSet::new(2) }
}

fn config() -> BlockSyncClientConfiguration {
    BlockSyncClientConfiguration {
        chain_id: 1,
        request_limit: 10,
        blacklist_expiry_time: 100,
        block_sync_trigger_min_view_difference: 2,
        block_sync_trigger_timeout: 50,
    }
}

#[test]
fn advertise_block_is_signed_by_the_server() {
    let msg = BlockSyncAdvertiseMessage::advertise_block(&secret(1), 1, 42);
    assert_eq!(msg.chain_id(), 1);
    assert!(msg.size() > 0);
    match msg {
        BlockSyncAdvertiseMessage::AdvertiseBlock(a) => {
            assert_eq!(a.highest_committed_block_height, 42);
            assert!(a.is_correct(&public(1)));
            assert!(!a.is_correct(&public(2)));
        },
        _ => panic!("an AdvertiseBlock was made"),
    }
    let pc = BlockSyncAdvertiseMessage::advertise_pc(QuorumCertificate::genesis_qc());
    assert_eq!(pc.chain_id(), 0);
}

#[test]
fn sync_request_message_keeps_fields() {
    match BlockSyncMessage::block_sync_request(1, 5, 9) {
        BlockSyncMessage::BlockSyncRequest(r) => {
            assert_eq!((r.chain_id, r.start_height, r.limit), (1, 5, 9));
        },
        _ => panic!("a request was made"),
    }
}

#[test]
fn client_state_registers_and_blacklists() {
    let mut state = BlockSyncClientState::initialize(0);
    state.register_or_update_sync_server(public(1), 5);
    state.register_or_update_sync_server(public(2), 3);
    state.register_or_update_sync_server(public(1), 8);
    assert_eq!(state.random_sync_server(Some(6)), Some(public(1)));
    assert_eq!(state.random_sync_server(Some(9)), None);
    assert!(state.random_sync_server(None).is_some());
    state.blacklist_sync_server(public(1), 100, 10);
    assert!(state.blacklist_contains_server_address(&public(1)));
    assert_eq!(state.random_sync_server(Some(4)), None);
    assert_eq!(state.random_sync_server(None), Some(public(2)));
    // The blacklisting expires at 110.
    state.remove_expired_blacklisted_servers(109);
    assert!(state.blacklist_contains_server_address(&public(1)));
    state.remove_expired_blacklisted_servers(110);
    assert!(!state.blacklist_contains_server_address(&public(1)));
}

#[test]
fn sync_server_candidates_are_filtered_by_height() {
    let mut state = BlockSyncClientState::initialize(0);
    state.register_or_update_sync_server(public(1), 5);
    state.register_or_update_sync_server(public(2), 3);
    assert_eq!(state.sync_server_candidates(Some(4)), vec![public(1)]);
    // A server must promise a height above the replica's.
    assert_eq!(state.sync_server_candidates(Some(5)), Vec::<[u8; 32]>::new());
    assert_eq!(state.random_sync_server(Some(5)), None);
    assert_eq!(state.sync_server_candidates(None), vec![public(1), public(2)]);
}

#[test]
fn committed_validators_may_serve_blocks() {
    let mut bt = BlockTree::new(validators());
    assert!(is_sync_server_address(&public(1), &bt));
    assert!(!is_sync_server_address(&public(3), &bt));
    // A validator that a pending block adds may serve once something is committed.
    let b0 = Block::new(0, QuorumCertificate::genesis_qc(), [1u8; 32], vec![]);
    bt.insert(&b0, None, None);
    let mut c = QuorumCertificate::genesis_qc();
    c.chain_id = 1;
    c.view = 1;
    c.block = b0.hash;
    c.phase = Phase::Commit;
    let mut adds = ValidatorSetUpdates::new();
    adds.inserts.push((public(3), 1));
    let b1 = Block::new(1, c.clone(), [2u8; 32], vec![]);
    bt.insert(&b1, None, Some(&adds));
    assert!(!is_sync_server_address(&public(3), &bt));
    let _ = bt.update(&c).ok().expect("present");
    assert!(is_sync_server_address(&public(3), &bt));
}

#[test]
fn client_takes_correct_advertisements_only() {
    let bt = BlockTree::new(validators());
    let mut client = BlockSyncClient::new(config(), 0);
    let good = match BlockSyncAdvertiseMessage::advertise_block(&secret(1), 1, 4) {
        BlockSyncAdvertiseMessage::AdvertiseBlock(a) => a,
        _ => panic!("an AdvertiseBlock was made"),
    };
    client.on_receive_advertise_block(&good, &public(2), &bt);
    assert_eq!(client.state().random_sync_server(None), None);
    client.on_receive_advertise_block(&good, &public(1), &bt);
    assert_eq!(client.state().random_sync_server(None), Some(public(1)));
    let other_chain = match BlockSyncAdvertiseMessage::advertise_block(&secret(2), 2, 4) {
        BlockSyncAdvertiseMessage::AdvertiseBlock(a) => a,
        _ => panic!("an AdvertiseBlock was made"),
    };
    client.on_receive_advertise_block(&other_chain, &public(2), &bt);
    assert_eq!(client.state().sync_server_candidates(None), vec![public(1)]);
}

#[test]
fn advertised_certificate_triggers_sync_when_far_ahead() {
    let bt = BlockTree::new(validators());
    let client = BlockSyncClient::new(config(), 0);
    // The genesis certificate is correct, but not ahead of view 0 by 2.
    let near = AdvertisePC { highest_pc: QuorumCertificate::genesis_qc() };
    assert!(!client.on_receive_advertise_pc(&near, &public(1), &bt));
    // A certificate of view 5 without signatures is not correct.
    let far = AdvertisePC { highest_pc: qc([3u8; 32], 5) };
    assert!(!client.on_receive_advertise_pc(&far, &public(1), &bt));
}

#[test]
fn tick_triggers_sync_after_timeout_without_progress() {
    let bt = BlockTree::new(validators());
    let mut client = BlockSyncClient::new(config(), 100);
    assert!(!client.tick(&bt, 120));
    assert!(client.tick(&bt, 150));
    client.record_sync(150);
    assert!(!client.tick(&bt, 160));
}

#[test]
fn sync_request_starts_above_committed_height() {
    let bt = BlockTree::new(validators());
    let client = BlockSyncClient::new(config(), 0);
    let req: BlockSyncRequest = client.sync_request(&bt);
    assert_eq!((req.chain_id, req.start_height, req.limit), (1, 0, 10));
}

#[test]
fn new_blocks_skip_those_already_held() {
    let mut bt = BlockTree::new(validators());
    let b0 = Block::new(0, QuorumCertificate::genesis_qc(), [1u8; 32], vec![]);
    let b1 = Block::new(1, qc(b0.hash, 1), [2u8; 32], vec![]);
    bt.insert(&b0, None, None);
    let fresh = BlockSyncClient::new_blocks(vec![b0.clone(), b1.clone()], &bt);
    assert_eq!(fresh.len(), 1);
    assert_eq!(fresh[0].hash, b1.hash);
}

#[test]
fn bad_block_blacklists_the_server() {
    let bt = BlockTree::new(validators());
    let mut client = BlockSyncClient::new(config(), 0);
    let mut bad = Block::new(0, QuorumCertificate::genesis_qc(), [1u8; 32], vec![]);
    bad.hash = [0u8; 32];
    assert!(!client.check_sync_block(&public(1), &bad, &bt, 5));
    assert!(client.state().blacklist_contains_server_address(&public(1)));
    let good = Block::new(0, QuorumCertificate::genesis_qc(), [1u8; 32], vec![]);
    assert!(client.check_sync_block(&public(2), &good, &bt, 5));
}

#[test]
fn end_sync_blacklists_a_server_that_broke_its_promise() {
    let mut client = BlockSyncClient::new(config(), 0);
    let bt = BlockTree::new(validators());
    let ad = match BlockSyncAdvertiseMessage::advertise_block(&secret(1), 1, 4) {
        BlockSyncAdvertiseMessage::AdvertiseBlock(a) => a,
        _ => panic!("an AdvertiseBlock was made"),
    };
    client.on_receive_advertise_block(&ad, &public(1), &bt);
    let session = client.start_sync(&public(1), &bt);
    assert_eq!(session.peer(), public(1));
    assert_eq!(session.init(), 0);
    assert_eq!(session.blocks_synced(), 0);
    // Four blocks were promised and none came.
    client.end_sync(&session, 10);
    assert!(client.state().blacklist_contains_server_address(&public(1)));
}

#[test]
fn sync_session_counts_the_blocks_inserted() {
    let mut client = BlockSyncClient::new(config(), 0);
    let mut bt = BlockTree::new(validators());
    let ad = match BlockSyncAdvertiseMessage::advertise_block(&secret(1), 1, 1) {
        BlockSyncAdvertiseMessage::AdvertiseBlock(a) => a,
        _ => panic!("an AdvertiseBlock was made"),
    };
    client.on_receive_advertise_block(&ad, &public(1), &bt);
    let mut session = client.start_sync(&public(1), &bt);
    let b0 = Block::new(0, QuorumCertificate::genesis_qc(), [1u8; 32], vec![]);
    assert!(client.check_sync_block(&public(1), &b0, &bt, 5));
    let valid = ValidateBlockResponse::Valid { app_state_updates: None, validator_set_updates: None };
    let synced = client
        .on_validated_sync_block(&mut session, &b0, &QuorumCertificate::genesis_qc(), &mut bt, valid, 5)
        .ok()
        .expect("every block the update needs is in the tree");
    assert!(synced.is_some());
    assert!(bt.contains(&b0.hash));
    assert_eq!(session.blocks_synced(), 1);
    // The one block promised came.
    client.end_sync(&session, 10);
    assert!(!client.state().blacklist_contains_server_address(&public(1)));
    // An invalid block is not counted, and its server is blacklisted.
    let b1 = Block::new(1, qc(b0.hash, 1), [2u8; 32], vec![]);
    let none = client
        .on_validated_sync_block(&mut session, &b1, &QuorumCertificate::genesis_qc(), &mut bt, ValidateBlockResponse::Invalid, 5)
        .ok()
        .expect("an invalid block gives no error");
    assert!(none.is_none());
    assert_eq!(session.blocks_synced(), 1);
    assert!(!bt.contains(&b1.hash));
    assert!(client.state().blacklist_contains_server_address(&public(1)));
}

#[test]
fn sync_response_gives_the_new_blocks_or_ends_the_session() {
    let mut client = BlockSyncClient::new(config(), 0);
    let mut bt = BlockTree::new(validators());
    let ad = match BlockSyncAdvertiseMessage::advertise_block(&secret(1), 1, 1) {
        BlockSyncAdvertiseMessage::AdvertiseBlock(a) => a,
        _ => panic!("an AdvertiseBlock was made"),
    };
    client.on_receive_advertise_block(&ad, &public(1), &bt);
    let session = client.start_sync(&public(1), &bt);
    let b0 = Block::new(0, QuorumCertificate::genesis_qc(), [1u8; 32], vec![]);
    let b1 = Block::new(1, qc(b0.hash, 1), [2u8; 32], vec![]);
    bt.insert(&b0, None, None);
    // The blocks from the first one that the tree lacks come back, with the certificate.
    let response = BlockSyncResponse { blocks: vec![b0.clone(), b1.clone()], highest_pc: qc(b1.hash, 2) };
    match client.on_sync_response(&session, Some(response), &bt, 5) {
        SyncStep::Insert { blocks, highest_pc } => {
            assert_eq!(blocks.len(), 1);
            assert_eq!(blocks[0].hash, b1.hash);
            assert_eq!(highest_pc.block, b1.hash);
            assert_eq!(highest_pc.view, 2);
        },
        SyncStep::End => panic!("the response has a new block"),
    }
    assert!(!client.state().blacklist_contains_server_address(&public(1)));
    // A response of known blocks ends the session; one block was promised and none inserted.
    let known = BlockSyncResponse { blocks: vec![b0.clone()], highest_pc: QuorumCertificate::genesis_qc() };
    assert!(matches!(client.on_sync_response(&session, Some(known), &bt, 5), SyncStep::End));
    assert!(client.state().blacklist_contains_server_address(&public(1)));
}

#[test]
fn sync_without_an_answer_ends_and_spares_a_server_that_kept_its_promise() {
    let mut client = BlockSyncClient::new(config(), 0);
    let bt = BlockTree::new(validators());
    let ad = match BlockSyncAdvertiseMessage::advertise_block(&secret(1), 1, 0) {
        BlockSyncAdvertiseMessage::AdvertiseBlock(a) => a,
        _ => panic!("an AdvertiseBlock was made"),
    };
    client.on_receive_advertise_block(&ad, &public(1), &bt);
    let session = client.start_sync(&public(1), &bt);
    assert!(matches!(client.on_sync_response(&session, None, &bt, 5), SyncStep::End));
    assert!(!client.state().blacklist_contains_server_address(&public(1)));
}

#[test]
fn server_answers_requests_of_its_chain() {
    let mut bt = BlockTree::new(validators());
    let b0 = Block::new(0, QuorumCertificate::genesis_qc(), [1u8; 32], vec![]);
    let b1 = Block::new(1, qc(b0.hash, 1), [2u8; 32], vec![]);
    bt.insert(&b0, None, None);
    bt.insert(&b1, None, None);
    let server = BlockSyncServer::new(
        BlockSyncServerConfiguration { chain_id: 1, keypair: secret(1), request_limit: 10, advertise_time: 10 },
        0,
    );
    let snapshot = BlockTreeSnapshot::new(&bt);
    assert_eq!(server.server_chain_id(), 1);
    let resp = server
        .handle_request(&BlockSyncRequest { chain_id: 1, start_height: 0, limit: 5 }, &snapshot)
        .expect("same chain");
    let hashes: Vec<[u8; 32]> = resp.blocks.iter().map(|b| b.hash).collect();
    assert_eq!(hashes, vec![b0.hash, b1.hash]);
    // The request's limit caps the answer.
    let one = server
        .handle_request(&BlockSyncRequest { chain_id: 1, start_height: 0, limit: 1 }, &snapshot)
        .expect("same chain");
    assert_eq!(one.blocks.len(), 1);
    // So does the server's own.
    let small = BlockSyncServer::new(
        BlockSyncServerConfiguration { chain_id: 1, keypair: secret(1), request_limit: 1, advertise_time: 10 },
        0,
    );
    let capped = small
        .handle_request(&BlockSyncRequest { chain_id: 1, start_height: 0, limit: 5 }, &snapshot)
        .expect("same chain");
    let hashes: Vec<[u8; 32]> = capped.blocks.iter().map(|b| b.hash).collect();
    assert_eq!(hashes, vec![b0.hash]);
    assert!(server.handle_request(&BlockSyncRequest { chain_id: 2, start_height: 0, limit: 5 }, &snapshot).is_none());
}

#[test]
fn server_advertises_on_schedule() {
    let bt = BlockTree::new(validators());
    let snapshot = BlockTreeSnapshot::new(&bt);
    let mut server = BlockSyncServer::new(
        BlockSyncServerConfiguration { chain_id: 1, keypair: secret(1), request_limit: 1, advertise_time: 10 },
        0,
    );
    assert!(server.advertise(5, &snapshot).is_none());
    let (pc, block) = server.advertise(10, &snapshot).expect("due");
    assert!(matches!(pc, BlockSyncAdvertiseMessage::AdvertisePC(_)));
    match block {
        BlockSyncAdvertiseMessage::AdvertiseBlock(a) => {
            assert_eq!(a.highest_committed_block_height, 0);
            assert!(a.is_correct(&public(1)));
        },
        _ => panic!("an AdvertiseBlock comes second"),
    }
    assert!(server.advertise(15, &snapshot).is_none());
}

#[test]
fn server_gives_no_answer_when_the_speculative_chain_lacks_a_block() {
    let mut bt = BlockTree::new(validators());
    let b0 = Block::new(0, QuorumCertificate::genesis_qc(), [1u8; 32], vec![]);
    bt.insert(&b0, None, None);
    // The parent of the newest block b1 was never inserted.
    let b1 = Block::new(1, qc([9u8; 32], 1), [2u8; 32], vec![]);
    bt.insert(&b1, None, None);
    let server = BlockSyncServer::new(
        BlockSyncServerConfiguration { chain_id: 1, keypair: secret(1), request_limit: 1, advertise_time: 10 },
        0,
    );
    let snapshot = BlockTreeSnapshot::new(&bt);
    assert!(server.handle_request(&BlockSyncRequest { chain_id: 1, start_height: 0, limit: 5 }, &snapshot).is_none());
    assert!(snapshot.blocks_from_newest_to_committed().is_err());
}
