use hotstuff_rs::block::Block;
use hotstuff_rs::block_tree::accessors::{BlockTreeCamera, BlockTreeSnapshot};
use hotstuff_rs::block_tree::invariants::{pc_to_lock, safe_block, safe_pc};
use hotstuff_rs::block_tree::BlockTree;
use hotstuff_rs::hotstuff::types::{Phase, QuorumCertificate, SignatureSet};
use hotstuff_rs::update_sets::AppStateUpdates;
use hotstuff_rs::validator_set::{ValidatorSet, ValidatorSetUpdates};

fn validators() -> ValidatorSet {
    let mut vs = ValidatorSet::new();
    vs.put(&[1u8; 32], 1);
    vs
}

/// A certificate for `block` in `view` and `phase` (its signatures are not checked here).
fn qc(block: [u8; 32], view: u64, phase: Phase) -> QuorumCertificate {
    QuorumCertificate { chain_id: 1, view, block, phase, signatures: SignatureSet::new(1) }
}

fn sets(key: &[u8], value: &[u8]) -> AppStateUpdates {
    let mut u = AppStateUpdates::new();
    u.inserts.push((key.to_vec(), value.to_vec()));
    u
}

/// Blocks b0 <- b1 <- b2 with certificates of consecutive views 1 and 2; b0 sets "k" to "v0"
/// and b1 sets it to "v1".
fn chain_of_three(bt: &mut BlockTree) -> (Block, Block, Block) {
    let b0 = Block::new(0, QuorumCertificate::genesis_qc(), [10u8; 32], vec![]);
    bt.insert(&b0, Some(&sets(b"k", b"v0")), None);
    let b1 = Block::new(1, qc(b0.hash, 1, Phase::Generic), [11u8; 32], vec![]);
    bt.insert(&b1, Some(&sets(b"k", b"v1")), None);
    let b2 = Block::new(2, qc(b1.hash, 2, Phase::Generic), [12u8; 32], vec![b"x".to_vec()]);
    bt.insert(&b2, None, None);
    (b0, b1, b2)
}

#[test]
fn new_tree_is_empty_at_genesis() {
    let bt = BlockTree::new(validators());
    assert!(bt.highest_pc().is_genesis_qc());
    assert!(bt.locked_pc().is_genesis_qc());
    assert_eq!(bt.highest_committed_block(), None);
    assert_eq!(bt.newest_block(), None);
    assert_eq!(bt.highest_view_entered(), 0);
    assert_eq!(bt.highest_view_phase_voted(), None);
    assert!(bt.committed_validator_set().contains(&[1u8; 32]));
}

#[test]
fn insert_records_block_and_children() {
    let mut bt = BlockTree::new(validators());
    let (b0, b1, b2) = chain_of_three(&mut bt);
    assert!(bt.contains(&b0.hash) && bt.contains(&b1.hash) && bt.contains(&b2.hash));
    assert_eq!(bt.newest_block(), Some(b2.hash));
    assert_eq!(bt.block_height(&b2.hash), Some(2));
    assert_eq!(bt.children(&b0.hash), vec![b1.hash]);
    assert_eq!(bt.block_data_len(&b2.hash), Some(1));
    assert_eq!(bt.block_datum(&b2.hash, 0), Some(b"x".to_vec()));
    assert_eq!(bt.block_datum(&b2.hash, 1), None);
    assert_eq!(bt.block_data_hash(&b1.hash), Some([11u8; 32]));
}

#[test]
fn three_consecutive_views_commit_the_great_grandparent() {
    let mut bt = BlockTree::new(validators());
    let (b0, b1, b2) = chain_of_three(&mut bt);
    let justify = qc(b2.hash, 3, Phase::Generic);
    let outcome = bt.update(&justify).ok().expect("every block is in the tree");
    assert_eq!(bt.highest_committed_block(), Some(b0.hash));
    assert_eq!(bt.highest_committed_block_height(), Some(0));
    assert_eq!(bt.block_at_height(0), Some(b0.hash));
    assert_eq!(bt.committed_app_state(b"k"), Some(b"v0".to_vec()));
    assert_eq!(bt.highest_pc().view, 3);
    // A Generic certificate locks on its block's justify.
    assert_eq!(bt.locked_pc().block, b1.hash);
    assert_eq!(outcome.committed_blocks.len(), 1);
    assert_eq!(outcome.committed_blocks[0].0, b0.hash);
    assert!(outcome.highest_pc.is_some());
    assert!(outcome.locked_pc.is_some());
    assert!(outcome.resulting_validator_set_updates().is_none());
}

#[test]
fn non_consecutive_views_do_not_commit() {
    let mut bt = BlockTree::new(validators());
    let (_, _, b2) = chain_of_three(&mut bt);
    let justify = qc(b2.hash, 5, Phase::Generic);
    let _ = bt.update(&justify).ok().expect("every block is in the tree");
    assert_eq!(bt.highest_committed_block(), None);
    assert_eq!(bt.highest_pc().view, 5);
}

#[test]
fn update_with_missing_block_fails_and_changes_nothing() {
    let mut bt = BlockTree::new(validators());
    let justify = qc([99u8; 32], 4, Phase::Generic);
    assert!(bt.update(&justify).is_err());
    assert!(bt.highest_pc().is_genesis_qc());
}

#[test]
fn lower_certificate_does_not_lower_highest() {
    let mut bt = BlockTree::new(validators());
    let (_, b1, b2) = chain_of_three(&mut bt);
    let _ = bt.update(&qc(b2.hash, 3, Phase::Generic)).ok().expect("present");
    let _ = bt.update(&qc(b1.hash, 2, Phase::Generic)).ok().expect("present");
    assert_eq!(bt.highest_pc().view, 3);
}

#[test]
fn app_view_sees_pending_updates_of_the_branch() {
    let mut bt = BlockTree::new(validators());
    let (b0, b1, b2) = chain_of_three(&mut bt);
    let _ = bt.update(&qc(b2.hash, 3, Phase::Generic)).ok().expect("present");
    // b0 is committed with k = v0; b1 (pending) sets k = v1.
    let view = bt.app_view(Some(&b2.hash)).ok().expect("present");
    assert_eq!(view.app_state(b"k"), Some(b"v1".to_vec()));
    assert_eq!(view.app_state(b"other"), None);
    let from_b0 = bt.app_view(Some(&b0.hash)).ok().expect("present");
    assert_eq!(from_b0.app_state(b"k"), Some(b"v0".to_vec()));
    let from_genesis = bt.app_view(None).ok().expect("nothing to find");
    assert_eq!(from_genesis.app_state(b"k"), Some(b"v0".to_vec()));
    assert_eq!(view.block_height(&b1.hash), Some(1));
}

#[test]
fn app_view_sees_deletes_before_commit() {
    let mut bt = BlockTree::new(validators());
    let (b0, b1, b2) = chain_of_three(&mut bt);
    let _ = bt.update(&qc(b2.hash, 3, Phase::Generic)).ok().expect("present");
    let mut del = AppStateUpdates::new();
    del.deletes.push(b"k".to_vec());
    let b3 = Block::new(3, qc(b2.hash, 3, Phase::Generic), [13u8; 32], vec![]);
    bt.insert(&b3, Some(&del), None);
    let view = bt.app_view(Some(&b3.hash)).ok().expect("present");
    assert_eq!(view.app_state(b"k"), None);
    assert_eq!(bt.committed_app_state(b"k"), Some(b"v0".to_vec()));
    let _ = (b0, b1);
}

#[test]
fn safety_rules_on_certificates() {
    let mut bt = BlockTree::new(validators());
    let (b0, _, b2) = chain_of_three(&mut bt);
    assert!(safe_pc(&qc(b2.hash, 3, Phase::Generic), &bt, 1));
    // Another chain's certificate is not safe.
    let mut other = qc(b2.hash, 3, Phase::Generic);
    other.chain_id = 2;
    assert!(!safe_pc(&other, &bt, 1));
    // A Prepare certificate needs a block that updates the validator set.
    assert!(!safe_pc(&qc(b2.hash, 3, Phase::Prepare), &bt, 1));
    let child = Block::new(3, qc(b2.hash, 3, Phase::Generic), [1u8; 32], vec![]);
    assert!(safe_block(&child, &bt, 1));
    let lock = pc_to_lock(&qc(b0.hash, 1, Phase::Precommit), &bt).ok().expect("present");
    assert!(lock.is_some());
}

#[test]
fn validator_set_updates_are_pending_until_commit() {
    let mut bt = BlockTree::new(validators());
    let mut updates = ValidatorSetUpdates::new();
    updates.inserts.push(([2u8; 32], 1));
    let b0 = Block::new(0, QuorumCertificate::genesis_qc(), [10u8; 32], vec![]);
    bt.insert(&b0, None, Some(&updates));
    assert!(bt.validator_set_updates_status(&b0.hash).is_pending());
    let _ = bt.update(&qc(b0.hash, 1, Phase::Commit)).ok().expect("present");
    assert_eq!(bt.highest_committed_block(), Some(b0.hash));
    assert!(bt.committed_validator_set().contains(&[2u8; 32]));
    assert!(!bt.validator_set_updates_status(&b0.hash).is_pending());
    assert!(!bt.validator_set_state().update_decided());
    let _ = bt.update(&qc(b0.hash, 2, Phase::Decide)).ok().expect("present");
    assert!(bt.validator_set_state().update_decided());
}

#[test]
fn snapshot_serves_committed_then_speculative_blocks() {
    let mut bt = BlockTree::new(validators());
    let (b0, b1, b2) = chain_of_three(&mut bt);
    let _ = bt.update(&qc(b2.hash, 3, Phase::Generic)).ok().expect("present");
    let camera = BlockTreeCamera::new(&bt);
    let snapshot: BlockTreeSnapshot = camera.snapshot();
    assert!(snapshot.blocks_from_height_to_newest(0, 0).ok().expect("present").is_empty());
    let all = snapshot.blocks_from_height_to_newest(0, 10).ok().expect("present");
    let hashes: Vec<[u8; 32]> = all.iter().map(|b| b.hash).collect();
    assert_eq!(hashes, vec![b0.hash, b1.hash, b2.hash]);
    let two = snapshot.blocks_from_height_to_newest(0, 2).ok().expect("present");
    assert_eq!(two.len(), 2);
    let from_one = snapshot.blocks_from_height_to_newest(1, 10).ok().expect("present");
    let hashes: Vec<[u8; 32]> = from_one.iter().map(|b| b.hash).collect();
    assert_eq!(hashes, vec![b1.hash, b2.hash]);
    let speculative = snapshot.blocks_from_newest_to_committed().ok().expect("present");
    let hashes: Vec<[u8; 32]> = speculative.iter().map(|b| b.hash).collect();
    assert_eq!(hashes, vec![b2.hash, b1.hash]);
    assert_eq!(snapshot.highest_committed_block_height(), Some(0));
}

#[test]
fn concat_joins_slices() {
    assert_eq!(hotstuff_rs::block_tree::variables::concat(&[1, 2], &[3]), vec![1, 2, 3]);
    assert_eq!(hotstuff_rs::block_tree::variables::concat(&[], &[]), Vec::<u8>::new());
    assert_eq!(hotstuff_rs::block_tree::variables::concat(&[4], &[]), vec![4]);
}

#[test]
fn snapshot_getters_read_the_tree() {
    let mut bt = BlockTree::new(validators());
    let (b0, b1, b2) = chain_of_three(&mut bt);
    let _ = bt.update(&qc(b2.hash, 3, Phase::Generic)).ok().expect("present");
    bt.set_highest_view_entered(4);
    bt.set_highest_view_phase_voted(3);
    let snapshot = BlockTreeSnapshot::new(&bt);
    assert!(snapshot.contains(&b1.hash));
    assert!(!snapshot.contains(&[99u8; 32]));
    assert_eq!(snapshot.block_height(&b2.hash), Some(2));
    assert_eq!(snapshot.block_justify(&b2.hash).ok().map(|j| j.block), Some(b1.hash));
    assert!(snapshot.block_justify(&[99u8; 32]).is_err());
    assert_eq!(snapshot.block_data_hash(&b0.hash), Some([10u8; 32]));
    assert_eq!(snapshot.block_data_len(&b2.hash), Some(1));
    assert_eq!(snapshot.block_data(&b2.hash), Some(vec![b"x".to_vec()]));
    assert_eq!(snapshot.block_datum(&b2.hash, 0), Some(b"x".to_vec()));
    assert_eq!(snapshot.block_at_height(0), Some(b0.hash));
    assert_eq!(snapshot.block_at_height(1), None);
    assert_eq!(snapshot.children(&b1.hash), vec![b2.hash]);
    assert_eq!(snapshot.committed_app_state(b"k"), Some(b"v0".to_vec()));
    assert!(snapshot.pending_app_state_updates(&b1.hash).is_some());
    assert!(snapshot.pending_app_state_updates(&b0.hash).is_none());
    assert!(snapshot.committed_validator_set().contains(&[1u8; 32]));
    assert!(snapshot.previous_validator_set().contains(&[1u8; 32]));
    assert!(!snapshot.validator_set_updates_status(&b0.hash).contains_updates());
    assert_eq!(snapshot.validator_set_update_block_height(), None);
    assert_eq!(snapshot.highest_view_entered(), 4);
    assert_eq!(snapshot.highest_view_voted(), Some(3));
    assert_eq!(snapshot.get_block_datum_by_hash(&b2.hash, 0).ok(), Some(Some(b"x".to_vec())));
    assert!(snapshot.get_block_datum_by_hash(&[99u8; 32], 0).is_err());
}

#[test]
fn snapshot_reports_validator_set_update_progress() {
    let mut bt = BlockTree::new(validators());
    let mut updates = ValidatorSetUpdates::new();
    updates.inserts.push(([2u8; 32], 1));
    let b0 = Block::new(0, QuorumCertificate::genesis_qc(), [10u8; 32], vec![]);
    bt.insert(&b0, None, Some(&updates));
    let _ = bt.update(&qc(b0.hash, 1, Phase::Commit)).ok().expect("present");
    {
        let snapshot = BlockTreeSnapshot::new(&bt);
        assert_eq!(snapshot.validator_set_update_block_height(), Some(0));
        assert!(!snapshot.validator_set_update_complete());
        assert!(snapshot.committed_validator_set().contains(&[2u8; 32]));
        assert!(!snapshot.previous_validator_set().contains(&[2u8; 32]));
        assert!(!snapshot.validator_set_state().update_decided());
    }
    let _ = bt.update(&qc(b0.hash, 2, Phase::Decide)).ok().expect("present");
    let snapshot = BlockTreeSnapshot::new(&bt);
    assert!(snapshot.validator_set_update_complete());
}

#[test]
fn committed_child_of_committed_block() {
    let mut bt = BlockTree::new(validators());
    let (b0, b1, b2) = chain_of_three(&mut bt);
    let b3 = Block::new(3, qc(b2.hash, 3, Phase::Generic), [13u8; 32], vec![]);
    bt.insert(&b3, None, None);
    let _ = bt.update(&qc(b3.hash, 4, Phase::Generic)).ok().expect("present");
    let snapshot = BlockTreeSnapshot::new(&bt);
    assert_eq!(snapshot.highest_committed_block_height(), Some(1));
    let child = snapshot.get_committed_block_child(&b0.hash).ok().expect("b0 is below the highest committed block");
    assert_eq!(child.map(|b| b.hash), Some(b1.hash));
    assert!(snapshot.get_committed_block_child(&b1.hash).is_err());
    assert!(snapshot.get_committed_block_child(&[99u8; 32]).is_err());
}

#[test]
fn child_of_updating_block_needs_decide_certificate() {
    let mut bt = BlockTree::new(validators());
    let mut updates = ValidatorSetUpdates::new();
    updates.inserts.push(([2u8; 32], 1));
    let b0 = Block::new(0, QuorumCertificate::genesis_qc(), [10u8; 32], vec![]);
    bt.insert(&b0, None, Some(&updates));
    let under_generic = Block::new(1, qc(b0.hash, 1, Phase::Generic), [11u8; 32], vec![]);
    assert!(!safe_block(&under_generic, &bt, 1));
    let under_decide = Block::new(1, qc(b0.hash, 1, Phase::Decide), [11u8; 32], vec![]);
    assert!(safe_block(&under_decide, &bt, 1));
}

#[test]
fn decide_certificate_commits_its_block_and_ancestors() {
    let mut bt = BlockTree::new(validators());
    let b0 = Block::new(0, QuorumCertificate::genesis_qc(), [10u8; 32], vec![]);
    bt.insert(&b0, Some(&sets(b"k", b"v0")), None);
    let b1 = Block::new(1, qc(b0.hash, 1, Phase::Generic), [11u8; 32], vec![]);
    bt.insert(&b1, Some(&sets(b"k", b"v1")), None);
    let outcome = bt.update(&qc(b1.hash, 2, Phase::Decide)).ok().expect("present");
    assert_eq!(bt.highest_committed_block(), Some(b1.hash));
    assert_eq!(bt.highest_committed_block_height(), Some(1));
    assert_eq!(outcome.committed_blocks.len(), 2);
    assert_eq!(outcome.committed_blocks[0].0, b0.hash);
    assert_eq!(outcome.committed_blocks[1].0, b1.hash);
    assert_eq!(bt.committed_app_state(b"k"), Some(b"v1".to_vec()));
    // Seeing it again commits nothing more.
    let again = bt.update(&qc(b1.hash, 3, Phase::Decide)).ok().expect("present");
    assert_eq!(again.committed_blocks.len(), 0);
    assert_eq!(bt.highest_committed_block_height(), Some(1));
}

#[test]
fn update_fails_when_an_ancestor_to_commit_is_missing() {
    let mut bt = BlockTree::new(validators());
    // b1's parent was never inserted; a Decide certificate for b1 would commit it too.
    let b1 = Block::new(1, qc([9u8; 32], 1, Phase::Generic), [11u8; 32], vec![]);
    bt.insert(&b1, None, None);
    assert!(bt.uncommitted_chain(&b1.hash).is_err());
    assert!(bt.update(&qc(b1.hash, 2, Phase::Decide)).is_err());
    assert_eq!(bt.highest_committed_block(), None);
}
