use ed25519_dalek::SigningKey;
use hotstuff_rs::application::ValidateBlockResponse;
use hotstuff_rs::block::Block;
use hotstuff_rs::block_tree::BlockTree;
use hotstuff_rs::hotstuff::implementation::{
    HotStuff, HotStuffConfiguration, ProposalStatus, ProposerAction, ReceiveOutcome,
};
use hotstuff_rs::hotstuff::messages::{HotStuffMessage, NewView, Nudge, PhaseVote};
use hotstuff_rs::hotstuff::roles::{is_proposer, is_validator, new_view_recipients, phase_vote_recipient, select_leader};
use hotstuff_rs::hotstuff::types::{Phase, QuorumCertificate, SignatureSet, VoteCollector};
use hotstuff_rs::validator_set::{ValidatorSet, ValidatorSetState};

fn secret(n: u8) -> [u8; 32] {
    [n; 32]
}

fn public(n: u8) -> [u8; 32] {
    SigningKey::from_bytes(&secret(n)).verifying_key().to_bytes()
}

/// Validators 1 to 4, each with power 1, in that order.
fn four_validators() -> ValidatorSet {
    let mut vs = ValidatorSet::new();
    for n in 1..=4u8 {
        vs.put(&public(n), 1);
    }
    vs
}

#[test]
fn phase_predicates() {
    assert!(Phase::Generic.is_generic());
    assert!(Phase::Prepare.is_prepare());
    assert!(Phase::Precommit.is_precommit());
    assert!(Phase::Commit.is_commit());
    assert!(Phase::Decide.is_decide());
    assert!(!Phase::Generic.is_decide());
    assert!(!Phase::Commit.is_precommit());
}

#[test]
fn phase_vote_signature_verifies_for_its_signer_only() {
    let vote = PhaseVote::new(&secret(1), 7, 3, [9u8; 32], Phase::Generic);
    assert_eq!(vote.chain_id, 7);
    assert_eq!(vote.view, 3);
    assert!(vote.is_correct(&public(1)));
    assert!(!vote.is_correct(&public(2)));
    let mut forged = vote.clone();
    forged.view = 4;
    assert!(!forged.is_correct(&public(1)));
}

#[test]
fn genesis_certificate_is_correct_and_block_justify() {
    let qc = QuorumCertificate::genesis_qc();
    assert!(qc.is_genesis_qc());
    assert!(qc.is_block_justify());
    assert!(!qc.is_nudge_justify());
    let bt = BlockTree::new(four_validators());
    assert!(qc.is_correct(&bt));
}

#[test]
fn nudge_new_keeps_fields() {
    let mut qc = QuorumCertificate::genesis_qc();
    qc.phase = Phase::Prepare;
    let nudge = Nudge::new(5, 6, qc);
    assert_eq!(nudge.chain_id, 5);
    assert_eq!(nudge.view, 6);
    assert!(nudge.justify.phase == Phase::Prepare);
}

#[test]
fn block_hash_depends_on_contents() {
    let genesis = QuorumCertificate::genesis_qc();
    let a = Block::new(1, genesis.clone(), [1u8; 32], vec![vec![1, 2, 3]]);
    let b = Block::new(1, genesis.clone(), [1u8; 32], vec![]);
    let c = Block::new(1, genesis.clone(), [2u8; 32], vec![]);
    let d = Block::new(2, genesis, [1u8; 32], vec![]);
    assert!(a.is_hash_correct());
    // The data is not hashed directly; the data hash stands for it.
    assert_eq!(a.hash, b.hash);
    assert_ne!(a.hash, c.hash);
    assert_ne!(a.hash, d.hash);
    let mut e = a.clone();
    e.height = 5;
    assert!(!e.is_hash_correct());
}

#[test]
fn vote_collector_forms_certificate_at_quorum() {
    let vs = four_validators();
    let mut collector = VoteCollector::new(1, 10, vs.clone());
    let block = [3u8; 32];
    let mut result = None;
    for n in 1..=3u8 {
        let vote = PhaseVote::new(&secret(n), 1, 10, block, Phase::Generic);
        let r = collector.collect(&public(n), 1, 10, &block, Phase::Generic, &vote.signature);
        if n < 3 {
            assert!(r.is_none());
        } else {
            result = r;
        }
    }
    let qc = result.expect("three of four votes are a quorum");
    assert_eq!(qc.view, 10);
    assert_eq!(qc.block, block);
    assert!(qc.phase == Phase::Generic);
    assert_eq!(qc.signatures.count_some(), 3);
    assert!(qc.is_correctly_signed(&vs));
    let mut tampered = qc.clone();
    tampered.view = 11;
    assert!(!tampered.is_correctly_signed(&vs));
}

#[test]
fn vote_collector_ignores_duplicates_strangers_and_other_views() {
    let vs = four_validators();
    let mut collector = VoteCollector::new(1, 10, vs);
    let block = [3u8; 32];
    let v1 = PhaseVote::new(&secret(1), 1, 10, block, Phase::Generic);
    assert!(collector.collect(&public(1), 1, 10, &block, Phase::Generic, &v1.signature).is_none());
    // The same signer again does not count twice.
    assert!(collector.collect(&public(1), 1, 10, &block, Phase::Generic, &v1.signature).is_none());
    // A non-member and a vote of another view change nothing.
    let v9 = PhaseVote::new(&secret(9), 1, 10, block, Phase::Generic);
    assert!(collector.collect(&public(9), 1, 10, &block, Phase::Generic, &v9.signature).is_none());
    let v2 = PhaseVote::new(&secret(2), 1, 11, block, Phase::Generic);
    assert!(collector.collect(&public(2), 1, 11, &block, Phase::Generic, &v2.signature).is_none());
    let v2 = PhaseVote::new(&secret(2), 1, 10, block, Phase::Generic);
    assert!(collector.collect(&public(2), 1, 10, &block, Phase::Generic, &v2.signature).is_none());
    let v3 = PhaseVote::new(&secret(3), 1, 10, block, Phase::Generic);
    assert!(collector.collect(&public(3), 1, 10, &block, Phase::Generic, &v3.signature).is_some());
}

#[test]
fn signature_set_counts_present_signatures() {
    let mut s = SignatureSet::new(3);
    assert_eq!(s.len(), 3);
    assert_eq!(s.count_some(), 0);
    s.set(1, Some([7u8; 64]));
    assert_eq!(s.count_some(), 1);
    assert_eq!(s.get(1), Some([7u8; 64]));
    assert_eq!(s.get(0), None);
}

#[test]
fn leaders_take_turns_in_set_order() {
    let vs = four_validators();
    assert_eq!(select_leader(0, &vs), public(1));
    assert_eq!(select_leader(1, &vs), public(2));
    assert_eq!(select_leader(5, &vs), public(2));
    assert_eq!(select_leader(7, &vs), public(4));
}

#[test]
fn roles_follow_the_validator_set_state() {
    let committed = four_validators();
    let mut previous = ValidatorSet::new();
    previous.put(&public(9), 1);
    let decided = ValidatorSetState::new(committed.clone(), previous.clone(), None, true);
    let undecided = ValidatorSetState::new(committed, previous, Some(3), false);
    assert!(is_validator(&public(1), &decided));
    assert!(!is_validator(&public(9), &decided));
    assert!(is_validator(&public(9), &undecided));
    assert!(is_proposer(&public(2), 1, &decided));
    assert!(!is_proposer(&public(9), 1, &decided));
    assert!(is_proposer(&public(9), 1, &undecided));
    let nv = NewView { chain_id: 1, view: 1, highest_pc: QuorumCertificate::genesis_qc() };
    let (to_committed, to_previous) = new_view_recipients(&nv, &decided);
    assert_eq!(to_committed, public(3));
    assert_eq!(to_previous, None);
    let (_, to_previous) = new_view_recipients(&nv, &undecided);
    assert_eq!(to_previous, Some(public(9)));
    let vote = PhaseVote::new(&secret(1), 1, 1, [0u8; 32], Phase::Generic);
    assert_eq!(phase_vote_recipient(&vote, &decided), public(3));
    assert_eq!(phase_vote_recipient(&vote, &undecided), public(9));
    let decide_vote = PhaseVote::new(&secret(1), 1, 1, [0u8; 32], Phase::Decide);
    assert_eq!(phase_vote_recipient(&decide_vote, &undecided), public(3));
}

#[test]
fn proposal_status_hears_each_leader_once() {
    let mut status = ProposalStatus::WaitingForProposal;
    assert!(!status.has_one_leader_proposed(&public(1)));
    status.record(&public(1));
    assert!(status.has_one_leader_proposed(&public(1)));
    assert!(!status.has_one_leader_proposed(&public(2)));
    assert!(!status.have_all_leaders_proposed());
    status.record(&public(2));
    assert!(status.have_all_leaders_proposed());
}

#[test]
fn leader_produces_block_and_replica_votes_for_it() {
    let chain_id = 1;
    // The leader of view 1 among validators 1..4 is validator 2.
    let mut leader_tree = BlockTree::new(four_validators());
    let mut leader = HotStuff::new(HotStuffConfiguration { chain_id, keypair: secret(2) }, 0, leader_tree.validator_set_state());
    assert!(leader.is_view_outdated(1));
    let outcome = leader.enter_view(1, &mut leader_tree).ok().expect("no block is missing");
    assert_eq!(leader.view(), 1);
    assert_eq!(leader_tree.highest_view_entered(), 1);
    assert_eq!(outcome.new_view.view, 0);
    assert_eq!(outcome.recipients.0, public(2));
    let (parent_block, child_height, justify) = match outcome.action {
        ProposerAction::ProduceBlock { parent_block, child_height, justify } => (parent_block, child_height, justify),
        _ => panic!("the leader of view 1 should produce a block"),
    };
    assert_eq!(parent_block, None);
    assert_eq!(child_height, 0);
    assert!(justify.is_genesis_qc());
    let proposal = leader.new_proposal(child_height, justify, [5u8; 32], vec![vec![1]]);
    assert_eq!(proposal.view, 1);
    assert!(proposal.block.is_hash_correct());

    let mut replica_tree = BlockTree::new(four_validators());
    let mut replica = HotStuff::new(HotStuffConfiguration { chain_id, keypair: secret(3) }, 1, replica_tree.validator_set_state());
    let block_hash = proposal.block.hash;
    let received = replica
        .on_receive_msg(HotStuffMessage::Proposal(proposal), &public(2), &mut replica_tree)
        .ok()
        .expect("no block is missing");
    let proposal = match received {
        ReceiveOutcome::ValidateBlock(p) => p,
        _ => panic!("a correct and safe proposal from the leader goes to the app"),
    };
    let processed = replica
        .on_validated_proposal(
            &proposal,
            &public(2),
            &mut replica_tree,
            ValidateBlockResponse::Valid { app_state_updates: None, validator_set_updates: None },
        )
        .ok()
        .expect("no block is missing");
    assert!(replica_tree.contains(&block_hash));
    assert_eq!(replica_tree.newest_block(), Some(block_hash));
    let (vote, recipient) = processed.vote.expect("validator 3 votes");
    assert!(vote.phase == Phase::Generic);
    assert_eq!(vote.block, block_hash);
    assert!(vote.is_correct(&public(3)));
    // The leader of view 2 is validator 3.
    assert_eq!(recipient, public(3));
    assert_eq!(replica_tree.highest_view_phase_voted(), Some(1));

    // The same leader is not heard twice in the view.
    let again = leader.new_proposal(0, QuorumCertificate::genesis_qc(), [6u8; 32], vec![]);
    let second = replica
        .on_receive_msg(HotStuffMessage::Proposal(again), &public(2), &mut replica_tree)
        .ok()
        .expect("no block is missing");
    assert!(matches!(second, ReceiveOutcome::Ignored));
}

#[test]
fn proposal_from_non_proposer_is_ignored() {
    let mut tree = BlockTree::new(four_validators());
    let mut replica = HotStuff::new(HotStuffConfiguration { chain_id: 1, keypair: secret(3) }, 1, tree.validator_set_state());
    let leader = HotStuff::new(HotStuffConfiguration { chain_id: 1, keypair: secret(1) }, 1, tree.validator_set_state());
    let proposal = leader.new_proposal(0, QuorumCertificate::genesis_qc(), [5u8; 32], vec![]);
    let r = replica
        .on_receive_msg(HotStuffMessage::Proposal(proposal), &public(1), &mut tree)
        .ok()
        .expect("no block is missing");
    assert!(matches!(r, ReceiveOutcome::Ignored));
}

#[test]
fn invalid_block_is_not_inserted_and_not_voted_for() {
    let mut tree = BlockTree::new(four_validators());
    let mut replica = HotStuff::new(HotStuffConfiguration { chain_id: 1, keypair: secret(3) }, 1, tree.validator_set_state());
    let leader = HotStuff::new(HotStuffConfiguration { chain_id: 1, keypair: secret(2) }, 1, tree.validator_set_state());
    let proposal = leader.new_proposal(0, QuorumCertificate::genesis_qc(), [5u8; 32], vec![]);
    let processed = replica
        .on_validated_proposal(&proposal, &public(2), &mut tree, ValidateBlockResponse::Invalid)
        .ok()
        .expect("nothing can be missing");
    assert!(processed.vote.is_none());
    assert!(processed.update.is_none());
    assert!(!tree.contains(&proposal.block.hash));
}

#[test]
fn phase_vote_with_bad_signature_is_not_collected() {
    let mut tree = BlockTree::new(four_validators());
    let mut replica = HotStuff::new(HotStuffConfiguration { chain_id: 1, keypair: secret(2) }, 1, tree.validator_set_state());
    let vote = PhaseVote::new(&secret(1), 1, 1, [4u8; 32], Phase::Generic);
    let processed = replica.on_receive_phase_vote(&vote, &public(2), &mut tree).ok().expect("nothing missing");
    assert!(processed.collected.is_none());
    assert!(processed.update.is_none());
}

#[test]
fn initial_view_follows_the_highest_view_with_progress() {
    assert_eq!(HotStuff::initial_view(0), 0);
    assert_eq!(HotStuff::initial_view(1), 2);
    assert_eq!(HotStuff::initial_view(41), 42);
}
