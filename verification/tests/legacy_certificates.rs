use ed25519_dalek::{Signature, SigningKey, Verifier, VerifyingKey};
use hotstuff_rs::msg_types::{ConsensusMsg, QCAggregatorInsertError, QuorumCertificate, QuorumCertificateAggregator, SignatureSet};

fn secret(n: u8) -> [u8; 32] {
    [n; 32]
}

fn public(n: u8) -> [u8; 32] {
    SigningKey::from_bytes(&secret(n)).verifying_key().to_bytes()
}

fn participants() -> Vec<[u8; 32]> {
    let mut keys: Vec<[u8; 32]> = (1..=4u8).map(public).collect();
    keys.sort();
    keys
}

fn vote_signature(n: u8, view: u64, hash: [u8; 32]) -> [u8; 64] {
    match ConsensusMsg::new_vote(view, hash, &secret(n)) {
        ConsensusMsg::Vote(_, _, s) => s,
    }
}

#[test]
fn new_vote_signs_view_and_hash() {
    let hash = [7u8; 32];
    let sig = vote_signature(1, 3, hash);
    let mut msg = 3u64.to_le_bytes().to_vec();
    msg.extend_from_slice(&hash);
    let key = VerifyingKey::from_bytes(&public(1)).expect("valid key");
    assert!(key.verify(&msg, &Signature::from_bytes(&sig)).is_ok());
}

#[test]
fn signature_set_rejects_second_signature_in_slot() {
    let mut s = SignatureSet::new(3);
    assert!(s.insert(1, [1u8; 64]).is_ok());
    assert!(s.insert(1, [2u8; 64]).is_err());
    assert!(s.contains(1));
    assert!(!s.contains(0));
    assert_eq!(s.count_some(), 1);
    assert_eq!(s.len(), 3);
}

#[test]
fn quorum_size_is_more_than_two_thirds() {
    assert_eq!(QuorumCertificate::quorum_size(4), 3);
    assert_eq!(QuorumCertificate::quorum_size(3), 3);
    assert_eq!(QuorumCertificate::quorum_size(7), 5);
    assert_eq!(QuorumCertificate::quorum_size(0), 1);
}

#[test]
fn genesis_certificate_is_valid() {
    let keys = participants();
    let genesis = QuorumCertificate::genesis_qc(keys.len());
    assert!(genesis.is_valid(&keys));
}

#[test]
fn aggregator_reports_quorum_and_errors() {
    let keys = participants();
    let hash = [9u8; 32];
    let mut agg = QuorumCertificateAggregator::new(2, hash, keys.clone());
    assert!(matches!(agg.insert(vote_signature(1, 2, hash), public(9)), Err(QCAggregatorInsertError::PublicAddrNotInParticipantSet)));
    assert!(matches!(agg.insert(vote_signature(1, 2, hash), public(1)), Ok(false)));
    assert!(matches!(
        agg.insert(vote_signature(1, 2, hash), public(1)),
        Err(QCAggregatorInsertError::PublicAddrAlreadyProvidedSignature)
    ));
    assert!(matches!(agg.insert(vote_signature(2, 2, hash), public(2)), Ok(false)));
    assert!(matches!(agg.insert(vote_signature(3, 2, hash), public(3)), Ok(true)));
    assert!(matches!(agg.insert(vote_signature(4, 2, hash), public(4)), Err(QCAggregatorInsertError::AlreadyAQuorum)));
    let qc = agg.into_qc();
    assert_eq!(qc.view_number, 2);
    assert_eq!(qc.sigs.count_some(), 3);
    assert!(qc.is_cryptographically_correct(&keys));
    assert!(qc.is_quorum(keys.len()));
    // One slot per participant: the aggregated certificate is valid.
    assert!(qc.is_correct_len(keys.len()));
    assert!(qc.is_valid(&keys));
    assert!(!qc.is_correct_len(keys.len() + 1));
}

#[test]
fn wrong_signature_is_not_cryptographically_correct() {
    let keys = participants();
    let hash = [9u8; 32];
    let mut agg = QuorumCertificateAggregator::new(2, hash, keys.clone());
    // Participant 1 signs another view.
    assert!(agg.insert(vote_signature(1, 3, hash), public(1)).is_ok());
    let qc = agg.into_qc();
    assert!(!qc.is_cryptographically_correct(&keys));
}
