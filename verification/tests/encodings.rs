use ed25519_dalek::{Signer, SigningKey};
use hotstuff_rs::block::Block;
use hotstuff_rs::block_sync::messages::BlockSyncAdvertiseMessage;
use hotstuff_rs::hotstuff::messages::PhaseVote;
use hotstuff_rs::hotstuff::types::{Phase, QuorumCertificate, SignatureSet};
use sha2::{Digest, Sha256};

/// A block's hash is SHA-256 of its height, its justify (chain id, view, block, phase byte, the
/// number of signature slots as 4 bytes, then a 0 byte per empty slot and a 1 byte and the
/// signature per filled one) and its data hash, integers little-endian.
#[test]
fn block_hash_is_sha256_of_its_encoding() {
    let mut signatures = SignatureSet::new(2);
    signatures.set(1, Some([7u8; 64]));
    let justify = QuorumCertificate { chain_id: 3, view: 9, block: [5u8; 32], phase: Phase::Precommit, signatures };
    let block = Block::new(12, justify, [6u8; 32], vec![]);

    let mut bytes: Vec<u8> = Vec::new();
    bytes.extend_from_slice(&12u64.to_le_bytes());
    bytes.extend_from_slice(&3u64.to_le_bytes());
    bytes.extend_from_slice(&9u64.to_le_bytes());
    bytes.extend_from_slice(&[5u8; 32]);
    bytes.push(2);
    bytes.extend_from_slice(&2u32.to_le_bytes());
    bytes.push(0);
    bytes.push(1);
    bytes.extend_from_slice(&[7u8; 64]);
    bytes.extend_from_slice(&[6u8; 32]);
    let expected: [u8; 32] = Sha256::digest(&bytes).into();
    assert_eq!(block.hash, expected);
}

/// A phase vote signs its chain id, view, block and phase byte.
#[test]
fn phase_vote_signs_its_encoding() {
    let secret = [4u8; 32];
    let vote = PhaseVote::new(&secret, 8, 21, [9u8; 32], Phase::Commit);
    let mut bytes: Vec<u8> = Vec::new();
    bytes.extend_from_slice(&8u64.to_le_bytes());
    bytes.extend_from_slice(&21u64.to_le_bytes());
    bytes.extend_from_slice(&[9u8; 32]);
    bytes.push(3);
    let expected = SigningKey::from_bytes(&secret).sign(&bytes).to_bytes();
    assert_eq!(vote.signature, expected);
}

/// A block advertisement signs its chain id and height.
#[test]
fn advertise_block_signs_its_encoding() {
    let secret = [2u8; 32];
    let msg = BlockSyncAdvertiseMessage::advertise_block(&secret, 5, 77);
    let mut bytes: Vec<u8> = Vec::new();
    bytes.extend_from_slice(&5u64.to_le_bytes());
    bytes.extend_from_slice(&77u64.to_le_bytes());
    let expected = SigningKey::from_bytes(&secret).sign(&bytes).to_bytes();
    match msg {
        BlockSyncAdvertiseMessage::AdvertiseBlock(a) => assert_eq!(a.signature, expected),
        _ => panic!("expected a block advertisement"),
    }
}
