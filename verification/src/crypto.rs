//! The calls into the hashing, signature and serialization crates, and what is known of them.

use vstd::prelude::*;

use ed25519_dalek::{Signer, Verifier};
use sha2::Digest;

use crate::hotstuff::types::{opt_sig_view, QcView};
use crate::types::{
    BlockHeight, ChainID, CryptoHash, SignatureBytes, SigningKeyBytes, VerifyingKeyBytes,
    ViewNumber,
};

verus! {

/// The SHA-256 digest of a byte string.
pub uninterp spec fn sha256(bytes: Seq<u8>) -> Seq<u8>;

/// Whether `signature` is a valid Ed25519 signature of `message` under the public key `key`
/// (false when `key` is not a valid encoding of a curve point).
pub uninterp spec fn ed25519_verify(key: Seq<u8>, message: Seq<u8>, signature: Seq<u8>) -> bool;

/// The deterministic Ed25519 signature of `message` under the secret key `secret`.
pub uninterp spec fn ed25519_sign(secret: Seq<u8>, message: Seq<u8>) -> Seq<u8>;

/// The Ed25519 public key that belongs to the secret key `secret`.
pub uninterp spec fn ed25519_public_key(secret: Seq<u8>) -> Seq<u8>;

/// The `n` least significant bytes of `x`, least significant first.
pub open spec fn le_bytes(x: nat, n: nat) -> Seq<u8>
    decreases n,
{
    if n == 0 {
        Seq::empty()
    } else {
        seq![(x % 256) as u8] + le_bytes(x / 256, (n - 1) as nat)
    }
}

pub open spec fn u64_bytes(x: u64) -> Seq<u8> {
    le_bytes(x as nat, 8)
}

pub open spec fn u32_bytes(x: u32) -> Seq<u8> {
    le_bytes(x as nat, 4)
}

/// The encoding of a sequence of optional signatures without its length prefix: a 0 byte for an
/// empty slot, a 1 byte and the signature for a filled one.
pub open spec fn opt_sigs_bytes(s: Seq<Option<Seq<u8>>>) -> Seq<u8>
    decreases s.len(),
{
    if s.len() == 0 {
        Seq::empty()
    } else {
        opt_sigs_bytes(s.drop_last()) + match s.last() {
            None => seq![0u8],
            Some(b) => seq![1u8] + b,
        }
    }
}

/// The encoding of a certificate: chain id, view, block, phase byte, the number of signature slots
/// as 4 bytes, and the slots.
pub open spec fn qc_bytes(qc: QcView) -> Seq<u8> {
    u64_bytes(qc.chain_id) + u64_bytes(qc.view) + qc.block + seq![qc.phase.tag()]
        + u32_bytes(qc.signatures.len() as u32) + opt_sigs_bytes(qc.signatures)
}

/// The bytes that a phase vote signs: chain id, view, block and phase byte.
pub open spec fn vote_bytes(chain_id: ChainID, view: ViewNumber, block: Seq<u8>, phase_tag: u8) -> Seq<u8> {
    u64_bytes(chain_id) + u64_bytes(view) + block + seq![phase_tag]
}

/// Calls `sha2::Sha256::digest`. The digest is SHA-256 of `bytes`.
#[verifier::external_body]
pub(crate) fn sha256_digest(bytes: &[u8]) -> (h: CryptoHash)
    ensures
        h@ == sha256(bytes@),
{
    sha2::Sha256::digest(bytes).into()
}

/// Calls `ed25519_dalek::VerifyingKey::from_bytes` and then `Verifier::verify`. The answer is
/// whether `signature` verifies for `message` under `key`; a key that does not decode gives false.
#[verifier::external_body]
pub(crate) fn verify_signature(key: &VerifyingKeyBytes, message: &[u8], signature: &SignatureBytes) -> (ok: bool)
    ensures
        ok == ed25519_verify(key@, message@, signature@),
{
    match ed25519_dalek::VerifyingKey::from_bytes(key) {
        Ok(vk) => vk.verify(message, &ed25519_dalek::Signature::from_bytes(signature)).is_ok(),
        Err(_) => false,
    }
}

/// Calls `ed25519_dalek::SigningKey::from_bytes` and then `Signer::sign`: the deterministic
/// Ed25519 signature of `message`, which verifies for `message` under the public key of `secret`.
#[verifier::external_body]
pub(crate) fn sign_message(secret: &SigningKeyBytes, message: &[u8]) -> (s: SignatureBytes)
    ensures
        s@ == ed25519_sign(secret@, message@),
        ed25519_verify(ed25519_public_key(secret@), message@, s@),
{
    ed25519_dalek::SigningKey::from_bytes(secret).sign(message).to_bytes()
}

/// Calls `ed25519_dalek::SigningKey::verifying_key`: the public key of `secret`.
#[verifier::external_body]
pub(crate) fn public_key_of(secret: &SigningKeyBytes) -> (k: VerifyingKeyBytes)
    ensures
        k@ == ed25519_public_key(secret@),
{
    ed25519_dalek::SigningKey::from_bytes(secret).verifying_key().to_bytes()
}

/// Calls `borsh::to_vec` on the tuple `(chain_id, view, block, phase_tag)`. Borsh writes integers
/// as little-endian bytes, a byte array as its bytes, and a tuple as its fields in order; writing
/// into a `Vec` does not fail.
#[verifier::external_body]
pub(crate) fn vote_message_bytes(chain_id: ChainID, view: ViewNumber, block: &CryptoHash, phase_tag: u8) -> (bs: Vec<u8>)
    ensures
        bs@ == vote_bytes(chain_id, view, block@, phase_tag),
{
    match borsh::to_vec(&(chain_id, view, *block, phase_tag)) {
        Ok(bs) => bs,
        Err(_) => Vec::new(),
    }
}

/// Calls `borsh::to_vec` on `(chain_id, height)`: the two integers as little-endian bytes.
#[verifier::external_body]
pub(crate) fn advertise_message_bytes(chain_id: ChainID, height: BlockHeight) -> (bs: Vec<u8>)
    ensures
        bs@ == u64_bytes(chain_id) + u64_bytes(height),
{
    match borsh::to_vec(&(chain_id, height)) {
        Ok(bs) => bs,
        Err(_) => Vec::new(),
    }
}

/// Calls `borsh::to_vec` on `(height, (chain_id, view, block, phase_tag, signatures), data_hash)`.
/// Borsh writes a `Vec` as its length in 4 little-endian bytes followed by its items, and an
/// `Option` as a 0 byte, or a 1 byte followed by the value; it fails only for a `Vec` longer than
/// `u32::MAX`, which `requires` leaves out.
#[verifier::external_body]
pub(crate) fn block_hash_preimage(
    height: BlockHeight,
    chain_id: ChainID,
    view: ViewNumber,
    block: &CryptoHash,
    phase_tag: u8,
    signatures: &Vec<Option<SignatureBytes>>,
    data_hash: &CryptoHash,
) -> (bs: Vec<u8>)
    requires
        signatures@.len() <= u32::MAX,
    ensures
        bs@ == u64_bytes(height) + u64_bytes(chain_id) + u64_bytes(view) + block@ + seq![phase_tag]
            + u32_bytes(signatures@.len() as u32)
            + opt_sigs_bytes(signatures@.map_values(|s: Option<SignatureBytes>| opt_sig_view(s)))
            + data_hash@,
{
    match borsh::to_vec(&(height, (chain_id, view, *block, phase_tag, signatures.clone()), *data_hash)) {
        Ok(bs) => bs,
        Err(_) => Vec::new(),
    }
}

} // verus!
