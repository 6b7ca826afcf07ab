//! Messages that are sent between replicas as part of the HotStuff subprotocol.

use vstd::prelude::*;

use crate::block::Block;
use crate::crypto::{
    ed25519_public_key, ed25519_sign, ed25519_verify, sign_message, verify_signature, vote_bytes, vote_message_bytes,
};
use crate::hotstuff::types::{Phase, QuorumCertificate};
use crate::types::{ChainID, CryptoHash, SignatureBytes, SigningKeyBytes, VerifyingKeyBytes, ViewNumber};

verus! {

/// Messages that are sent between replicas as part of the HotStuff subprotocol.
pub enum HotStuffMessage {
    Proposal(Proposal),
    Nudge(Nudge),
    PhaseVote(PhaseVote),
    NewView(NewView),
}

impl HotStuffMessage {
    pub open spec fn chain_id_of(&self) -> ChainID {
        match self {
            HotStuffMessage::Proposal(m) => m.chain_id,
            HotStuffMessage::Nudge(m) => m.chain_id,
            HotStuffMessage::PhaseVote(m) => m.chain_id,
            HotStuffMessage::NewView(m) => m.chain_id,
        }
    }

    pub open spec fn view_of(&self) -> ViewNumber {
        match self {
            HotStuffMessage::Proposal(m) => m.view,
            HotStuffMessage::Nudge(m) => m.view,
            HotStuffMessage::PhaseVote(m) => m.view,
            HotStuffMessage::NewView(m) => m.view,
        }
    }

    /// The chain that the message belongs to.
    pub fn chain_id(&self) -> (c: ChainID)
        ensures
            c == self.chain_id_of(),
    {
        match self {
            HotStuffMessage::Proposal(Proposal { chain_id, .. }) => *chain_id,
            HotStuffMessage::Nudge(Nudge { chain_id, .. }) => *chain_id,
            HotStuffMessage::PhaseVote(PhaseVote { chain_id, .. }) => *chain_id,
            HotStuffMessage::NewView(NewView { chain_id, .. }) => *chain_id,
        }
    }

    /// The size in memory of the message's variant.
    pub open spec fn size_of_variant(&self) -> nat {
        match self {
            HotStuffMessage::Proposal(_) => vstd::layout::size_of::<Proposal>(),
            HotStuffMessage::Nudge(_) => vstd::layout::size_of::<Nudge>(),
            HotStuffMessage::PhaseVote(_) => vstd::layout::size_of::<PhaseVote>(),
            HotStuffMessage::NewView(_) => vstd::layout::size_of::<NewView>(),
        }
    }

    /// The size in memory of the message's variant.
    pub fn size(&self) -> (s: u64)
        ensures
            s == self.size_of_variant(),
    {
        match self {
            HotStuffMessage::Proposal(_) => core::mem::size_of::<Proposal>() as u64,
            HotStuffMessage::Nudge(_) => core::mem::size_of::<Nudge>() as u64,
            HotStuffMessage::PhaseVote(_) => core::mem::size_of::<PhaseVote>() as u64,
            HotStuffMessage::NewView(_) => core::mem::size_of::<NewView>() as u64,
        }
    }

    /// The view that the message belongs to.
    pub fn view(&self) -> (v: ViewNumber)
        ensures
            v == self.view_of(),
    {
        match self {
            HotStuffMessage::Proposal(Proposal { view, .. }) => *view,
            HotStuffMessage::Nudge(Nudge { view, .. }) => *view,
            HotStuffMessage::PhaseVote(PhaseVote { view, .. }) => *view,
            HotStuffMessage::NewView(NewView { view, .. }) => *view,
        }
    }
}

/// Broadcast by a leader in `view`, who proposes that `block` extend the block tree of `chain_id`.
pub struct Proposal {
    pub chain_id: ChainID,
    pub view: ViewNumber,
    pub block: Block,
}

/// Broadcast by a leader in `view` to have validators take part in the voting phase that follows
/// `justify.phase`, for a validator-set-updating block. `justify.phase` is `Prepare`, `Precommit`
/// or `Commit`.
pub struct Nudge {
    pub chain_id: ChainID,
    pub view: ViewNumber,
    pub justify: QuorumCertificate,
}

impl Nudge {
    /// A nudge with the given `chain_id`, `view` and `justify`.
    pub fn new(chain_id: ChainID, view: ViewNumber, justify: QuorumCertificate) -> (n: Nudge)
        requires
            justify@.nudge_justify(),
        ensures
            n.chain_id == chain_id,
            n.view == view,
            n.justify@ == justify@,
    {
        Nudge { chain_id, view, justify }
    }
}

/// Sent by a validator to a leader of `view + 1` to vote for a proposal or nudge.
pub struct PhaseVote {
    pub chain_id: ChainID,
    pub view: ViewNumber,
    pub block: CryptoHash,
    pub phase: Phase,
    pub signature: SignatureBytes,
}

impl PhaseVote {
    /// The bytes that the vote's signature signs.
    pub open spec fn message(&self) -> Seq<u8> {
        vote_bytes(self.chain_id, self.view, self.block@, self.phase.tag())
    }

    /// A vote for `block` in `phase`, signed with the secret key `keypair`.
    pub fn new(keypair: &SigningKeyBytes, chain_id: ChainID, view: ViewNumber, block: CryptoHash, phase: Phase) -> (v: PhaseVote)
        ensures
            v.chain_id == chain_id,
            v.view == view,
            v.block == block,
            v.phase == phase,
            v.signature@ == ed25519_sign(keypair@, vote_bytes(chain_id, view, block@, phase.tag())),
            ed25519_verify(ed25519_public_key(keypair@), v.message(), v.signature@),
    {
        let message_bytes = vote_message_bytes(chain_id, view, &block, phase.wire_tag());
        let signature = sign_message(keypair, message_bytes.as_slice());
        PhaseVote { chain_id, view, block, phase, signature }
    }

    /// The bytes that the vote's signature signs.
    pub fn message_bytes(&self) -> (bs: Vec<u8>)
        ensures
            bs@ == self.message(),
    {
        vote_message_bytes(self.chain_id, self.view, &self.block, self.phase.wire_tag())
    }

    /// Whether the vote is correctly signed by `signer`.
    pub fn is_correct(&self, signer: &VerifyingKeyBytes) -> (b: bool)
        ensures
            b == ed25519_verify(signer@, self.message(), self.signature@),
    {
        let bs = self.message_bytes();
        verify_signature(signer, bs.as_slice(), &self.signature)
    }
}

impl Clone for PhaseVote {
    fn clone(&self) -> (v: Self)
        ensures
            v == *self,
    {
        PhaseVote {
            chain_id: self.chain_id,
            view: self.view,
            block: self.block,
            phase: self.phase,
            signature: self.signature,
        }
    }
}

/// Sent by a replica to the next leader on leaving a view, to tell it of the highest certificate
/// that the replica knows of.
pub struct NewView {
    pub chain_id: ChainID,
    pub view: ViewNumber,
    pub highest_pc: QuorumCertificate,
}

} // verus!
