//! The events that a replica emits as it works, each with the time at which it happened.

use vstd::prelude::*;

use crate::block::Block;
use crate::hotstuff::messages::{NewView, Nudge, PhaseVote, Proposal};
use crate::hotstuff::types::QuorumCertificate;
use crate::types::{BlockHeight, CryptoHash, VerifyingKeyBytes, ViewNumber};
use crate::validator_set::ValidatorSetUpdates;

verus! {

/// The time of an event, as the system clock gave it.
#[verifier::external_type_specification]
#[verifier::external_body]
pub struct ExSystemTime(std::time::SystemTime);

/// A block was inserted into the block tree.
pub struct InsertBlockEvent {
    pub timestamp: std::time::SystemTime,
    pub block: Block,
}

/// A block was committed.
pub struct CommitBlockEvent {
    pub timestamp: std::time::SystemTime,
    pub block: CryptoHash,
}

/// A block was pruned from the block tree.
pub struct PruneBlockEvent {
    pub timestamp: std::time::SystemTime,
    pub block: CryptoHash,
}

/// The highest certificate changed.
pub struct UpdateHighestPCEvent {
    pub timestamp: std::time::SystemTime,
    pub highest_pc: QuorumCertificate,
}

/// The locked certificate changed.
pub struct UpdateLockedPCEvent {
    pub timestamp: std::time::SystemTime,
    pub locked_pc: QuorumCertificate,
}

/// The committed validator set changed, because `cause_block` was committed.
pub struct UpdateValidatorSetEvent {
    pub timestamp: std::time::SystemTime,
    pub cause_block: CryptoHash,
    pub validator_set_updates: ValidatorSetUpdates,
}

/// The replica broadcast a proposal.
pub struct ProposeEvent {
    pub timestamp: std::time::SystemTime,
    pub proposal: Proposal,
}

/// The replica broadcast a nudge.
pub struct NudgeEvent {
    pub timestamp: std::time::SystemTime,
    pub nudge: Nudge,
}

/// The replica sent a phase vote.
pub struct PhaseVoteEvent {
    pub timestamp: std::time::SystemTime,
    pub vote: PhaseVote,
}

/// The replica sent a new view message.
pub struct NewViewEvent {
    pub timestamp: std::time::SystemTime,
    pub new_view: NewView,
}

/// The replica received a proposal from `origin`.
pub struct ReceiveProposalEvent {
    pub timestamp: std::time::SystemTime,
    pub origin: VerifyingKeyBytes,
    pub proposal: Proposal,
}

/// The replica received a nudge from `origin`.
pub struct ReceiveNudgeEvent {
    pub timestamp: std::time::SystemTime,
    pub origin: VerifyingKeyBytes,
    pub nudge: Nudge,
}

/// The replica received a phase vote from `origin`.
pub struct ReceivePhaseVoteEvent {
    pub timestamp: std::time::SystemTime,
    pub origin: VerifyingKeyBytes,
    pub phase_vote: PhaseVote,
}

/// The replica received a new view message from `origin`.
pub struct ReceiveNewViewEvent {
    pub timestamp: std::time::SystemTime,
    pub origin: VerifyingKeyBytes,
    pub new_view: NewView,
}

/// The replica entered `view`.
pub struct StartViewEvent {
    pub timestamp: std::time::SystemTime,
    pub view: ViewNumber,
}

/// The replica's `view` timed out.
pub struct ViewTimeoutEvent {
    pub timestamp: std::time::SystemTime,
    pub view: ViewNumber,
}

/// The replica collected a certificate from phase votes.
pub struct CollectPCEvent {
    pub timestamp: std::time::SystemTime,
    pub phase_certificate: QuorumCertificate,
}

/// The replica began to sync with `peer`.
pub struct StartSyncEvent {
    pub timestamp: std::time::SystemTime,
    pub peer: VerifyingKeyBytes,
}

/// The replica ended a sync with `peer`, having inserted `blocks_synced` blocks.
pub struct EndSyncEvent {
    pub timestamp: std::time::SystemTime,
    pub peer: VerifyingKeyBytes,
    pub blocks_synced: u64,
}

/// The replica's sync server received a request from `peer`.
pub struct ReceiveSyncRequestEvent {
    pub timestamp: std::time::SystemTime,
    pub peer: VerifyingKeyBytes,
    pub start_height: BlockHeight,
    pub limit: u32,
}

/// The replica's sync server sent a response to `peer`.
pub struct SendSyncResponseEvent {
    pub timestamp: std::time::SystemTime,
    pub peer: VerifyingKeyBytes,
    pub blocks: Vec<Block>,
    pub highest_pc: QuorumCertificate,
}

/// Everything that a replica reports as it works.
pub enum Event {
    InsertBlock(InsertBlockEvent),
    CommitBlock(CommitBlockEvent),
    PruneBlock(PruneBlockEvent),
    UpdateHighestPC(UpdateHighestPCEvent),
    UpdateLockedPC(UpdateLockedPCEvent),
    UpdateValidatorSet(UpdateValidatorSetEvent),
    Propose(ProposeEvent),
    Nudge(NudgeEvent),
    PhaseVote(PhaseVoteEvent),
    NewView(NewViewEvent),
    ReceiveProposal(ReceiveProposalEvent),
    ReceiveNudge(ReceiveNudgeEvent),
    ReceivePhaseVote(ReceivePhaseVoteEvent),
    ReceiveNewView(ReceiveNewViewEvent),
    StartView(StartViewEvent),
    ViewTimeout(ViewTimeoutEvent),
    CollectPC(CollectPCEvent),
    StartSync(StartSyncEvent),
    EndSync(EndSyncEvent),
    ReceiveSyncRequest(ReceiveSyncRequestEvent),
    SendSyncResponse(SendSyncResponseEvent),
}

} // verus!
