//! The decisions of a participant in the HotStuff subprotocol. Each handler takes the replica's
//! state and an event (a new view, a received message, the app's answer) and returns what the
//! replica should send; the caller performs the sending and the calls into the app.

use vstd::prelude::*;

use crate::application::ValidateBlockResponse;
use crate::block::{block_correct_spec, Block};
use crate::block_tree::invariants::{
    repropose_block, safe_block, safe_block_spec, safe_nudge, safe_nudge_spec, safe_pc, safe_pc_spec,
};
use crate::block_tree::{update_effects, update_fails, BlockTree, BlockTreeError, UpdateOutcome};
use crate::crypto::{ed25519_public_key, ed25519_sign, public_key_of, vote_bytes};
use crate::hotstuff::messages::{HotStuffMessage, NewView, Nudge, PhaseVote, Proposal};
use crate::hotstuff::roles::{
    is_phase_voter, is_proposer, is_proposer_spec, leader_of, new_view_recipients, phase_vote_recipient,
    recipient_set, voting_set,
};
use crate::hotstuff::types::{
    collect_step, is_correct_spec, signed_power, Phase, QuorumCertificate, VoteCollector,
};
use crate::types::{bytes32_eq, BlockHeight, ChainID, CryptoHash, SigningKeyBytes, VerifyingKeyBytes, ViewNumber};
use crate::validator_set::{quorum_of, ValidatorSet, ValidatorSetState};

verus! {

/// The chain a replica tracks and the secret key with which it signs its votes.
pub struct HotStuffConfiguration {
    pub chain_id: ChainID,
    pub keypair: SigningKeyBytes,
}

/// The ways a HotStuff handler can fail.
pub enum HotStuffError {
    BlockTreeError(BlockTreeError),
}

/// Which leaders have proposed or nudged in the current view. A leader is heard at most once per
/// view, and at most two leaders (one per validator set) are heard.
pub enum ProposalStatus {
    /// No proposal or nudge was heard in this view yet.
    WaitingForProposal,
    /// `leader` has proposed or nudged; no more is taken from it in this view.
    OneLeaderProposed { leader: VerifyingKeyBytes },
    /// Every leader of the view has proposed or nudged; no more is taken in this view.
    AllLeadersProposed,
}

/// The status after a proposal or nudge from `origin` was handled.
pub open spec fn status_after(s: ProposalStatus, origin: VerifyingKeyBytes) -> ProposalStatus {
    match s {
        ProposalStatus::WaitingForProposal => ProposalStatus::OneLeaderProposed { leader: origin },
        ProposalStatus::OneLeaderProposed { .. } => ProposalStatus::AllLeadersProposed,
        ProposalStatus::AllLeadersProposed => ProposalStatus::AllLeadersProposed,
    }
}

/// Whether a proposal or nudge from `origin` is still taken under status `s`.
pub open spec fn still_accepting(s: ProposalStatus, origin: Seq<u8>) -> bool {
    match s {
        ProposalStatus::WaitingForProposal => true,
        ProposalStatus::OneLeaderProposed { leader } => leader@ != origin,
        ProposalStatus::AllLeadersProposed => false,
    }
}

impl ProposalStatus {
    /// Whether `leader` is the one leader that has proposed or nudged so far.
    pub fn has_one_leader_proposed(&self, leader: &VerifyingKeyBytes) -> (b: bool)
        ensures
            b == (*self matches ProposalStatus::OneLeaderProposed { leader: l } && l@ == leader@),
    {
        match self {
            ProposalStatus::OneLeaderProposed { leader: l } => bytes32_eq(l, leader),
            _ => false,
        }
    }

    /// Whether every leader of the view has proposed or nudged.
    pub fn have_all_leaders_proposed(&self) -> (b: bool)
        ensures
            b == (*self is AllLeadersProposed),
    {
        match self {
            ProposalStatus::AllLeadersProposed => true,
            _ => false,
        }
    }

    /// Take note that `origin` has proposed or nudged.
    pub fn record(&mut self, origin: &VerifyingKeyBytes)
        ensures
            *final(self) == status_after(*old(self), *origin),
    {
        match self {
            ProposalStatus::WaitingForProposal => {
                *self = ProposalStatus::OneLeaderProposed { leader: *origin };
            },
            _ => {
                *self = ProposalStatus::AllLeadersProposed;
            },
        }
    }
}

/// Whether `c` collects the votes of `chain_id` and `view` for members of `vs`, and has
/// collected none yet.
pub open spec fn fresh_collector(c: VoteCollector, chain_id: ChainID, view: ViewNumber, vs: ValidatorSet) -> bool {
    &&& c.chain_id_spec() == chain_id
    &&& c.view_spec() == view
    &&& c.validators().keys() == vs.keys()
    &&& c.validators().power_seq() == vs.power_seq()
    &&& forall|b: Seq<u8>, p: Phase| #[trigger] c.collected(b, p) is None
}

/// Whether `c` collects votes for members of `vs`.
pub open spec fn collects_for(c: VoteCollector, vs: ValidatorSet) -> bool {
    c.validators().keys() == vs.keys() && c.validators().power_seq() == vs.power_seq()
}

/// What collecting `vote` from `signer` does to collectors `before`, leaving `after` and
/// returning `r`: the committed validator set's collector takes it first; if that gives no
/// certificate, the previous validator set's collector (if any) takes it.
pub open spec fn collects(
    before: PhaseVoteCollectors,
    after: PhaseVoteCollectors,
    signer: Seq<u8>,
    vote: PhaseVote,
    r: Option<QuorumCertificate>,
) -> bool {
    let (oc, fc) = (before.committed_collector(), after.committed_collector());
    ||| r is Some && collect_step(oc, fc, signer, vote.chain_id, vote.view, vote.block@, vote.phase, vote.signature@, r)
        && after.previous_collector() == before.previous_collector()
    ||| collect_step(oc, fc, signer, vote.chain_id, vote.view, vote.block@, vote.phase, vote.signature@, None)
        && match before.previous_collector() {
            None => r is None && after.previous_collector() is None,
            Some(op) => after.previous_collector() matches Some(fp)
                && collect_step(op, fp, signer, vote.chain_id, vote.view, vote.block@, vote.phase, vote.signature@, r),
        }
}

/// The phase votes of a view: one collector for the committed validator set and, while the
/// latest validator set update is not decided, one for the previous validator set.
pub struct PhaseVoteCollectors {
    committed: VoteCollector,
    previous: Option<VoteCollector>,
}

impl PhaseVoteCollectors {
    pub closed spec fn committed_collector(&self) -> VoteCollector {
        self.committed
    }

    pub closed spec fn previous_collector(&self) -> Option<VoteCollector> {
        self.previous
    }

    pub closed spec fn wf(&self) -> bool {
        &&& self.committed.wf()
        &&& (self.previous matches Some(p) ==> p.wf() && p.chain_id_spec() == self.committed.chain_id_spec()
            && p.view_spec() == self.committed.view_spec())
    }

    /// Whether the collectors are those that `s` calls for.
    pub open spec fn tracks(&self, s: ValidatorSetState) -> bool {
        &&& collects_for(self.committed_collector(), s.committed())
        &&& (s.decided() ==> self.previous_collector() is None)
        &&& (!s.decided() ==> (self.previous_collector() matches Some(p) && collects_for(p, s.previous())))
    }

    pub open spec fn chain_id(&self) -> ChainID {
        self.committed_collector().chain_id_spec()
    }

    pub open spec fn view(&self) -> ViewNumber {
        self.committed_collector().view_spec()
    }

    /// Fresh collectors for the votes of `chain_id` and `view` under `s`.
    pub fn new(chain_id: ChainID, view: ViewNumber, s: &ValidatorSetState) -> (c: PhaseVoteCollectors)
        requires
            s.wf(),
        ensures
            c.wf(),
            c.tracks(*s),
            fresh_collector(c.committed_collector(), chain_id, view, s.committed()),
            c.previous_collector() matches Some(p) ==> fresh_collector(p, chain_id, view, s.previous()),
    {
        let committed = VoteCollector::new(chain_id, view, s.committed_validator_set().clone());
        let previous = if s.update_decided() {
            None
        } else {
            Some(VoteCollector::new(chain_id, view, s.previous_validator_set().clone()))
        };
        PhaseVoteCollectors { committed, previous }
    }

    /// Collect `vote` from `signer`: first for the committed validator set, then (if there is one
    /// and the first gave no certificate) for the previous one. Returns the certificate that the
    /// vote completes, if any.
    pub fn collect(&mut self, signer: &VerifyingKeyBytes, vote: &PhaseVote) -> (r: Option<QuorumCertificate>)
        requires
            old(self).wf(),
        ensures
            final(self).wf(),
            final(self).chain_id() == old(self).chain_id(),
            final(self).view() == old(self).view(),
            final(self).committed_collector().validators() == old(self).committed_collector().validators(),
            final(self).previous_collector() is Some == old(self).previous_collector() is Some,
            final(self).previous_collector() matches Some(p) ==> p.validators() == old(self).previous_collector()->0.validators(),
            collects(*old(self), *final(self), signer@, *vote, r),
            r matches Some(qc) ==> {
                &&& qc@.chain_id == vote.chain_id
                &&& qc@.chain_id == old(self).chain_id()
                &&& qc@.view == vote.view
                &&& qc@.view == old(self).view()
                &&& qc@.block == vote.block@
                &&& qc@.phase == vote.phase
                &&& {
                    let c = old(self).committed_collector().validators();
                    ||| signed_power(qc@.signatures, c.power_seq()) >= quorum_of(c.total())
                    ||| (old(self).previous_collector() matches Some(p)
                        && signed_power(qc@.signatures, p.validators().power_seq()) >= quorum_of(p.validators().total()))
                }
            },
    {
        let r = self.committed.collect(signer, vote.chain_id, vote.view, &vote.block, vote.phase, &vote.signature);
        if r.is_some() {
            return r;
        }
        match self.previous.take() {
            Some(mut p) => {
                let r2 = p.collect(signer, vote.chain_id, vote.view, &vote.block, vote.phase, &vote.signature);
                self.previous = Some(p);
                r2
            },
            None => None,
        }
    }

    /// Make the collectors those that `s` calls for: a collector whose validator set is unchanged
    /// keeps its votes; a new or changed validator set gets a fresh collector for the same chain
    /// and view; the previous collector goes once the update is decided.
    pub fn update_validator_sets(&mut self, s: &ValidatorSetState)
        requires
            old(self).wf(),
            s.wf(),
        ensures
            final(self).wf(),
            final(self).tracks(*s),
            final(self).chain_id() == old(self).chain_id(),
            final(self).view() == old(self).view(),
            collects_for(old(self).committed_collector(), s.committed())
                ==> final(self).committed_collector() == old(self).committed_collector(),
            !collects_for(old(self).committed_collector(), s.committed())
                ==> fresh_collector(final(self).committed_collector(), old(self).chain_id(), old(self).view(), s.committed()),
            ((old(self).previous_collector() matches Some(p) && collects_for(p, s.previous())) && !s.decided())
                ==> final(self).previous_collector() == old(self).previous_collector(),
    {
        let chain_id = self.committed.chain_id();
        let view = self.committed.view();
        if !self.committed.validator_set().same_as(s.committed_validator_set()) {
            self.committed = VoteCollector::new(chain_id, view, s.committed_validator_set().clone());
        }
        if s.update_decided() {
            self.previous = None;
        } else {
            let keep = match &self.previous {
                Some(p) => p.validator_set().same_as(s.previous_validator_set()),
                None => false,
            };
            if !keep {
                self.previous = Some(VoteCollector::new(chain_id, view, s.previous_validator_set().clone()));
            }
        }
    }
}


/// What a proposer does at the start of a view.
pub enum ProposerAction {
    /// The replica does not propose in this view.
    Idle,
    /// Broadcast this proposal of a block already in the block tree.
    Repropose(Proposal),
    /// Ask the app for a new block at `child_height`, extending `parent_block` (none: genesis),
    /// justified by `justify`; then broadcast it (see [`HotStuff::new_proposal`]).
    ProduceBlock { parent_block: Option<CryptoHash>, child_height: BlockHeight, justify: QuorumCertificate },
    /// Broadcast this nudge.
    Nudge(Nudge),
}

/// What entering a view decided: the `NewView` message for the view left, the leaders it goes to
/// (the second while the latest validator set update is not decided), and the proposer's action.
pub struct EnterViewOutcome {
    pub new_view: NewView,
    pub recipients: (VerifyingKeyBytes, Option<VerifyingKeyBytes>),
    pub action: ProposerAction,
}

/// What handling a message did: the block tree update it caused, the vote the replica casts
/// (with its recipient), and the certificate that a vote completed.
pub struct Processed {
    pub update: Option<UpdateOutcome>,
    pub vote: Option<(PhaseVote, VerifyingKeyBytes)>,
    pub collected: Option<QuorumCertificate>,
}

/// What became of a received message.
pub enum ReceiveOutcome {
    /// The message was not taken: a proposal or nudge from a replica that does not propose in
    /// this view, or that (or every leader) was heard already, or a proposal that is not correct
    /// or not safe.
    Ignored,
    /// The proposal passed the checks; the app must validate its block (see
    /// [`HotStuff::on_validated_proposal`]).
    ValidateBlock(Proposal),
    /// The message was handled.
    Processed(Processed),
}

/// Whether `v` is the vote of the replica with secret key `keypair` for `block` in `phase`, in
/// `view` of `chain_id`, sent to the leader of the next view in the set that receives votes of
/// `phase` under `s`.
pub open spec fn is_vote_for(
    v: (PhaseVote, VerifyingKeyBytes),
    keypair: Seq<u8>,
    chain_id: ChainID,
    view: ViewNumber,
    block: Seq<u8>,
    phase: Phase,
    s: ValidatorSetState,
) -> bool {
    &&& v.0.chain_id == chain_id
    &&& v.0.view == view
    &&& v.0.block@ == block
    &&& v.0.phase == phase
    &&& v.0.signature@ == ed25519_sign(keypair, vote_bytes(chain_id, view, block, phase.tag()))
    &&& v.1@ == leader_of(view + 1, recipient_set(phase, s))
}

/// The phase of the vote for a nudge whose justify has phase `p`.
pub open spec fn nudge_vote_phase(p: Phase) -> Phase {
    match p {
        Phase::Prepare => Phase::Precommit,
        Phase::Precommit => Phase::Commit,
        _ => Phase::Decide,
    }
}

/// Whether a replica with key `me` that last voted in `voted` votes in `view` for a proposal or
/// nudge justified by a certificate of phase `justify_phase`, under `s`.
pub open spec fn should_vote(me: Seq<u8>, s: ValidatorSetState, justify_phase: Phase, voted: Option<ViewNumber>, view: ViewNumber) -> bool {
    voting_set(justify_phase, s).has(me) && (voted matches Some(v) ==> v < view)
}

/// A participant in the HotStuff subprotocol: its configuration and key, its current view, the
/// leaders heard in the view, and the votes collected in it.
pub struct HotStuff {
    config: HotStuffConfiguration,
    my_key: VerifyingKeyBytes,
    view: ViewNumber,
    proposal_status: ProposalStatus,
    phase_vote_collectors: PhaseVoteCollectors,
}

impl HotStuff {
    pub closed spec fn chain_id(&self) -> ChainID {
        self.config.chain_id
    }

    pub closed spec fn keypair(&self) -> Seq<u8> {
        self.config.keypair@
    }

    pub closed spec fn view_spec(&self) -> ViewNumber {
        self.view
    }

    pub closed spec fn status(&self) -> ProposalStatus {
        self.proposal_status
    }

    pub closed spec fn collectors(&self) -> PhaseVoteCollectors {
        self.phase_vote_collectors
    }

    /// The replica's public key.
    pub open spec fn me(&self) -> Seq<u8> {
        ed25519_public_key(self.keypair())
    }

    pub closed spec fn wf(&self) -> bool {
        &&& self.my_key@ == ed25519_public_key(self.config.keypair@)
        &&& self.phase_vote_collectors.wf()
        &&& self.phase_vote_collectors.chain_id() == self.config.chain_id
        &&& self.phase_vote_collectors.view() == self.view
    }

    /// The view in which a replica starts: view 0 when it has made no progress, else the view
    /// after the highest view in which it made progress.
    pub fn initial_view(highest_view_with_progress: ViewNumber) -> (v: ViewNumber)
        requires
            highest_view_with_progress < u64::MAX,
        ensures
            v == if highest_view_with_progress == 0 { 0 } else { highest_view_with_progress + 1 },
    {
        if highest_view_with_progress == 0 {
            0
        } else {
            highest_view_with_progress + 1
        }
    }

    /// A participant in `view`, hearing no leader yet, with fresh collectors for the validator
    /// sets of `s`.
    pub fn new(config: HotStuffConfiguration, view: ViewNumber, s: &ValidatorSetState) -> (h: HotStuff)
        requires
            s.wf(),
        ensures
            h.wf(),
            h.chain_id() == config.chain_id,
            h.keypair() == config.keypair@,
            h.view_spec() == view,
            h.status() == ProposalStatus::WaitingForProposal,
            h.collectors().tracks(*s),
    {
        let my_key = public_key_of(&config.keypair);
        let phase_vote_collectors = PhaseVoteCollectors::new(config.chain_id, view, s);
        HotStuff { config, my_key, view, proposal_status: ProposalStatus::WaitingForProposal, phase_vote_collectors }
    }

    /// The replica's current view.
    pub fn view(&self) -> (v: ViewNumber)
        ensures
            v == self.view_spec(),
    {
        self.view
    }

    /// Whether `new_view` differs from the replica's view, so that it should enter it.
    pub fn is_view_outdated(&self, new_view: ViewNumber) -> (b: bool)
        ensures
            b == (new_view != self.view_spec()),
    {
        new_view != self.view
    }

    /// Leave the current view for `new_view`: make the `NewView` message for the view left and
    /// pick its recipients, reset the proposal status and the vote collectors, record the view
    /// as entered in the block tree, and decide what the replica proposes if it is a proposer of
    /// `new_view`. An error names a block that the decision needs and the tree lacks.
    pub fn enter_view(&mut self, new_view: ViewNumber, block_tree: &mut BlockTree) -> (r: Result<EnterViewOutcome, HotStuffError>)
        requires
            old(self).wf(),
            old(block_tree).wf(),
            old(block_tree).vs_state().committed().keys().len() > 0,
            old(block_tree).vs_state().previous().keys().len() > 0,
            old(self).view_spec() < u64::MAX,
            old(block_tree).has_block(old(block_tree).highest().block)
                ==> old(block_tree).block_of(old(block_tree).highest().block).height < u64::MAX,
        ensures
            final(self).wf(),
            final(self).chain_id() == old(self).chain_id(),
            final(self).keypair() == old(self).keypair(),
            final(self).view_spec() == new_view,
            final(self).status() == ProposalStatus::WaitingForProposal,
            final(self).collectors().tracks(old(block_tree).vs_state()),
            final(block_tree).wf(),
            final(block_tree).view_entered() == new_view,
            final(block_tree).view_voted() == old(block_tree).view_voted(),
            final(block_tree).highest() == old(block_tree).highest(),
            final(block_tree).locked() == old(block_tree).locked(),
            final(block_tree).vs_state() == old(block_tree).vs_state(),
            forall|h: Seq<u8>| final(block_tree).has_block(h) == old(block_tree).has_block(h)
                && final(block_tree).block_of(h) == old(block_tree).block_of(h),
            ({
                let bt = old(block_tree);
                let s = bt.vs_state();
                let hpc = bt.highest();
                let proposer = is_proposer_spec(old(self).me(), new_view, s);
                let repropose = (hpc.phase == Phase::Prepare || hpc.phase == Phase::Precommit) && new_view != hpc.view + 1;
                match r {
                    Ok(o) => {
                        &&& o.new_view.chain_id == old(self).chain_id()
                        &&& o.new_view.view == old(self).view_spec()
                        &&& o.new_view.highest_pc@ == hpc
                        &&& o.recipients.0@ == leader_of(old(self).view_spec() + 1, s.committed())
                        &&& (s.decided() ==> o.recipients.1 is None)
                        &&& (!s.decided() ==> o.recipients.1 is Some
                            && o.recipients.1->0@ == leader_of(old(self).view_spec() + 1, s.previous()))
                        &&& (!proposer ==> o.action is Idle)
                        &&& (proposer && repropose ==> (o.action matches ProposerAction::Repropose(p)
                            && p.chain_id == old(self).chain_id() && p.view == new_view
                            && bt.has_block(hpc.block) && p.block@ == bt.block_of(hpc.block)))
                        &&& (proposer && !repropose && (hpc.phase == Phase::Generic || hpc.phase == Phase::Decide)
                            ==> (o.action matches ProposerAction::ProduceBlock { parent_block, child_height, justify }
                            && justify@ == hpc
                            && (hpc.is_genesis() ==> parent_block is None && child_height == 0)
                            && (!hpc.is_genesis() ==> (parent_block matches Some(pb) && pb@ == hpc.block
                                && bt.has_block(hpc.block) && child_height == bt.block_of(hpc.block).height + 1))))
                        &&& (proposer && !repropose && !(hpc.phase == Phase::Generic || hpc.phase == Phase::Decide)
                            ==> (o.action matches ProposerAction::Nudge(n)
                            && n.chain_id == old(self).chain_id() && n.view == new_view && n.justify@ == hpc))
                    },
                    Err(HotStuffError::BlockTreeError(BlockTreeError::BlockExpectedButNotFound { block })) => {
                        &&& proposer
                        &&& block@ == hpc.block
                        &&& !bt.has_block(hpc.block)
                        &&& (repropose || !hpc.is_genesis())
                    },
                }
            }),
    {
        let s = block_tree.validator_set_state().clone();
        let new_view_msg = NewView { chain_id: self.config.chain_id, view: self.view, highest_pc: block_tree.highest_pc() };
        let recipients = new_view_recipients(&new_view_msg, &s);

        self.view = new_view;
        self.proposal_status = ProposalStatus::WaitingForProposal;
        self.phase_vote_collectors = PhaseVoteCollectors::new(self.config.chain_id, new_view, &s);
        block_tree.set_highest_view_entered(new_view);

        if !is_proposer(&self.my_key, new_view, &s) {
            return Ok(EnterViewOutcome { new_view: new_view_msg, recipients, action: ProposerAction::Idle });
        }
        match repropose_block(new_view, block_tree) {
            Some(block_hash) => {
                let block = match block_tree.block(&block_hash) {
                    Some(b) => b,
                    None => {
                        return Err(HotStuffError::BlockTreeError(BlockTreeError::BlockExpectedButNotFound { block: block_hash }));
                    },
                };
                let proposal = Proposal { chain_id: self.config.chain_id, view: new_view, block };
                return Ok(EnterViewOutcome { new_view: new_view_msg, recipients, action: ProposerAction::Repropose(proposal) });
            },
            None => {},
        }
        let highest_pc = block_tree.highest_pc();
        let action = match highest_pc.phase {
            Phase::Generic | Phase::Decide => {
                if highest_pc.is_genesis_qc() {
                    ProposerAction::ProduceBlock { parent_block: None, child_height: 0, justify: highest_pc }
                } else {
                    let parent_height = match block_tree.block_height(&highest_pc.block) {
                        Some(h) => h,
                        None => {
                            return Err(HotStuffError::BlockTreeError(
                                BlockTreeError::BlockExpectedButNotFound { block: highest_pc.block },
                            ));
                        },
                    };
                    ProposerAction::ProduceBlock {
                        parent_block: Some(highest_pc.block),
                        child_height: parent_height + 1,
                        justify: highest_pc,
                    }
                }
            },
            _ => ProposerAction::Nudge(Nudge { chain_id: self.config.chain_id, view: new_view, justify: highest_pc }),
        };
        Ok(EnterViewOutcome { new_view: new_view_msg, recipients, action })
    }

    /// The proposal of a new block for the current view: at `child_height`, justified by
    /// `justify`, with the data and data hash that the app produced.
    pub fn new_proposal(
        &self,
        child_height: BlockHeight,
        justify: QuorumCertificate,
        data_hash: CryptoHash,
        data: Vec<Vec<u8>>,
    ) -> (p: Proposal)
        requires
            justify@.signatures.len() <= u32::MAX,
        ensures
            p.chain_id == self.chain_id(),
            p.view == self.view_spec(),
            p.block.height == child_height,
            p.block@.justify == justify@,
            p.block.data_hash == data_hash,
            p.block.data == data,
            p.block@.hash == crate::block::block_hash(child_height, justify@, data_hash@),
    {
        let block = Block::new(child_height, justify, data_hash, data);
        Proposal { chain_id: self.config.chain_id, view: self.view, block }
    }
}


/// Whether `after` is `before` with, at most, the highest view voted in changed.
pub open spec fn same_but_voted(before: &BlockTree, after: &BlockTree) -> bool {
    &&& after.wf()
    &&& after.view_entered() == before.view_entered()
    &&& after.locked() == before.locked()
    &&& after.highest() == before.highest()
    &&& after.committed_block() == before.committed_block()
    &&& after.committed_chain_view() == before.committed_chain_view()
    &&& after.app_state_view() == before.app_state_view()
    &&& after.vs_state() == before.vs_state()
    &&& after.newest() == before.newest()
    &&& forall|h: Seq<u8>| after.has_block(h) == before.has_block(h) && after.block_of(h) == before.block_of(h)
}

/// Whether `after` is `before` with `block` inserted (see [`BlockTree::insert`]).
pub open spec fn inserted(before: &BlockTree, after: &BlockTree, block: crate::block::BlockView) -> bool {
    &&& after.wf()
    &&& after.has_block(block.hash)
    &&& after.block_of(block.hash) == block
    &&& forall|h: Seq<u8>| h != block.hash ==> after.has_block(h) == before.has_block(h)
        && (before.has_block(h) ==> after.block_of(h) == before.block_of(h))
    &&& after.newest() == Some(block.hash)
    &&& after.locked() == before.locked()
    &&& after.highest() == before.highest()
    &&& after.committed_block() == before.committed_block()
    &&& after.committed_chain_view() == before.committed_chain_view()
    &&& after.app_state_view() == before.app_state_view()
    &&& after.vs_state() == before.vs_state()
    &&& after.view_entered() == before.view_entered()
    &&& after.view_voted() == before.view_voted()
}

/// Whether, after the tree was updated to `after` by `justify` and the replica (with key `me`,
/// secret `keypair`, in `view` of `chain_id`, having last voted in `voted`) then voted or not for
/// `block` in `vote_phase`, `vote` and `after`'s highest view voted are as the rules say.
pub open spec fn voted_as_due(
    vote: Option<(PhaseVote, VerifyingKeyBytes)>,
    after: &BlockTree,
    me: Seq<u8>,
    keypair: Seq<u8>,
    chain_id: ChainID,
    view: ViewNumber,
    justify_phase: Phase,
    voted: Option<ViewNumber>,
    block: Seq<u8>,
    vote_phase: Phase,
) -> bool {
    if should_vote(me, after.vs_state(), justify_phase, voted, view) {
        &&& vote matches Some(v)
        &&& is_vote_for(v, keypair, chain_id, view, block, vote_phase, after.vs_state())
        &&& after.view_voted() == Some(view)
    } else {
        vote is None && after.view_voted() == voted
    }
}

impl HotStuff {
    /// Vote for `block` in `vote_phase`, for a proposal or nudge justified by `justify`, if the replica is a voter for it and has not voted in its view yet.
    fn vote_if_due(&self, block_tree: &mut BlockTree, justify: &QuorumCertificate, block: CryptoHash, vote_phase: Phase)
        -> (v: Option<(PhaseVote, VerifyingKeyBytes)>)
        requires
            self.wf(),
            old(block_tree).wf(),
            self.view_spec() < u64::MAX,
            recipient_set(vote_phase, old(block_tree).vs_state()) == voting_set(justify.phase, old(block_tree).vs_state()),
        ensures
            same_but_voted(old(block_tree), final(block_tree)),
            voted_as_due(v, final(block_tree), self.me(), self.keypair(), self.chain_id(), self.view_spec(),
                justify.phase, old(block_tree).view_voted(), block@, vote_phase),
    {
        let is_voter = is_phase_voter(&self.my_key, block_tree.validator_set_state(), justify);
        let not_voted = match block_tree.highest_view_phase_voted() {
            Some(v) => v < self.view,
            None => true,
        };
        if !(is_voter && not_voted) {
            return None;
        }
        let vote = PhaseVote::new(&self.config.keypair, self.config.chain_id, self.view, block, vote_phase);
        let recipient = phase_vote_recipient(&vote, block_tree.validator_set_state());
        block_tree.set_highest_view_phase_voted(self.view);
        Some((vote, recipient))
    }

    /// Update the block tree with `justify`, then the vote collectors with the resulting
    /// validator set state.
    fn update_with(&mut self, justify: &QuorumCertificate, block_tree: &mut BlockTree) -> (r: Result<UpdateOutcome, HotStuffError>)
        requires
            old(self).wf(),
            old(block_tree).wf(),
        ensures
            final(self).wf(),
            final(self).chain_id() == old(self).chain_id(),
            final(self).keypair() == old(self).keypair(),
            final(self).view_spec() == old(self).view_spec(),
            final(self).status() == old(self).status(),
            final(block_tree).wf(),
            match r {
                Ok(o) => {
                    &&& update_effects(old(block_tree), final(block_tree), justify@, o)
                    &&& final(block_tree).view_entered() == old(block_tree).view_entered()
                    &&& final(block_tree).view_voted() == old(block_tree).view_voted()
                    &&& final(self).collectors().tracks(final(block_tree).vs_state())
                },
                Err(_) => *final(block_tree) == *old(block_tree) && final(self).collectors() == old(self).collectors(),
            },
            r is Err <==> update_fails(old(block_tree), justify@),
    {
        match block_tree.update(justify) {
            Ok(o) => {
                self.phase_vote_collectors.update_validator_sets(block_tree.validator_set_state());
                Ok(o)
            },
            Err(e) => Err(HotStuffError::BlockTreeError(e)),
        }
    }

    /// Check a proposal from a leader of the current view: its block must be correct and safe.
    /// A proposal that fails is the leader's one proposal of the view.
    pub fn on_receive_proposal(&mut self, proposal: &Proposal, origin: &VerifyingKeyBytes, block_tree: &BlockTree) -> (b: bool)
        requires
            old(self).wf(),
            block_tree.wf(),
        ensures
            final(self).wf(),
            final(self).chain_id() == old(self).chain_id(),
            final(self).keypair() == old(self).keypair(),
            final(self).view_spec() == old(self).view_spec(),
            final(self).collectors() == old(self).collectors(),
            b == (block_correct_spec(block_tree, proposal.block@) && safe_block_spec(block_tree, proposal.block@.justify, old(self).chain_id())),
            b ==> final(self).status() == old(self).status(),
            !b ==> final(self).status() == status_after(old(self).status(), *origin),
    {
        if !proposal.block.is_correct(block_tree) || !safe_block(&proposal.block, block_tree, self.config.chain_id) {
            self.proposal_status.record(origin);
            return false;
        }
        true
    }

    /// Handle the app's `response` to the validation of the block of `proposal` (which passed
    /// [`Self::on_receive_proposal`]): insert a valid block with its updates, update the block
    /// tree with its justify, and vote for it if due (a `Prepare` vote for a block that updates the
    /// validator set, else a `Generic` one). Either way the leader is heard.
    pub fn on_validated_proposal(
        &mut self,
        proposal: &Proposal,
        origin: &VerifyingKeyBytes,
        block_tree: &mut BlockTree,
        response: ValidateBlockResponse,
    ) -> (r: Result<Processed, HotStuffError>)
        requires
            old(self).wf(),
            old(block_tree).wf(),
            old(self).view_spec() < u64::MAX,
            proposal.block@.justify.block_justify(),
        ensures
            final(self).wf(),
            final(self).chain_id() == old(self).chain_id(),
            final(self).keypair() == old(self).keypair(),
            final(self).view_spec() == old(self).view_spec(),
            final(block_tree).wf(),
            match r {
                Ok(p) => {
                    &&& final(self).status() == status_after(old(self).status(), *origin)
                    &&& p.collected is None
                    &&& match response {
                        ValidateBlockResponse::Invalid => {
                            &&& p.update is None
                            &&& p.vote is None
                            &&& *final(block_tree) == *old(block_tree)
                        },
                        ValidateBlockResponse::Valid { app_state_updates, validator_set_updates } => {
                            &&& p.update matches Some(o)
                            &&& exists|mid: BlockTree| inserted(old(block_tree), &mid, proposal.block@)
                                && #[trigger] update_effects(&mid, final(block_tree), proposal.block@.justify, o)
                                && !update_fails(&mid, proposal.block@.justify)
                            &&& final(block_tree).view_entered() == old(block_tree).view_entered()
                            &&& final(self).collectors().tracks(final(block_tree).vs_state())
                            &&& voted_as_due(p.vote, final(block_tree), old(self).me(), old(self).keypair(),
                                old(self).chain_id(), old(self).view_spec(), proposal.block@.justify.phase,
                                old(block_tree).view_voted(), proposal.block@.hash,
                                if validator_set_updates is Some { Phase::Prepare } else { Phase::Generic })
                        },
                    }
                },
                Err(_) => {
                    &&& final(self).status() == old(self).status()
                    &&& response is Valid
                    &&& exists|mid: BlockTree| #[trigger] inserted(old(block_tree), &mid, proposal.block@)
                        && *final(block_tree) == mid && update_fails(&mid, proposal.block@.justify)
                },
            },
    {
        match response {
            ValidateBlockResponse::Valid { app_state_updates, validator_set_updates } => {
                block_tree.insert(&proposal.block, app_state_updates.as_ref(), validator_set_updates.as_ref());
                let ghost mid = *block_tree;
                let o = match self.update_with(&proposal.block.justify, block_tree) {
                    Ok(o) => o,
                    Err(e) => {
                        proof {
                            assert(inserted(old(block_tree), &mid, proposal.block@));
                        }
                        return Err(e);
                    },
                };
                let vote_phase = if validator_set_updates.is_some() {
                    Phase::Prepare
                } else {
                    Phase::Generic
                };
                let ghost before_vote = *block_tree;
                let vote = self.vote_if_due(block_tree, &proposal.block.justify, proposal.block.hash, vote_phase);
                proof {
                    assert(inserted(old(block_tree), &mid, proposal.block@));
                    assert(update_effects(&mid, &before_vote, proposal.block@.justify, o));
                    assert(update_effects(&mid, final(block_tree), proposal.block@.justify, o));
                }
                self.proposal_status.record(origin);
                Ok(Processed { update: Some(o), vote, collected: None })
            },
            ValidateBlockResponse::Invalid => {
                self.proposal_status.record(origin);
                Ok(Processed { update: None, vote: None, collected: None })
            },
        }
    }
}


/// What handling a nudge from `origin` does (see [`HotStuff::on_receive_nudge`]).
pub open spec fn nudge_handled(
    before: HotStuff,
    after: HotStuff,
    bt0: &BlockTree,
    bt1: &BlockTree,
    nudge: Nudge,
    origin: VerifyingKeyBytes,
    r: Result<Processed, HotStuffError>,
) -> bool {
    let j = nudge.justify@;
    let checks = is_correct_spec(bt0, j) && safe_nudge_spec(bt0, j, nudge.chain_id, before.view_spec(), before.chain_id());
    &&& (r is Err) == (checks && update_fails(bt0, j))
    &&& match r {
        Ok(p) => {
            &&& after.status() == status_after(before.status(), origin)
            &&& p.collected is None
            &&& (!checks ==> p.update is None && p.vote is None && *bt1 == *bt0 && after.collectors() == before.collectors())
            &&& (checks ==> (p.update matches Some(o)
                && update_effects(bt0, bt1, j, o)
                && bt1.view_entered() == bt0.view_entered()
                && after.collectors().tracks(bt1.vs_state())
                && voted_as_due(p.vote, bt1, before.me(), before.keypair(), before.chain_id(), before.view_spec(),
                    j.phase, bt0.view_voted(), j.block, nudge_vote_phase(j.phase))))
        },
        Err(_) => *bt1 == *bt0 && after.status() == before.status(),
    }
}

/// The phase of a vote cast on a nudge follows its justify's phase in the order Prepare,
/// Precommit, Commit, Decide: a Prepare justify gives a Precommit vote, a Precommit justify a
/// Commit vote, and a Commit justify a Decide vote; no other justify gives a vote. The vote is for
/// the justify's block, in the replica's view.
pub proof fn lemma_nudge_vote_is_next_phase(
    before: HotStuff,
    after: HotStuff,
    bt0: &BlockTree,
    bt1: &BlockTree,
    nudge: Nudge,
    origin: VerifyingKeyBytes,
    r: Result<Processed, HotStuffError>,
)
    requires
        nudge_handled(before, after, bt0, bt1, nudge, origin, r),
    ensures
        r matches Ok(p) ==> (p.vote matches Some(v) ==> {
            &&& nudge.justify@.phase == Phase::Prepare || nudge.justify@.phase == Phase::Precommit
                || nudge.justify@.phase == Phase::Commit
            &&& nudge.justify@.phase == Phase::Prepare ==> v.0.phase == Phase::Precommit
            &&& nudge.justify@.phase == Phase::Precommit ==> v.0.phase == Phase::Commit
            &&& nudge.justify@.phase == Phase::Commit ==> v.0.phase == Phase::Decide
            &&& v.0.block@ == nudge.justify@.block
            &&& v.0.view == before.view_spec()
        }),
{
}

/// What handling a phase vote from `signer` does (see [`HotStuff::on_receive_phase_vote`]).
pub open spec fn phase_vote_handled(
    before: HotStuff,
    after: HotStuff,
    bt0: &BlockTree,
    bt1: &BlockTree,
    vote: PhaseVote,
    signer: VerifyingKeyBytes,
    r: Result<Processed, HotStuffError>,
) -> bool {
    &&& after.status() == before.status()
    &&& match r {
        Ok(p) => {
            &&& p.vote is None
            &&& (!crate::crypto::ed25519_verify(signer@, vote.message(), vote.signature@) ==> p.collected is None
                && after.collectors() == before.collectors())
            &&& (p.collected matches Some(qc) ==> qc@.chain_id == vote.chain_id && qc@.chain_id == before.chain_id()
                && qc@.view == vote.view && qc@.view == before.view_spec()
                && qc@.block == vote.block@ && qc@.phase == vote.phase)
            &&& (p.update is None ==> *bt1 == *bt0)
            &&& (p.update matches Some(o) ==> (p.collected matches Some(qc)
                && is_correct_spec(bt0, qc@) && safe_pc_spec(bt0, qc@, before.chain_id())
                && update_effects(bt0, bt1, qc@, o)
                && bt1.view_entered() == bt0.view_entered()
                && bt1.view_voted() == bt0.view_voted()
                && after.collectors().tracks(bt1.vs_state())))
            &&& ((p.collected matches Some(qc) && is_correct_spec(bt0, qc@)
                && safe_pc_spec(bt0, qc@, before.chain_id())) ==> p.update is Some)
            &&& (p.update is Some ==> !update_fails(bt0, p.collected->0@))
            &&& (crate::crypto::ed25519_verify(signer@, vote.message(), vote.signature@) ==>
                exists|mid: PhaseVoteCollectors| #[trigger] collects(before.collectors(), mid, signer@, vote, p.collected)
                    && (p.update is None ==> after.collectors() == mid))
        },
        Err(_) => {
            &&& *bt1 == *bt0
            &&& crate::crypto::ed25519_verify(signer@, vote.message(), vote.signature@)
            &&& exists|mid: PhaseVoteCollectors, qc: QuorumCertificate|
                #[trigger] collects(before.collectors(), mid, signer@, vote, Some(qc))
                && after.collectors() == mid
                && is_correct_spec(bt0, qc@) && safe_pc_spec(bt0, qc@, before.chain_id())
                && update_fails(bt0, qc@)
        },
    }
}

/// What handling a `NewView` message does (see [`HotStuff::on_receive_new_view`]).
pub open spec fn new_view_handled(
    before: HotStuff,
    after: HotStuff,
    bt0: &BlockTree,
    bt1: &BlockTree,
    new_view: NewView,
    r: Result<Processed, HotStuffError>,
) -> bool {
    let j = new_view.highest_pc@;
    let checks = is_correct_spec(bt0, j) && safe_pc_spec(bt0, j, before.chain_id());
    &&& after.status() == before.status()
    &&& (r is Err) == (checks && update_fails(bt0, j))
    &&& match r {
        Ok(p) => {
            &&& p.vote is None
            &&& p.collected is None
            &&& (!checks ==> p.update is None && *bt1 == *bt0 && after.collectors() == before.collectors())
            &&& (checks ==> (p.update matches Some(o)
                && update_effects(bt0, bt1, j, o)
                && bt1.view_entered() == bt0.view_entered()
                && bt1.view_voted() == bt0.view_voted()
                && after.collectors().tracks(bt1.vs_state())))
        },
        Err(_) => *bt1 == *bt0,
    }
}

/// The outcome of a message handler as an outcome of [`HotStuff::on_receive_msg`].
pub open spec fn as_received(r: Result<Processed, HotStuffError>) -> Result<ReceiveOutcome, HotStuffError> {
    match r {
        Ok(p) => Ok(ReceiveOutcome::Processed(p)),
        Err(e) => Err(e),
    }
}

impl HotStuff {
    /// Handle a nudge from a leader of the current view: if its justify is correct and safe,
    /// update the block tree with it and vote for the next phase if due. Either way the leader is
    /// heard.
    pub fn on_receive_nudge(&mut self, nudge: &Nudge, origin: &VerifyingKeyBytes, block_tree: &mut BlockTree) -> (r: Result<Processed, HotStuffError>)
        requires
            old(self).wf(),
            old(block_tree).wf(),
            old(self).view_spec() < u64::MAX,
        ensures
            final(self).wf(),
            final(self).chain_id() == old(self).chain_id(),
            final(self).keypair() == old(self).keypair(),
            final(self).view_spec() == old(self).view_spec(),
            final(block_tree).wf(),
            nudge_handled(*old(self), *final(self), old(block_tree), final(block_tree), *nudge, *origin, r),
            r matches Ok(p) ==> (p.vote matches Some(v) ==> {
                &&& nudge.justify@.phase == Phase::Prepare ==> v.0.phase == Phase::Precommit
                &&& nudge.justify@.phase == Phase::Precommit ==> v.0.phase == Phase::Commit
                &&& nudge.justify@.phase == Phase::Commit ==> v.0.phase == Phase::Decide
            }),
    {
        if !nudge.justify.is_correct(block_tree) || !safe_nudge(nudge, self.view, block_tree, self.config.chain_id) {
            self.proposal_status.record(origin);
            return Ok(Processed { update: None, vote: None, collected: None });
        }
        let o = match self.update_with(&nudge.justify, block_tree) {
            Ok(o) => o,
            Err(e) => {
                return Err(e);
            },
        };
        let vote_phase = match nudge.justify.phase {
            Phase::Prepare => Phase::Precommit,
            Phase::Precommit => Phase::Commit,
            _ => Phase::Decide,
        };
        let ghost mid = *block_tree;
        let vote = self.vote_if_due(block_tree, &nudge.justify, nudge.justify.block, vote_phase);
        proof {
            assert(update_effects(old(block_tree), &mid, nudge.justify@, o));
            assert(update_effects(old(block_tree), final(block_tree), nudge.justify@, o));
        }
        self.proposal_status.record(origin);
        Ok(Processed { update: Some(o), vote, collected: None })
    }

    /// Handle a phase vote from `signer`: collect it if its signature is correct; a certificate
    /// that it completes updates the block tree if the certificate is correct and safe.
    pub fn on_receive_phase_vote(&mut self, vote: &PhaseVote, signer: &VerifyingKeyBytes, block_tree: &mut BlockTree) -> (r: Result<Processed, HotStuffError>)
        requires
            old(self).wf(),
            old(block_tree).wf(),
        ensures
            final(self).wf(),
            final(self).chain_id() == old(self).chain_id(),
            final(self).keypair() == old(self).keypair(),
            final(self).view_spec() == old(self).view_spec(),
            final(self).status() == old(self).status(),
            final(block_tree).wf(),
            phase_vote_handled(*old(self), *final(self), old(block_tree), final(block_tree), *vote, *signer, r),
    {
        if !vote.is_correct(signer) {
            return Ok(Processed { update: None, vote: None, collected: None });
        }
        let collected = self.phase_vote_collectors.collect(signer, vote);
        match collected {
            None => Ok(Processed { update: None, vote: None, collected: None }),
            Some(pc) => {
                if !pc.is_correct(block_tree) || !safe_pc(&pc, block_tree, self.config.chain_id) {
                    return Ok(Processed { update: None, vote: None, collected: Some(pc) });
                }
                match self.update_with(&pc, block_tree) {
                    Ok(o) => Ok(Processed { update: Some(o), vote: None, collected: Some(pc) }),
                    Err(e) => Err(e),
                }
            },
        }
    }

    /// Handle a `NewView` message: its highest certificate updates the block tree if it is
    /// correct and safe.
    pub fn on_receive_new_view(&mut self, new_view: &NewView, origin: &VerifyingKeyBytes, block_tree: &mut BlockTree) -> (r: Result<Processed, HotStuffError>)
        requires
            old(self).wf(),
            old(block_tree).wf(),
        ensures
            final(self).wf(),
            final(self).chain_id() == old(self).chain_id(),
            final(self).keypair() == old(self).keypair(),
            final(self).view_spec() == old(self).view_spec(),
            final(self).status() == old(self).status(),
            final(block_tree).wf(),
            new_view_handled(*old(self), *final(self), old(block_tree), final(block_tree), *new_view, r),
    {
        if new_view.highest_pc.is_correct(block_tree) && safe_pc(&new_view.highest_pc, block_tree, self.config.chain_id) {
            match self.update_with(&new_view.highest_pc, block_tree) {
                Ok(o) => Ok(Processed { update: Some(o), vote: None, collected: None }),
                Err(e) => Err(e),
            }
        } else {
            Ok(Processed { update: None, vote: None, collected: None })
        }
    }

    /// Handle a message of the current view from `origin`. A proposal or nudge is taken only from
    /// a proposer of the view that has not been heard yet, while not every leader has been heard;
    /// a proposal that is taken and passes its checks goes to the app for validation.
    pub fn on_receive_msg(&mut self, msg: HotStuffMessage, origin: &VerifyingKeyBytes, block_tree: &mut BlockTree) -> (r: Result<ReceiveOutcome, HotStuffError>)
        requires
            old(self).wf(),
            old(block_tree).wf(),
            old(block_tree).vs_state().committed().keys().len() > 0,
            old(block_tree).vs_state().previous().keys().len() > 0,
            old(self).view_spec() < u64::MAX,
        ensures
            final(self).wf(),
            final(self).chain_id() == old(self).chain_id(),
            final(self).keypair() == old(self).keypair(),
            final(self).view_spec() == old(self).view_spec(),
            final(block_tree).wf(),
            ({
                let heard = is_proposer_spec(origin@, old(self).view_spec(), old(block_tree).vs_state())
                    && still_accepting(old(self).status(), origin@);
                match msg {
                    HotStuffMessage::Proposal(p) => {
                        &&& *final(block_tree) == *old(block_tree)
                        &&& final(self).collectors() == old(self).collectors()
                        &&& r matches Ok(o)
                        &&& (!heard ==> o is Ignored && final(self).status() == old(self).status())
                        &&& (heard && !(block_correct_spec(old(block_tree), p.block@)
                            && safe_block_spec(old(block_tree), p.block@.justify, old(self).chain_id()))
                            ==> o is Ignored && final(self).status() == status_after(old(self).status(), *origin))
                        &&& (heard && block_correct_spec(old(block_tree), p.block@)
                            && safe_block_spec(old(block_tree), p.block@.justify, old(self).chain_id())
                            ==> (o matches ReceiveOutcome::ValidateBlock(q) && q == p
                            && final(self).status() == old(self).status()))
                    },
                    HotStuffMessage::Nudge(n) => {
                        &&& (!heard ==> (r matches Ok(o) && o is Ignored && *final(block_tree) == *old(block_tree)
                            && final(self).status() == old(self).status()))
                        &&& (heard ==> exists|r2: Result<Processed, HotStuffError>| #[trigger] as_received(r2) == r
                            && nudge_handled(*old(self), *final(self), old(block_tree), final(block_tree), n, *origin, r2))
                    },
                    HotStuffMessage::PhaseVote(v) => exists|r2: Result<Processed, HotStuffError>| #[trigger] as_received(r2) == r
                        && phase_vote_handled(*old(self), *final(self), old(block_tree), final(block_tree), v, *origin, r2),
                    HotStuffMessage::NewView(nv) => exists|r2: Result<Processed, HotStuffError>| #[trigger] as_received(r2) == r
                        && new_view_handled(*old(self), *final(self), old(block_tree), final(block_tree), nv, r2),
                }
            }),
    {
        let heard = match &msg {
            HotStuffMessage::Proposal(_) | HotStuffMessage::Nudge(_) => {
                is_proposer(origin, self.view, block_tree.validator_set_state())
                    && !self.proposal_status.has_one_leader_proposed(origin)
                    && !self.proposal_status.have_all_leaders_proposed()
            },
            _ => true,
        };
        match msg {
            HotStuffMessage::Proposal(proposal) => {
                if !heard {
                    return Ok(ReceiveOutcome::Ignored);
                }
                if self.on_receive_proposal(&proposal, origin, block_tree) {
                    Ok(ReceiveOutcome::ValidateBlock(proposal))
                } else {
                    Ok(ReceiveOutcome::Ignored)
                }
            },
            HotStuffMessage::Nudge(nudge) => {
                if !heard {
                    return Ok(ReceiveOutcome::Ignored);
                }
                let r2 = self.on_receive_nudge(&nudge, origin, block_tree);
                let ghost g2 = r2;
                let result = match r2 {
                    Ok(p) => Ok(ReceiveOutcome::Processed(p)),
                    Err(e) => Err(e),
                };
                assert(as_received(g2) == result);
                result
            },
            HotStuffMessage::PhaseVote(vote) => {
                let r2 = self.on_receive_phase_vote(&vote, origin, block_tree);
                let ghost g2 = r2;
                let result = match r2 {
                    Ok(p) => Ok(ReceiveOutcome::Processed(p)),
                    Err(e) => Err(e),
                };
                assert(as_received(g2) == result);
                result
            },
            HotStuffMessage::NewView(new_view) => {
                let r2 = self.on_receive_new_view(&new_view, origin, block_tree);
                let ghost g2 = r2;
                let result = match r2 {
                    Ok(p) => Ok(ReceiveOutcome::Processed(p)),
                    Err(e) => Err(e),
                };
                assert(as_received(g2) == result);
                result
            },
        }
    }
}


/// A leader whose proposal or nudge was handled is not heard again in the same view.
pub proof fn lemma_leader_heard_once(s: ProposalStatus, origin: VerifyingKeyBytes)
    ensures
        !still_accepting(status_after(s, origin), origin@),
{
}

/// At most two leaders are heard in a view: after two proposals or nudges, none is taken.
pub proof fn lemma_at_most_two_leaders(a: VerifyingKeyBytes, b: VerifyingKeyBytes, c: Seq<u8>)
    ensures
        !still_accepting(status_after(status_after(ProposalStatus::WaitingForProposal, a), b), c),
{
}

/// A replica that has voted in a view does not vote in it again.
pub proof fn lemma_one_vote_per_view(me: Seq<u8>, s: ValidatorSetState, justify_phase: Phase, view: ViewNumber)
    ensures
        !should_vote(me, s, justify_phase, Some(view), view),
{
}

} // verus!
