//! The roles that a replica plays in a view, given the validator set state: whether it is an
//! active validator, a proposer, a phase voter, and to whom its votes and new view messages go.

use vstd::prelude::*;

use crate::hotstuff::messages::{NewView, PhaseVote};
use crate::hotstuff::types::{Phase, QuorumCertificate};
use crate::types::{bytes32_eq, VerifyingKeyBytes, ViewNumber};
use crate::validator_set::{ValidatorSet, ValidatorSetState};

verus! {

/// The key of the leader of `view` in `vs`: the validators take turns in the set's order.
pub open spec fn leader_of(view: int, vs: ValidatorSet) -> Seq<u8> {
    vs.keys()[view % (vs.keys().len() as int)]
}

/// Whether `replica` is an active validator: a member of the committed validator set, or of the
/// previous one while the latest update is not decided.
pub open spec fn is_validator_spec(replica: Seq<u8>, s: ValidatorSetState) -> bool {
    s.committed().has(replica) || (!s.decided() && s.previous().has(replica))
}

/// Whether `validator` proposes in `view`: it leads `view` in the committed validator set, or in
/// the previous one while the latest update is not decided.
pub open spec fn is_proposer_spec(validator: Seq<u8>, view: ViewNumber, s: ValidatorSetState) -> bool {
    validator == leader_of(view as int, s.committed())
        || (!s.decided() && validator == leader_of(view as int, s.previous()))
}

/// The validator set whose members' votes can extend a certificate of `phase`.
pub open spec fn voting_set(phase: Phase, s: ValidatorSetState) -> ValidatorSet {
    if s.decided() || phase == Phase::Commit {
        s.committed()
    } else {
        s.previous()
    }
}

/// The validator set whose leader of the next view receives a vote of `phase`.
pub open spec fn recipient_set(phase: Phase, s: ValidatorSetState) -> ValidatorSet {
    if s.decided() || phase == Phase::Decide {
        s.committed()
    } else {
        s.previous()
    }
}

/// The leader of `view` in `validator_set`: the validator at position `view` modulo the size of
/// the set.
pub fn select_leader(view: ViewNumber, validator_set: &ValidatorSet) -> (leader: VerifyingKeyBytes)
    requires
        validator_set.wf(),
        validator_set.keys().len() > 0,
    ensures
        leader@ == leader_of(view as int, *validator_set),
{
    let n = validator_set.len();
    let n64: u64 = n as u64;
    let idx: u64 = view % n64;
    validator_set.key_at(idx as usize)
}

/// Whether `replica` is an active validator under `validator_set_state`.
pub fn is_validator(replica: &VerifyingKeyBytes, validator_set_state: &ValidatorSetState) -> (b: bool)
    requires
        validator_set_state.wf(),
    ensures
        b == is_validator_spec(replica@, *validator_set_state),
{
    validator_set_state.committed_validator_set().contains(replica)
        || (!validator_set_state.update_decided() && validator_set_state.previous_validator_set().contains(replica))
}

/// Whether `validator` should propose or nudge in `view` under `validator_set_state`.
pub fn is_proposer(validator: &VerifyingKeyBytes, view: ViewNumber, validator_set_state: &ValidatorSetState) -> (b: bool)
    requires
        validator_set_state.wf(),
        validator_set_state.committed().keys().len() > 0,
        validator_set_state.previous().keys().len() > 0,
    ensures
        b == is_proposer_spec(validator@, view, *validator_set_state),
{
    let committed_leader = select_leader(view, validator_set_state.committed_validator_set());
    if bytes32_eq(validator, &committed_leader) {
        return true;
    }
    if validator_set_state.update_decided() {
        return false;
    }
    let previous_leader = select_leader(view, validator_set_state.previous_validator_set());
    bytes32_eq(validator, &previous_leader)
}

/// Whether `replica` should vote for the proposal or nudge that carries `justify`: whether it is
/// a member of the validator set whose votes can extend `justify`.
pub fn is_phase_voter(replica: &VerifyingKeyBytes, validator_set_state: &ValidatorSetState, justify: &QuorumCertificate) -> (b: bool)
    requires
        validator_set_state.wf(),
    ensures
        b == voting_set(justify.phase, *validator_set_state).has(replica@),
{
    if validator_set_state.update_decided() {
        validator_set_state.committed_validator_set().contains(replica)
    } else {
        match justify.phase {
            Phase::Commit => validator_set_state.committed_validator_set().contains(replica),
            _ => validator_set_state.previous_validator_set().contains(replica),
        }
    }
}

/// The leader that `phase_vote` goes to: the leader of the next view in the validator set that
/// receives votes of its phase.
pub fn phase_vote_recipient(phase_vote: &PhaseVote, validator_set_state: &ValidatorSetState) -> (leader: VerifyingKeyBytes)
    requires
        validator_set_state.wf(),
        recipient_set(phase_vote.phase, *validator_set_state).keys().len() > 0,
        phase_vote.view < u64::MAX,
    ensures
        leader@ == leader_of(phase_vote.view + 1, recipient_set(phase_vote.phase, *validator_set_state)),
{
    let next = phase_vote.view + 1;
    if validator_set_state.update_decided() {
        select_leader(next, validator_set_state.committed_validator_set())
    } else {
        match phase_vote.phase {
            Phase::Decide => select_leader(next, validator_set_state.committed_validator_set()),
            _ => select_leader(next, validator_set_state.previous_validator_set()),
        }
    }
}

/// The leaders that `new_view` goes to: the leader of the next view in the committed validator
/// set and, while the latest update is not decided, the leader of that view in the previous set.
pub fn new_view_recipients(new_view: &NewView, validator_set_state: &ValidatorSetState) -> (r: (VerifyingKeyBytes, Option<VerifyingKeyBytes>))
    requires
        validator_set_state.wf(),
        validator_set_state.committed().keys().len() > 0,
        validator_set_state.previous().keys().len() > 0,
        new_view.view < u64::MAX,
    ensures
        r.0@ == leader_of(new_view.view + 1, validator_set_state.committed()),
        validator_set_state.decided() ==> r.1 is None,
        !validator_set_state.decided() ==> r.1 is Some
            && r.1->0@ == leader_of(new_view.view + 1, validator_set_state.previous()),
{
    let next = new_view.view + 1;
    let committed_leader = select_leader(next, validator_set_state.committed_validator_set());
    if validator_set_state.update_decided() {
        (committed_leader, None)
    } else {
        (committed_leader, Some(select_leader(next, validator_set_state.previous_validator_set())))
    }
}

/// Every proposer is an active validator.
pub proof fn lemma_proposer_is_validator(validator: Seq<u8>, view: ViewNumber, s: ValidatorSetState)
    requires
        s.wf(),
        s.committed().keys().len() > 0,
        s.previous().keys().len() > 0,
        is_proposer_spec(validator, view, s),
    ensures
        is_validator_spec(validator, s),
{
    let c = s.committed().keys();
    let p = s.previous().keys();
    let ci = (view as int) % (c.len() as int);
    let pi = (view as int) % (p.len() as int);
    assert(0 <= ci < c.len());
    assert(0 <= pi < p.len());
    if validator == c[ci] {
        assert(c.contains(validator));
    } else {
        assert(p.contains(validator));
    }
}

/// Once the latest validator set update is decided, a view has one proposer only: the leader of
/// the view in the committed validator set.
pub proof fn lemma_one_proposer_when_decided(a: Seq<u8>, b: Seq<u8>, view: ViewNumber, s: ValidatorSetState)
    requires
        s.decided(),
        is_proposer_spec(a, view, s),
        is_proposer_spec(b, view, s),
    ensures
        a == b,
        a == leader_of(view as int, s.committed()),
{
}

} // verus!
