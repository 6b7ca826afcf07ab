//! Types specific to the HotStuff subprotocol: phases, signature sets and quorum certificates.

use vstd::prelude::*;

use crate::block_tree::BlockTree;
use crate::crypto::{ed25519_verify, verify_signature, vote_bytes, vote_message_bytes};
use crate::types::{bytes32_eq, bytes64_eq, ChainID, CryptoHash, Power, SignatureBytes, TotalPower, ViewNumber};
use crate::validator_set::{applied_spec, lemma_sum_powers_bounds, lemma_sum_powers_prefix, quorum_of, sum_powers, ValidatorSet, ValidatorSetUpdatesStatus};

verus! {

/// Voting phase in the HotStuff subprotocol.
///
/// `Generic` is used by the pipelined mode; `Prepare`, `Precommit`, `Commit` and `Decide` are used
/// by the phased mode, which commits validator-set-updating blocks.
#[derive(Clone, Copy, PartialEq, Eq, Structural, Debug)]
pub enum Phase {
    Generic,
    Prepare,
    Precommit,
    Commit,
    Decide,
}

impl Phase {
    pub fn is_generic(self) -> (b: bool)
        ensures
            b == (self == Phase::Generic),
    {
        self == Phase::Generic
    }

    pub fn is_prepare(self) -> (b: bool)
        ensures
            b == (self == Phase::Prepare),
    {
        self == Phase::Prepare
    }

    pub fn is_precommit(self) -> (b: bool)
        ensures
            b == (self == Phase::Precommit),
    {
        matches!(self, Phase::Precommit)
    }

    pub fn is_commit(self) -> (b: bool)
        ensures
            b == (self == Phase::Commit),
    {
        matches!(self, Phase::Commit)
    }

    pub fn is_decide(self) -> (b: bool)
        ensures
            b == (self == Phase::Decide),
    {
        matches!(self, Phase::Decide)
    }

    /// The byte that identifies the phase on the wire (the variant's position).
    pub open spec fn tag(self) -> u8 {
        match self {
            Phase::Generic => 0,
            Phase::Prepare => 1,
            Phase::Precommit => 2,
            Phase::Commit => 3,
            Phase::Decide => 4,
        }
    }

    /// The byte that identifies the phase on the wire.
    pub fn wire_tag(self) -> (t: u8)
        ensures
            t == self.tag(),
    {
        match self {
            Phase::Generic => 0,
            Phase::Prepare => 1,
            Phase::Precommit => 2,
            Phase::Commit => 3,
            Phase::Decide => 4,
        }
    }
}

/// A set of optional signatures, one slot for each member of a validator set, in the order of the
/// validator set.
pub struct SignatureSet {
    pub signatures: Vec<Option<SignatureBytes>>,
}

/// The mathematical value of an optional signature.
pub open spec fn opt_sig_view(s: Option<SignatureBytes>) -> Option<Seq<u8>> {
    match s {
        Some(b) => Some(b@),
        None => None,
    }
}

impl View for SignatureSet {
    type V = Seq<Option<Seq<u8>>>;

    open spec fn view(&self) -> Seq<Option<Seq<u8>>> {
        self.signatures@.map_values(|s: Option<SignatureBytes>| opt_sig_view(s))
    }
}

impl SignatureSet {
    /// An empty signature set with no slots.
    pub fn init() -> (s: SignatureSet)
        ensures
            s@ == Seq::<Option<Seq<u8>>>::empty(),
    {
        let s = SignatureSet { signatures: Vec::new() };
        assert(s@ =~= Seq::<Option<Seq<u8>>>::empty());
        s
    }

    /// A signature set with `len` empty slots.
    pub fn new(len: usize) -> (s: SignatureSet)
        ensures
            s@ == Seq::new(len as nat, |i: int| None::<Seq<u8>>),
    {
        let mut signatures: Vec<Option<SignatureBytes>> = Vec::new();
        let mut i: usize = 0;
        while i < len
            invariant
                i <= len,
                signatures@.len() == i,
                forall|j: int| 0 <= j < i ==> signatures@[j] is None,
            decreases len - i,
        {
            signatures.push(None);
            i = i + 1;
        }
        let s = SignatureSet { signatures };
        assert(s@ =~= Seq::new(len as nat, |i: int| None::<Seq<u8>>));
        s
    }

    pub fn len(&self) -> (n: usize)
        ensures
            n == self@.len(),
    {
        self.signatures.len()
    }

    /// The signature in slot `pos`.
    pub fn get(&self, pos: usize) -> (s: Option<SignatureBytes>)
        requires
            pos < self@.len(),
        ensures
            opt_sig_view(s) == self@[pos as int],
    {
        self.signatures[pos]
    }

    /// Put `signature` into slot `pos`.
    pub fn set(&mut self, pos: usize, signature: Option<SignatureBytes>)
        requires
            pos < old(self)@.len(),
        ensures
            final(self)@ == old(self)@.update(pos as int, opt_sig_view(signature)),
    {
        self.signatures.set(pos, signature);
        assert(self@ =~= old(self)@.update(pos as int, opt_sig_view(signature)));
    }

    /// The number of slots that hold a signature.
    pub fn count_some(&self) -> (n: usize)
        ensures
            n == count_present(self@),
    {
        let mut n: usize = 0;
        let mut i: usize = 0;
        while i < self.signatures.len()
            invariant
                i <= self.signatures@.len(),
                n == count_present(self@.take(i as int)),
                n <= i,
            decreases self.signatures@.len() - i,
        {
            assert(self@.take(i as int + 1).drop_last() =~= self@.take(i as int));
            if self.signatures[i].is_some() {
                n = n + 1;
            }
            i = i + 1;
        }
        assert(self@.take(i as int) =~= self@);
        n
    }

    /// Whether the two sets hold the same signatures in the same slots.
    pub fn same_as(&self, other: &SignatureSet) -> (eq: bool)
        ensures
            eq == (self@ == other@),
    {
        if self.signatures.len() != other.signatures.len() {
            assert(self@.len() != other@.len());
            return false;
        }
        let mut i: usize = 0;
        while i < self.signatures.len()
            invariant
                i <= self.signatures@.len(),
                self.signatures@.len() == other.signatures@.len(),
                forall|j: int| 0 <= j < i ==> self@[j] == other@[j],
            decreases self.signatures@.len() - i,
        {
            let same = match (&self.signatures[i], &other.signatures[i]) {
                (Some(a), Some(b)) => bytes64_eq(a, b),
                (None, None) => true,
                _ => false,
            };
            if !same {
                assert(self@[i as int] != other@[i as int]);
                return false;
            }
            i = i + 1;
        }
        assert(self@ =~= other@);
        true
    }
}

/// The number of present signatures in a sequence of slots.
pub open spec fn count_present(s: Seq<Option<Seq<u8>>>) -> nat
    decreases s.len(),
{
    if s.len() == 0 {
        0
    } else {
        count_present(s.drop_last()) + if s.last() is Some { 1nat } else { 0nat }
    }
}

/// Proof that at least a quorum of validators have voted for a specific proposal or nudge in a
/// given `phase`.
pub struct QuorumCertificate {
    pub chain_id: ChainID,
    pub view: ViewNumber,
    pub block: CryptoHash,
    pub phase: Phase,
    pub signatures: SignatureSet,
}

/// The mathematical value of a quorum certificate.
pub struct QcView {
    pub chain_id: ChainID,
    pub view: ViewNumber,
    pub block: Seq<u8>,
    pub phase: Phase,
    pub signatures: Seq<Option<Seq<u8>>>,
}

impl View for QuorumCertificate {
    type V = QcView;

    open spec fn view(&self) -> QcView {
        QcView {
            chain_id: self.chain_id,
            view: self.view,
            block: self.block@,
            phase: self.phase,
            signatures: self.signatures@,
        }
    }
}

/// The all-zero hash, which the genesis certificate points to.
pub open spec fn zero_hash() -> Seq<u8> {
    Seq::new(32, |i: int| 0u8)
}

/// The genesis certificate: chain 0, view 0, the all-zero block, `Generic`, no signatures.
pub open spec fn genesis_qc_view() -> QcView {
    QcView {
        chain_id: 0,
        view: 0,
        block: zero_hash(),
        phase: Phase::Generic,
        signatures: Seq::empty(),
    }
}

impl QcView {
    /// A block can be justified by a `Generic` or a `Decide` certificate.
    pub open spec fn block_justify(self) -> bool {
        self.phase == Phase::Generic || self.phase == Phase::Decide
    }

    /// A nudge can be justified by a `Prepare`, `Precommit` or `Commit` certificate.
    pub open spec fn nudge_justify(self) -> bool {
        self.phase == Phase::Prepare || self.phase == Phase::Precommit || self.phase == Phase::Commit
    }

    pub open spec fn is_genesis(self) -> bool {
        self == genesis_qc_view()
    }
}

impl Clone for SignatureSet {
    fn clone(&self) -> (s: Self)
        ensures
            s@ == self@,
    {
        SignatureSet { signatures: self.signatures.clone() }
    }
}

impl Clone for QuorumCertificate {
    fn clone(&self) -> (qc: Self)
        ensures
            qc@ == self@,
    {
        QuorumCertificate {
            chain_id: self.chain_id,
            view: self.view,
            block: self.block,
            phase: self.phase,
            signatures: self.signatures.clone(),
        }
    }
}

impl QuorumCertificate {
    pub fn genesis_qc() -> (qc: QuorumCertificate)
        ensures
            qc@ == genesis_qc_view(),
    {
        let qc = QuorumCertificate {
            chain_id: 0,
            view: 0,
            block: [0u8; 32],
            phase: Phase::Generic,
            signatures: SignatureSet::init(),
        };
        assert(qc@.block =~= zero_hash());
        qc
    }

    /// Whether the two certificates are equal in every field.
    pub fn same_as(&self, other: &QuorumCertificate) -> (eq: bool)
        ensures
            eq == (self@ == other@),
    {
        self.chain_id == other.chain_id && self.view == other.view && bytes32_eq(&self.block, &other.block)
            && self.phase == other.phase && self.signatures.same_as(&other.signatures)
    }

    pub fn is_genesis_qc(&self) -> (b: bool)
        ensures
            b == self@.is_genesis(),
    {
        let genesis = Self::genesis_qc();
        self.same_as(&genesis)
    }

    pub fn is_block_justify(&self) -> (b: bool)
        ensures
            b == self@.block_justify(),
    {
        self.phase.is_generic() || self.phase.is_decide()
    }

    pub fn is_nudge_justify(&self) -> (b: bool)
        ensures
            b == self@.nudge_justify(),
    {
        self.phase.is_prepare() || self.phase.is_precommit() || self.phase.is_commit()
    }
}

/// The total power of the validators whose signature slots hold a signature.
pub open spec fn signed_power(sigs: Seq<Option<Seq<u8>>>, powers: Seq<Power>) -> int
    decreases sigs.len(),
{
    if sigs.len() == 0 {
        0
    } else {
        signed_power(sigs.drop_last(), powers) + if sigs.last() is Some {
            powers[sigs.len() - 1] as int
        } else {
            0
        }
    }
}

proof fn lemma_signed_power_bounded(sigs: Seq<Option<Seq<u8>>>, powers: Seq<Power>)
    requires
        sigs.len() <= powers.len(),
    ensures
        0 <= signed_power(sigs, powers) <= sum_powers(powers.take(sigs.len() as int)),
    decreases sigs.len(),
{
    if sigs.len() > 0 {
        lemma_signed_power_bounded(sigs.drop_last(), powers);
        lemma_sum_powers_prefix(powers, sigs.len() - 1);
    }
}

/// The total power of the validators whose slots hold a signature in both `a` and `b`.
pub open spec fn common_signed_power(a: Seq<Option<Seq<u8>>>, b: Seq<Option<Seq<u8>>>, powers: Seq<Power>) -> int
    decreases a.len(),
{
    if a.len() == 0 || b.len() == 0 {
        0
    } else {
        common_signed_power(a.drop_last(), b.drop_last(), powers) + if a.last() is Some && b.last() is Some {
            powers[a.len() - 1] as int
        } else {
            0
        }
    }
}

proof fn lemma_signed_power_inclusion_exclusion(a: Seq<Option<Seq<u8>>>, b: Seq<Option<Seq<u8>>>, powers: Seq<Power>)
    requires
        a.len() == b.len(),
        a.len() <= powers.len(),
    ensures
        signed_power(a, powers) + signed_power(b, powers)
            <= sum_powers(powers.take(a.len() as int)) + common_signed_power(a, b, powers),
    decreases a.len(),
{
    if a.len() > 0 {
        lemma_signed_power_inclusion_exclusion(a.drop_last(), b.drop_last(), powers);
        lemma_sum_powers_prefix(powers, a.len() - 1);
    }
}

/// Quorum intersection: two certificates signed by quorums of the same validator set have
/// signers in common whose power is more than a third of the set's total power. Since at most a
/// third of the power is faulty, some correct validator signed both.
pub proof fn lemma_quorum_intersection(a: Seq<Option<Seq<u8>>>, b: Seq<Option<Seq<u8>>>, powers: Seq<Power>)
    requires
        a.len() == powers.len(),
        b.len() == powers.len(),
        signed_power(a, powers) >= quorum_of(sum_powers(powers)),
        signed_power(b, powers) >= quorum_of(sum_powers(powers)),
    ensures
        3 * common_signed_power(a, b, powers) > sum_powers(powers),
{
    lemma_signed_power_inclusion_exclusion(a, b, powers);
    assert(powers.take(a.len() as int) =~= powers);
    let t = sum_powers(powers);
    lemma_sum_powers_bounds(powers);
    assert(3 * (t * 2 / 3 + 1) > 2 * t) by (nonlinear_arith)
        requires
            t >= 0,
    ;
}

/// Whether every signature of `qc` is a valid signature by the validator in its slot of the
/// validator set `(keys, powers)`, there is one slot per validator, and the signers' power is a
/// quorum.
pub open spec fn correctly_signed_by(qc: QcView, keys: Seq<Seq<u8>>, powers: Seq<Power>) -> bool {
    &&& qc.signatures.len() == keys.len()
    &&& forall|i: int| 0 <= i < qc.signatures.len() && (#[trigger] qc.signatures[i]) is Some
        ==> ed25519_verify(keys[i], vote_bytes(qc.chain_id, qc.view, qc.block, qc.phase.tag()), qc.signatures[i]->0)
    &&& signed_power(qc.signatures, powers) >= quorum_of(sum_powers(powers))
}

/// The validator set (keys and powers) that a certificate must be signed by, given the block
/// tree; `None` where no validator set can sign it (a phased-mode certificate for a block without
/// validator set updates, or a `Generic` certificate for the latest validator-set-updating block).
pub open spec fn certificate_signers(bt: &BlockTree, qc: QcView) -> Option<(Seq<Seq<u8>>, Seq<Power>)> {
    let vss = bt.vs_state();
    let committed = (vss.committed().keys(), vss.committed().power_seq());
    let previous = (vss.previous().keys(), vss.previous().power_seq());
    if !bt.has_block(qc.block) || vss.height_of_update() is None {
        Some(committed)
    } else {
        let h = bt.block_of(qc.block).height;
        let u = vss.height_of_update()->0;
        if h < u {
            Some(previous)
        } else if h > u {
            Some(committed)
        } else {
            match qc.phase {
                Phase::Decide => if bt.updates_committed(qc.block) {
                    Some(committed)
                } else if bt.pending_vs(qc.block) is Some {
                    Some(applied_spec(committed.0, committed.1, bt.pending_vs(qc.block)->0))
                } else {
                    None
                },
                Phase::Prepare | Phase::Precommit | Phase::Commit => if bt.updates_committed(qc.block) {
                    Some(previous)
                } else if bt.pending_vs(qc.block) is Some {
                    Some(committed)
                } else {
                    None
                },
                Phase::Generic => None,
            }
        }
    }
}

/// Whether a certificate is correct: it is the genesis certificate, or it is correctly signed by
/// the validator set that [`certificate_signers`] picks.
pub open spec fn is_correct_spec(bt: &BlockTree, qc: QcView) -> bool {
    qc.is_genesis() || (certificate_signers(bt, qc) matches Some(kp) && correctly_signed_by(qc, kp.0, kp.1))
}

/// Which validator set a certificate other than genesis must be signed by, read off the height of
/// its block: the committed validator set when the block is not in the tree, when no validator
/// set update was committed, or when the block is above the height of the last update; the
/// previous validator set when the block is below it.
pub proof fn lemma_signers_by_height(bt: &BlockTree, qc: QcView)
    requires
        !qc.is_genesis(),
    ensures
        !bt.has_block(qc.block) || bt.vs_state().height_of_update() is None ==> is_correct_spec(bt, qc)
            == correctly_signed_by(qc, bt.vs_state().committed().keys(), bt.vs_state().committed().power_seq()),
        bt.has_block(qc.block) && bt.vs_state().height_of_update() is Some
            && bt.block_of(qc.block).height > bt.vs_state().height_of_update()->0 ==> is_correct_spec(bt, qc)
            == correctly_signed_by(qc, bt.vs_state().committed().keys(), bt.vs_state().committed().power_seq()),
        bt.has_block(qc.block) && bt.vs_state().height_of_update() is Some
            && bt.block_of(qc.block).height < bt.vs_state().height_of_update()->0 ==> is_correct_spec(bt, qc)
            == correctly_signed_by(qc, bt.vs_state().previous().keys(), bt.vs_state().previous().power_seq()),
        bt.has_block(qc.block) && bt.vs_state().height_of_update() is Some
            && bt.block_of(qc.block).height == bt.vs_state().height_of_update()->0 ==> {
            let vss = bt.vs_state();
            &&& qc.phase == Phase::Generic ==> !is_correct_spec(bt, qc)
            &&& qc.phase != Phase::Generic && qc.phase != Phase::Decide && bt.updates_committed(qc.block)
                ==> is_correct_spec(bt, qc) == correctly_signed_by(qc, vss.previous().keys(), vss.previous().power_seq())
            &&& qc.phase != Phase::Generic && qc.phase != Phase::Decide && !bt.updates_committed(qc.block)
                && bt.pending_vs(qc.block) is Some
                ==> is_correct_spec(bt, qc) == correctly_signed_by(qc, vss.committed().keys(), vss.committed().power_seq())
            &&& qc.phase == Phase::Decide && bt.updates_committed(qc.block)
                ==> is_correct_spec(bt, qc) == correctly_signed_by(qc, vss.committed().keys(), vss.committed().power_seq())
            &&& qc.phase == Phase::Decide && !bt.updates_committed(qc.block) && bt.pending_vs(qc.block) is Some
                ==> is_correct_spec(bt, qc) == {
                    let n = applied_spec(vss.committed().keys(), vss.committed().power_seq(), bt.pending_vs(qc.block)->0);
                    correctly_signed_by(qc, n.0, n.1)
                }
            &&& !bt.updates_committed(qc.block) && bt.pending_vs(qc.block) is None ==> !is_correct_spec(bt, qc)
        },
{
}

/// A certificate is correctly signed by a validator set exactly when it has one slot per
/// validator, every signature in it verifies under the key of its slot over the certificate's
/// vote, and the signers hold more than two thirds of the set's power.
pub proof fn lemma_correctly_signed_is_supermajority(qc: QcView, keys: Seq<Seq<u8>>, powers: Seq<Power>)
    ensures
        correctly_signed_by(qc, keys, powers) == {
            &&& qc.signatures.len() == keys.len()
            &&& forall|i: int| 0 <= i < qc.signatures.len() && (#[trigger] qc.signatures[i]) is Some
                ==> ed25519_verify(keys[i], vote_bytes(qc.chain_id, qc.view, qc.block, qc.phase.tag()), qc.signatures[i]->0)
            &&& 3 * signed_power(qc.signatures, powers) > 2 * sum_powers(powers)
        },
{
    let sp = signed_power(qc.signatures, powers);
    let t = sum_powers(powers);
    lemma_sum_powers_bounds(powers);
    assert(sp >= t * 2 / 3 + 1 <==> 3 * sp > 2 * t) by (nonlinear_arith)
        requires
            t >= 0,
    ;
}

impl QuorumCertificate {
    /// Whether every signature in the certificate is correct, there is one slot per member of
    /// `validator_set`, and the signers form a quorum of it.
    pub fn is_correctly_signed(&self, validator_set: &ValidatorSet) -> (b: bool)
        requires
            validator_set.wf(),
        ensures
            b == correctly_signed_by(self@, validator_set.keys(), validator_set.power_seq()),
    {
        if self.signatures.len() != validator_set.len() {
            return false;
        }
        let message = vote_message_bytes(self.chain_id, self.view, &self.block, self.phase.wire_tag());
        let ghost sigs = self.signatures@;
        let ghost powers = validator_set.power_seq();
        let mut total_power: TotalPower = 0;
        let mut i: usize = 0;
        while i < self.signatures.signatures.len()
            invariant
                validator_set.wf(),
                sigs == self.signatures@,
                powers == validator_set.power_seq(),
                sigs.len() == validator_set.keys().len(),
                message@ == vote_bytes(self.chain_id, self.view, self.block@, self.phase.tag()),
                i <= sigs.len(),
                total_power == signed_power(sigs.take(i as int), powers),
                forall|j: int| 0 <= j < i && (#[trigger] sigs[j]) is Some
                    ==> ed25519_verify(validator_set.keys()[j], message@, sigs[j]->0),
            decreases sigs.len() - i,
        {
            assert(sigs.take(i as int + 1).drop_last() =~= sigs.take(i as int));
            proof {
                validator_set.lemma_wf_facts();
                lemma_signed_power_bounded(sigs.take(i as int), powers);
                lemma_sum_powers_bounds(powers.take(i as int));
                assert(powers.take(i as int).len() == i);
                assert((i + 1) * (u64::MAX as int) <= u128::MAX) by (nonlinear_arith)
                    requires
                        i < usize::MAX,
                ;
            }
            match self.signatures.signatures[i] {
                Some(signature) => {
                    let signer = validator_set.key_at(i);
                    if verify_signature(&signer, message.as_slice(), &signature) {
                        total_power = total_power + validator_set.power_at(i) as u128;
                    } else {
                        assert(sigs[i as int] is Some);
                        return false;
                    }
                },
                None => {},
            }
            i = i + 1;
        }
        assert(sigs.take(i as int) =~= sigs);
        total_power >= validator_set.quorum()
    }

    /// Whether the certificate is correct given the block tree: the genesis certificate always is;
    /// any other must be correctly signed by the validator set that [`certificate_signers`] picks.
    pub fn is_correct(&self, block_tree: &BlockTree) -> (b: bool)
        requires
            block_tree.wf(),
        ensures
            b == is_correct_spec(block_tree, self@),
            self@.is_genesis() ==> b,
            !self@.is_genesis() && (!block_tree.has_block(self@.block) || block_tree.vs_state().height_of_update() is None)
                ==> b == correctly_signed_by(self@, block_tree.vs_state().committed().keys(),
                    block_tree.vs_state().committed().power_seq()),
            !self@.is_genesis() && block_tree.has_block(self@.block) && block_tree.vs_state().height_of_update() is Some
                && block_tree.block_of(self@.block).height > block_tree.vs_state().height_of_update()->0
                ==> b == correctly_signed_by(self@, block_tree.vs_state().committed().keys(),
                    block_tree.vs_state().committed().power_seq()),
            !self@.is_genesis() && block_tree.has_block(self@.block) && block_tree.vs_state().height_of_update() is Some
                && block_tree.block_of(self@.block).height < block_tree.vs_state().height_of_update()->0
                ==> b == correctly_signed_by(self@, block_tree.vs_state().previous().keys(),
                    block_tree.vs_state().previous().power_seq()),
    {
        proof {
            if !self@.is_genesis() {
                lemma_signers_by_height(block_tree, self@);
            }
        }
        if self.is_genesis_qc() {
            return true;
        }
        let block_height = block_tree.block_height(&self.block);
        let validator_set_state = block_tree.validator_set_state();
        match (block_height, validator_set_state.update_height()) {
            (None, _) | (Some(_), None) => self.is_correctly_signed(validator_set_state.committed_validator_set()),
            (Some(height), Some(update_height)) => {
                if height < update_height {
                    self.is_correctly_signed(validator_set_state.previous_validator_set())
                } else if height > update_height {
                    self.is_correctly_signed(validator_set_state.committed_validator_set())
                } else {
                    match self.phase {
                        Phase::Decide => match block_tree.validator_set_updates_status(&self.block) {
                            ValidatorSetUpdatesStatus::Committed => self.is_correctly_signed(
                                validator_set_state.committed_validator_set(),
                            ),
                            ValidatorSetUpdatesStatus::Pending(vs_updates) => {
                                let mut new_validator_set = block_tree.committed_validator_set().clone();
                                new_validator_set.apply_updates(&vs_updates);
                                proof {
                                    assert(vs_updates.inserts@ == block_tree.pending_vs(self@.block)->0.inserts@);
                                    assert(vs_updates.deletes@ == block_tree.pending_vs(self@.block)->0.deletes@);
                                }
                                self.is_correctly_signed(&new_validator_set)
                            },
                            ValidatorSetUpdatesStatus::NoUpdates => false,
                        },
                        Phase::Prepare | Phase::Precommit | Phase::Commit => {
                            match block_tree.validator_set_updates_status(&self.block) {
                                ValidatorSetUpdatesStatus::Committed => self.is_correctly_signed(
                                    validator_set_state.previous_validator_set(),
                                ),
                                ValidatorSetUpdatesStatus::Pending(_) => self.is_correctly_signed(
                                    validator_set_state.committed_validator_set(),
                                ),
                                ValidatorSetUpdatesStatus::NoUpdates => false,
                            }
                        },
                        Phase::Generic => false,
                    }
                }
            },
        }
    }
}

/// Incrementally forms a [`QuorumCertificate`] by collecting the votes, for the same chain id and
/// view, of the members of a validator set, separately for each (block, phase) pair.
pub struct VoteCollector {
    chain_id: ChainID,
    view: ViewNumber,
    validator_set: ValidatorSet,
    signature_sets: Vec<(CryptoHash, Phase, SignatureSet, TotalPower)>,
}

/// What collecting the vote of `signer` (with `signature`) for `block` in `phase` in `chain_id`
/// and `view` does to a collector `before`, leaving `after` and returning `r`: nothing for another
/// chain or view, a non-member, or a member whose vote for the pair is already in; else the vote
/// is added, and a certificate comes back (and the pair starts over) when it completes a quorum.
pub open spec fn collect_step(
    before: VoteCollector,
    after: VoteCollector,
    signer: Seq<u8>,
    chain_id: ChainID,
    view: ViewNumber,
    block: Seq<u8>,
    phase: Phase,
    signature: Seq<u8>,
    r: Option<QuorumCertificate>,
) -> bool {
    &&& after.chain_id_spec() == before.chain_id_spec()
    &&& after.view_spec() == before.view_spec()
    &&& after.validators() == before.validators()
    &&& forall|b: Seq<u8>, p: Phase| !(b == block && p == phase) ==> after.collected(b, p) == before.collected(b, p)
    &&& {
        let vs = before.validators();
        let prev = match before.collected(block, phase) {
            Some(s) => s,
            None => Seq::new(vs.keys().len(), |i: int| None::<Seq<u8>>),
        };
        if chain_id != before.chain_id_spec() || view != before.view_spec() || !vs.has(signer) {
            r is None && after.collected(block, phase) == before.collected(block, phase)
        } else {
            exists|pos: int| 0 <= pos < vs.keys().len() && #[trigger] vs.keys()[pos] == signer && {
                let next = prev.update(pos, Some(signature));
                if prev[pos] is Some {
                    r is None && after.collected(block, phase) == before.collected(block, phase)
                } else if signed_power(next, vs.power_seq()) >= quorum_of(vs.total()) {
                    &&& r is Some
                    &&& r->0@ == (QcView { chain_id, view, block, phase, signatures: next })
                    &&& after.collected(block, phase) is None
                } else {
                    r is None && after.collected(block, phase) == Some(next)
                }
            }
        }
    }
}

impl VoteCollector {
    pub closed spec fn chain_id_spec(&self) -> ChainID {
        self.chain_id
    }

    pub closed spec fn view_spec(&self) -> ViewNumber {
        self.view
    }

    pub closed spec fn validators(&self) -> ValidatorSet {
        self.validator_set
    }

    /// The signatures collected so far for `block` in `phase`, if any.
    pub closed spec fn collected(&self, block: Seq<u8>, phase: Phase) -> Option<Seq<Option<Seq<u8>>>> {
        if exists|i: int| 0 <= i < self.signature_sets@.len() && #[trigger] self.signature_sets@[i].0@ == block
            && self.signature_sets@[i].1 == phase {
            let i = choose|i: int| 0 <= i < self.signature_sets@.len() && #[trigger] self.signature_sets@[i].0@ == block
                && self.signature_sets@[i].1 == phase;
            Some(self.signature_sets@[i].2@)
        } else {
            None
        }
    }

    /// One signature set per (block, phase), each with one slot per validator, its power the
    /// signers' power, and short of a quorum.
    pub closed spec fn wf(&self) -> bool {
        &&& self.validator_set.wf()
        &&& forall|i: int, j: int| 0 <= i < j < self.signature_sets@.len() ==>
            !(self.signature_sets@[i].0@ == self.signature_sets@[j].0@ && self.signature_sets@[i].1 == self.signature_sets@[j].1)
        &&& forall|i: int| 0 <= i < self.signature_sets@.len() ==> {
            let e = #[trigger] self.signature_sets@[i];
            &&& e.2@.len() == self.validator_set.keys().len()
            &&& e.3 == signed_power(e.2@, self.validator_set.power_seq())
            &&& (e.3 as int) < quorum_of(self.validator_set.total())
        }
    }

    pub fn new(chain_id: ChainID, view: ViewNumber, validator_set: ValidatorSet) -> (c: VoteCollector)
        requires
            validator_set.wf(),
        ensures
            c.wf(),
            c.chain_id_spec() == chain_id,
            c.view_spec() == view,
            c.validators() == validator_set,
            forall|b: Seq<u8>, p: Phase| c.collected(b, p) is None,
    {
        VoteCollector { chain_id, view, validator_set, signature_sets: Vec::new() }
    }

    pub fn chain_id(&self) -> (c: ChainID)
        ensures
            c == self.chain_id_spec(),
    {
        self.chain_id
    }

    pub fn view(&self) -> (v: ViewNumber)
        ensures
            v == self.view_spec(),
    {
        self.view
    }

    pub fn validator_set(&self) -> (vs: &ValidatorSet)
        ensures
            *vs == self.validators(),
            self.wf() ==> vs.wf(),
    {
        &self.validator_set
    }

    /// Add the vote of `signer` for `block` in `phase` in the collector's chain and view. Returns a
    /// certificate when the vote completes a quorum for (`block`, `phase`), which then starts over.
    /// A vote for another chain or view, from a non-member, or from a member whose vote for the
    /// pair was already collected, changes nothing.
    pub fn collect(
        &mut self,
        signer: &crate::types::VerifyingKeyBytes,
        chain_id: ChainID,
        view: ViewNumber,
        block: &CryptoHash,
        phase: Phase,
        signature: &SignatureBytes,
    ) -> (r: Option<QuorumCertificate>)
        requires
            old(self).wf(),
        ensures
            final(self).wf(),
            collect_step(*old(self), *final(self), signer@, chain_id, view, block@, phase, signature@, r),
    {
        if self.chain_id != chain_id || self.view != view {
            return None;
        }
        let pos = match self.validator_set.position(signer) {
            Some(pos) => pos,
            None => {
                return None;
            },
        };
        proof {
            self.validator_set.lemma_wf_facts();
        }
        let idx = match self.find_set(block, phase) {
            Some(i) => i,
            None => {
                let fresh = SignatureSet::new(self.validator_set.len());
                let ghost before = self.signature_sets@;
                self.signature_sets.push((*block, phase, fresh, 0));
                proof {
                    lemma_signed_power_none(fresh@, self.validator_set.power_seq());
                    lemma_sum_powers_bounds(self.validator_set.power_seq());
                    self.lemma_push_fresh(old(self), before);
                }
                self.signature_sets.len() - 1
            },
        };
        let ghost mid = *self;
        proof {
            self.lemma_collected_at(idx as int);
        }
        let (b, ph, mut sigs, power) = self.signature_sets.remove(idx);
        let ghost removed = *self;
        if sigs.get(pos).is_some() {
            self.signature_sets.insert(idx, (b, ph, sigs, power));
            proof {
                assert(self.signature_sets@ =~= mid.signature_sets@);
            }
            return None;
        }
        let ghost prev = sigs@;
        sigs.set(pos, Some(*signature));
        let n_validators = self.validator_set.len();
        proof {
            lemma_signed_power_set(prev, self.validator_set.power_seq(), pos as int, signature@);
            lemma_signed_power_bounded(sigs@, self.validator_set.power_seq());
            assert(self.validator_set.power_seq().take(sigs@.len() as int) =~= self.validator_set.power_seq());
            lemma_sum_powers_bounds(self.validator_set.power_seq());
            let n = n_validators as int;
            assert(n * (u64::MAX as int) <= u128::MAX) by (nonlinear_arith)
                requires
                    0 <= n <= usize::MAX,
            ;
        }
        let new_power = power + self.validator_set.power_at(pos) as u128;
        if new_power >= self.validator_set.quorum() {
            let qc = QuorumCertificate { chain_id: self.chain_id, view: self.view, block: *block, phase, signatures: sigs };
            proof {
                self.lemma_after_remove(&mid, idx as int);
                assert(qc@.block == block@);
            }
            Some(qc)
        } else {
            self.signature_sets.insert(idx, (b, ph, sigs, new_power));
            proof {
                self.lemma_after_replace(&mid, idx as int);
            }
            None
        }
    }

    /// The position of the signature set for (`block`, `phase`), if there is one.
    fn find_set(&self, block: &CryptoHash, phase: Phase) -> (r: Option<usize>)
        requires
            self.wf(),
        ensures
            match r {
                Some(i) => i < self.signature_sets@.len() && self.signature_sets@[i as int].0@ == block@
                    && self.signature_sets@[i as int].1 == phase,
                None => self.collected(block@, phase) is None
                    && forall|j: int| 0 <= j < self.signature_sets@.len() ==>
                        !(#[trigger] self.signature_sets@[j].0@ == block@ && self.signature_sets@[j].1 == phase),
            },
    {
        let mut idx: usize = 0;
        while idx < self.signature_sets.len()
            invariant
                idx <= self.signature_sets@.len(),
                forall|j: int| 0 <= j < idx ==> !(#[trigger] self.signature_sets@[j].0@ == block@ && self.signature_sets@[j].1 == phase),
            decreases self.signature_sets@.len() - idx,
        {
            if bytes32_eq(&self.signature_sets[idx].0, block) && self.signature_sets[idx].1 == phase {
                return Some(idx);
            }
            idx = idx + 1;
        }
        None
    }

    proof fn lemma_collected_at(&self, i: int)
        requires
            self.wf(),
            0 <= i < self.signature_sets@.len(),
        ensures
            self.collected(self.signature_sets@[i].0@, self.signature_sets@[i].1) == Some(self.signature_sets@[i].2@),
    {
        let b = self.signature_sets@[i].0@;
        let p = self.signature_sets@[i].1;
        assert(self.signature_sets@[i].0@ == b);
        let j = choose|j: int| 0 <= j < self.signature_sets@.len() && #[trigger] self.signature_sets@[j].0@ == b
            && self.signature_sets@[j].1 == p;
        if j < i {
            assert(!(self.signature_sets@[j].0@ == self.signature_sets@[i].0@ && self.signature_sets@[j].1 == self.signature_sets@[i].1));
        } else if i < j {
            assert(!(self.signature_sets@[i].0@ == self.signature_sets@[j].0@ && self.signature_sets@[i].1 == self.signature_sets@[j].1));
        }
    }

    /// After a fresh set for a new (block, phase) is pushed, every other pair's set is unchanged.
    proof fn lemma_push_fresh(&self, old_c: &VoteCollector, before: Seq<(CryptoHash, Phase, SignatureSet, TotalPower)>)
        requires
            old_c.wf(),
            before == old_c.signature_sets@,
            self.validator_set == old_c.validator_set,
            self.signature_sets@.len() == before.len() + 1,
            forall|j: int| 0 <= j < before.len() ==> self.signature_sets@[j] == before[j],
            forall|j: int| 0 <= j < before.len() ==> !(#[trigger] before[j].0@ == self.signature_sets@[before.len() as int].0@
                && before[j].1 == self.signature_sets@[before.len() as int].1),
            ({
                let e = self.signature_sets@[before.len() as int];
                &&& e.2@.len() == self.validator_set.keys().len()
                &&& e.3 == signed_power(e.2@, self.validator_set.power_seq())
                &&& (e.3 as int) < quorum_of(self.validator_set.total())
            }),
        ensures
            self.wf(),
            forall|b: Seq<u8>, p: Phase| !(b == self.signature_sets@[before.len() as int].0@ && p == self.signature_sets@[before.len() as int].1)
                ==> self.collected(b, p) == old_c.collected(b, p),
    {
        let n = before.len() as int;
        assert forall|a: int, c: int| 0 <= a < c < self.signature_sets@.len() implies
            !(self.signature_sets@[a].0@ == self.signature_sets@[c].0@ && self.signature_sets@[a].1 == self.signature_sets@[c].1) by {
            assert(self.signature_sets@[a] == before[a]);
            if c < n {
                assert(self.signature_sets@[c] == before[c]);
            }
        }
        assert forall|a: int| 0 <= a < self.signature_sets@.len() implies {
            let e = #[trigger] self.signature_sets@[a];
            &&& e.2@.len() == self.validator_set.keys().len()
            &&& e.3 == signed_power(e.2@, self.validator_set.power_seq())
            &&& (e.3 as int) < quorum_of(self.validator_set.total())
        } by {
            if a < n {
                assert(self.signature_sets@[a] == before[a]);
            }
        }
        assert forall|b: Seq<u8>, p: Phase| !(b == self.signature_sets@[n].0@ && p == self.signature_sets@[n].1)
            implies self.collected(b, p) == old_c.collected(b, p) by {
            if exists|i: int| 0 <= i < self.signature_sets@.len() && #[trigger] self.signature_sets@[i].0@ == b
                && self.signature_sets@[i].1 == p {
                let i = choose|i: int| 0 <= i < self.signature_sets@.len() && #[trigger] self.signature_sets@[i].0@ == b
                    && self.signature_sets@[i].1 == p;
                assert(i < n);
                self.lemma_collected_at(i);
                assert(old_c.signature_sets@[i] == self.signature_sets@[i]);
                old_c.lemma_collected_at(i);
            } else {
                assert forall|i: int| 0 <= i < old_c.signature_sets@.len() implies
                    !(#[trigger] old_c.signature_sets@[i].0@ == b && old_c.signature_sets@[i].1 == p) by {
                    assert(self.signature_sets@[i] == old_c.signature_sets@[i]);
                }
            }
        }
    }

    /// After the set at `i` of `mid` is removed, every other pair's set is unchanged and the pair
    /// at `i` has none.
    proof fn lemma_after_remove(&self, mid: &VoteCollector, i: int)
        requires
            mid.wf(),
            0 <= i < mid.signature_sets@.len(),
            self.validator_set == mid.validator_set,
            self.chain_id == mid.chain_id,
            self.view == mid.view,
            self.signature_sets@ == mid.signature_sets@.remove(i),
        ensures
            self.wf(),
            self.collected(mid.signature_sets@[i].0@, mid.signature_sets@[i].1) is None,
            forall|b: Seq<u8>, p: Phase| !(b == mid.signature_sets@[i].0@ && p == mid.signature_sets@[i].1)
                ==> self.collected(b, p) == mid.collected(b, p),
    {
        let kb = mid.signature_sets@[i].0@;
        let kp = mid.signature_sets@[i].1;
        assert forall|a: int, c: int| 0 <= a < c < self.signature_sets@.len() implies
            !(self.signature_sets@[a].0@ == self.signature_sets@[c].0@ && self.signature_sets@[a].1 == self.signature_sets@[c].1) by {
            let a2 = if a < i { a } else { a + 1 };
            let c2 = if c < i { c } else { c + 1 };
            assert(self.signature_sets@[a] == mid.signature_sets@[a2]);
            assert(self.signature_sets@[c] == mid.signature_sets@[c2]);
        }
        assert forall|a: int| 0 <= a < self.signature_sets@.len() implies {
            let e = #[trigger] self.signature_sets@[a];
            &&& e.2@.len() == self.validator_set.keys().len()
            &&& e.3 == signed_power(e.2@, self.validator_set.power_seq())
            &&& (e.3 as int) < quorum_of(self.validator_set.total())
        } by {
            let a2 = if a < i { a } else { a + 1 };
            assert(self.signature_sets@[a] == mid.signature_sets@[a2]);
        }
        assert forall|j: int| 0 <= j < self.signature_sets@.len() implies
            !(#[trigger] self.signature_sets@[j].0@ == kb && self.signature_sets@[j].1 == kp) by {
            let j2 = if j < i { j } else { j + 1 };
            assert(self.signature_sets@[j] == mid.signature_sets@[j2]);
            assert(j2 != i);
        }
        assert forall|b: Seq<u8>, p: Phase| !(b == kb && p == kp) implies self.collected(b, p) == mid.collected(b, p) by {
            if exists|j: int| 0 <= j < self.signature_sets@.len() && #[trigger] self.signature_sets@[j].0@ == b
                && self.signature_sets@[j].1 == p {
                let j = choose|j: int| 0 <= j < self.signature_sets@.len() && #[trigger] self.signature_sets@[j].0@ == b
                    && self.signature_sets@[j].1 == p;
                let j2 = if j < i { j } else { j + 1 };
                assert(self.signature_sets@[j] == mid.signature_sets@[j2]);
                self.lemma_collected_at(j);
                mid.lemma_collected_at(j2);
            } else {
                assert forall|j: int| 0 <= j < mid.signature_sets@.len() implies
                    !(#[trigger] mid.signature_sets@[j].0@ == b && mid.signature_sets@[j].1 == p) by {
                    if j != i {
                        let j1 = if j < i { j } else { j - 1 };
                        assert(self.signature_sets@[j1] == mid.signature_sets@[j]);
                    }
                }
            }
        }
    }

    /// After the set at `i` of `mid` is replaced by one for the same pair, every other pair's set
    /// is unchanged.
    proof fn lemma_after_replace(&self, mid: &VoteCollector, i: int)
        requires
            mid.wf(),
            0 <= i < mid.signature_sets@.len(),
            self.validator_set == mid.validator_set,
            self.signature_sets@.len() == mid.signature_sets@.len(),
            forall|j: int| 0 <= j < mid.signature_sets@.len() && j != i ==> self.signature_sets@[j] == mid.signature_sets@[j],
            self.signature_sets@[i].0 == mid.signature_sets@[i].0,
            self.signature_sets@[i].1 == mid.signature_sets@[i].1,
            ({
                let e = self.signature_sets@[i];
                &&& e.2@.len() == self.validator_set.keys().len()
                &&& e.3 == signed_power(e.2@, self.validator_set.power_seq())
                &&& (e.3 as int) < quorum_of(self.validator_set.total())
            }),
        ensures
            self.wf(),
            self.collected(mid.signature_sets@[i].0@, mid.signature_sets@[i].1) == Some(self.signature_sets@[i].2@),
            forall|b: Seq<u8>, p: Phase| !(b == mid.signature_sets@[i].0@ && p == mid.signature_sets@[i].1)
                ==> self.collected(b, p) == mid.collected(b, p),
    {
        let kb = mid.signature_sets@[i].0@;
        let kp = mid.signature_sets@[i].1;
        assert forall|a: int, c: int| 0 <= a < c < self.signature_sets@.len() implies
            !(self.signature_sets@[a].0@ == self.signature_sets@[c].0@ && self.signature_sets@[a].1 == self.signature_sets@[c].1) by {
            assert(self.signature_sets@[a].0 == mid.signature_sets@[a].0 && self.signature_sets@[a].1 == mid.signature_sets@[a].1);
            assert(self.signature_sets@[c].0 == mid.signature_sets@[c].0 && self.signature_sets@[c].1 == mid.signature_sets@[c].1);
        }
        assert forall|a: int| 0 <= a < self.signature_sets@.len() implies {
            let e = #[trigger] self.signature_sets@[a];
            &&& e.2@.len() == self.validator_set.keys().len()
            &&& e.3 == signed_power(e.2@, self.validator_set.power_seq())
            &&& (e.3 as int) < quorum_of(self.validator_set.total())
        } by {
            if a != i {
                assert(self.signature_sets@[a] == mid.signature_sets@[a]);
            }
        }
        self.lemma_collected_at(i);
        assert forall|b: Seq<u8>, p: Phase| !(b == kb && p == kp) implies self.collected(b, p) == mid.collected(b, p) by {
            if exists|j: int| 0 <= j < self.signature_sets@.len() && #[trigger] self.signature_sets@[j].0@ == b
                && self.signature_sets@[j].1 == p {
                let j = choose|j: int| 0 <= j < self.signature_sets@.len() && #[trigger] self.signature_sets@[j].0@ == b
                    && self.signature_sets@[j].1 == p;
                assert(j != i);
                self.lemma_collected_at(j);
                mid.lemma_collected_at(j);
            } else {
                assert forall|j: int| 0 <= j < mid.signature_sets@.len() implies
                    !(#[trigger] mid.signature_sets@[j].0@ == b && mid.signature_sets@[j].1 == p) by {
                    if j != i {
                        assert(self.signature_sets@[j] == mid.signature_sets@[j]);
                    }
                }
            }
        }
    }
}

/// A signature set with no signatures has no signed power.
pub proof fn lemma_signed_power_none(sigs: Seq<Option<Seq<u8>>>, powers: Seq<Power>)
    requires
        forall|i: int| 0 <= i < sigs.len() ==> sigs[i] is None,
    ensures
        signed_power(sigs, powers) == 0,
    decreases sigs.len(),
{
    if sigs.len() > 0 {
        lemma_signed_power_none(sigs.drop_last(), powers);
    }
}

/// Filling an empty slot adds that slot's power to the signed power.
pub proof fn lemma_signed_power_set(sigs: Seq<Option<Seq<u8>>>, powers: Seq<Power>, pos: int, sig: Seq<u8>)
    requires
        0 <= pos < sigs.len(),
        sigs[pos] is None,
    ensures
        signed_power(sigs.update(pos, Some(sig)), powers) == signed_power(sigs, powers) + powers[pos],
    decreases sigs.len(),
{
    let s2 = sigs.update(pos, Some(sig));
    if pos == sigs.len() - 1 {
        assert(s2.drop_last() =~= sigs.drop_last());
    } else {
        assert(s2.drop_last() =~= sigs.drop_last().update(pos, Some(sig)));
        lemma_signed_power_set(sigs.drop_last(), powers, pos, sig);
    }
}


/// Every certificate justifies either blocks or nudges, and never both.
pub proof fn lemma_justify_kinds_partition(qc: QcView)
    ensures
        qc.block_justify() != qc.nudge_justify(),
{
}

} // verus!
