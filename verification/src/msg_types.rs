//! The certificates of the single-phase protocol over a static participant set: signature sets
//! ordered by participant, certificates over a view and a block hash, and the aggregator in which
//! a leader combines votes into a certificate. A participant set is given by its public keys in
//! ascending order.

use vstd::prelude::*;

use crate::crypto::{ed25519_sign, ed25519_verify, sign_message, u64_bytes, verify_signature};
use crate::hotstuff::types::zero_hash;
use crate::types::{bytes32_eq, CryptoHash, SignatureBytes, SigningKeyBytes, VerifyingKeyBytes, ViewNumber};

verus! {

/// The number of `Some`s in a sequence of optional signatures.
pub open spec fn somes(s: Seq<Option<SignatureBytes>>) -> nat
    decreases s.len(),
{
    if s.len() == 0 {
        0
    } else {
        somes(s.drop_last()) + if s.last() is Some { 1nat } else { 0nat }
    }
}

proof fn lemma_somes_bound(s: Seq<Option<SignatureBytes>>)
    ensures
        somes(s) <= s.len(),
    decreases s.len(),
{
    if s.len() > 0 {
        lemma_somes_bound(s.drop_last());
    }
}

proof fn lemma_somes_update(s: Seq<Option<SignatureBytes>>, i: int, sig: SignatureBytes)
    requires
        0 <= i < s.len(),
        s[i] is None,
    ensures
        somes(s.update(i, Some(sig))) == somes(s) + 1,
    decreases s.len(),
{
    let t = s.update(i, Some(sig));
    if i == s.len() - 1 {
        assert(t.drop_last() =~= s.drop_last());
    } else {
        assert(t.drop_last() =~= s.drop_last().update(i, Some(sig)));
        lemma_somes_update(s.drop_last(), i, sig);
    }
}

proof fn lemma_somes_none(s: Seq<Option<SignatureBytes>>)
    requires
        forall|i: int| 0 <= i < s.len() ==> s[i] is None,
    ensures
        somes(s) == 0,
    decreases s.len(),
{
    if s.len() > 0 {
        lemma_somes_none(s.drop_last());
    }
}

/// A signature set was asked to take a second signature in one slot.
pub struct AlreadyInsertedError;

/// Signatures in the order of the participants' keys, with a count of the filled slots.
pub struct SignatureSet {
    pub signatures: Vec<Option<SignatureBytes>>,
    pub count_some: usize,
}

impl SignatureSet {
    /// The count matches the filled slots.
    pub open spec fn wf(&self) -> bool {
        self.count_some == somes(self.signatures@)
    }

    /// A set of `len` empty slots.
    pub fn new(len: usize) -> (s: SignatureSet)
        ensures
            s.wf(),
            s.signatures@.len() == len,
            forall|i: int| 0 <= i < len ==> s.signatures@[i] is None,
            s.count_some == 0,
    {
        let mut signatures: Vec<Option<SignatureBytes>> = Vec::new();
        let mut i: usize = 0;
        while i < len
            invariant
                i <= len,
                signatures@.len() == i,
                forall|j: int| 0 <= j < i ==> signatures@[j] is None,
            decreases len - i,
        {
            signatures.push(None);
            i = i + 1;
        }
        proof {
            lemma_somes_none(signatures@);
        }
        SignatureSet { signatures, count_some: 0 }
    }

    /// Put `signature` in slot `index`; an error if the slot is filled already.
    pub fn insert(&mut self, index: usize, signature: SignatureBytes) -> (r: Result<(), AlreadyInsertedError>)
        requires
            old(self).wf(),
            index < old(self).signatures@.len(),
        ensures
            final(self).wf(),
            old(self).signatures@[index as int] is Some ==> r is Err && *final(self) == *old(self),
            old(self).signatures@[index as int] is None ==> r is Ok
                && final(self).signatures@ == old(self).signatures@.update(index as int, Some(signature))
                && final(self).count_some == old(self).count_some + 1,
    {
        if self.signatures[index].is_some() {
            return Err(AlreadyInsertedError);
        }
        let n = self.signatures.len();
        proof {
            lemma_somes_update(self.signatures@, index as int, signature);
            lemma_somes_bound(self.signatures@.update(index as int, Some(signature)));
            assert(self.count_some + 1 <= n);
        }
        self.signatures.set(index, Some(signature));
        self.count_some = self.count_some + 1;
        Ok(())
    }

    pub fn len(&self) -> (n: usize)
        ensures
            n == self.signatures@.len(),
    {
        self.signatures.len()
    }

    pub fn count_some(&self) -> (n: usize)
        ensures
            n == self.count_some,
    {
        self.count_some
    }

    /// Whether slot `index` is filled.
    pub fn contains(&self, index: usize) -> (b: bool)
        requires
            index < self.signatures@.len(),
        ensures
            b == (self.signatures@[index as int] is Some),
    {
        self.signatures[index].is_some()
    }
}

/// The size of a quorum of `n` participants: more than two thirds of them.
pub open spec fn quorum_size_spec(n: int) -> int {
    n * 2 / 3 + 1
}

/// The bytes that a vote over `view_number` and `block_hash` signs: the view's little-endian
/// bytes, then the hash.
pub open spec fn legacy_vote_bytes(view_number: ViewNumber, block_hash: Seq<u8>) -> Seq<u8> {
    u64_bytes(view_number) + block_hash
}

/// The little-endian bytes of `x`.
fn le_bytes_of(x: u64) -> (bs: Vec<u8>)
    ensures
        bs@ == u64_bytes(x),
{
    let mut bs: Vec<u8> = Vec::new();
    let mut cur: u64 = x;
    let mut i: usize = 0;
    while i < 8
        invariant
            i <= 8,
            bs@ + crate::crypto::le_bytes(cur as nat, (8 - i) as nat) == crate::crypto::le_bytes(x as nat, 8),
        decreases 8 - i,
    {
        proof {
            assert(crate::crypto::le_bytes(cur as nat, (8 - i) as nat)
                == seq![(cur as nat % 256) as u8] + crate::crypto::le_bytes(cur as nat / 256, (8 - i - 1) as nat));
            assert(bs@.push((cur % 256) as u8) + crate::crypto::le_bytes((cur / 256) as nat, (8 - i - 1) as nat)
                =~= bs@ + (seq![(cur as nat % 256) as u8] + crate::crypto::le_bytes(cur as nat / 256, (8 - i - 1) as nat)));
        }
        bs.push((cur % 256) as u8);
        cur = cur / 256;
        i = i + 1;
    }
    assert(crate::crypto::le_bytes(cur as nat, 0) =~= Seq::<u8>::empty());
    assert(bs@ + Seq::<u8>::empty() =~= bs@);
    bs
}

/// The bytes that a vote over `view_number` and `block_hash` signs.
fn vote_message(view_number: ViewNumber, block_hash: &CryptoHash) -> (bs: Vec<u8>)
    ensures
        bs@ == legacy_vote_bytes(view_number, block_hash@),
{
    let mut bs = le_bytes_of(view_number);
    let mut i: usize = 0;
    let ghost start = bs@;
    while i < 32
        invariant
            i <= 32,
            bs@ == start + block_hash@.take(i as int),
        decreases 32 - i,
    {
        bs.push(block_hash[i]);
        i = i + 1;
        assert(bs@ =~= start + block_hash@.take(i as int));
    }
    assert(block_hash@.take(32) =~= block_hash@);
    bs
}

/// A certificate: signatures of a quorum of participants over a view and a block hash.
pub struct QuorumCertificate {
    pub view_number: ViewNumber,
    pub block_hash: CryptoHash,
    pub sigs: SignatureSet,
}

/// Whether `sigs` holds, for each participant it pairs with (in order), either no signature or a
/// valid signature of that participant over `message`.
pub open spec fn all_signed_by(sigs: Seq<Option<SignatureBytes>>, participants: Seq<VerifyingKeyBytes>, message: Seq<u8>) -> bool {
    forall|i: int| 0 <= i < sigs.len() && i < participants.len() && (#[trigger] sigs[i]) is Some
        ==> ed25519_verify(participants[i]@, message, sigs[i]->0@)
}

/// Whether a certificate over `view_number` and `block_hash`, with signature slots `sigs` of which
/// `count` are filled, is valid for `participants`: at view 0, the genesis certificate; at any
/// other view, one slot per participant, a quorum of signatures, and every signature correct.
pub open spec fn qc_valid(
    view_number: ViewNumber,
    block_hash: Seq<u8>,
    sigs: Seq<Option<SignatureBytes>>,
    count: usize,
    participants: Seq<VerifyingKeyBytes>,
) -> bool {
    if view_number == 0 {
        &&& block_hash == zero_hash()
        &&& sigs.len() == participants.len()
        &&& forall|i: int| 0 <= i < sigs.len() ==> #[trigger] sigs[i] is None
        &&& count == 0
    } else {
        &&& sigs.len() == participants.len()
        &&& count >= quorum_size_spec(participants.len() as int)
        &&& all_signed_by(sigs, participants, legacy_vote_bytes(view_number, block_hash))
    }
}

impl QuorumCertificate {
    /// The size of a quorum of `num_participants` participants.
    pub fn quorum_size(num_participants: usize) -> (q: usize)
        requires
            num_participants * 2 <= usize::MAX,
        ensures
            q == quorum_size_spec(num_participants as int),
    {
        (num_participants * 2) / 3 + 1
    }

    /// The genesis certificate for `num_participants` participants: view 0, the all-zero block
    /// hash, and no signatures.
    pub fn genesis_qc(num_participants: usize) -> (qc: QuorumCertificate)
        ensures
            qc.view_number == 0,
            qc.block_hash@ == zero_hash(),
            qc.sigs.wf(),
            qc.sigs.signatures@.len() == num_participants,
            forall|i: int| 0 <= i < num_participants ==> qc.sigs.signatures@[i] is None,
            qc.sigs.count_some == 0,
    {
        let block_hash: CryptoHash = [0u8; 32];
        assert(block_hash@ =~= zero_hash());
        QuorumCertificate { view_number: 0, block_hash, sigs: SignatureSet::new(num_participants) }
    }

    /// Whether the signature set has one slot per participant.
    pub fn is_correct_len(&self, num_participants: usize) -> (b: bool)
        ensures
            b == (self.sigs.signatures@.len() == num_participants),
    {
        self.sigs.len() == num_participants
    }

    /// Whether the certificate counts at least a quorum of signatures, correct or not.
    pub fn is_quorum(&self, num_participants: usize) -> (b: bool)
        requires
            num_participants * 2 <= usize::MAX,
        ensures
            b == (self.sigs.count_some >= quorum_size_spec(num_participants as int)),
    {
        self.sigs.count_some() >= Self::quorum_size(num_participants)
    }

    /// Whether every signature is a valid signature, over the certificate's view and block hash,
    /// of the participant it pairs with in order. A key that does not decode fails verification.
    pub fn is_cryptographically_correct(&self, participants: &Vec<VerifyingKeyBytes>) -> (b: bool)
        ensures
            b == all_signed_by(self.sigs.signatures@, participants@, legacy_vote_bytes(self.view_number, self.block_hash@)),
    {
        let msg = vote_message(self.view_number, &self.block_hash);
        let mut i: usize = 0;
        while i < self.sigs.signatures.len() && i < participants.len()
            invariant
                msg@ == legacy_vote_bytes(self.view_number, self.block_hash@),
                i <= self.sigs.signatures@.len(),
                forall|j: int| 0 <= j < i && j < participants@.len() && (#[trigger] self.sigs.signatures@[j]) is Some
                    ==> ed25519_verify(participants@[j]@, msg@, self.sigs.signatures@[j]->0@),
            decreases self.sigs.signatures@.len() - i,
        {
            match &self.sigs.signatures[i] {
                Some(signature) => {
                    if !verify_signature(&participants[i], msg.as_slice(), signature) {
                        return false;
                    }
                },
                None => {},
            }
            i = i + 1;
        }
        true
    }

    /// Whether the certificate is valid for `participants`: at view 0, the genesis certificate;
    /// at any other view, one slot per participant, a quorum of signatures, and every
    /// signature correct.
    pub fn is_valid(&self, participants: &Vec<VerifyingKeyBytes>) -> (b: bool)
        requires
            self.sigs.wf(),
            participants@.len() * 2 <= usize::MAX,
        ensures
            b == qc_valid(self.view_number, self.block_hash@, self.sigs.signatures@, self.sigs.count_some, participants@),
    {
        if self.view_number == 0 {
            let zero: CryptoHash = [0u8; 32];
            assert(zero@ =~= zero_hash());
            let same_hash = bytes32_eq(&self.block_hash, &zero);
            assert(same_hash == (self.block_hash@ == zero_hash()));
            if !same_hash || self.sigs.len() != participants.len() || self.sigs.count_some != 0 {
                return false;
            }
            let mut i: usize = 0;
            while i < self.sigs.signatures.len()
                invariant
                    self.view_number == 0,
                    i <= self.sigs.signatures@.len(),
                    forall|j: int| 0 <= j < i ==> #[trigger] self.sigs.signatures@[j] is None,
                decreases self.sigs.signatures@.len() - i,
            {
                if self.sigs.signatures[i].is_some() {
                    assert(!(self.sigs.signatures@[i as int] is None));
                    return false;
                }
                i = i + 1;
            }
            true
        } else {
            self.is_correct_len(participants.len()) && self.is_quorum(participants.len())
                && self.is_cryptographically_correct(participants)
        }
    }
}

/// The ways a [`QuorumCertificateAggregator::insert`] can fail; after an error nothing changed.
pub enum QCAggregatorInsertError {
    /// The aggregator held a quorum of signatures before the insert.
    AlreadyAQuorum,
    /// The participant has already given its signature.
    PublicAddrAlreadyProvidedSignature,
    /// The key is not in the participant set.
    PublicAddrNotInParticipantSet,
}

/// Whether key `a` comes before key `b` in byte-wise lexicographic order.
pub open spec fn key_lt(a: Seq<u8>, b: Seq<u8>) -> bool {
    exists|i: int| 0 <= i < a.len() && i < b.len() && a.take(i) == b.take(i) && #[trigger] a[i] < b[i]
}

/// Whether `keys` is a participant set: its keys in strictly ascending order, so that the slot of a
/// participant's signature is the participant's rank.
pub open spec fn is_participant_set(keys: Seq<VerifyingKeyBytes>) -> bool {
    forall|i: int, j: int| 0 <= i < j < keys.len() ==> key_lt(#[trigger] keys[i]@, #[trigger] keys[j]@)
}

/// Combines the signatures of participants over a view and a block hash into a certificate.
pub struct QuorumCertificateAggregator {
    view_number: ViewNumber,
    block_hash: CryptoHash,
    participant_set: Vec<VerifyingKeyBytes>,
    signature_set: SignatureSet,
}

impl QuorumCertificateAggregator {
    pub closed spec fn view_spec(&self) -> ViewNumber {
        self.view_number
    }

    pub closed spec fn block_spec(&self) -> CryptoHash {
        self.block_hash
    }

    pub closed spec fn participants(&self) -> Seq<VerifyingKeyBytes> {
        self.participant_set@
    }

    pub closed spec fn signatures(&self) -> Seq<Option<SignatureBytes>> {
        self.signature_set.signatures@
    }

    pub closed spec fn count(&self) -> usize {
        self.signature_set.count_some
    }

    /// A participant set, one slot per participant, the count matching the filled slots, and a
    /// size for which the quorum can be computed.
    pub closed spec fn wf(&self) -> bool {
        &&& is_participant_set(self.participant_set@)
        &&& self.signature_set.wf()
        &&& self.signature_set.signatures@.len() == self.participant_set@.len()
        &&& self.participant_set@.len() * 2 <= usize::MAX
    }

    /// An empty aggregator for `view_number`, `block_hash` and `participant_set`.
    pub fn new(view_number: ViewNumber, block_hash: CryptoHash, participant_set: Vec<VerifyingKeyBytes>) -> (a: QuorumCertificateAggregator)
        requires
            is_participant_set(participant_set@),
            participant_set@.len() * 2 <= usize::MAX,
        ensures
            a.wf(),
            a.view_spec() == view_number,
            a.block_spec() == block_hash,
            a.participants() == participant_set@,
            a.signatures().len() == participant_set@.len(),
            forall|i: int| 0 <= i < a.signatures().len() ==> #[trigger] a.signatures()[i] is None,
            a.count() == 0,
    {
        let signature_set = SignatureSet::new(participant_set.len());
        QuorumCertificateAggregator { view_number, block_hash, participant_set, signature_set }
    }

    /// Add `signature` of the participant with key `of_public_addr` (without checking it). Returns
    /// whether the aggregator now holds a quorum of signatures. An error, and no change, when it
    /// already held a quorum, the participant already signed, or the key is not a participant.
    pub fn insert(&mut self, signature: SignatureBytes, of_public_addr: VerifyingKeyBytes) -> (r: Result<bool, QCAggregatorInsertError>)
        requires
            old(self).wf(),
        ensures
            final(self).wf(),
            final(self).view_spec() == old(self).view_spec(),
            final(self).block_spec() == old(self).block_spec(),
            final(self).participants() == old(self).participants(),
            ({
                let q = quorum_size_spec(old(self).participants().len() as int);
                let pos = old(self).participants().index_of_first(of_public_addr);
                match r {
                    Err(QCAggregatorInsertError::AlreadyAQuorum) => old(self).count() >= q && *final(self) == *old(self),
                    Err(QCAggregatorInsertError::PublicAddrAlreadyProvidedSignature) => old(self).count() < q
                        && (pos matches Some(i) && old(self).signatures()[i] is Some) && *final(self) == *old(self),
                    Err(QCAggregatorInsertError::PublicAddrNotInParticipantSet) => old(self).count() < q
                        && pos is None && *final(self) == *old(self),
                    Ok(b) => old(self).count() < q && (pos matches Some(i) && old(self).signatures()[i] is None
                        && final(self).signatures() == old(self).signatures().update(i, Some(signature))
                        && final(self).count() == old(self).count() + 1
                        && b == (final(self).count() >= q)),
                }
            }),
    {
        let q = QuorumCertificate::quorum_size(self.participant_set.len());
        if self.signature_set.count_some() >= q {
            return Err(QCAggregatorInsertError::AlreadyAQuorum);
        }
        let position = match self.find_participant(&of_public_addr) {
            Some(p) => p,
            None => {
                return Err(QCAggregatorInsertError::PublicAddrNotInParticipantSet);
            },
        };
        if self.signature_set.contains(position) {
            return Err(QCAggregatorInsertError::PublicAddrAlreadyProvidedSignature);
        }
        let _ = self.signature_set.insert(position, signature);
        Ok(self.signature_set.count_some() >= q)
    }

    /// The position of `key` among the participants.
    fn find_participant(&self, key: &VerifyingKeyBytes) -> (r: Option<usize>)
        ensures
            match r {
                Some(p) => self.participants().index_of_first(*key) == Some(p as int) && p < self.participants().len(),
                None => self.participants().index_of_first(*key) is None,
            },
    {
        let mut position: usize = 0;
        while position < self.participant_set.len()
            invariant
                position <= self.participant_set@.len(),
                forall|j: int| 0 <= j < position ==> self.participant_set@[j] != *key,
            decreases self.participant_set@.len() - position,
        {
            if bytes32_eq(&self.participant_set[position], key) {
                proof {
                    assert(self.participant_set@[position as int]@ == key@);
                    assert(self.participant_set@[position as int] =~= *key);
                    self.participants().index_of_first_ensures(*key);
                }
                return Some(position);
            }
            proof {
                if self.participant_set@[position as int] == *key {
                    assert(self.participant_set@[position as int]@ == key@);
                }
            }
            position = position + 1;
        }
        proof {
            self.participants().index_of_first_ensures(*key);
        }
        None
    }

    /// The certificate of the aggregated signatures.
    pub fn into_qc(self) -> (qc: QuorumCertificate)
        ensures
            qc.view_number == self.view_spec(),
            qc.block_hash == self.block_spec(),
            qc.sigs.signatures@ == self.signatures(),
            qc.sigs.count_some == self.count(),
            self.wf() ==> qc.sigs.wf() && qc.sigs.signatures@.len() == self.participants().len(),
    {
        QuorumCertificate { view_number: self.view_number, block_hash: self.block_hash, sigs: self.signature_set }
    }

    /// The certificate of an aggregator at a view other than 0 that holds a quorum of signatures,
    /// each one by the participant of its slot over the aggregator's view and block hash (as when
    /// the last insert answered `Ok(true)`), is valid for the participants.
    pub proof fn lemma_quorum_gives_valid_certificate(&self)
        requires
            self.wf(),
            self.view_spec() != 0,
            self.count() >= quorum_size_spec(self.participants().len() as int),
            all_signed_by(self.signatures(), self.participants(), legacy_vote_bytes(self.view_spec(), self.block_spec()@)),
        ensures
            qc_valid(self.view_spec(), self.block_spec()@, self.signatures(), self.count(), self.participants()),
    {
    }
}

/// A vote over `view_number` and `block_hash`, signed with `keypair`.
pub enum ConsensusMsg {
    Vote(ViewNumber, CryptoHash, SignatureBytes),
}

impl ConsensusMsg {
    /// A vote for `block_hash` in `view_number`, signed with the secret key `keypair`.
    pub fn new_vote(view_number: ViewNumber, block_hash: CryptoHash, keypair: &SigningKeyBytes) -> (m: ConsensusMsg)
        ensures
            m matches ConsensusMsg::Vote(v, h, s) && v == view_number && h == block_hash
                && s@ == ed25519_sign(keypair@, legacy_vote_bytes(view_number, block_hash@)),
    {
        let msg = vote_message(view_number, &block_hash);
        let signature = sign_message(keypair, msg.as_slice());
        ConsensusMsg::Vote(view_number, block_hash, signature)
    }
}

} // verus!
