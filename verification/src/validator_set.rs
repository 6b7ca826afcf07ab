//! Validator sets, their updates, and the validator set state that a block tree keeps.

use vstd::prelude::*;

use crate::types::{bytes32_eq, BlockHeight, Power, TotalPower, VerifyingKeyBytes};

verus! {

/// The sum of a sequence of voting powers.
pub open spec fn sum_powers(powers: Seq<Power>) -> int
    decreases powers.len(),
{
    if powers.len() == 0 {
        0
    } else {
        sum_powers(powers.drop_last()) + powers.last()
    }
}

/// The quorum of a total power: more than two thirds of it.
pub open spec fn quorum_of(total: int) -> int {
    total * 2 / 3 + 1
}

pub proof fn lemma_sum_powers_bounds(powers: Seq<Power>)
    ensures
        0 <= sum_powers(powers) <= powers.len() * (u64::MAX as int),
    decreases powers.len(),
{
    if powers.len() > 0 {
        lemma_sum_powers_bounds(powers.drop_last());
    }
}

pub proof fn lemma_sum_powers_prefix(powers: Seq<Power>, i: int)
    requires
        0 <= i < powers.len(),
    ensures
        sum_powers(powers.take(i + 1)) == sum_powers(powers.take(i)) + powers[i],
{
    assert(powers.take(i + 1).drop_last() =~= powers.take(i));
}

pub proof fn lemma_sum_powers_monotone(powers: Seq<Power>, i: int, j: int)
    requires
        0 <= i <= j <= powers.len(),
    ensures
        sum_powers(powers.take(i)) <= sum_powers(powers.take(j)),
    decreases j - i,
{
    if i < j {
        lemma_sum_powers_monotone(powers, i, j - 1);
        lemma_sum_powers_prefix(powers, j - 1);
    }
}

/// The keys and powers of a validator set after `key` is put with `power`: a member's power
/// changes in place, a new member is appended.
pub open spec fn put_spec(keys: Seq<Seq<u8>>, powers: Seq<Power>, key: Seq<u8>, power: Power) -> (Seq<Seq<u8>>, Seq<Power>) {
    if keys.contains(key) {
        let i = choose|i: int| 0 <= i < keys.len() && keys[i] == key;
        (keys, powers.update(i, power))
    } else {
        (keys.push(key), powers.push(power))
    }
}

/// The keys and powers of a validator set after `key` is removed.
pub open spec fn remove_spec(keys: Seq<Seq<u8>>, powers: Seq<Power>, key: Seq<u8>) -> (Seq<Seq<u8>>, Seq<Power>) {
    if keys.contains(key) {
        let i = choose|i: int| 0 <= i < keys.len() && keys[i] == key;
        (keys.remove(i), powers.remove(i))
    } else {
        (keys, powers)
    }
}

/// The keys and powers after the first `n` inserts of `inserts` are put, in order.
pub open spec fn puts_spec(kp: (Seq<Seq<u8>>, Seq<Power>), inserts: Seq<(VerifyingKeyBytes, Power)>, n: int) -> (Seq<Seq<u8>>, Seq<Power>)
    decreases n,
{
    if n <= 0 {
        kp
    } else {
        let prev = puts_spec(kp, inserts, n - 1);
        put_spec(prev.0, prev.1, inserts[n - 1].0@, inserts[n - 1].1)
    }
}

/// The keys and powers after the first `n` keys of `deletes` are removed, in order.
pub open spec fn removes_spec(kp: (Seq<Seq<u8>>, Seq<Power>), deletes: Seq<VerifyingKeyBytes>, n: int) -> (Seq<Seq<u8>>, Seq<Power>)
    decreases n,
{
    if n <= 0 {
        kp
    } else {
        let prev = removes_spec(kp, deletes, n - 1);
        remove_spec(prev.0, prev.1, deletes[n - 1]@)
    }
}

/// The keys and powers of a validator set after `updates` apply: every insert, then every delete.
pub open spec fn applied_spec(keys: Seq<Seq<u8>>, powers: Seq<Power>, updates: ValidatorSetUpdates) -> (Seq<Seq<u8>>, Seq<Power>) {
    let after_puts = puts_spec((keys, powers), updates.inserts@, updates.inserts@.len() as int);
    removes_spec(after_puts, updates.deletes@, updates.deletes@.len() as int)
}

/// The set of validators and their voting powers, in a fixed order: the order in which their
/// signatures appear in a certificate.
pub struct ValidatorSet {
    pub(crate) validators: Vec<VerifyingKeyBytes>,
    pub(crate) powers: Vec<Power>,
}

impl ValidatorSet {
    /// The public keys, in order.
    pub closed spec fn keys(&self) -> Seq<Seq<u8>> {
        self.validators@.map_values(|k: VerifyingKeyBytes| k@)
    }

    /// The voting powers, in the order of the keys.
    pub closed spec fn power_seq(&self) -> Seq<Power> {
        self.powers@
    }

    /// One power per key, and no key twice.
    pub closed spec fn wf(&self) -> bool {
        &&& self.validators@.len() == self.powers@.len()
        &&& forall|i: int, j: int|
            0 <= i < j < self.validators@.len() ==> self.validators@[i]@ != self.validators@[j]@
    }

    pub open spec fn has(&self, key: Seq<u8>) -> bool {
        self.keys().contains(key)
    }

    pub open spec fn total(&self) -> int {
        sum_powers(self.power_seq())
    }

    pub proof fn lemma_wf_facts(&self)
        requires
            self.wf(),
        ensures
            self.keys().len() == self.power_seq().len(),
            forall|i: int, j: int|
                0 <= i < self.keys().len() && 0 <= j < self.keys().len() && i != j
                    ==> self.keys()[i] != self.keys()[j],
    {
    }

    /// An empty validator set.
    pub fn new() -> (vs: ValidatorSet)
        ensures
            vs.wf(),
            vs.keys() == Seq::<Seq<u8>>::empty(),
            vs.power_seq() == Seq::<Power>::empty(),
    {
        let vs = ValidatorSet { validators: Vec::new(), powers: Vec::new() };
        assert(vs.keys() =~= Seq::<Seq<u8>>::empty());
        vs
    }

    pub fn len(&self) -> (n: usize)
        requires
            self.wf(),
        ensures
            n == self.keys().len(),
    {
        self.validators.len()
    }

    /// The key at position `i`.
    pub fn key_at(&self, i: usize) -> (k: VerifyingKeyBytes)
        requires
            self.wf(),
            i < self.keys().len(),
        ensures
            k@ == self.keys()[i as int],
    {
        self.validators[i]
    }

    /// The power at position `i`.
    pub fn power_at(&self, i: usize) -> (p: Power)
        requires
            self.wf(),
            i < self.keys().len(),
        ensures
            p == self.power_seq()[i as int],
    {
        self.powers[i]
    }

    /// Whether `other` has the same keys with the same powers, in the same order.
    pub fn same_as(&self, other: &ValidatorSet) -> (b: bool)
        requires
            self.wf(),
            other.wf(),
        ensures
            b == (self.keys() == other.keys() && self.power_seq() == other.power_seq()),
    {
        if self.validators.len() != other.validators.len() {
            assert(self.keys().len() != other.keys().len());
            return false;
        }
        let mut i: usize = 0;
        while i < self.validators.len()
            invariant
                self.wf(),
                other.wf(),
                self.validators@.len() == other.validators@.len(),
                i <= self.validators@.len(),
                forall|j: int| 0 <= j < i ==> self.keys()[j] == other.keys()[j] && self.power_seq()[j] == other.power_seq()[j],
            decreases self.validators@.len() - i,
        {
            if !bytes32_eq(&self.validators[i], &other.validators[i]) || self.powers[i] != other.powers[i] {
                assert(!(self.keys()[i as int] == other.keys()[i as int] && self.power_seq()[i as int] == other.power_seq()[i as int]));
                return false;
            }
            i = i + 1;
        }
        assert(self.keys() =~= other.keys());
        assert(self.power_seq() =~= other.power_seq());
        true
    }

    /// The position of `key` in the set, if it is a member.
    pub fn position(&self, key: &VerifyingKeyBytes) -> (pos: Option<usize>)
        requires
            self.wf(),
        ensures
            match pos {
                Some(i) => i < self.keys().len() && self.keys()[i as int] == key@,
                None => !self.has(key@),
            },
    {
        let mut i: usize = 0;
        while i < self.validators.len()
            invariant
                self.wf(),
                i <= self.validators@.len(),
                forall|j: int| 0 <= j < i ==> self.keys()[j] != key@,
            decreases self.validators@.len() - i,
        {
            if bytes32_eq(&self.validators[i], key) {
                return Some(i);
            }
            i = i + 1;
        }
        None
    }

    pub fn contains(&self, key: &VerifyingKeyBytes) -> (b: bool)
        requires
            self.wf(),
        ensures
            b == self.has(key@),
    {
        self.position(key).is_some()
    }

    /// The power of `key`, if it is a member.
    pub fn power(&self, key: &VerifyingKeyBytes) -> (p: Option<Power>)
        requires
            self.wf(),
        ensures
            match p {
                Some(p) => exists|i: int|
                    0 <= i < self.keys().len() && self.keys()[i] == key@ && self.power_seq()[i] == p,
                None => !self.has(key@),
            },
    {
        match self.position(key) {
            Some(i) => Some(self.powers[i]),
            None => None,
        }
    }

    /// The sum of all the validators' powers.
    pub fn total_power(&self) -> (t: TotalPower)
        requires
            self.wf(),
        ensures
            t == self.total(),
    {
        let mut t: TotalPower = 0;
        let mut i: usize = 0;
        while i < self.powers.len()
            invariant
                i <= self.powers@.len(),
                t == sum_powers(self.powers@.take(i as int)),
            decreases self.powers@.len() - i,
        {
            proof {
                lemma_sum_powers_prefix(self.powers@, i as int);
                lemma_sum_powers_bounds(self.powers@.take(i as int + 1));
                assert((i + 1) * (u64::MAX as int) <= u128::MAX) by (nonlinear_arith)
                    requires
                        i < usize::MAX,
                ;
                assert(self.powers@.take(i as int + 1).len() == i + 1);
                assert((i + 1) * (u64::MAX as int) <= u128::MAX);
            }
            t = t + self.powers[i] as u128;
            i = i + 1;
        }
        assert(self.powers@.take(i as int) =~= self.powers@);
        t
    }

    /// The least total power that counts as a quorum: more than two thirds of the total power.
    pub fn quorum(&self) -> (q: TotalPower)
        requires
            self.wf(),
        ensures
            q == quorum_of(self.total()),
    {
        let t = self.total_power();
        let q = (t / 3) * 2 + ((t % 3) * 2) / 3;
        assert(q == t * 2 / 3) by (nonlinear_arith)
            requires
                q == (t / 3) * 2 + ((t % 3) * 2) / 3,
                t >= 0,
        ;
        proof {
            lemma_sum_powers_bounds(self.power_seq());
        }
        q + 1
    }

    /// Add `key` with `power`, or set the power of `key` if it is already a member.
    pub fn put(&mut self, key: &VerifyingKeyBytes, power: Power)
        requires
            old(self).wf(),
        ensures
            final(self).wf(),
            old(self).has(key@) ==> final(self).keys() == old(self).keys(),
            !old(self).has(key@) ==> final(self).keys() == old(self).keys().push(key@),
            final(self).has(key@),
            forall|k: Seq<u8>| final(self).has(k) <==> (old(self).has(k) || k == key@),
            (final(self).keys(), final(self).power_seq()) == put_spec(old(self).keys(), old(self).power_seq(), key@, power),
    {
        match self.position(key) {
            Some(i) => {
                self.powers.set(i, power);
                assert(self.keys() =~= old(self).keys());
                assert(self.keys()[i as int] == key@);
                let ghost j = choose|j: int| 0 <= j < old(self).keys().len() && old(self).keys()[j] == key@;
                assert(j == i);
            },
            None => {
                let ghost n = self.validators@.len();
                self.validators.push(*key);
                self.powers.push(power);
                assert(self.keys() =~= old(self).keys().push(key@));
                assert(self.keys()[n as int] == key@);
                assert forall|i: int, j: int|
                    0 <= i < j < self.validators@.len() implies self.validators@[i]@ != self.validators@[j]@ by {
                    if j == n {
                        assert(old(self).keys()[i] == self.validators@[i]@);
                    } else {
                        assert(old(self).validators@[i] == self.validators@[i]);
                        assert(old(self).validators@[j] == self.validators@[j]);
                    }
                }
                assert forall|k: Seq<u8>| self.has(k) <==> (old(self).has(k) || k == key@) by {
                    if self.has(k) {
                        let j = choose|j: int| 0 <= j < self.keys().len() && self.keys()[j] == k;
                        if j < n {
                            assert(old(self).keys()[j] == k);
                        }
                    }
                    if old(self).has(k) {
                        let j = choose|j: int| 0 <= j < old(self).keys().len() && old(self).keys()[j] == k;
                        assert(self.keys()[j] == k);
                    }
                }
            },
        }
    }

    /// Remove `key`, if it is a member.
    pub fn remove(&mut self, key: &VerifyingKeyBytes)
        requires
            old(self).wf(),
        ensures
            final(self).wf(),
            forall|k: Seq<u8>| final(self).has(k) <==> (old(self).has(k) && k != key@),
            (final(self).keys(), final(self).power_seq()) == remove_spec(old(self).keys(), old(self).power_seq(), key@),
    {
        match self.position(key) {
            Some(i) => {
                let ghost old_keys = self.keys();
                self.validators.remove(i);
                self.powers.remove(i);
                assert(self.keys() =~= old_keys.remove(i as int));
                let ghost j = choose|j: int| 0 <= j < old_keys.len() && old_keys[j] == key@;
                assert(old_keys[i as int] == key@);
                assert(j == i);
                assert(self.power_seq() =~= old(self).power_seq().remove(i as int));
                assert forall|k: Seq<u8>| self.has(k) <==> (old(self).has(k) && k != key@) by {
                    if self.has(k) {
                        let j = choose|j: int| 0 <= j < self.keys().len() && self.keys()[j] == k;
                        if j < i {
                            assert(old_keys[j] == k);
                        } else {
                            assert(old_keys[j + 1] == k);
                        }
                    }
                    if old(self).has(k) && k != key@ {
                        let j = choose|j: int| 0 <= j < old_keys.len() && old_keys[j] == k;
                        if j < i {
                            assert(self.keys()[j] == k);
                        } else {
                            assert(j != i);
                            assert(self.keys()[j - 1] == k);
                        }
                    }
                }
            },
            None => {},
        }
    }
}

impl Clone for ValidatorSet {
    fn clone(&self) -> (vs: Self)
        ensures
            vs.keys() == self.keys(),
            vs.power_seq() == self.power_seq(),
            self.wf() ==> vs.wf(),
    {
        let vs = ValidatorSet { validators: self.validators.clone(), powers: self.powers.clone() };
        assert(vs.keys() =~= self.keys());
        vs
    }
}

/// Changes to a validator set that a block asks for: keys to insert (or whose power to change),
/// and keys to delete.
pub struct ValidatorSetUpdates {
    pub inserts: Vec<(VerifyingKeyBytes, Power)>,
    pub deletes: Vec<VerifyingKeyBytes>,
}

impl ValidatorSetUpdates {
    /// No updates.
    pub fn new() -> (u: ValidatorSetUpdates)
        ensures
            u.inserts@.len() == 0,
            u.deletes@.len() == 0,
    {
        ValidatorSetUpdates { inserts: Vec::new(), deletes: Vec::new() }
    }

    /// Whether `key` is inserted by these updates.
    pub open spec fn inserts_key(&self, key: Seq<u8>) -> bool {
        exists|i: int| 0 <= i < self.inserts@.len() && #[trigger] self.inserts@[i].0@ == key
    }

    /// Whether `key` is deleted by these updates.
    pub open spec fn deletes_key(&self, key: Seq<u8>) -> bool {
        exists|i: int| 0 <= i < self.deletes@.len() && #[trigger] self.deletes@[i]@ == key
    }

    /// The power that these updates give `key`, if they insert it.
    pub fn get_insert(&self, key: &VerifyingKeyBytes) -> (p: Option<Power>)
        ensures
            p is Some <==> self.inserts_key(key@),
            p matches Some(p) ==> exists|i: int|
                0 <= i < self.inserts@.len() && #[trigger] self.inserts@[i].0@ == key@ && self.inserts@[i].1 == p,
    {
        let mut i: usize = 0;
        while i < self.inserts.len()
            invariant
                i <= self.inserts@.len(),
                forall|j: int| 0 <= j < i ==> #[trigger] self.inserts@[j].0@ != key@,
            decreases self.inserts@.len() - i,
        {
            if bytes32_eq(&self.inserts[i].0, key) {
                return Some(self.inserts[i].1);
            }
            i = i + 1;
        }
        None
    }
}

impl Clone for ValidatorSetUpdates {
    fn clone(&self) -> (u: Self)
        ensures
            u.inserts@ == self.inserts@,
            u.deletes@ == self.deletes@,
    {
        let mut inserts: Vec<(VerifyingKeyBytes, Power)> = Vec::new();
        let mut i: usize = 0;
        while i < self.inserts.len()
            invariant
                i <= self.inserts@.len(),
                inserts@ == self.inserts@.take(i as int),
            decreases self.inserts@.len() - i,
        {
            inserts.push(self.inserts[i]);
            i = i + 1;
            assert(inserts@ =~= self.inserts@.take(i as int));
        }
        let mut deletes: Vec<VerifyingKeyBytes> = Vec::new();
        let mut d: usize = 0;
        while d < self.deletes.len()
            invariant
                d <= self.deletes@.len(),
                deletes@ == self.deletes@.take(d as int),
            decreases self.deletes@.len() - d,
        {
            deletes.push(self.deletes[d]);
            d = d + 1;
            assert(deletes@ =~= self.deletes@.take(d as int));
        }
        assert(inserts@ =~= self.inserts@);
        assert(deletes@ =~= self.deletes@);
        ValidatorSetUpdates { inserts, deletes }
    }
}

/// Whether one of the first `n` inserts of `u` is for `key`.
pub open spec fn inserted_upto(u: &ValidatorSetUpdates, n: int, key: Seq<u8>) -> bool {
    exists|j: int| 0 <= j < n && #[trigger] u.inserts@[j].0@ == key
}

/// Whether one of the first `n` deletes of `u` is for `key`.
pub open spec fn deleted_upto(u: &ValidatorSetUpdates, n: int, key: Seq<u8>) -> bool {
    exists|j: int| 0 <= j < n && #[trigger] u.deletes@[j]@ == key
}

proof fn lemma_inserted_step(u: &ValidatorSetUpdates, n: int, key: Seq<u8>)
    requires
        0 <= n < u.inserts@.len(),
    ensures
        inserted_upto(u, n + 1, key) == (inserted_upto(u, n, key) || u.inserts@[n].0@ == key),
{
    if inserted_upto(u, n + 1, key) && u.inserts@[n].0@ != key {
        let j = choose|j: int| 0 <= j < n + 1 && #[trigger] u.inserts@[j].0@ == key;
        assert(j < n);
    }
}

proof fn lemma_deleted_step(u: &ValidatorSetUpdates, n: int, key: Seq<u8>)
    requires
        0 <= n < u.deletes@.len(),
    ensures
        deleted_upto(u, n + 1, key) == (deleted_upto(u, n, key) || u.deletes@[n]@ == key),
{
    if deleted_upto(u, n + 1, key) && u.deletes@[n]@ != key {
        let j = choose|j: int| 0 <= j < n + 1 && #[trigger] u.deletes@[j]@ == key;
        assert(j < n);
    }
}

impl ValidatorSet {
    /// Apply `updates`: first every insert, then every delete.
    pub fn apply_updates(&mut self, updates: &ValidatorSetUpdates)
        requires
            old(self).wf(),
        ensures
            final(self).wf(),
            forall|k: Seq<u8>|
                #![trigger final(self).has(k)]
                final(self).has(k) <==> ((old(self).has(k) || updates.inserts_key(k)) && !updates.deletes_key(k)),
            (final(self).keys(), final(self).power_seq()) == applied_spec(old(self).keys(), old(self).power_seq(), *updates),
    {
        let mut i: usize = 0;
        while i < updates.inserts.len()
            invariant
                self.wf(),
                i <= updates.inserts@.len(),
                forall|k: Seq<u8>|
                    #![trigger self.has(k)]
                    self.has(k) <==> (old(self).has(k) || inserted_upto(updates, i as int, k)),
                (self.keys(), self.power_seq()) == puts_spec((old(self).keys(), old(self).power_seq()), updates.inserts@, i as int),
            decreases updates.inserts@.len() - i,
        {
            let (key, power) = updates.inserts[i];
            let ghost before = *self;
            self.put(&key, power);
            assert forall|k: Seq<u8>|
                #![trigger self.has(k)]
                self.has(k) <==> (old(self).has(k) || inserted_upto(updates, i + 1, k)) by {
                assert(before.has(k) <==> (old(self).has(k) || inserted_upto(updates, i as int, k)));
                lemma_inserted_step(updates, i as int, k);
            }
            i = i + 1;
        }
        let mut d: usize = 0;
        while d < updates.deletes.len()
            invariant
                self.wf(),
                i == updates.inserts@.len(),
                d <= updates.deletes@.len(),
                forall|k: Seq<u8>|
                    #![trigger self.has(k)]
                    self.has(k) <==> ((old(self).has(k) || inserted_upto(updates, i as int, k))
                        && !deleted_upto(updates, d as int, k)),
                (self.keys(), self.power_seq()) == removes_spec(
                    puts_spec((old(self).keys(), old(self).power_seq()), updates.inserts@, i as int), updates.deletes@, d as int),
            decreases updates.deletes@.len() - d,
        {
            let key = updates.deletes[d];
            let ghost before = *self;
            self.remove(&key);
            assert forall|k: Seq<u8>|
                #![trigger self.has(k)]
                self.has(k) <==> ((old(self).has(k) || inserted_upto(updates, i as int, k))
                    && !deleted_upto(updates, d + 1, k)) by {
                assert(before.has(k) <==> ((old(self).has(k) || inserted_upto(updates, i as int, k))
                    && !deleted_upto(updates, d as int, k)));
                lemma_deleted_step(updates, d as int, k);
            }
            d = d + 1;
        }
        assert forall|k: Seq<u8>|
            #![trigger self.has(k)]
            self.has(k) <==> ((old(self).has(k) || updates.inserts_key(k)) && !updates.deletes_key(k)) by {
            assert(updates.inserts_key(k) == inserted_upto(updates, i as int, k));
            assert(updates.deletes_key(k) == deleted_upto(updates, d as int, k));
        }
    }
}

/// What a block tree records about a block's validator set updates.
pub enum ValidatorSetUpdatesStatus {
    /// The block does not update the validator set.
    NoUpdates,
    /// The block updates the validator set, and has not been committed.
    Pending(ValidatorSetUpdates),
    /// The block updated the validator set, and has been committed.
    Committed,
}

impl ValidatorSetUpdatesStatus {
    pub fn contains_updates(&self) -> (b: bool)
        ensures
            b == !(self is NoUpdates),
    {
        !matches!(self, ValidatorSetUpdatesStatus::NoUpdates)
    }

    pub fn is_pending(&self) -> (b: bool)
        ensures
            b == (self is Pending),
    {
        matches!(self, ValidatorSetUpdatesStatus::Pending(_))
    }
}

impl Clone for ValidatorSetUpdatesStatus {
    fn clone(&self) -> (s: Self)
        ensures
            (s is NoUpdates) == (self is NoUpdates),
            (s is Committed) == (self is Committed),
            (s is Pending) == (self is Pending),
            s matches ValidatorSetUpdatesStatus::Pending(u) ==> u.inserts@ == self->Pending_0.inserts@
                && u.deletes@ == self->Pending_0.deletes@,
    {
        match self {
            ValidatorSetUpdatesStatus::NoUpdates => ValidatorSetUpdatesStatus::NoUpdates,
            ValidatorSetUpdatesStatus::Pending(u) => ValidatorSetUpdatesStatus::Pending(u.clone()),
            ValidatorSetUpdatesStatus::Committed => ValidatorSetUpdatesStatus::Committed,
        }
    }
}

/// The validator sets that a replica keeps track of: the committed validator set, the one before
/// the latest committed update, the height of the block that caused that update, and whether that
/// update has been decided.
pub struct ValidatorSetState {
    pub(crate) committed_validator_set: ValidatorSet,
    pub(crate) previous_validator_set: ValidatorSet,
    pub(crate) update_height: Option<BlockHeight>,
    pub(crate) update_decided: bool,
}

impl ValidatorSetState {
    pub closed spec fn committed(&self) -> ValidatorSet {
        self.committed_validator_set
    }

    pub closed spec fn previous(&self) -> ValidatorSet {
        self.previous_validator_set
    }

    pub closed spec fn height_of_update(&self) -> Option<BlockHeight> {
        self.update_height
    }

    pub closed spec fn decided(&self) -> bool {
        self.update_decided
    }

    pub open spec fn wf(&self) -> bool {
        self.committed().wf() && self.previous().wf()
    }

    /// A state in which no update has ever happened: both sets are `initial`.
    pub fn new(
        committed_validator_set: ValidatorSet,
        previous_validator_set: ValidatorSet,
        update_height: Option<BlockHeight>,
        update_decided: bool,
    ) -> (s: ValidatorSetState)
        ensures
            s.committed() == committed_validator_set,
            s.previous() == previous_validator_set,
            s.height_of_update() == update_height,
            s.decided() == update_decided,
    {
        ValidatorSetState { committed_validator_set, previous_validator_set, update_height, update_decided }
    }

    pub fn committed_validator_set(&self) -> (vs: &ValidatorSet)
        ensures
            *vs == self.committed(),
    {
        &self.committed_validator_set
    }

    pub fn previous_validator_set(&self) -> (vs: &ValidatorSet)
        ensures
            *vs == self.previous(),
    {
        &self.previous_validator_set
    }

    pub fn update_height(&self) -> (h: Option<BlockHeight>)
        ensures
            h == self.height_of_update(),
    {
        self.update_height
    }

    /// Commit `updates`, made by the block at `height`: the committed set becomes the previous set,
    /// the updates apply to the committed set, and the new update is not decided yet.
    pub fn commit_updates(&mut self, updates: &ValidatorSetUpdates, height: BlockHeight)
        requires
            old(self).wf(),
        ensures
            final(self).wf(),
            forall|k: Seq<u8>| #![trigger final(self).committed().has(k)]
                final(self).committed().has(k) <==> ((old(self).committed().has(k) || updates.inserts_key(k)) && !updates.deletes_key(k)),
            final(self).previous().keys() == old(self).committed().keys(),
            final(self).previous().power_seq() == old(self).committed().power_seq(),
            (final(self).committed().keys(), final(self).committed().power_seq())
                == applied_spec(old(self).committed().keys(), old(self).committed().power_seq(), *updates),
            final(self).height_of_update() == Some(height),
            !final(self).decided(),
    {
        let previous = self.committed_validator_set.clone();
        self.committed_validator_set.apply_updates(updates);
        self.previous_validator_set = previous;
        self.update_height = Some(height);
        self.update_decided = false;
    }

    /// Record that the latest validator set update has been decided.
    pub fn set_decided(&mut self)
        requires
            old(self).wf(),
        ensures
            final(self).wf(),
            final(self).committed() == old(self).committed(),
            final(self).previous() == old(self).previous(),
            final(self).height_of_update() == old(self).height_of_update(),
            final(self).decided(),
    {
        self.update_decided = true;
    }

    pub fn update_decided(&self) -> (b: bool)
        ensures
            b == self.decided(),
    {
        self.update_decided
    }
}

impl Clone for ValidatorSetState {
    fn clone(&self) -> (s: Self)
        ensures
            s.committed().keys() == self.committed().keys(),
            s.committed().power_seq() == self.committed().power_seq(),
            s.previous().keys() == self.previous().keys(),
            s.previous().power_seq() == self.previous().power_seq(),
            s.height_of_update() == self.height_of_update(),
            s.decided() == self.decided(),
            self.wf() ==> s.wf(),
    {
        ValidatorSetState {
            committed_validator_set: self.committed_validator_set.clone(),
            previous_validator_set: self.previous_validator_set.clone(),
            update_height: self.update_height,
            update_decided: self.update_decided,
        }
    }
}

} // verus!
