//! The decisions of a block sync client: which servers are available and which are blacklisted,
//! when to sync, with whom, what to request, and what to do with the blocks that come back.
//! Times are in milliseconds, as the caller's clock gives them.

use vstd::prelude::*;

use std::collections::VecDeque;

use rand::seq::IteratorRandom;

use crate::application::ValidateBlockResponse;
use crate::block::{block_correct_spec, Block};
use crate::block_sync::messages::{advertise_bytes, AdvertiseBlock, AdvertisePC, BlockSyncRequest, BlockSyncResponse};
use crate::block_tree::invariants::{safe_block, safe_block_spec, safe_pc, safe_pc_spec};
use crate::block_tree::{update_effects, update_fails, BlockTree, BlockTreeError, UpdateOutcome};
use crate::crypto::ed25519_verify;
use crate::hotstuff::types::{is_correct_spec, QuorumCertificate};
use crate::types::{bytes32_eq, BlockHeight, ChainID, VerifyingKeyBytes, ViewNumber};

verus! {

/// The ways a block sync client can fail.
pub enum BlockSyncClientError {
    BlockTreeError(BlockTreeError),
}

/// The configuration of a sync client.
pub struct BlockSyncClientConfiguration {
    /// The chain whose advertisements the client takes.
    pub chain_id: ChainID,
    /// The most blocks asked for in one request.
    pub request_limit: u32,
    /// How long a blacklisting lasts.
    pub blacklist_expiry_time: u64,
    /// By how many views an advertised certificate must be ahead of the highest view entered to
    /// trigger sync.
    pub block_sync_trigger_min_view_difference: u64,
    /// How long without progress or sync triggers sync.
    pub block_sync_trigger_timeout: u64,
}

/// Whether `key` may serve blocks: it is a member of the committed validator set, or, once some
/// block is committed, some block's pending validator set updates insert it.
pub open spec fn is_sync_server_spec(bt: &BlockTree, key: Seq<u8>) -> bool {
    ||| bt.vs_state().committed().has(key)
    ||| (bt.committed_block() is Some && exists|h: Seq<u8>| #[trigger] bt.pending_vs(h) matches Some(u) && u.inserts_key(key))
}

/// Whether `key` is recognised as the key of a sync server.
pub fn is_sync_server_address(key: &VerifyingKeyBytes, block_tree: &BlockTree) -> (b: bool)
    requires
        block_tree.wf(),
    ensures
        b == is_sync_server_spec(block_tree, key@),
{
    if block_tree.committed_validator_set().contains(key) {
        return true;
    }
    match block_tree.highest_committed_block() {
        Some(_) => block_tree.pending_updates_insert(key),
        None => false,
    }
}

/// Calls `rand::seq::IteratorRandom::choose` on the candidates with `rand::thread_rng`: one of
/// them, at random, and none only when there is none.
#[verifier::external_body]
fn choose_server(candidates: &Vec<VerifyingKeyBytes>) -> (r: Option<VerifyingKeyBytes>)
    ensures
        (r is Some) == (candidates@.len() > 0),
        r matches Some(k) ==> candidates@.contains(k),
{
    candidates.iter().choose(&mut rand::thread_rng()).copied()
}

/// Whether `after` is `before` without its first `n` entries, which are exactly those at its
/// front that expired by `now`.
pub open spec fn expired_prefix(before: Seq<(VerifyingKeyBytes, u64)>, after: Seq<(VerifyingKeyBytes, u64)>, n: int, now: u64) -> bool {
    &&& 0 <= n <= before.len()
    &&& after == before.skip(n)
    &&& forall|j: int| 0 <= j < n ==> #[trigger] before[j].1 <= now
    &&& n < before.len() ==> before[n].1 > now
}

/// The sync client's bookkeeping: the available servers with the heights they promised, the
/// blacklisted servers with when their blacklisting expires (oldest first), the last time of
/// progress or sync, and the highest certificate view seen.
pub struct BlockSyncClientState {
    available_sync_servers: Vec<(VerifyingKeyBytes, BlockHeight)>,
    blacklist: VecDeque<(VerifyingKeyBytes, u64)>,
    last_progress_or_sync_time: u64,
    highest_pc_view: ViewNumber,
}

impl BlockSyncClientState {
    /// The available servers and their promised heights.
    pub closed spec fn servers(&self) -> Seq<(VerifyingKeyBytes, BlockHeight)> {
        self.available_sync_servers@
    }

    /// The blacklisted servers and when each blacklisting expires, oldest first.
    pub closed spec fn blacklisted(&self) -> Seq<(VerifyingKeyBytes, u64)> {
        self.blacklist@
    }

    pub closed spec fn last_progress(&self) -> u64 {
        self.last_progress_or_sync_time
    }

    pub closed spec fn pc_view(&self) -> ViewNumber {
        self.highest_pc_view
    }

    /// No server is available twice.
    pub closed spec fn wf(&self) -> bool {
        forall|i: int, j: int| 0 <= i < j < self.available_sync_servers@.len()
            ==> self.available_sync_servers@[i].0@ != self.available_sync_servers@[j].0@
    }

    /// The height that available server `key` promised, if it is available.
    pub open spec fn promised(&self, key: Seq<u8>) -> Option<BlockHeight> {
        if exists|i: int| 0 <= i < self.servers().len() && #[trigger] self.servers()[i].0@ == key {
            let i = choose|i: int| 0 <= i < self.servers().len() && #[trigger] self.servers()[i].0@ == key;
            Some(self.servers()[i].1)
        } else {
            None
        }
    }

    pub open spec fn is_blacklisted(&self, key: Seq<u8>) -> bool {
        exists|i: int| 0 <= i < self.blacklisted().len() && #[trigger] self.blacklisted()[i].0@ == key
    }

    /// Whether `key` may be picked to sync with when the replica's highest committed height is
    /// `min`: it is available and promised a height above `min`.
    pub open spec fn is_candidate(&self, key: Seq<u8>, min: Option<BlockHeight>) -> bool {
        self.promised(key) matches Some(h) && (min matches Some(m) ==> h > m)
    }

    proof fn lemma_promised_at(&self, i: int)
        requires
            self.wf(),
            0 <= i < self.servers().len(),
        ensures
            self.promised(self.servers()[i].0@) == Some(self.servers()[i].1),
    {
        let key = self.servers()[i].0@;
        assert(self.servers()[i].0@ == key);
        let j = choose|j: int| 0 <= j < self.servers().len() && #[trigger] self.servers()[j].0@ == key;
        if j != i {
            if j < i {
                assert(self.available_sync_servers@[j].0@ != self.available_sync_servers@[i].0@);
            } else {
                assert(self.available_sync_servers@[i].0@ != self.available_sync_servers@[j].0@);
            }
        }
    }

    /// A state with no servers and an empty blacklist, counting `now` as the last progress.
    pub fn initialize(now: u64) -> (s: BlockSyncClientState)
        ensures
            s.wf(),
            s.servers().len() == 0,
            s.blacklisted().len() == 0,
            s.last_progress() == now,
            s.pc_view() == 0,
    {
        BlockSyncClientState {
            available_sync_servers: Vec::new(),
            blacklist: VecDeque::new(),
            last_progress_or_sync_time: now,
            highest_pc_view: 0,
        }
    }

    /// Whether `sync_server` is blacklisted.
    pub fn blacklist_contains_server_address(&self, sync_server: &VerifyingKeyBytes) -> (b: bool)
        ensures
            b == self.is_blacklisted(sync_server@),
    {
        let mut i: usize = 0;
        while i < self.blacklist.len()
            invariant
                i <= self.blacklist@.len(),
                forall|j: int| 0 <= j < i ==> #[trigger] self.blacklist@[j].0@ != sync_server@,
            decreases self.blacklist@.len() - i,
        {
            if bytes32_eq(&self.blacklist[i].0, sync_server) {
                assert(self.blacklisted()[i as int].0@ == sync_server@);
                return true;
            }
            i = i + 1;
        }
        false
    }

    /// The position of `key` among the available servers.
    fn find_server(&self, key: &VerifyingKeyBytes) -> (r: Option<usize>)
        requires
            self.wf(),
        ensures
            match r {
                Some(i) => i < self.servers().len() && self.servers()[i as int].0@ == key@,
                None => self.promised(key@) is None,
            },
    {
        let mut i: usize = 0;
        while i < self.available_sync_servers.len()
            invariant
                i <= self.available_sync_servers@.len(),
                forall|j: int| 0 <= j < i ==> #[trigger] self.available_sync_servers@[j].0@ != key@,
            decreases self.available_sync_servers@.len() - i,
        {
            if bytes32_eq(&self.available_sync_servers[i].0, key) {
                return Some(i);
            }
            i = i + 1;
        }
        None
    }

    /// The height that `sync_server` promised, if it is available.
    pub fn promised_height(&self, sync_server: &VerifyingKeyBytes) -> (h: Option<BlockHeight>)
        requires
            self.wf(),
        ensures
            h == self.promised(sync_server@),
    {
        match self.find_server(sync_server) {
            Some(i) => {
                proof {
                    self.lemma_promised_at(i as int);
                }
                Some(self.available_sync_servers[i].1)
            },
            None => None,
        }
    }

    /// Make `sync_server` available, promising `highest_committed_block_height`.
    pub fn register_or_update_sync_server(&mut self, sync_server: VerifyingKeyBytes, highest_committed_block_height: BlockHeight)
        requires
            old(self).wf(),
        ensures
            final(self).wf(),
            final(self).promised(sync_server@) == Some(highest_committed_block_height),
            forall|k: Seq<u8>| k != sync_server@ ==> #[trigger] final(self).promised(k) == old(self).promised(k),
            final(self).blacklisted() == old(self).blacklisted(),
            final(self).last_progress() == old(self).last_progress(),
            final(self).pc_view() == old(self).pc_view(),
    {
        let ghost before = *self;
        match self.find_server(&sync_server) {
            Some(i) => {
                self.available_sync_servers.set(i, (sync_server, highest_committed_block_height));
                proof {
                    assert forall|a: int, b: int| 0 <= a < b < self.available_sync_servers@.len() implies
                        self.available_sync_servers@[a].0@ != self.available_sync_servers@[b].0@ by {
                        assert(self.available_sync_servers@[a].0@ == before.available_sync_servers@[a].0@);
                        assert(self.available_sync_servers@[b].0@ == before.available_sync_servers@[b].0@);
                    }
                    self.lemma_promised_at(i as int);
                    assert forall|k: Seq<u8>| k != sync_server@ implies #[trigger] self.promised(k) == before.promised(k) by {
                        if exists|j: int| 0 <= j < self.servers().len() && #[trigger] self.servers()[j].0@ == k {
                            let j = choose|j: int| 0 <= j < self.servers().len() && #[trigger] self.servers()[j].0@ == k;
                            self.lemma_promised_at(j);
                            before.lemma_promised_at(j);
                        } else {
                            assert forall|j: int| 0 <= j < before.servers().len() implies #[trigger] before.servers()[j].0@ != k by {
                                assert(self.servers()[j].0@ == before.servers()[j].0@);
                            }
                        }
                    }
                }
            },
            None => {
                self.available_sync_servers.push((sync_server, highest_committed_block_height));
                proof {
                    let n = before.servers().len() as int;
                    assert forall|a: int, b: int| 0 <= a < b < self.available_sync_servers@.len() implies
                        self.available_sync_servers@[a].0@ != self.available_sync_servers@[b].0@ by {
                        assert(self.available_sync_servers@[a] == before.available_sync_servers@[a]);
                        if b < n {
                            assert(self.available_sync_servers@[b] == before.available_sync_servers@[b]);
                        } else {
                            assert(before.servers()[a].0@ != sync_server@);
                        }
                    }
                    self.lemma_promised_at(n);
                    assert forall|k: Seq<u8>| k != sync_server@ implies #[trigger] self.promised(k) == before.promised(k) by {
                        if exists|j: int| 0 <= j < self.servers().len() && #[trigger] self.servers()[j].0@ == k {
                            let j = choose|j: int| 0 <= j < self.servers().len() && #[trigger] self.servers()[j].0@ == k;
                            assert(j < n);
                            self.lemma_promised_at(j);
                            assert(self.servers()[j] == before.servers()[j]);
                            before.lemma_promised_at(j);
                        } else {
                            assert forall|j: int| 0 <= j < before.servers().len() implies #[trigger] before.servers()[j].0@ != k by {
                                assert(self.servers()[j] == before.servers()[j]);
                            }
                        }
                    }
                }
            },
        }
    }

    /// Blacklist `sync_server` until `now + blacklist_expiry_time`: it is no longer available,
    /// and its blacklisting goes to the back of the blacklist.
    pub fn blacklist_sync_server(&mut self, sync_server: VerifyingKeyBytes, blacklist_expiry_time: u64, now: u64)
        requires
            old(self).wf(),
            now + blacklist_expiry_time <= u64::MAX,
        ensures
            final(self).wf(),
            final(self).promised(sync_server@) is None,
            forall|k: Seq<u8>| k != sync_server@ ==> #[trigger] final(self).promised(k) == old(self).promised(k),
            final(self).blacklisted() == old(self).blacklisted().push((sync_server, (now + blacklist_expiry_time) as u64)),
            final(self).last_progress() == old(self).last_progress(),
            final(self).pc_view() == old(self).pc_view(),
    {
        let ghost before = *self;
        match self.find_server(&sync_server) {
            Some(i) => {
                self.available_sync_servers.remove(i);
                proof {
                    let i = i as int;
                    assert forall|a: int, b: int| 0 <= a < b < self.available_sync_servers@.len() implies
                        self.available_sync_servers@[a].0@ != self.available_sync_servers@[b].0@ by {
                        let a2 = if a < i { a } else { a + 1 };
                        let b2 = if b < i { b } else { b + 1 };
                        assert(self.available_sync_servers@[a] == before.available_sync_servers@[a2]);
                        assert(self.available_sync_servers@[b] == before.available_sync_servers@[b2]);
                    }
                    assert forall|j: int| 0 <= j < self.servers().len() implies #[trigger] self.servers()[j].0@ != sync_server@ by {
                        let j2 = if j < i { j } else { j + 1 };
                        assert(self.servers()[j] == before.servers()[j2]);
                        if j2 != i {
                            if j2 < i {
                                assert(before.available_sync_servers@[j2].0@ != before.available_sync_servers@[i].0@);
                            } else {
                                assert(before.available_sync_servers@[i].0@ != before.available_sync_servers@[j2].0@);
                            }
                        }
                    }
                    assert forall|k: Seq<u8>| k != sync_server@ implies #[trigger] self.promised(k) == before.promised(k) by {
                        if exists|j: int| 0 <= j < self.servers().len() && #[trigger] self.servers()[j].0@ == k {
                            let j = choose|j: int| 0 <= j < self.servers().len() && #[trigger] self.servers()[j].0@ == k;
                            let j2 = if j < i { j } else { j + 1 };
                            assert(self.servers()[j] == before.servers()[j2]);
                            self.lemma_promised_at(j);
                            before.lemma_promised_at(j2);
                        } else {
                            assert forall|j: int| 0 <= j < before.servers().len() implies #[trigger] before.servers()[j].0@ != k by {
                                if j != i {
                                    let j1 = if j < i { j } else { j - 1 };
                                    assert(self.servers()[j1] == before.servers()[j]);
                                }
                            }
                        }
                    }
                }
            },
            None => {},
        }
        let ghost mid = *self;
        self.blacklist.push_back((sync_server, now + blacklist_expiry_time));
        proof {
            assert(self.servers() == mid.servers());
            assert forall|k: Seq<u8>| k != sync_server@ implies #[trigger] self.promised(k) == before.promised(k) by {
                assert(self.promised(k) == mid.promised(k));
            }
        }
    }

    /// Drop the blacklistings that have expired by `now` from the front of the blacklist.
    pub fn remove_expired_blacklisted_servers(&mut self, now: u64)
        requires
            old(self).wf(),
        ensures
            final(self).wf(),
            exists|n: int| #[trigger] expired_prefix(old(self).blacklisted(), final(self).blacklisted(), n, now),
            final(self).servers() == old(self).servers(),
            final(self).last_progress() == old(self).last_progress(),
            final(self).pc_view() == old(self).pc_view(),
    {
        let ghost original = self.blacklist@;
        let ghost mut n: int = 0;
        assert(original.skip(0) =~= original);
        loop
            invariant
                self.blacklist@ == original.skip(n),
                0 <= n <= original.len(),
                forall|j: int| 0 <= j < n ==> #[trigger] original[j].1 <= now,
                self.available_sync_servers == old(self).available_sync_servers,
                self.last_progress_or_sync_time == old(self).last_progress_or_sync_time,
                self.highest_pc_view == old(self).highest_pc_view,
            ensures
                n == original.len() || original[n].1 > now,
                self.blacklist@ == original.skip(n),
            decreases original.len() - n,
        {
            if self.blacklist.len() == 0 {
                break;
            }
            if self.blacklist[0].1 > now {
                break;
            }
            let _ = self.blacklist.pop_front();
            proof {
                assert(original.skip(n).subrange(1, original.skip(n).len() as int) =~= original.skip(n + 1));
                n = n + 1;
            }
        }
        assert(self.blacklist@ =~= original.skip(n));
        assert(n < original.len() ==> original[n].1 > now);
        assert(expired_prefix(original, self.blacklisted(), n, now));
        assert(original == old(self).blacklisted());
        assert(expired_prefix(old(self).blacklisted(), self.blacklisted(), n, now));
    }

    /// The available servers that promised a height above `min` (all of them, for no `min`), in order.
    pub fn sync_server_candidates(&self, min: Option<BlockHeight>) -> (c: Vec<VerifyingKeyBytes>)
        requires
            self.wf(),
        ensures
            forall|k: VerifyingKeyBytes| c@.contains(k) <==> self.is_candidate(k@, min),
    {
        let mut c: Vec<VerifyingKeyBytes> = Vec::new();
        let mut i: usize = 0;
        while i < self.available_sync_servers.len()
            invariant
                self.wf(),
                i <= self.available_sync_servers@.len(),
                forall|k: VerifyingKeyBytes| c@.contains(k) <==> exists|j: int| 0 <= j < i
                    && #[trigger] self.servers()[j].0 == k && (min matches Some(m) ==> self.servers()[j].1 > m),
            decreases self.available_sync_servers@.len() - i,
        {
            let (key, height) = self.available_sync_servers[i];
            let ok = match min {
                Some(m) => height > m,
                None => true,
            };
            let ghost before = c@;
            if ok {
                c.push(key);
            }
            proof {
                assert forall|k: VerifyingKeyBytes| c@.contains(k) <==> exists|j: int| 0 <= j < i + 1
                    && #[trigger] self.servers()[j].0 == k && (min matches Some(m) ==> self.servers()[j].1 > m) by {
                    if c@.contains(k) {
                        if ok && k == key {
                            assert(self.servers()[i as int].0 == k);
                        } else {
                            if ok {
                                let idx = choose|idx: int| 0 <= idx < c@.len() && c@[idx] == k;
                                assert(idx < before.len());
                                assert(before.contains(k));
                            }
                        }
                    }
                    if exists|j: int| 0 <= j < i + 1 && #[trigger] self.servers()[j].0 == k
                        && (min matches Some(m) ==> self.servers()[j].1 > m) {
                        let j = choose|j: int| 0 <= j < i + 1 && #[trigger] self.servers()[j].0 == k
                            && (min matches Some(m) ==> self.servers()[j].1 > m);
                        if j == i {
                            assert(c@[c@.len() - 1] == k);
                        } else {
                            assert(before.contains(k));
                            let idx = choose|idx: int| 0 <= idx < before.len() && before[idx] == k;
                            assert(c@[idx] == k);
                        }
                    }
                }
            }
            i = i + 1;
        }
        proof {
            assert forall|k: VerifyingKeyBytes| c@.contains(k) <==> self.is_candidate(k@, min) by {
                if exists|j: int| 0 <= j < self.servers().len() && #[trigger] self.servers()[j].0 == k
                    && (min matches Some(m) ==> self.servers()[j].1 > m) {
                    let j = choose|j: int| 0 <= j < self.servers().len() && #[trigger] self.servers()[j].0 == k
                        && (min matches Some(m) ==> self.servers()[j].1 > m);
                    self.lemma_promised_at(j);
                }
                if self.is_candidate(k@, min) {
                    let j = choose|j: int| 0 <= j < self.servers().len() && #[trigger] self.servers()[j].0@ == k@;
                    self.lemma_promised_at(j);
                    assert(self.servers()[j].0 == k);
                }
            }
        }
        c
    }

    /// A random available server that promised a height above `min` (any available one, for no `min`);
    /// none when there is no such server.
    pub fn random_sync_server(&self, min: Option<BlockHeight>) -> (r: Option<VerifyingKeyBytes>)
        requires
            self.wf(),
        ensures
            (r is None) == (forall|k: VerifyingKeyBytes| !self.is_candidate(k@, min)),
            r matches Some(k) ==> self.is_candidate(k@, min),
    {
        let candidates = self.sync_server_candidates(min);
        let r = choose_server(&candidates);
        proof {
            if candidates@.len() > 0 {
                assert(candidates@.contains(candidates@[0]));
                assert(self.is_candidate(candidates@[0]@, min));
            } else {
                assert forall|k: VerifyingKeyBytes| !self.is_candidate(k@, min) by {
                    assert(!candidates@.contains(k));
                }
            }
        }
        r
    }
}


/// A block sync client: its configuration and bookkeeping.
pub struct BlockSyncClient {
    config: BlockSyncClientConfiguration,
    state: BlockSyncClientState,
}

/// What became of a block of a sync response that the app validated.
pub struct SyncedBlock {
    /// The update of the block tree by the block's justify.
    pub update: UpdateOutcome,
    /// The update by the response's highest certificate, if it was correct and safe.
    pub highest_pc_update: Option<UpdateOutcome>,
}

impl BlockSyncClient {
    pub closed spec fn chain_id(&self) -> ChainID {
        self.config.chain_id
    }

    pub closed spec fn request_limit(&self) -> u32 {
        self.config.request_limit
    }

    pub closed spec fn expiry(&self) -> u64 {
        self.config.blacklist_expiry_time
    }

    pub closed spec fn min_view_difference(&self) -> u64 {
        self.config.block_sync_trigger_min_view_difference
    }

    pub closed spec fn timeout(&self) -> u64 {
        self.config.block_sync_trigger_timeout
    }

    pub closed spec fn state_spec(&self) -> BlockSyncClientState {
        self.state
    }

    pub closed spec fn wf(&self) -> bool {
        self.state.wf()
    }

    /// How long, in milliseconds, a server stays blacklisted.
    pub fn blacklist_expiry_time(&self) -> (t: u64)
        ensures
            t == self.expiry(),
    {
        self.config.blacklist_expiry_time
    }

    /// A client with no servers known, counting `now` as the last progress.
    pub fn new(config: BlockSyncClientConfiguration, now: u64) -> (c: BlockSyncClient)
        ensures
            c.wf(),
            c.chain_id() == config.chain_id,
            c.request_limit() == config.request_limit,
            c.expiry() == config.blacklist_expiry_time,
            c.min_view_difference() == config.block_sync_trigger_min_view_difference,
            c.timeout() == config.block_sync_trigger_timeout,
            c.state_spec().servers().len() == 0,
            c.state_spec().blacklisted().len() == 0,
            c.state_spec().last_progress() == now,
            c.state_spec().pc_view() == 0,
    {
        BlockSyncClient { config, state: BlockSyncClientState::initialize(now) }
    }

    pub fn state(&self) -> (s: &BlockSyncClientState)
        ensures
            *s == self.state_spec(),
    {
        &self.state
    }

    /// Take an `AdvertiseBlock` from `origin`: register `origin` as an available server with the
    /// advertised height when the advertisement is for the client's chain and signed by `origin`,
    /// `origin` may serve blocks, and it is not blacklisted.
    pub fn on_receive_advertise_block(&mut self, advertise_block: &AdvertiseBlock, origin: &VerifyingKeyBytes, block_tree: &BlockTree)
        requires
            old(self).wf(),
            block_tree.wf(),
        ensures
            final(self).wf(),
            final(self).chain_id() == old(self).chain_id(),
            final(self).request_limit() == old(self).request_limit(),
            final(self).expiry() == old(self).expiry(),
            final(self).min_view_difference() == old(self).min_view_difference(),
            final(self).timeout() == old(self).timeout(),
            ({
                let taken = advertise_block.chain_id == old(self).chain_id()
                    && ed25519_verify(origin@, advertise_bytes(advertise_block.chain_id,
                        advertise_block.highest_committed_block_height), advertise_block.signature@)
                    && is_sync_server_spec(block_tree, origin@)
                    && !old(self).state_spec().is_blacklisted(origin@);
                if taken {
                    &&& final(self).state_spec().promised(origin@) == Some(advertise_block.highest_committed_block_height)
                    &&& forall|k: Seq<u8>| k != origin@ ==> #[trigger] final(self).state_spec().promised(k)
                        == old(self).state_spec().promised(k)
                    &&& final(self).state_spec().blacklisted() == old(self).state_spec().blacklisted()
                    &&& final(self).state_spec().last_progress() == old(self).state_spec().last_progress()
                    &&& final(self).state_spec().pc_view() == old(self).state_spec().pc_view()
                } else {
                    final(self).state_spec() == old(self).state_spec()
                }
            }),
    {
        if advertise_block.chain_id != self.config.chain_id || !advertise_block.is_correct(origin) {
            return;
        }
        if !is_sync_server_address(origin, block_tree) {
            return;
        }
        if self.state.blacklist_contains_server_address(origin) {
            return;
        }
        self.state.register_or_update_sync_server(*origin, advertise_block.highest_committed_block_height);
    }

    /// Whether an `AdvertisePC` from `origin` triggers sync: `origin` is not blacklisted, the
    /// certificate is at least the highest view entered, ahead of it by at least the configured
    /// difference, and correct.
    pub fn on_receive_advertise_pc(&self, advertise_pc: &AdvertisePC, origin: &VerifyingKeyBytes, block_tree: &BlockTree) -> (b: bool)
        requires
            block_tree.wf(),
        ensures
            b == (!self.state_spec().is_blacklisted(origin@)
                && advertise_pc.highest_pc.view >= block_tree.view_entered()
                && advertise_pc.highest_pc.view - block_tree.view_entered() >= self.min_view_difference()
                && is_correct_spec(block_tree, advertise_pc.highest_pc@)),
    {
        if self.state.blacklist_contains_server_address(origin) {
            return false;
        }
        let entered = block_tree.highest_view_entered();
        if advertise_pc.highest_pc.view < entered {
            return false;
        }
        advertise_pc.highest_pc.view - entered >= self.config.block_sync_trigger_min_view_difference
            && advertise_pc.highest_pc.is_correct(block_tree)
    }

    /// Keep the bookkeeping up to date at `now`: drop expired blacklistings, and count a higher
    /// certificate in the block tree as progress. Returns whether sync is due because no progress
    /// or sync happened for the configured timeout.
    pub fn tick(&mut self, block_tree: &BlockTree, now: u64) -> (due: bool)
        requires
            old(self).wf(),
        ensures
            final(self).wf(),
            final(self).chain_id() == old(self).chain_id(),
            final(self).request_limit() == old(self).request_limit(),
            final(self).expiry() == old(self).expiry(),
            final(self).min_view_difference() == old(self).min_view_difference(),
            final(self).timeout() == old(self).timeout(),
            final(self).state_spec().servers() == old(self).state_spec().servers(),
            exists|n: int| #[trigger] expired_prefix(old(self).state_spec().blacklisted(), final(self).state_spec().blacklisted(), n, now),
            block_tree.highest().view > old(self).state_spec().pc_view() ==> final(self).state_spec().pc_view() == block_tree.highest().view
                && final(self).state_spec().last_progress() == now,
            block_tree.highest().view <= old(self).state_spec().pc_view() ==> final(self).state_spec().pc_view() == old(self).state_spec().pc_view()
                && final(self).state_spec().last_progress() == old(self).state_spec().last_progress(),
            due == (now >= final(self).state_spec().last_progress()
                && now - final(self).state_spec().last_progress() >= old(self).timeout()),
    {
        let ghost before = self.state;
        self.state.remove_expired_blacklisted_servers(now);
        let ghost n = choose|n: int| #[trigger] expired_prefix(before.blacklisted(), self.state.blacklisted(), n, now);
        let view = block_tree.highest_pc().view;
        if view > self.state.highest_pc_view {
            self.state.highest_pc_view = view;
            self.state.last_progress_or_sync_time = now;
        }
        proof {
            assert(expired_prefix(old(self).state_spec().blacklisted(), self.state_spec().blacklisted(), n, now));
        }
        now >= self.state.last_progress_or_sync_time
            && now - self.state.last_progress_or_sync_time >= self.config.block_sync_trigger_timeout
    }

    /// Count `now` as the time of the last sync.
    pub fn record_sync(&mut self, now: u64)
        requires
            old(self).wf(),
        ensures
            final(self).wf(),
            final(self).chain_id() == old(self).chain_id(),
            final(self).request_limit() == old(self).request_limit(),
            final(self).expiry() == old(self).expiry(),
            final(self).min_view_difference() == old(self).min_view_difference(),
            final(self).timeout() == old(self).timeout(),
            final(self).state_spec().servers() == old(self).state_spec().servers(),
            final(self).state_spec().blacklisted() == old(self).state_spec().blacklisted(),
            final(self).state_spec().pc_view() == old(self).state_spec().pc_view(),
            final(self).state_spec().last_progress() == now,
    {
        self.state.last_progress_or_sync_time = now;
    }

    /// A random available server to sync with: one that promised at least the replica's highest
    /// committed height (any, when nothing is committed).
    pub fn sync_peer(&self, block_tree: &BlockTree) -> (r: Option<VerifyingKeyBytes>)
        requires
            self.wf(),
            block_tree.wf(),
        ensures
            (r is None) == (forall|k: VerifyingKeyBytes| !self.state_spec().is_candidate(k@, block_tree.committed_height())),
            r matches Some(k) ==> self.state_spec().is_candidate(k@, block_tree.committed_height()),
    {
        self.state.random_sync_server(block_tree.highest_committed_block_height())
    }

    /// The next request to the sync server: blocks of the client's chain from just above the
    /// highest committed block (from 0, when nothing is committed), at most the request limit.
    pub fn sync_request(&self, block_tree: &BlockTree) -> (req: BlockSyncRequest)
        requires
            block_tree.wf(),
            block_tree.committed_height() matches Some(h) ==> h < u64::MAX,
        ensures
            req.chain_id == self.chain_id(),
            req.limit == self.request_limit(),
            req.start_height == match block_tree.committed_height() {
                Some(h) => (h + 1) as u64,
                None => 0u64,
            },
    {
        let start_height = match block_tree.highest_committed_block_height() {
            Some(h) => h + 1,
            None => 0,
        };
        BlockSyncRequest { chain_id: self.config.chain_id, start_height, limit: self.config.request_limit }
    }

    /// The blocks of a response that are new: those after the leading blocks that the tree
    /// already holds.
    pub fn new_blocks(blocks: Vec<Block>, block_tree: &BlockTree) -> (r: Vec<Block>)
        requires
            block_tree.wf(),
        ensures
            exists|n: int| 0 <= n <= blocks@.len() && #[trigger] blocks@.skip(n) == r@
                && (forall|j: int| 0 <= j < n ==> block_tree.has_block(#[trigger] blocks@[j]@.hash))
                && (n < blocks@.len() ==> !block_tree.has_block(blocks@[n]@.hash)),
    {
        let mut n: usize = 0;
        loop
            invariant
                block_tree.wf(),
                n <= blocks@.len(),
                forall|j: int| 0 <= j < n ==> block_tree.has_block(#[trigger] blocks@[j]@.hash),
            ensures
                n == blocks@.len() || !block_tree.has_block(blocks@[n as int]@.hash),
            decreases blocks@.len() - n,
        {
            if n >= blocks.len() {
                break;
            }
            if !block_tree.contains(&blocks[n].hash) {
                break;
            }
            n = n + 1;
        }
        let ghost original = blocks@;
        let mut blocks = blocks;
        let rest = blocks.split_off(n);
        assert(rest@ =~= original.skip(n as int));
        rest
    }
}


/// Whether `bt1` is `bt0` after a synced `block` was inserted (giving `mid`), the tree was
/// updated with its justify (giving `mid2`), and then with the response's highest certificate
/// `hpc` exactly when that is correct and safe in `mid2`, as `sb` records.
pub open spec fn synced(
    bt0: &BlockTree,
    mid: &BlockTree,
    mid2: &BlockTree,
    bt1: &BlockTree,
    block: crate::block::BlockView,
    hpc: crate::hotstuff::types::QcView,
    chain_id: ChainID,
    sb: SyncedBlock,
) -> bool {
    &&& crate::hotstuff::implementation::inserted(bt0, mid, block)
    &&& !update_fails(mid, block.justify)
    &&& update_effects(mid, mid2, block.justify, sb.update)
    &&& mid2.view_entered() == bt0.view_entered()
    &&& mid2.view_voted() == bt0.view_voted()
    &&& (sb.highest_pc_update is Some) == (is_correct_spec(mid2, hpc) && safe_pc_spec(mid2, hpc, chain_id))
    &&& match sb.highest_pc_update {
        Some(o) => !update_fails(mid2, hpc) && update_effects(mid2, bt1, hpc, o)
            && bt1.view_entered() == bt0.view_entered() && bt1.view_voted() == bt0.view_voted(),
        None => *bt1 == *mid2,
    }
}

/// Whether syncing `block` into `bt0` failed, leaving `bt1`: after the block was inserted (giving
/// `mid`), updating the tree with its justify failed; or that succeeded (giving `mid2`), the
/// response's highest certificate `hpc` was correct and safe in `mid2`, and updating with it
/// failed.
pub open spec fn sync_fails(
    bt0: &BlockTree,
    bt1: &BlockTree,
    block: crate::block::BlockView,
    hpc: crate::hotstuff::types::QcView,
    chain_id: ChainID,
) -> bool {
    exists|mid: BlockTree| #[trigger] crate::hotstuff::implementation::inserted(bt0, &mid, block) && {
        ||| update_fails(&mid, block.justify) && *bt1 == mid
        ||| exists|mid2: BlockTree, o: UpdateOutcome| #[trigger] update_effects(&mid, &mid2, block.justify, o)
            && !update_fails(&mid, block.justify)
            && mid2.view_entered() == bt0.view_entered() && mid2.view_voted() == bt0.view_voted()
            && is_correct_spec(&mid2, hpc) && safe_pc_spec(&mid2, hpc, chain_id)
            && update_fails(&mid2, hpc) && *bt1 == mid2
    }
}

/// Whether `after` is `before` once `session` ended at `now`: the session's server is
/// blacklisted from `now` when it inserted fewer blocks than it promised (the height it promised
/// less the height the sync began at); nothing changes otherwise.
pub open spec fn sync_ended(before: &BlockSyncClient, after: &BlockSyncClient, session: SyncSession, now: u64) -> bool {
    let peer = session.peer_spec();
    let owed = blocks_owed(before.state_spec().promised(peer@)->0, session.init_spec());
    if session.count() < owed {
        &&& after.state_spec().promised(peer@) is None
        &&& forall|k: Seq<u8>| k != peer@ ==> #[trigger] after.state_spec().promised(k) == before.state_spec().promised(k)
        &&& after.state_spec().blacklisted() == before.state_spec().blacklisted().push((peer, (now + before.expiry()) as u64))
    } else {
        after.state_spec() == before.state_spec()
    }
}

/// How a sync session ends, counted concretely: with `p` the height that the session's server
/// promised and `i` the height the session began at, the server is dropped from the available
/// servers and blacklisted from `now` exactly when the session inserted fewer than `p - i` blocks;
/// a server that delivered `p - i` blocks or more keeps its place, and nothing changes.
pub proof fn lemma_sync_end_counts_blocks_owed(before: &BlockSyncClient, after: &BlockSyncClient, session: SyncSession, now: u64)
    requires
        sync_ended(before, after, session, now),
        before.state_spec().promised(session.peer_spec()@) is Some,
    ensures
        ({
            let p = before.state_spec().promised(session.peer_spec()@)->0;
            let i = session.init_spec();
            &&& session.count() < p - i ==> after.state_spec().promised(session.peer_spec()@) is None
                && after.state_spec().blacklisted()
                    == before.state_spec().blacklisted().push((session.peer_spec(), (now + before.expiry()) as u64))
                && (forall|k: Seq<u8>| k != session.peer_spec()@
                    ==> #[trigger] after.state_spec().promised(k) == before.state_spec().promised(k))
            &&& session.count() >= p - i ==> after.state_spec() == before.state_spec()
        }),
{
}

/// Whether a sync session is over on `response` (`None` when no response came in time): there is
/// none, or the tree already holds every block that it carries.
pub open spec fn sync_over(response: Option<BlockSyncResponse>, block_tree: &BlockTree) -> bool {
    match response {
        None => true,
        Some(resp) => forall|j: int| 0 <= j < resp.blocks@.len() ==> block_tree.has_block(#[trigger] resp.blocks@[j]@.hash),
    }
}

/// What a sync session does with a server's response.
pub enum SyncStep {
    /// Check, validate and insert `blocks` in order, each followed by an update with `highest_pc`.
    Insert { blocks: Vec<Block>, highest_pc: QuorumCertificate },
    /// The session is over.
    End,
}

/// A sync with one server: the server, the highest committed height when the sync began (0 when
/// none was committed), and the number of blocks inserted so far.
pub struct SyncSession {
    peer: VerifyingKeyBytes,
    init: BlockHeight,
    blocks_synced: u64,
}

impl SyncSession {
    pub closed spec fn peer_spec(&self) -> VerifyingKeyBytes {
        self.peer
    }

    pub closed spec fn init_spec(&self) -> BlockHeight {
        self.init
    }

    /// The number of blocks inserted in the sync so far.
    pub closed spec fn count(&self) -> u64 {
        self.blocks_synced
    }

    pub fn peer(&self) -> (p: VerifyingKeyBytes)
        ensures
            p == self.peer_spec(),
    {
        self.peer
    }

    pub fn init(&self) -> (h: BlockHeight)
        ensures
            h == self.init_spec(),
    {
        self.init
    }

    pub fn blocks_synced(&self) -> (n: u64)
        ensures
            n == self.count(),
    {
        self.blocks_synced
    }
}

/// The number of blocks that a server which promised `promised` owes a client whose highest
/// committed height was `init` when it started syncing.
pub open spec fn blocks_owed(promised: BlockHeight, init: BlockHeight) -> int {
    promised - init
}

impl BlockSyncClient {
    /// Check a new block of a response from `peer`: it must be correct and safe. A server that
    /// sent a block that is not is blacklisted from `now`.
    pub fn check_sync_block(&mut self, peer: &VerifyingKeyBytes, block: &Block, block_tree: &BlockTree, now: u64) -> (ok: bool)
        requires
            old(self).wf(),
            block_tree.wf(),
            now + old(self).expiry() <= u64::MAX,
        ensures
            final(self).wf(),
            final(self).chain_id() == old(self).chain_id(),
            final(self).request_limit() == old(self).request_limit(),
            final(self).expiry() == old(self).expiry(),
            final(self).min_view_difference() == old(self).min_view_difference(),
            final(self).timeout() == old(self).timeout(),
            ok == (block_correct_spec(block_tree, block@) && safe_block_spec(block_tree, block@.justify, old(self).chain_id())),
            ok ==> final(self).state_spec() == old(self).state_spec(),
            !ok ==> final(self).state_spec().promised(peer@) is None
                && (forall|k: Seq<u8>| k != peer@ ==> #[trigger] final(self).state_spec().promised(k) == old(self).state_spec().promised(k))
                && final(self).state_spec().blacklisted() == old(self).state_spec().blacklisted().push((*peer, (now + old(self).expiry()) as u64)),
    {
        if !block.is_correct(block_tree) || !safe_block(block, block_tree, self.config.chain_id) {
            self.state.blacklist_sync_server(*peer, self.config.blacklist_expiry_time, now);
            return false;
        }
        true
    }

    /// Begin a sync with `peer`: no block inserted yet, counted from the highest committed height
    /// (0 when none is committed).
    pub fn start_sync(&self, peer: &VerifyingKeyBytes, block_tree: &BlockTree) -> (s: SyncSession)
        requires
            block_tree.wf(),
        ensures
            s.peer_spec() == *peer,
            s.init_spec() == match block_tree.committed_height() {
                Some(h) => h,
                None => 0,
            },
            s.count() == 0,
    {
        let init = match block_tree.highest_committed_block_height() {
            Some(h) => h,
            None => 0,
        };
        SyncSession { peer: *peer, init, blocks_synced: 0 }
    }

    /// Handle the app's `response` to the validation of `block` (which passed
    /// [`Self::check_sync_block`]) from the server of `session`: insert a valid block with its
    /// updates, count it, and update the block tree with its justify, then with the response's
    /// `highest_pc` if that is correct and safe; blacklist a server whose block the app finds
    /// invalid.
    pub fn on_validated_sync_block(
        &mut self,
        session: &mut SyncSession,
        block: &Block,
        highest_pc: &QuorumCertificate,
        block_tree: &mut BlockTree,
        response: ValidateBlockResponse,
        now: u64,
    ) -> (r: Result<Option<SyncedBlock>, BlockSyncClientError>)
        requires
            old(self).wf(),
            old(block_tree).wf(),
            now + old(self).expiry() <= u64::MAX,
            old(session).count() < u64::MAX,
        ensures
            final(session).peer_spec() == old(session).peer_spec(),
            final(session).init_spec() == old(session).init_spec(),
            final(session).count() == old(session).count() + if r matches Ok(Some(_)) { 1int } else { 0int },
            final(self).wf(),
            final(self).chain_id() == old(self).chain_id(),
            final(self).request_limit() == old(self).request_limit(),
            final(self).expiry() == old(self).expiry(),
            final(self).min_view_difference() == old(self).min_view_difference(),
            final(self).timeout() == old(self).timeout(),
            final(block_tree).wf(),
            match response {
                ValidateBlockResponse::Invalid => {
                    &&& r matches Ok(None)
                    &&& *final(block_tree) == *old(block_tree)
                    &&& final(self).state_spec().promised(old(session).peer_spec()@) is None
                    &&& forall|k: Seq<u8>| k != old(session).peer_spec()@ ==> #[trigger] final(self).state_spec().promised(k) == old(self).state_spec().promised(k)
                    &&& final(self).state_spec().blacklisted() == old(self).state_spec().blacklisted().push((old(session).peer_spec(), (now + old(self).expiry()) as u64))
                },
                ValidateBlockResponse::Valid { .. } => {
                    &&& final(self).state_spec() == old(self).state_spec()
                    &&& final(block_tree).has_block(block@.hash)
                    &&& (r matches Ok(Some(sb)) ==> exists|mid: BlockTree, mid2: BlockTree| #[trigger] synced(
                        old(block_tree), &mid, &mid2, final(block_tree), block@, highest_pc@, old(self).chain_id(), sb))
                    &&& r matches Ok(x) ==> x is Some
                    &&& r is Err ==> sync_fails(old(block_tree), final(block_tree), block@, highest_pc@, old(self).chain_id())
                },
            },
    {
        match response {
            ValidateBlockResponse::Valid { app_state_updates, validator_set_updates } => {
                block_tree.insert(block, app_state_updates.as_ref(), validator_set_updates.as_ref());
                let ghost mid = *block_tree;
                let update = match block_tree.update(&block.justify) {
                    Ok(o) => o,
                    Err(e) => {
                        proof {
                            assert(crate::hotstuff::implementation::inserted(old(block_tree), &mid, block@));
                        }
                        return Err(BlockSyncClientError::BlockTreeError(e));
                    },
                };
                proof {
                    assert(crate::hotstuff::implementation::inserted(old(block_tree), &mid, block@));
                    assert(update_effects(&mid, block_tree, block@.justify, update));
                }
                let ghost mid2 = *block_tree;
                let highest_pc_update = if highest_pc.is_correct(block_tree)
                    && safe_pc(highest_pc, block_tree, self.config.chain_id) {
                    match block_tree.update(highest_pc) {
                        Ok(o) => Some(o),
                        Err(e) => {
                            proof {
                                assert(crate::hotstuff::implementation::inserted(old(block_tree), &mid, block@));
                                assert(update_effects(&mid, &mid2, block@.justify, update));
                                assert(self.config.chain_id == old(self).chain_id());
                            }
                            return Err(BlockSyncClientError::BlockTreeError(e));
                        },
                    }
                } else {
                    None
                };
                let sb = SyncedBlock { update, highest_pc_update };
                session.blocks_synced = session.blocks_synced + 1;
                proof {
                    assert(self.config.chain_id == old(self).chain_id());
                    assert(synced(old(block_tree), &mid, &mid2, block_tree, block@, highest_pc@, old(self).chain_id(), sb));
                }
                let result: Result<Option<SyncedBlock>, BlockSyncClientError> = Ok(Some(sb));
                result
            },
            ValidateBlockResponse::Invalid => {
                self.state.blacklist_sync_server(session.peer, self.config.blacklist_expiry_time, now);
                Ok(None)
            },
        }
    }

    /// End `session`: blacklist its server from `now` when it sent fewer blocks than it promised
    /// (the height it promised less the height the sync began at).
    pub fn end_sync(&mut self, session: &SyncSession, now: u64)
        requires
            old(self).wf(),
            old(self).state_spec().promised(session.peer_spec()@) matches Some(h) && h >= session.init_spec(),
            now + old(self).expiry() <= u64::MAX,
        ensures
            final(self).wf(),
            final(self).chain_id() == old(self).chain_id(),
            final(self).request_limit() == old(self).request_limit(),
            final(self).expiry() == old(self).expiry(),
            final(self).min_view_difference() == old(self).min_view_difference(),
            final(self).timeout() == old(self).timeout(),
            sync_ended(old(self), final(self), *session, now),
            ({
                let p = old(self).state_spec().promised(session.peer_spec()@)->0;
                &&& session.count() < p - session.init_spec() ==> final(self).state_spec().promised(session.peer_spec()@) is None
                    && final(self).state_spec().blacklisted() == old(self).state_spec().blacklisted().push(
                        (session.peer_spec(), (now + old(self).expiry()) as u64))
                &&& session.count() >= p - session.init_spec() ==> final(self).state_spec() == old(self).state_spec()
            }),
    {
        let peer = session.peer;
        let i = match self.state.find_server(&peer) {
            Some(i) => i,
            None => {
                return;
            },
        };
        proof {
            self.state.lemma_promised_at(i as int);
        }
        let promised = self.state.available_sync_servers[i].1;
        if session.blocks_synced < promised - session.init {
            self.state.blacklist_sync_server(peer, self.config.blacklist_expiry_time, now);
        }
    }

    /// Handle what the server of `session` answered (`None` when no answer came in time): end the
    /// session as [`Self::end_sync`] does when there is no answer or it carries no block that the
    /// tree lacks; otherwise hand back its blocks from the first one that the tree lacks, with
    /// its highest certificate.
    pub fn on_sync_response(
        &mut self,
        session: &SyncSession,
        response: Option<BlockSyncResponse>,
        block_tree: &BlockTree,
        now: u64,
    ) -> (step: SyncStep)
        requires
            old(self).wf(),
            block_tree.wf(),
            now + old(self).expiry() <= u64::MAX,
            sync_over(response, block_tree) ==> (old(self).state_spec().promised(session.peer_spec()@) matches Some(h)
                && h >= session.init_spec()),
        ensures
            final(self).wf(),
            final(self).chain_id() == old(self).chain_id(),
            final(self).request_limit() == old(self).request_limit(),
            final(self).expiry() == old(self).expiry(),
            final(self).min_view_difference() == old(self).min_view_difference(),
            final(self).timeout() == old(self).timeout(),
            (step is End) == sync_over(response, block_tree),
            (step is End) == match response {
                None => true,
                Some(resp) => forall|j: int| 0 <= j < resp.blocks@.len() ==> block_tree.has_block(#[trigger] resp.blocks@[j]@.hash),
            },
            step is End ==> sync_ended(old(self), final(self), *session, now),
            step matches SyncStep::Insert { blocks, highest_pc } ==> {
                &&& final(self).state_spec() == old(self).state_spec()
                &&& response matches Some(resp)
                &&& highest_pc == resp.highest_pc
                &&& exists|n: int| 0 <= n < resp.blocks@.len() && #[trigger] resp.blocks@.skip(n) == blocks@
                    && (forall|j: int| 0 <= j < n ==> block_tree.has_block(#[trigger] resp.blocks@[j]@.hash))
                    && !block_tree.has_block(resp.blocks@[n]@.hash)
            },
    {
        match response {
            None => {
                self.end_sync(session, now);
                SyncStep::End
            },
            Some(resp) => {
                let BlockSyncResponse { blocks, highest_pc } = resp;
                let ghost all = blocks@;
                let new = Self::new_blocks(blocks, block_tree);
                if new.len() == 0 {
                    proof {
                        let n = choose|n: int| 0 <= n <= all.len() && #[trigger] all.skip(n) == new@
                            && (forall|j: int| 0 <= j < n ==> block_tree.has_block(#[trigger] all[j]@.hash))
                            && (n < all.len() ==> !block_tree.has_block(all[n]@.hash));
                        assert(all.skip(n).len() == 0);
                        assert(n == all.len());
                    }
                    self.end_sync(session, now);
                    SyncStep::End
                } else {
                    SyncStep::Insert { blocks: new, highest_pc }
                }
            },
        }
    }
}

} // verus!
