//! The block tree: the replica's persistent state, held here in memory.
//!
//! A block tree is a tree of blocks rooted at the genesis block, in which every block names its
//! parent through its `justify`. Committed blocks form a chain; blocks above the highest committed
//! block are speculative. Besides the blocks, the tree keeps the app state, the validator set
//! state, and the safety variables of the HotStuff subprotocol (locked and highest certificates,
//! the highest views entered and voted in).

use vstd::prelude::*;

use crate::block::{Block, BlockView};
use crate::hotstuff::types::{QcView, QuorumCertificate};
use crate::types::{bytes32_eq, BlockHeight, CryptoHash, Power, ViewNumber};
use crate::update_sets::{first_value, updated_value, AppStateUpdates};
use crate::validator_set::{
    applied_spec, ValidatorSet, ValidatorSetState, ValidatorSetUpdates, ValidatorSetUpdatesStatus,
};

pub mod invariants;
pub mod accessors;
pub mod variables;

use invariants::{block_to_commit, block_to_commit_spec, pc_to_lock, pc_to_lock_spec, Decision};

verus! {

/// An error in reading the block tree.
pub enum BlockTreeError {
    /// A block that the tree's invariants say is there could not be found.
    BlockExpectedButNotFound { block: CryptoHash },
}

/// What the tree stores for one block.
pub struct BlockEntry {
    pub(crate) block: Block,
    pub(crate) pending_app_state_updates: Option<AppStateUpdates>,
    pub(crate) validator_set_updates_status: ValidatorSetUpdatesStatus,
}

/// The block tree of one replica.
pub struct BlockTree {
    pub(crate) entries: Vec<BlockEntry>,
    pub(crate) children_lists: Vec<(CryptoHash, Vec<CryptoHash>)>,
    pub(crate) committed_chain: Vec<(BlockHeight, CryptoHash)>,
    pub(crate) committed_app_state: Vec<(Vec<u8>, Vec<u8>)>,
    pub(crate) locked_pc: QuorumCertificate,
    pub(crate) highest_pc: QuorumCertificate,
    pub(crate) highest_view_entered: ViewNumber,
    pub(crate) highest_view_phase_voted: Option<ViewNumber>,
    pub(crate) highest_committed_block: Option<CryptoHash>,
    pub(crate) newest_block: Option<CryptoHash>,
    pub(crate) validator_set_state: ValidatorSetState,
}

impl BlockTree {
    /// Whether a block with hash `h` is in the tree.
    pub closed spec fn has_block(&self, h: Seq<u8>) -> bool {
        exists|i: int| 0 <= i < self.entries@.len() && #[trigger] self.entries@[i].block.hash@ == h
    }

    closed spec fn index_of(&self, h: Seq<u8>) -> int {
        choose|i: int| 0 <= i < self.entries@.len() && #[trigger] self.entries@[i].block.hash@ == h
    }

    /// The block with hash `h` (meaningful when `has_block(h)`).
    pub closed spec fn block_of(&self, h: Seq<u8>) -> BlockView {
        self.entries@[self.index_of(h)].block@
    }

    /// Whether the block with hash `h` updates the validator set (pending or committed).
    pub closed spec fn has_updates(&self, h: Seq<u8>) -> bool {
        self.has_block(h) && !(self.entries@[self.index_of(h)].validator_set_updates_status is NoUpdates)
    }

    /// The validator set updates of the block with hash `h`, if they are pending.
    pub closed spec fn pending_vs(&self, h: Seq<u8>) -> Option<ValidatorSetUpdates> {
        if self.has_block(h) {
            match self.entries@[self.index_of(h)].validator_set_updates_status {
                ValidatorSetUpdatesStatus::Pending(u) => Some(u),
                _ => None,
            }
        } else {
            None
        }
    }

    /// Whether the block with hash `h` updated the validator set and has been committed.
    pub closed spec fn updates_committed(&self, h: Seq<u8>) -> bool {
        self.has_block(h) && self.entries@[self.index_of(h)].validator_set_updates_status is Committed
    }

    /// The app state updates that the (uncommitted) block with hash `h` makes, if any.
    pub closed spec fn pending_app_updates(&self, h: Seq<u8>) -> Option<AppStateUpdates> {
        if self.has_block(h) {
            self.entries@[self.index_of(h)].pending_app_state_updates
        } else {
            None
        }
    }

    /// The hashes of the children of the block with hash `h`: the blocks inserted with a justify
    /// that names `h`, in the order of their insertion.
    pub closed spec fn children_of(&self, h: Seq<u8>) -> Seq<Seq<u8>> {
        children_in(self.children_lists@, h)
    }

    pub closed spec fn locked(&self) -> QcView {
        self.locked_pc@
    }

    pub closed spec fn highest(&self) -> QcView {
        self.highest_pc@
    }

    pub closed spec fn view_entered(&self) -> ViewNumber {
        self.highest_view_entered
    }

    pub closed spec fn view_voted(&self) -> Option<ViewNumber> {
        self.highest_view_phase_voted
    }

    /// The hash of the highest committed block, if any block is committed.
    pub closed spec fn committed_block(&self) -> Option<Seq<u8>> {
        match self.highest_committed_block {
            Some(h) => Some(h@),
            None => None,
        }
    }

    pub closed spec fn newest(&self) -> Option<Seq<u8>> {
        match self.newest_block {
            Some(h) => Some(h@),
            None => None,
        }
    }

    /// The committed blocks, as (height, hash), in the order in which they were committed.
    pub closed spec fn committed_chain_view(&self) -> Seq<(BlockHeight, Seq<u8>)> {
        self.committed_chain@.map_values(|p: (BlockHeight, CryptoHash)| (p.0, p.1@))
    }

    /// The committed app state, as (key, value) pairs; the first pair of a key holds its value.
    pub closed spec fn app_state_view(&self) -> Seq<(Seq<u8>, Seq<u8>)> {
        crate::update_sets::state_view(self.committed_app_state@)
    }

    pub closed spec fn vs_state(&self) -> ValidatorSetState {
        self.validator_set_state
    }

    /// The number of blocks in the tree.
    pub closed spec fn size(&self) -> nat {
        self.entries@.len()
    }

    /// The height of the highest committed block, if any block is committed.
    pub open spec fn committed_height(&self) -> Option<BlockHeight> {
        match self.committed_block() {
            Some(h) => Some(self.block_of(h).height),
            None => None,
        }
    }

    /// The parent of the block with hash `h`: the block its justify names.
    pub open spec fn parent_of(&self, h: Seq<u8>) -> Option<Seq<u8>> {
        if self.has_block(h) {
            Some(self.block_of(h).justify.block)
        } else {
            None
        }
    }

    /// The tree's internal invariant.
    pub closed spec fn wf(&self) -> bool {
        &&& forall|i: int, j: int|
            0 <= i < j < self.entries@.len() ==> self.entries@[i].block.hash@ != self.entries@[j].block.hash@
        &&& self.validator_set_state.wf()
        &&& (self.highest_committed_block matches Some(h) ==> self.has_block(h@))
        &&& (self.newest_block matches Some(h) ==> self.has_block(h@))
        &&& forall|i: int|
            0 <= i < self.committed_chain@.len() ==> self.has_block(#[trigger] self.committed_chain@[i].1@)
    }

    /// The newest block is in the tree.
    pub proof fn lemma_newest_in_tree(&self)
        requires
            self.wf(),
        ensures
            self.newest() matches Some(n) ==> self.has_block(n),
    {
    }

    proof fn lemma_index_of(&self, i: int)
        requires
            self.wf(),
            0 <= i < self.entries@.len(),
        ensures
            self.has_block(self.entries@[i].block.hash@),
            self.index_of(self.entries@[i].block.hash@) == i,
    {
        let h = self.entries@[i].block.hash@;
        assert(self.entries@[i].block.hash@ == h);
        let j = self.index_of(h);
        assert(0 <= j < self.entries@.len() && self.entries@[j].block.hash@ == h);
        if j < i {
            assert(self.entries@[j].block.hash@ != self.entries@[i].block.hash@);
        } else if i < j {
            assert(self.entries@[i].block.hash@ != self.entries@[j].block.hash@);
        }
    }

    /// The position of the block with hash `h` among the entries.
    fn find(&self, h: &CryptoHash) -> (pos: Option<usize>)
        requires
            self.wf(),
        ensures
            match pos {
                Some(i) => i < self.entries@.len() && self.entries@[i as int].block.hash@ == h@
                    && self.has_block(h@) && self.index_of(h@) == i,
                None => !self.has_block(h@),
            },
    {
        let mut i: usize = 0;
        while i < self.entries.len()
            invariant
                self.wf(),
                i <= self.entries@.len(),
                forall|j: int| 0 <= j < i ==> self.entries@[j].block.hash@ != h@,
            decreases self.entries@.len() - i,
        {
            if bytes32_eq(&self.entries[i].block.hash, h) {
                proof {
                    self.lemma_index_of(i as int);
                }
                return Some(i);
            }
            i = i + 1;
        }
        None
    }

    /// An empty block tree with the given initial validator set: no blocks, no app state, the
    /// genesis certificate as both the locked and the highest certificate, view 0 entered.
    pub fn new(initial_validator_set: ValidatorSet) -> (bt: BlockTree)
        requires
            initial_validator_set.wf(),
        ensures
            bt.wf(),
            forall|h: Seq<u8>| !bt.has_block(h),
            bt.locked().is_genesis(),
            bt.highest().is_genesis(),
            bt.committed_block() is None,
            bt.newest() is None,
            bt.view_entered() == 0,
            bt.view_voted() is None,
            bt.committed_chain_view().len() == 0,
            bt.app_state_view().len() == 0,
            bt.vs_state().committed().keys() == initial_validator_set.keys(),
            bt.vs_state().committed().power_seq() == initial_validator_set.power_seq(),
            bt.vs_state().previous().keys() == initial_validator_set.keys(),
            bt.vs_state().height_of_update() is None,
            bt.vs_state().decided(),
    {
        let previous = initial_validator_set.clone();
        let bt = BlockTree {
            entries: Vec::new(),
            children_lists: Vec::new(),
            committed_chain: Vec::new(),
            committed_app_state: Vec::new(),
            locked_pc: QuorumCertificate::genesis_qc(),
            highest_pc: QuorumCertificate::genesis_qc(),
            highest_view_entered: 0,
            highest_view_phase_voted: None,
            highest_committed_block: None,
            newest_block: None,
            validator_set_state: ValidatorSetState::new(initial_validator_set, previous, None, true),
        };
        assert(bt.committed_chain_view() =~= Seq::<(BlockHeight, Seq<u8>)>::empty());
        assert(bt.app_state_view() =~= Seq::<(Seq<u8>, Seq<u8>)>::empty());
        bt
    }

    /* ↓↓↓ Getters ↓↓↓ */

    pub fn contains(&self, block: &CryptoHash) -> (b: bool)
        requires
            self.wf(),
        ensures
            b == self.has_block(block@),
    {
        self.find(block).is_some()
    }

    pub fn block(&self, block: &CryptoHash) -> (b: Option<Block>)
        requires
            self.wf(),
        ensures
            match b {
                Some(b) => self.has_block(block@) && b@ == self.block_of(block@),
                None => !self.has_block(block@),
            },
    {
        match self.find(block) {
            Some(i) => Some(self.entries[i].block.clone()),
            None => None,
        }
    }

    pub fn block_height(&self, block: &CryptoHash) -> (h: Option<BlockHeight>)
        requires
            self.wf(),
        ensures
            match h {
                Some(h) => self.has_block(block@) && h == self.block_of(block@).height,
                None => !self.has_block(block@),
            },
    {
        match self.find(block) {
            Some(i) => Some(self.entries[i].block.height),
            None => None,
        }
    }

    /// The justify of `block`; an error if the block is not in the tree.
    pub fn block_justify(&self, block: &CryptoHash) -> (r: Result<QuorumCertificate, BlockTreeError>)
        requires
            self.wf(),
        ensures
            match r {
                Ok(qc) => self.has_block(block@) && qc@ == self.block_of(block@).justify,
                Err(BlockTreeError::BlockExpectedButNotFound { block: b }) => !self.has_block(block@) && b@ == block@,
            },
    {
        match self.find(block) {
            Some(i) => Ok(self.entries[i].block.justify.clone()),
            None => Err(BlockTreeError::BlockExpectedButNotFound { block: *block }),
        }
    }

    pub fn block_data_hash(&self, block: &CryptoHash) -> (d: Option<CryptoHash>)
        requires
            self.wf(),
        ensures
            match d {
                Some(d) => self.has_block(block@) && d@ == self.block_of(block@).data_hash,
                None => !self.has_block(block@),
            },
    {
        match self.find(block) {
            Some(i) => Some(self.entries[i].block.data_hash),
            None => None,
        }
    }

    /// The number of data items of `block`, if it is in the tree and that number fits in a `u32`.
    pub fn block_data_len(&self, block: &CryptoHash) -> (n: Option<u32>)
        requires
            self.wf(),
        ensures
            match n {
                Some(n) => self.has_block(block@) && n == self.block_of(block@).data.len(),
                None => !self.has_block(block@) || self.block_of(block@).data.len() > u32::MAX,
            },
    {
        match self.find(block) {
            Some(i) => {
                let len = self.entries[i].block.data.len();
                if len <= u32::MAX as usize {
                    Some(len as u32)
                } else {
                    None
                }
            },
            None => None,
        }
    }

    pub fn block_data(&self, block: &CryptoHash) -> (d: Option<Vec<Vec<u8>>>)
        requires
            self.wf(),
        ensures
            match d {
                Some(d) => self.has_block(block@) && d@.map_values(|x: Vec<u8>| x@) == self.block_of(block@).data,
                None => !self.has_block(block@),
            },
    {
        match self.find(block) {
            Some(i) => {
                let b = self.entries[i].block.clone();
                Some(b.data)
            },
            None => None,
        }
    }

    /// Item `datum_index` of the data of `block`, if the block is in the tree and has that item.
    pub fn block_datum(&self, block: &CryptoHash, datum_index: u32) -> (d: Option<Vec<u8>>)
        requires
            self.wf(),
        ensures
            match d {
                Some(d) => self.has_block(block@) && datum_index < self.block_of(block@).data.len()
                    && d@ == self.block_of(block@).data[datum_index as int],
                None => !self.has_block(block@) || datum_index >= self.block_of(block@).data.len(),
            },
    {
        match self.find(block) {
            Some(i) => {
                if (datum_index as usize) < self.entries[i].block.data.len() {
                    Some(crate::types::copy_bytes(self.entries[i].block.data[datum_index as usize].as_slice()))
                } else {
                    None
                }
            },
            None => None,
        }
    }

    /// The committed block at `height`, if there is one.
    pub fn block_at_height(&self, height: BlockHeight) -> (h: Option<CryptoHash>)
        ensures
            match h {
                Some(h) => (exists|i: int|
                    0 <= i < self.committed_chain_view().len() && #[trigger] self.committed_chain_view()[i] == (height, h@))
                    && (self.wf() ==> self.has_block(h@)),
                None => forall|i: int|
                    0 <= i < self.committed_chain_view().len() ==> #[trigger] self.committed_chain_view()[i].0 != height,
            },
    {
        let mut i: usize = 0;
        while i < self.committed_chain.len()
            invariant
                i <= self.committed_chain@.len(),
                forall|j: int| 0 <= j < i ==> #[trigger] self.committed_chain_view()[j].0 != height,
            decreases self.committed_chain@.len() - i,
        {
            if self.committed_chain[i].0 == height {
                assert(self.committed_chain_view()[i as int] == (height, self.committed_chain@[i as int].1@));
                return Some(self.committed_chain[i].1);
            }
            i = i + 1;
        }
        None
    }

    /// The children of `block` in the tree (empty if it has none or is not in the tree).
    pub fn children(&self, block: &CryptoHash) -> (c: Vec<CryptoHash>)
        requires
            self.wf(),
        ensures
            c@.map_values(|x: CryptoHash| x@) == self.children_of(block@),
    {
        match find_children(&self.children_lists, block) {
            Some(i) => {
                let c = self.children_lists[i].1.clone();
                assert(c@.map_values(|x: CryptoHash| x@) =~= self.children_of(block@));
                c
            },
            None => {
                let c: Vec<CryptoHash> = Vec::new();
                assert(c@.map_values(|x: CryptoHash| x@) =~= self.children_of(block@));
                c
            },
        }
    }

    /// The value of `key` in the committed app state.
    pub fn committed_app_state(&self, key: &[u8]) -> (v: Option<Vec<u8>>)
        ensures
            match v {
                Some(v) => first_value(self.app_state_view(), key@) == Some(v@),
                None => first_value(self.app_state_view(), key@) is None,
            },
    {
        let mut i: usize = 0;
        assert(self.app_state_view().skip(0) =~= self.app_state_view());
        while i < self.committed_app_state.len()
            invariant
                i <= self.committed_app_state@.len(),
                first_value(self.app_state_view(), key@) == first_value(self.app_state_view().skip(i as int), key@),
            decreases self.committed_app_state@.len() - i,
        {
            proof {
                crate::update_sets::lemma_first_value_skip(self.app_state_view(), i as int, key@);
            }
            if crate::types::bytes_eq(self.committed_app_state[i].0.as_slice(), key) {
                return Some(crate::types::copy_bytes(self.committed_app_state[i].1.as_slice()));
            }
            i = i + 1;
        }
        assert(self.app_state_view().skip(i as int).len() == 0);
        None
    }

    pub fn locked_pc(&self) -> (qc: QuorumCertificate)
        ensures
            qc@ == self.locked(),
    {
        self.locked_pc.clone()
    }

    pub fn highest_pc(&self) -> (qc: QuorumCertificate)
        ensures
            qc@ == self.highest(),
    {
        self.highest_pc.clone()
    }

    pub fn highest_view_entered(&self) -> (v: ViewNumber)
        ensures
            v == self.view_entered(),
    {
        self.highest_view_entered
    }

    pub fn highest_view_phase_voted(&self) -> (v: Option<ViewNumber>)
        ensures
            v == self.view_voted(),
    {
        self.highest_view_phase_voted
    }

    pub fn highest_committed_block(&self) -> (h: Option<CryptoHash>)
        ensures
            match h {
                Some(h) => self.committed_block() == Some(h@),
                None => self.committed_block() is None,
            },
    {
        self.highest_committed_block
    }

    /// Whether the pending validator set updates of some block in the tree insert `key`.
    pub fn pending_updates_insert(&self, key: &crate::types::VerifyingKeyBytes) -> (b: bool)
        requires
            self.wf(),
        ensures
            b == exists|h: Seq<u8>| #[trigger] self.pending_vs(h) matches Some(u) && u.inserts_key(key@),
    {
        let mut i: usize = 0;
        while i < self.entries.len()
            invariant
                self.wf(),
                i <= self.entries@.len(),
                forall|j: int| 0 <= j < i ==> !(#[trigger] self.pending_vs(self.entries@[j].block.hash@) matches Some(u)
                    && u.inserts_key(key@)),
            decreases self.entries@.len() - i,
        {
            proof {
                self.lemma_index_of(i as int);
            }
            match &self.entries[i].validator_set_updates_status {
                ValidatorSetUpdatesStatus::Pending(u) => {
                    if u.get_insert(key).is_some() {
                        assert(self.pending_vs(self.entries@[i as int].block.hash@) matches Some(u) && u.inserts_key(key@));
                        return true;
                    }
                },
                _ => {},
            }
            i = i + 1;
        }
        proof {
            assert forall|h: Seq<u8>| !(#[trigger] self.pending_vs(h) matches Some(u) && u.inserts_key(key@)) by {
                if self.has_block(h) {
                    let j = self.index_of(h);
                    self.lemma_index_of(j);
                    assert(self.entries@[j].block.hash@ == h);
                }
            }
        }
        false
    }

    /// The number of blocks in the tree.
    pub fn num_blocks(&self) -> (n: usize)
        ensures
            n == self.size(),
    {
        self.entries.len()
    }

    pub fn newest_block(&self) -> (h: Option<CryptoHash>)
        ensures
            match h {
                Some(h) => self.newest() == Some(h@),
                None => self.newest() is None,
            },
    {
        self.newest_block
    }

    /// The height of the highest committed block, if any block is committed.
    pub fn highest_committed_block_height(&self) -> (h: Option<BlockHeight>)
        requires
            self.wf(),
        ensures
            h == self.committed_height(),
    {
        match &self.highest_committed_block {
            Some(b) => self.block_height(b),
            None => None,
        }
    }

    pub fn validator_set_state(&self) -> (s: &ValidatorSetState)
        requires
            self.wf(),
        ensures
            *s == self.vs_state(),
            s.wf(),
    {
        &self.validator_set_state
    }

    pub fn committed_validator_set(&self) -> (vs: &ValidatorSet)
        requires
            self.wf(),
        ensures
            *vs == self.vs_state().committed(),
            vs.wf(),
    {
        self.validator_set_state.committed_validator_set()
    }

    pub fn previous_validator_set(&self) -> (vs: &ValidatorSet)
        requires
            self.wf(),
        ensures
            *vs == self.vs_state().previous(),
            vs.wf(),
    {
        self.validator_set_state.previous_validator_set()
    }

    /// The height of the block whose validator set updates were committed last, if any were.
    pub fn validator_set_update_block_height(&self) -> (h: Option<BlockHeight>)
        ensures
            h == self.vs_state().height_of_update(),
    {
        self.validator_set_state.update_height()
    }

    /// Whether the validator set updates committed last have been decided.
    pub fn validator_set_update_complete(&self) -> (b: bool)
        ensures
            b == self.vs_state().decided(),
    {
        self.validator_set_state.update_decided()
    }

    /// What the tree records of `block`'s validator set updates (`NoUpdates` for a block that is
    /// not in the tree).
    pub fn validator_set_updates_status(&self, block: &CryptoHash) -> (s: ValidatorSetUpdatesStatus)
        requires
            self.wf(),
        ensures
            !(s is NoUpdates) == self.has_updates(block@),
            (s is Committed) == self.updates_committed(block@),
            (s is Pending) == (self.pending_vs(block@) is Some),
            s matches ValidatorSetUpdatesStatus::Pending(u) ==> u.inserts@ == self.pending_vs(block@)->0.inserts@
                && u.deletes@ == self.pending_vs(block@)->0.deletes@,
    {
        match self.find(block) {
            Some(i) => self.entries[i].validator_set_updates_status.clone(),
            None => ValidatorSetUpdatesStatus::NoUpdates,
        }
    }

    /// The app state updates of `block`, if it is in the tree, uncommitted, and makes any.
    pub fn pending_app_state_updates(&self, block: &CryptoHash) -> (u: Option<AppStateUpdates>)
        requires
            self.wf(),
        ensures
            (u is Some) == (self.pending_app_updates(block@) is Some),
            u matches Some(u) ==> u.insert_pairs() == self.pending_app_updates(block@)->0.insert_pairs()
                && u.delete_keys() == self.pending_app_updates(block@)->0.delete_keys(),
    {
        match self.find(block) {
            Some(i) => match &self.entries[i].pending_app_state_updates {
                Some(u) => Some(u.clone()),
                None => None,
            },
            None => None,
        }
    }
}

impl BlockTree {
    /* ↓↓↓ Updaters ↓↓↓ */

    /// Insert `block` with the app state updates and validator set updates that the app found it
    /// to make: store it, make it the newest block, and add it to its parent's children.
    pub fn insert(
        &mut self,
        block: &Block,
        app_state_updates: Option<&AppStateUpdates>,
        validator_set_updates: Option<&ValidatorSetUpdates>,
    )
        requires
            old(self).wf(),
        ensures
            final(self).wf(),
            final(self).has_block(block@.hash),
            final(self).block_of(block@.hash) == block@,
            forall|h: Seq<u8>| h != block@.hash ==> (final(self).has_block(h) == old(self).has_block(h)
                && (old(self).has_block(h) ==> final(self).block_of(h) == old(self).block_of(h))
                && final(self).has_updates(h) == old(self).has_updates(h)
                && final(self).pending_app_updates(h) == old(self).pending_app_updates(h)),
            forall|h: Seq<u8>| h != block@.hash ==> #[trigger] keeps_block(old(self), final(self), h),
            validator_set_updates is Some ==> final(self).has_updates(block@.hash),
            validator_set_updates is None && !old(self).has_block(block@.hash) ==> !final(self).has_updates(block@.hash),
            final(self).newest() == Some(block@.hash),
            final(self).children_of(block@.justify.block) == old(self).children_of(block@.justify.block).push(block@.hash),
            forall|h: Seq<u8>| h != block@.justify.block ==> final(self).children_of(h) == old(self).children_of(h),
            final(self).locked() == old(self).locked(),
            final(self).highest() == old(self).highest(),
            final(self).committed_block() == old(self).committed_block(),
            final(self).committed_chain_view() == old(self).committed_chain_view(),
            final(self).app_state_view() == old(self).app_state_view(),
            final(self).vs_state() == old(self).vs_state(),
            final(self).view_entered() == old(self).view_entered(),
            final(self).view_voted() == old(self).view_voted(),
    {
        self.put_entry(block, app_state_updates, validator_set_updates);
        self.newest_block = Some(block.hash);
        self.add_child(&block.justify.block, &block.hash);
    }

    /// Store `block` and its updates (replacing the stored block with the same hash, if any).
    fn put_entry(
        &mut self,
        block: &Block,
        app_state_updates: Option<&AppStateUpdates>,
        validator_set_updates: Option<&ValidatorSetUpdates>,
    )
        requires
            old(self).wf(),
        ensures
            final(self).wf(),
            final(self).has_block(block@.hash),
            final(self).block_of(block@.hash) == block@,
            forall|h: Seq<u8>| h != block@.hash ==> (final(self).has_block(h) == old(self).has_block(h)
                && (old(self).has_block(h) ==> final(self).block_of(h) == old(self).block_of(h))
                && final(self).has_updates(h) == old(self).has_updates(h)
                && final(self).pending_app_updates(h) == old(self).pending_app_updates(h)),
            validator_set_updates is Some ==> final(self).has_updates(block@.hash),
            validator_set_updates is None && !old(self).has_block(block@.hash) ==> !final(self).has_updates(block@.hash),
            final(self).children_lists == old(self).children_lists,
            final(self).newest_block == old(self).newest_block,
            final(self).locked_pc == old(self).locked_pc,
            final(self).highest_pc == old(self).highest_pc,
            final(self).highest_committed_block == old(self).highest_committed_block,
            final(self).committed_chain == old(self).committed_chain,
            final(self).committed_app_state == old(self).committed_app_state,
            final(self).validator_set_state == old(self).validator_set_state,
            final(self).highest_view_entered == old(self).highest_view_entered,
            final(self).highest_view_phase_voted == old(self).highest_view_phase_voted,
    {
        let stored = block.clone();
        match self.find(&block.hash) {
            Some(i) => {
                let mut entry = self.entries.remove(i);
                entry.block = stored;
                match app_state_updates {
                    Some(u) => {
                        entry.pending_app_state_updates = Some(u.clone());
                    },
                    None => {},
                }
                match validator_set_updates {
                    Some(u) => {
                        entry.validator_set_updates_status = ValidatorSetUpdatesStatus::Pending(u.clone());
                    },
                    None => {},
                }
                self.entries.insert(i, entry);
                proof {
                    assert forall|j: int| 0 <= j < self.entries@.len() implies
                        self.entries@[j].block.hash@ == old(self).entries@[j].block.hash@ by {}
                    assert forall|h: Seq<u8>| #[trigger] self.has_block(h) == old(self).has_block(h) by {
                        if self.has_block(h) {
                            let j = choose|j: int| 0 <= j < self.entries@.len() && #[trigger] self.entries@[j].block.hash@ == h;
                            assert(old(self).entries@[j].block.hash@ == h);
                        }
                        if old(self).has_block(h) {
                            let j = choose|j: int| 0 <= j < old(self).entries@.len() && #[trigger] old(self).entries@[j].block.hash@ == h;
                            assert(self.entries@[j].block.hash@ == h);
                        }
                    }
                    assert forall|h: Seq<u8>| h != block@.hash && old(self).has_block(h) implies
                        #[trigger] self.index_of(h) == old(self).index_of(h) by {
                        let j = old(self).index_of(h);
                        old(self).lemma_index_of(j);
                        assert(self.entries@[j].block.hash@ == h);
                        self.lemma_index_of(j);
                    }
                    self.lemma_index_of(i as int);
                }
            },
            None => {
                let entry = BlockEntry {
                    block: stored,
                    pending_app_state_updates: match app_state_updates {
                        Some(u) => Some(u.clone()),
                        None => None,
                    },
                    validator_set_updates_status: match validator_set_updates {
                        Some(u) => ValidatorSetUpdatesStatus::Pending(u.clone()),
                        None => ValidatorSetUpdatesStatus::NoUpdates,
                    },
                };
                let ghost n = self.entries@.len();
                self.entries.push(entry);
                proof {
                    assert forall|h: Seq<u8>| #[trigger] self.has_block(h) == (old(self).has_block(h) || h == block@.hash) by {
                        if self.has_block(h) {
                            let j = choose|j: int| 0 <= j < self.entries@.len() && #[trigger] self.entries@[j].block.hash@ == h;
                            if j < n {
                                assert(old(self).entries@[j].block.hash@ == h);
                            }
                        }
                        if old(self).has_block(h) {
                            let j = choose|j: int| 0 <= j < old(self).entries@.len() && #[trigger] old(self).entries@[j].block.hash@ == h;
                            assert(self.entries@[j].block.hash@ == h);
                        }
                        if h == block@.hash {
                            assert(self.entries@[n as int].block.hash@ == h);
                        }
                    }
                    assert forall|i: int, j: int| 0 <= i < j < self.entries@.len() implies
                        self.entries@[i].block.hash@ != self.entries@[j].block.hash@ by {
                        if j == n {
                            assert(old(self).entries@[i].block.hash@ == self.entries@[i].block.hash@);
                        }
                    }
                    assert forall|h: Seq<u8>| h != block@.hash && old(self).has_block(h) implies
                        #[trigger] self.index_of(h) == old(self).index_of(h) by {
                        let j = old(self).index_of(h);
                        old(self).lemma_index_of(j);
                        assert(self.entries@[j].block.hash@ == h);
                        self.lemma_index_of(j);
                    }
                    self.lemma_index_of(n as int);
                }
            },
        }
    }

    /// Add `child` to the children of `parent`.
    fn add_child(&mut self, parent: &CryptoHash, child: &CryptoHash)
        ensures
            final(self).children_of(parent@) == old(self).children_of(parent@).push(child@),
            forall|h: Seq<u8>| h != parent@ ==> final(self).children_of(h) == old(self).children_of(h),
            final(self).entries == old(self).entries,
            final(self).newest_block == old(self).newest_block,
            final(self).locked_pc == old(self).locked_pc,
            final(self).highest_pc == old(self).highest_pc,
            final(self).highest_committed_block == old(self).highest_committed_block,
            final(self).committed_chain == old(self).committed_chain,
            final(self).committed_app_state == old(self).committed_app_state,
            final(self).validator_set_state == old(self).validator_set_state,
            final(self).highest_view_entered == old(self).highest_view_entered,
            final(self).highest_view_phase_voted == old(self).highest_view_phase_voted,
    {
        match find_children(&self.children_lists, parent) {
            Some(i) => {
                let (p, mut siblings) = self.children_lists.remove(i);
                siblings.push(*child);
                self.children_lists.insert(i, (p, siblings));
                proof {
                    lemma_children_in_replace(old(self).children_lists@, self.children_lists@, i as int);
                }
            },
            None => {
                let mut siblings: Vec<CryptoHash> = Vec::new();
                siblings.push(*child);
                self.children_lists.push((*parent, siblings));
                proof {
                    lemma_children_in_append(old(self).children_lists@, self.children_lists@);
                }
            },
        }
    }

    /// Record that the replica has entered `view`.
    pub fn set_highest_view_entered(&mut self, view: ViewNumber)
        requires
            old(self).wf(),
        ensures
            final(self).wf(),
            final(self).view_entered() == view,
            final(self).view_voted() == old(self).view_voted(),
            final(self).locked() == old(self).locked(),
            final(self).highest() == old(self).highest(),
            final(self).committed_block() == old(self).committed_block(),
            final(self).committed_chain_view() == old(self).committed_chain_view(),
            forall|h: Seq<u8>| final(self).has_block(h) == old(self).has_block(h) && final(self).block_of(h) == old(self).block_of(h),
            forall|h: Seq<u8>| #[trigger] keeps_block(old(self), final(self), h),
            final(self).app_state_view() == old(self).app_state_view(),
            final(self).vs_state() == old(self).vs_state(),
            final(self).newest() == old(self).newest(),
    {
        self.highest_view_entered = view;
    }

    /// Record that the replica has phase-voted in `view`.
    pub fn set_highest_view_phase_voted(&mut self, view: ViewNumber)
        requires
            old(self).wf(),
        ensures
            final(self).wf(),
            final(self).view_voted() == Some(view),
            final(self).view_entered() == old(self).view_entered(),
            final(self).locked() == old(self).locked(),
            final(self).highest() == old(self).highest(),
            final(self).committed_block() == old(self).committed_block(),
            final(self).committed_chain_view() == old(self).committed_chain_view(),
            forall|h: Seq<u8>| final(self).has_block(h) == old(self).has_block(h) && final(self).block_of(h) == old(self).block_of(h),
            forall|h: Seq<u8>| #[trigger] keeps_block(old(self), final(self), h),
            final(self).app_state_view() == old(self).app_state_view(),
            final(self).vs_state() == old(self).vs_state(),
            final(self).newest() == old(self).newest(),
    {
        self.highest_view_phase_voted = Some(view);
    }
}

proof fn lemma_children_in_replace(
    a: Seq<(CryptoHash, Vec<CryptoHash>)>,
    b: Seq<(CryptoHash, Vec<CryptoHash>)>,
    i: int,
)
    requires
        0 <= i < a.len(),
        a.len() == b.len(),
        b[i].0 == a[i].0,
        b[i].1@ == a[i].1@.push(b[i].1@.last()),
        forall|j: int| 0 <= j < i ==> a[j].0@ != a[i].0@,
        forall|j: int| 0 <= j < a.len() && j != i ==> b[j] == a[j],
    ensures
        children_in(b, a[i].0@) == children_in(a, a[i].0@).push(b[i].1@.last()@),
        forall|h: Seq<u8>| h != a[i].0@ ==> children_in(b, h) == children_in(a, h),
    decreases i,
{
    if i == 0 {
        assert(a[0].1@.map_values(|c: CryptoHash| c@).push(b[0].1@.last()@) =~= b[0].1@.map_values(|c: CryptoHash| c@));
        assert(a.drop_first() =~= b.drop_first());
        assert forall|h: Seq<u8>| h != a[i].0@ implies children_in(b, h) == children_in(a, h) by {
            assert(children_in(b, h) == children_in(b.drop_first(), h));
            assert(children_in(a, h) == children_in(a.drop_first(), h));
        }
    } else {
        lemma_children_in_replace(a.drop_first(), b.drop_first(), i - 1);
        assert(a.drop_first()[i - 1] == a[i]);
        assert forall|h: Seq<u8>| h != a[i].0@ implies children_in(b, h) == children_in(a, h) by {
            if h == a[0].0@ {
                assert(b[0] == a[0]);
            } else {
                assert(children_in(b, h) == children_in(b.drop_first(), h));
                assert(children_in(a, h) == children_in(a.drop_first(), h));
            }
        }
        assert(children_in(b, a[i].0@) == children_in(b.drop_first(), a[i].0@));
    }
}

proof fn lemma_children_in_append(a: Seq<(CryptoHash, Vec<CryptoHash>)>, b: Seq<(CryptoHash, Vec<CryptoHash>)>)
    requires
        b.len() == a.len() + 1,
        forall|j: int| 0 <= j < a.len() ==> b[j] == a[j],
        forall|j: int| 0 <= j < a.len() ==> a[j].0@ != b[a.len() as int].0@,
        b[a.len() as int].1@.len() == 1,
        children_in(a, b[a.len() as int].0@) == Seq::<Seq<u8>>::empty(),
    ensures
        children_in(b, b[a.len() as int].0@) == Seq::<Seq<u8>>::empty().push(b[a.len() as int].1@[0]@),
        forall|h: Seq<u8>| h != b[a.len() as int].0@ ==> children_in(b, h) == children_in(a, h),
    decreases a.len(),
{
    if a.len() == 0 {
        assert(b[0].1@.map_values(|c: CryptoHash| c@) =~= Seq::<Seq<u8>>::empty().push(b[0].1@[0]@));
        assert forall|h: Seq<u8>| h != b[a.len() as int].0@ implies children_in(b, h) == children_in(a, h) by {
            assert(children_in(b, h) == children_in(b.drop_first(), h));
        }
    } else {
        lemma_children_in_append(a.drop_first(), b.drop_first());
        assert(b.drop_first()[a.len() - 1] == b[a.len() as int]);
        assert forall|h: Seq<u8>| h != b[a.len() as int].0@ implies children_in(b, h) == children_in(a, h) by {
            if h == a[0].0@ {
                assert(b[0] == a[0]);
            } else {
                assert(children_in(b, h) == children_in(b.drop_first(), h));
                assert(children_in(a, h) == children_in(a.drop_first(), h));
            }
        }
        assert(a[0].0@ != b[a.len() as int].0@);
        assert(children_in(b, b[a.len() as int].0@) == children_in(b.drop_first(), b[a.len() as int].0@));
        assert(children_in(a, b[a.len() as int].0@) == children_in(a.drop_first(), b[a.len() as int].0@));
    }
}

/// The value of app state key `k` after the blocks of `chain` commit, in order, starting from
/// `before`: each block's pending app state updates apply in turn.
pub open spec fn chain_app_value(bt: &BlockTree, chain: Seq<Seq<u8>>, k: Seq<u8>, before: Option<Seq<u8>>) -> Option<Seq<u8>>
    decreases chain.len(),
{
    if chain.len() == 0 {
        before
    } else {
        let v = chain_app_value(bt, chain.drop_last(), k, before);
        match bt.pending_app_updates(chain.last()) {
            Some(u) => updated_value(v, u, k),
            None => v,
        }
    }
}

/// Whether `k` is in the committed validator set after the blocks of `chain` commit, in order,
/// starting from `before`: each block's pending validator set updates apply in turn.
pub open spec fn chain_vs_has(bt: &BlockTree, chain: Seq<Seq<u8>>, k: Seq<u8>, before: bool) -> bool
    decreases chain.len(),
{
    if chain.len() == 0 {
        before
    } else {
        let b = chain_vs_has(bt, chain.drop_last(), k, before);
        match bt.pending_vs(chain.last()) {
            Some(u) => (b || u.inserts_key(k)) && !u.deletes_key(k),
            None => b,
        }
    }
}

/// The validator set state as plain values: the keys and powers of the committed set, those of
/// the previous set, the height of the block whose updates were committed last, and whether those
/// updates are decided.
pub type ValidatorSetStateView = (Seq<Seq<u8>>, Seq<Power>, Seq<Seq<u8>>, Seq<Power>, Option<BlockHeight>, bool);

pub open spec fn vs_view(s: ValidatorSetState) -> ValidatorSetStateView {
    (s.committed().keys(), s.committed().power_seq(), s.previous().keys(), s.previous().power_seq(),
        s.height_of_update(), s.decided())
}

/// The validator set state after the blocks of `chain` commit, in order, starting from `start`:
/// a block with pending validator set updates applies them to the committed set, makes the set
/// before them the previous set, and records its height, its updates not decided yet.
pub open spec fn chain_vs_state(bt: &BlockTree, chain: Seq<Seq<u8>>, start: ValidatorSetStateView) -> ValidatorSetStateView
    decreases chain.len(),
{
    if chain.len() == 0 {
        start
    } else {
        let s = chain_vs_state(bt, chain.drop_last(), start);
        match bt.pending_vs(chain.last()) {
            Some(u) => {
                let applied = applied_spec(s.0, s.1, u);
                (applied.0, applied.1, s.0, s.1, Some(bt.block_of(chain.last()).height), false)
            },
            None => s,
        }
    }
}

/// `s`, with its latest updates marked decided if `decide` holds.
pub open spec fn decided_if(s: ValidatorSetStateView, decide: bool) -> ValidatorSetStateView {
    if decide {
        (s.0, s.1, s.2, s.3, s.4, true)
    } else {
        s
    }
}

/// The (height, hash) pairs of the blocks of `chain`.
pub open spec fn chain_heights(bt: &BlockTree, chain: Seq<Seq<u8>>) -> Seq<(BlockHeight, Seq<u8>)> {
    chain.map_values(|h: Seq<u8>| (bt.block_of(h).height, h))
}

/// Whether `chain` (lowest first) is the chain of blocks that committing `block` commits: `block`
/// and its ancestors above the highest committed block, each the parent of the next, without
/// repetition.
pub open spec fn is_commit_chain(bt: &BlockTree, block: Seq<u8>, chain: Seq<Seq<u8>>) -> bool {
    &&& chain.len() > 0 ==> chain.last() == block
    &&& forall|k: int| 0 <= k < chain.len() ==> bt.has_block(#[trigger] chain[k])
        && crate::block_tree::invariants::not_committed_yet(bt, bt.block_of(chain[k]).height as int)
    &&& forall|k: int| 0 <= k < chain.len() - 1 ==> bt.parent_of(#[trigger] chain[k + 1]) == Some(chain[k])
    &&& forall|a: int, b: int| 0 <= a < b < chain.len() ==> chain[a] != chain[b]
    &&& chain.len() == 0 ==> bt.has_block(block)
        && !crate::block_tree::invariants::not_committed_yet(bt, bt.block_of(block).height as int)
}

/// Whether `after` still holds the block with hash `h` of `before`, unchanged.
pub open spec fn keeps_block(before: &BlockTree, after: &BlockTree, h: Seq<u8>) -> bool {
    before.has_block(h) ==> after.has_block(h) && after.block_of(h) == before.block_of(h)
}

/// Read after write: a block of the first tree of `trees` is read back unchanged from the last,
/// when each tree comes from the one before by a write that keeps it (as inserts of other blocks,
/// updates and the view setters do).
pub proof fn lemma_read_after_writes(trees: Seq<BlockTree>, b: BlockView)
    requires
        trees.len() > 0,
        trees[0].has_block(b.hash),
        trees[0].block_of(b.hash) == b,
        forall|i: int| 0 <= i < trees.len() - 1 ==> #[trigger] keeps_block(&trees[i], &trees[i + 1], b.hash),
    ensures
        trees.last().has_block(b.hash),
        trees.last().block_of(b.hash) == b,
    decreases trees.len(),
{
    if trees.len() > 1 {
        let front = trees.drop_last();
        assert forall|i: int| 0 <= i < front.len() - 1 implies #[trigger] keeps_block(&front[i], &front[i + 1], b.hash) by {
            assert(front[i] == trees[i] && front[i + 1] == trees[i + 1]);
            assert(keeps_block(&trees[i], &trees[i + 1], b.hash));
        }
        lemma_read_after_writes(front, b);
        let n = trees.len() - 2;
        assert(front.last() == trees[n]);
        assert(keeps_block(&trees[n], &trees[n + 1], b.hash));
    }
}

/// Whether each block of `w` but the last is in `bt` and names the next one as its parent.
pub open spec fn follows_parents(bt: &BlockTree, w: Seq<Seq<u8>>) -> bool {
    forall|k: int| 0 <= k < w.len() - 1 ==> bt.has_block(#[trigger] w[k]) && w[k + 1] == bt.block_of(w[k]).justify.block
}

/// Whether the walk that collects the blocks to commit goes on past the block `h`: `h` is above
/// the highest committed block and its justify is not the genesis certificate.
pub open spec fn commit_walk_continues(bt: &BlockTree, h: Seq<u8>) -> bool {
    &&& crate::block_tree::invariants::not_committed_yet(bt, bt.block_of(h).height as int)
    &&& !bt.block_of(h).justify.is_genesis()
}

/// Whether `w` is the walk from `b` down its ancestors that reaches a block missing from `bt`
/// before it stops (at the highest committed block, at genesis, or after as many steps as `bt`
/// holds blocks).
pub open spec fn is_commit_walk_to_missing(bt: &BlockTree, b: Seq<u8>, w: Seq<Seq<u8>>) -> bool {
    &&& 0 < w.len() <= bt.size() + 1
    &&& w[0] == b
    &&& !bt.has_block(w.last())
    &&& follows_parents(bt, w)
    &&& forall|k: int| 0 <= k < w.len() - 1 ==> commit_walk_continues(bt, #[trigger] w[k])
}

/// Whether the ancestors that committing `b` would commit reach a block missing from `bt`.
pub open spec fn reaches_missing(bt: &BlockTree, b: Seq<u8>) -> bool {
    exists|w: Seq<Seq<u8>>| #[trigger] is_commit_walk_to_missing(bt, b, w)
}

/// Whether updating `bt` with `justify` fails: a block that deciding the lock or the commit
/// needs is missing, or so is a block that committing would commit.
pub open spec fn update_fails(bt: &BlockTree, justify: QcView) -> bool {
    ||| pc_to_lock_spec(bt, justify) is Missing
    ||| block_to_commit_spec(bt, justify) is Missing
    ||| (block_to_commit_spec(bt, justify) matches Decision::Decided(Some(b)) && reaches_missing(bt, b))
}

/// Position `k` of a walk that follows parents from the start of `v` (a chain of blocks of the
/// tree, each the parent of the one before) and ends at a missing block is the block of `v` at
/// `k`, and the walk goes on past it.
proof fn lemma_parent_walk_at(bt: &BlockTree, w: Seq<Seq<u8>>, v: Seq<Seq<u8>>, k: int)
    requires
        w.len() > 0,
        follows_parents(bt, w),
        !bt.has_block(w.last()),
        v.len() > 0,
        w[0] == v[0],
        forall|j: int| 0 <= j < v.len() ==> bt.has_block(#[trigger] v[j]),
        forall|j: int| 0 <= j < v.len() - 1 ==> #[trigger] v[j + 1] == bt.block_of(v[j]).justify.block,
        0 <= k < v.len(),
    ensures
        k < w.len() - 1,
        w[k] == v[k],
    decreases k,
{
    if k > 0 {
        lemma_parent_walk_at(bt, w, v, k - 1);
        assert(bt.has_block(w[k - 1]) && w[k] == bt.block_of(w[k - 1]).justify.block);
        assert(v[k] == bt.block_of(v[k - 1]).justify.block);
    }
    assert(bt.has_block(v[k]));
}

/// A walk that follows parents from the start of `v`, a chain of blocks of the tree each the
/// parent of the one before, and ends at a missing block, goes through all of `v` and then to
/// the parent of its last block.
pub proof fn lemma_parent_walk_prefix(bt: &BlockTree, w: Seq<Seq<u8>>, v: Seq<Seq<u8>>)
    requires
        w.len() > 0,
        follows_parents(bt, w),
        !bt.has_block(w.last()),
        v.len() > 0,
        w[0] == v[0],
        forall|k: int| 0 <= k < v.len() ==> bt.has_block(#[trigger] v[k]),
        forall|k: int| 0 <= k < v.len() - 1 ==> #[trigger] v[k + 1] == bt.block_of(v[k]).justify.block,
    ensures
        w.len() > v.len(),
        forall|k: int| 0 <= k < v.len() ==> #[trigger] w[k] == v[k],
        w[v.len() as int] == bt.block_of(v.last()).justify.block,
{
    assert forall|k: int| 0 <= k < v.len() implies #[trigger] w[k] == v[k] by {
        lemma_parent_walk_at(bt, w, v, k);
    }
    let n = v.len() - 1;
    lemma_parent_walk_at(bt, w, v, n);
    assert(bt.has_block(w[n]) && w[n + 1] == bt.block_of(w[n]).justify.block);
}

/// A walk that follows parents from the start of `v`, whose last block's parent is its block at
/// `m`, never reaches a missing block: it stays among the blocks of `v`.
proof fn lemma_parent_walk_cycle(bt: &BlockTree, w: Seq<Seq<u8>>, v: Seq<Seq<u8>>, m: int, i: int)
    requires
        w.len() > 0,
        follows_parents(bt, w),
        !bt.has_block(w.last()),
        v.len() > 0,
        w[0] == v[0],
        forall|k: int| 0 <= k < v.len() ==> bt.has_block(#[trigger] v[k]),
        forall|k: int| 0 <= k < v.len() - 1 ==> #[trigger] v[k + 1] == bt.block_of(v[k]).justify.block,
        0 <= m < v.len(),
        bt.block_of(v.last()).justify.block == v[m],
        0 <= i < w.len(),
    ensures
        exists|j: int| 0 <= j < v.len() && w[i] == #[trigger] v[j],
    decreases i,
{
    lemma_parent_walk_prefix(bt, w, v);
    if i < v.len() {
        assert(w[i] == v[i]);
    } else {
        lemma_parent_walk_cycle(bt, w, v, m, i - 1);
        let j = choose|j: int| 0 <= j < v.len() && w[i - 1] == #[trigger] v[j];
        assert(bt.has_block(v[j]));
        assert(i - 1 < w.len() - 1);
        assert(bt.has_block(w[i - 1]) && w[i] == bt.block_of(w[i - 1]).justify.block);
        if j + 1 < v.len() {
            assert(v[j + 1] == bt.block_of(v[j]).justify.block);
            assert(w[i] == v[j + 1]);
        } else {
            assert(w[i] == v[m]);
        }
    }
}

/// What holds of the blocks `rev` that the walk collecting the blocks to commit from `b` has
/// passed, with `cur` the block it looks at next.
pub open spec fn commit_walk_so_far(bt: &BlockTree, b: Seq<u8>, rev: Seq<CryptoHash>, cur: Seq<u8>) -> bool {
    &&& rev.len() == 0 ==> cur == b
    &&& rev.len() > 0 ==> rev[0]@ == b && bt.parent_of(rev.last()@) == Some(cur)
    &&& forall|k: int| 0 <= k < rev.len() ==> bt.has_block(#[trigger] rev[k]@) && commit_walk_continues(bt, rev[k]@)
    &&& forall|k: int| 0 <= k < rev.len() - 1 ==> bt.parent_of(#[trigger] rev[k]@) == Some(rev[k + 1]@)
}

impl BlockTree {
    /// The passed blocks and `cur`, as a chain of blocks of the tree each the parent of the one
    /// before.
    proof fn lemma_walk_chain(&self, b: Seq<u8>, rev: Seq<CryptoHash>, cur: Seq<u8>) -> (u: Seq<Seq<u8>>)
        requires
            commit_walk_so_far(self, b, rev, cur),
        ensures
            u == rev.map_values(|h: CryptoHash| h@).push(cur),
            u.len() > 0,
            u[0] == b,
            forall|k: int| 0 <= k < u.len() - 1 ==> self.has_block(#[trigger] u[k]) && commit_walk_continues(self, u[k]),
            forall|k: int| 0 <= k < u.len() - 1 ==> #[trigger] u[k + 1] == self.block_of(u[k]).justify.block,
    {
        let u = rev.map_values(|h: CryptoHash| h@).push(cur);
        assert forall|k: int| 0 <= k < u.len() - 1 implies self.has_block(#[trigger] u[k]) && commit_walk_continues(self, u[k]) by {
            assert(u[k] == rev[k]@);
        }
        assert forall|k: int| 0 <= k < u.len() - 1 implies #[trigger] u[k + 1] == self.block_of(u[k]).justify.block by {
            assert(u[k] == rev[k]@);
            if k + 1 < rev.len() {
                assert(u[k + 1] == rev[k + 1]@);
            }
        }
        if rev.len() > 0 {
            assert(u[0] == rev[0]@);
        }
        u
    }

    /// The walk reaches no missing block when it stops at `cur`, a block of the tree: `cur` is
    /// not above the highest committed block or has the genesis justify, or the walk has taken as
    /// many steps as the tree holds blocks.
    proof fn lemma_walk_blocked(&self, b: Seq<u8>, rev: Seq<CryptoHash>, cur: Seq<u8>)
        requires
            commit_walk_so_far(self, b, rev, cur),
            self.has_block(cur),
            !commit_walk_continues(self, cur) || rev.len() >= self.size(),
        ensures
            !reaches_missing(self, b),
    {
        let u = self.lemma_walk_chain(b, rev, cur);
        assert forall|w: Seq<Seq<u8>>| !#[trigger] is_commit_walk_to_missing(self, b, w) by {
            if is_commit_walk_to_missing(self, b, w) {
                assert forall|k: int| 0 <= k < u.len() implies self.has_block(#[trigger] u[k]) by {
                    if k < u.len() - 1 {
                        assert(self.has_block(u[k]) && commit_walk_continues(self, u[k]));
                    }
                }
                lemma_parent_walk_prefix(self, w, u);
                let n = u.len() - 1;
                assert(w[n] == u[n]);
                assert(commit_walk_continues(self, w[n]));
            }
        }
    }

    /// The walk reaches no missing block when the parent of its last block is one it passed.
    proof fn lemma_walk_cycles(&self, b: Seq<u8>, rev: Seq<CryptoHash>, cur: Seq<u8>, m: int)
        requires
            commit_walk_so_far(self, b, rev, cur),
            0 <= m < rev.len(),
            rev[m]@ == cur,
        ensures
            !reaches_missing(self, b),
    {
        let v = rev.map_values(|h: CryptoHash| h@);
        assert forall|k: int| 0 <= k < v.len() implies self.has_block(#[trigger] v[k]) by {
            assert(v[k] == rev[k]@);
        }
        assert forall|k: int| 0 <= k < v.len() - 1 implies #[trigger] v[k + 1] == self.block_of(v[k]).justify.block by {
            assert(v[k] == rev[k]@);
            assert(v[k + 1] == rev[k + 1]@);
            assert(self.has_block(rev[k]@));
        }
        assert(v[0] == rev[0]@);
        assert(v.last() == rev.last()@);
        assert(self.has_block(rev.last()@));
        assert(v[m] == cur);
        assert forall|w: Seq<Seq<u8>>| !#[trigger] is_commit_walk_to_missing(self, b, w) by {
            if is_commit_walk_to_missing(self, b, w) {
                lemma_parent_walk_cycle(self, w, v, m, w.len() - 1);
                let j = choose|j: int| 0 <= j < v.len() && w[w.len() - 1] == #[trigger] v[j];
                assert(self.has_block(v[j]));
            }
        }
    }
}

impl BlockTree {
    /// The blocks that committing `block` commits, lowest first: `block` and its ancestors above
    /// the highest committed block. An error names a needed block that is not in the tree.
    pub fn uncommitted_chain(&self, block: &CryptoHash) -> (r: Result<Vec<CryptoHash>, BlockTreeError>)
        requires
            self.wf(),
        ensures
            match r {
                Ok(c) => is_commit_chain(self, block@, c@.map_values(|h: CryptoHash| h@)),
                Err(BlockTreeError::BlockExpectedButNotFound { block: b }) => !self.has_block(b@),
            },
            r is Err <==> reaches_missing(self, block@),
    {
        let committed = self.highest_committed_block_height();
        let mut rev: Vec<CryptoHash> = Vec::new();
        let mut cur: CryptoHash = *block;
        let mut fuel: usize = self.entries.len();
        loop
            invariant_except_break
                rev@.len() == 0 ==> cur@ == block@,
                rev@.len() > 0 ==> self.parent_of(rev@.last()@) == Some(cur@),
                forall|k: int| 0 <= k < rev@.len() ==> !self.block_of(#[trigger] rev@[k]@).justify.is_genesis(),
                fuel + rev@.len() == self.entries@.len(),
            invariant
                self.wf(),
                committed == self.committed_height(),
                rev@.len() > 0 ==> rev@[0]@ == block@,
                forall|k: int| 0 <= k < rev@.len() ==> self.has_block(#[trigger] rev@[k]@)
                    && crate::block_tree::invariants::not_committed_yet(self, self.block_of(rev@[k]@).height as int),
                forall|k: int| 0 <= k < rev@.len() - 1 ==> self.parent_of(#[trigger] rev@[k]@) == Some(rev@[k + 1]@),
                forall|a: int, b: int| 0 <= a < b < rev@.len() ==> rev@[a]@ != rev@[b]@,
            ensures
                rev@.len() == 0 ==> self.has_block(block@)
                    && !crate::block_tree::invariants::not_committed_yet(self, self.block_of(block@).height as int),
                !reaches_missing(self, block@),
            decreases fuel,
        {
            let i = match self.find(&cur) {
                Some(i) => i,
                None => {
                    proof {
                        let v = rev@.map_values(|h: CryptoHash| h@);
                        let w = v.push(cur@);
                        assert forall|k: int| 0 <= k < w.len() - 1 implies self.has_block(#[trigger] w[k])
                            && w[k + 1] == self.block_of(w[k]).justify.block by {
                            assert(w[k] == rev@[k]@);
                            if k + 1 < v.len() {
                                assert(w[k + 1] == rev@[k + 1]@);
                            }
                        }
                        assert forall|k: int| 0 <= k < w.len() - 1 implies commit_walk_continues(self, #[trigger] w[k]) by {
                            assert(w[k] == rev@[k]@);
                        }
                        if v.len() > 0 {
                            assert(w[0] == rev@[0]@);
                        }
                        assert(is_commit_walk_to_missing(self, block@, w));
                    }
                    return Err(BlockTreeError::BlockExpectedButNotFound { block: cur });
                },
            };
            let height = self.entries[i].block.height;
            let above = match committed {
                Some(c) => height > c,
                None => true,
            };
            if !above {
                proof {
                    assert(self.block_of(cur@) == self.entries@[i as int].block@);
                    self.lemma_walk_blocked(block@, rev@, cur@);
                }
                break;
            }
            let mut seen = false;
            let mut j: usize = 0;
            while j < rev.len()
                invariant
                    j <= rev@.len(),
                    seen == exists|m: int| 0 <= m < j && #[trigger] rev@[m]@ == cur@,
                decreases rev@.len() - j,
            {
                if bytes32_eq(&rev[j], &cur) {
                    seen = true;
                }
                j = j + 1;
            }
            if seen {
                proof {
                    let m = choose|m: int| 0 <= m < rev@.len() && #[trigger] rev@[m]@ == cur@;
                    self.lemma_walk_cycles(block@, rev@, cur@, m);
                }
                break;
            }
            let ghost old_rev = rev@;
            rev.push(cur);
            proof {
                assert(self.has_block(cur@));
                assert(self.block_of(cur@) == self.entries@[i as int].block@);
                assert forall|a: int, b: int| 0 <= a < b < rev@.len() implies rev@[a]@ != rev@[b]@ by {
                    if b == old_rev.len() {
                        assert(rev@[a] == old_rev[a]);
                    }
                }
                assert forall|k: int| 0 <= k < rev@.len() - 1 implies self.parent_of(#[trigger] rev@[k]@) == Some(rev@[k + 1]@) by {
                    if k == old_rev.len() - 1 {
                        assert(rev@[k] == old_rev.last());
                    }
                }
            }
            if self.entries[i].block.justify.is_genesis_qc() || fuel == 0 {
                proof {
                    assert(self.block_of(cur@) == self.entries@[i as int].block@);
                    self.lemma_walk_blocked(block@, old_rev, cur@);
                }
                break;
            }
            fuel = fuel - 1;
            cur = self.entries[i].block.justify.block;
        }
        let mut chain: Vec<CryptoHash> = Vec::new();
        let mut k: usize = rev.len();
        while k > 0
            invariant
                k <= rev@.len(),
                chain@.len() == rev@.len() - k,
                forall|m: int| 0 <= m < chain@.len() ==> chain@[m] == rev@[rev@.len() - 1 - m],
            decreases k,
        {
            k = k - 1;
            chain.push(rev[k]);
        }
        proof {
            let c = chain@.map_values(|h: CryptoHash| h@);
            assert forall|m: int| 0 <= m < c.len() implies #[trigger] c[m] == rev@[rev@.len() - 1 - m]@ by {}
            assert forall|a: int, b: int| 0 <= a < b < c.len() implies c[a] != c[b] by {
                assert(c[a] == rev@[rev@.len() - 1 - a]@);
                assert(c[b] == rev@[rev@.len() - 1 - b]@);
            }
            assert forall|m: int| 0 <= m < c.len() - 1 implies self.parent_of(#[trigger] c[m + 1]) == Some(c[m]) by {
                assert(c[m + 1] == rev@[rev@.len() - 2 - m]@);
                assert(c[m] == rev@[(rev@.len() - 2 - m) + 1]@);
            }
            assert forall|m: int| 0 <= m < c.len() implies self.has_block(#[trigger] c[m])
                && crate::block_tree::invariants::not_committed_yet(self, self.block_of(c[m]).height as int) by {
                assert(c[m] == rev@[rev@.len() - 1 - m]@);
            }
            if c.len() > 0 {
                assert(c.last() == rev@[0]@);
            }
        }
        Ok(chain)
    }
}

impl BlockTree {
    /// Take the pending updates out of entry `pos`: its app state updates become none, and
    /// pending validator set updates become committed.
    fn take_entry_updates(&mut self, pos: usize) -> (r: (Option<AppStateUpdates>, Option<ValidatorSetUpdates>))
        requires
            old(self).wf(),
            pos < old(self).entries@.len(),
        ensures
            final(self).wf(),
            ({
                let h = old(self).entries@[pos as int].block.hash@;
                &&& r.0 == old(self).pending_app_updates(h)
                &&& r.1 == old(self).pending_vs(h)
                &&& final(self).pending_app_updates(h) is None
                &&& final(self).pending_vs(h) is None
                &&& forall|g: Seq<u8>| g != h ==> final(self).pending_app_updates(g) == old(self).pending_app_updates(g)
                    && final(self).pending_vs(g) == old(self).pending_vs(g)
            }),
            forall|g: Seq<u8>| final(self).has_block(g) == old(self).has_block(g)
                && (old(self).has_block(g) ==> final(self).block_of(g) == old(self).block_of(g))
                && final(self).has_updates(g) == old(self).has_updates(g),
            final(self).children_lists == old(self).children_lists,
            final(self).newest_block == old(self).newest_block,
            final(self).locked_pc == old(self).locked_pc,
            final(self).highest_pc == old(self).highest_pc,
            final(self).highest_committed_block == old(self).highest_committed_block,
            final(self).committed_chain == old(self).committed_chain,
            final(self).committed_app_state == old(self).committed_app_state,
            final(self).validator_set_state == old(self).validator_set_state,
            final(self).highest_view_entered == old(self).highest_view_entered,
            final(self).highest_view_phase_voted == old(self).highest_view_phase_voted,
    {
        proof {
            old(self).lemma_index_of(pos as int);
        }
        let entry = self.entries.remove(pos);
        let BlockEntry { block, pending_app_state_updates, validator_set_updates_status } = entry;
        let (vs, status) = match validator_set_updates_status {
            ValidatorSetUpdatesStatus::Pending(u) => (Some(u), ValidatorSetUpdatesStatus::Committed),
            ValidatorSetUpdatesStatus::Committed => (None, ValidatorSetUpdatesStatus::Committed),
            ValidatorSetUpdatesStatus::NoUpdates => (None, ValidatorSetUpdatesStatus::NoUpdates),
        };
        self.entries.insert(pos, BlockEntry { block, pending_app_state_updates: None, validator_set_updates_status: status });
        proof {
            assert forall|j: int| 0 <= j < self.entries@.len() implies
                self.entries@[j].block == old(self).entries@[j].block by {}
            assert forall|g: Seq<u8>| #[trigger] self.has_block(g) == old(self).has_block(g) by {
                if self.has_block(g) {
                    let j = choose|j: int| 0 <= j < self.entries@.len() && #[trigger] self.entries@[j].block.hash@ == g;
                    assert(old(self).entries@[j].block.hash@ == g);
                }
                if old(self).has_block(g) {
                    let j = choose|j: int| 0 <= j < old(self).entries@.len() && #[trigger] old(self).entries@[j].block.hash@ == g;
                    assert(self.entries@[j].block.hash@ == g);
                }
            }
            assert forall|g: Seq<u8>| old(self).has_block(g) implies #[trigger] self.index_of(g) == old(self).index_of(g) by {
                let j = old(self).index_of(g);
                old(self).lemma_index_of(j);
                assert(self.entries@[j].block.hash@ == g);
                self.lemma_index_of(j);
            }
        }
        (pending_app_state_updates, vs)
    }

    /// Commit the blocks of `chain`, lowest first: apply each block's pending app state updates to
    /// the committed app state and its pending validator set updates to the committed validator
    /// set, and record it as committed. Returns each committed block with the validator set updates
    /// that its commit applied.
    #[verifier::rlimit(40)]
    pub fn commit_chain(&mut self, chain: &Vec<CryptoHash>) -> (committed: Vec<(CryptoHash, Option<ValidatorSetUpdates>)>)
        requires
            old(self).wf(),
            forall|k: int| 0 <= k < chain@.len() ==> old(self).has_block(#[trigger] chain@[k]@),
            forall|a: int, b: int| 0 <= a < b < chain@.len() ==> chain@[a]@ != chain@[b]@,
        ensures
            final(self).wf(),
            ({
                let c = chain@.map_values(|h: CryptoHash| h@);
                &&& final(self).committed_chain_view() == old(self).committed_chain_view() + chain_heights(old(self), c)
                &&& c.len() > 0 ==> final(self).committed_block() == Some(c.last())
                &&& c.len() == 0 ==> final(self).committed_block() == old(self).committed_block()
                    && final(self).app_state_view() == old(self).app_state_view()
                &&& forall|k: Seq<u8>| #![trigger first_value(final(self).app_state_view(), k)]
                    first_value(final(self).app_state_view(), k)
                        == chain_app_value(old(self), c, k, first_value(old(self).app_state_view(), k))
                &&& forall|k: Seq<u8>| #![trigger final(self).vs_state().committed().has(k)]
                    final(self).vs_state().committed().has(k)
                        == chain_vs_has(old(self), c, k, old(self).vs_state().committed().has(k))
                &&& vs_view(final(self).vs_state()) == chain_vs_state(old(self), c, vs_view(old(self).vs_state()))
                &&& committed@.len() == c.len()
                &&& forall|i: int| 0 <= i < c.len() ==> (#[trigger] committed@[i]).0@ == c[i]
                    && committed@[i].1 == old(self).pending_vs(c[i])
            }),
            forall|g: Seq<u8>| final(self).has_block(g) == old(self).has_block(g)
                && (old(self).has_block(g) ==> final(self).block_of(g) == old(self).block_of(g))
                && final(self).has_updates(g) == old(self).has_updates(g),
            final(self).locked() == old(self).locked(),
            final(self).highest() == old(self).highest(),
            final(self).newest() == old(self).newest(),
            final(self).view_entered() == old(self).view_entered(),
            final(self).view_voted() == old(self).view_voted(),
    {
        let ghost c = chain@.map_values(|h: CryptoHash| h@);
        let mut committed: Vec<(CryptoHash, Option<ValidatorSetUpdates>)> = Vec::new();
        let mut i: usize = 0;
        while i < chain.len()
            invariant
                self.wf(),
                c == chain@.map_values(|h: CryptoHash| h@),
                i <= chain@.len(),
                forall|k: int| 0 <= k < chain@.len() ==> old(self).has_block(#[trigger] chain@[k]@),
                forall|a: int, b: int| 0 <= a < b < chain@.len() ==> chain@[a]@ != chain@[b]@,
                forall|g: Seq<u8>| #![trigger self.has_block(g)] self.has_block(g) == old(self).has_block(g)
                    && (old(self).has_block(g) ==> self.block_of(g) == old(self).block_of(g))
                    && self.has_updates(g) == old(self).has_updates(g),
                forall|k: int| i <= k < chain@.len() ==> self.pending_app_updates(#[trigger] c[k]) == old(self).pending_app_updates(c[k])
                    && self.pending_vs(c[k]) == old(self).pending_vs(c[k]),
                self.committed_chain_view() == old(self).committed_chain_view() + chain_heights(old(self), c.take(i as int)),
                i > 0 ==> self.committed_block() == Some(c[i - 1]),
                i == 0 ==> self.committed_block() == old(self).committed_block()
                    && self.app_state_view() == old(self).app_state_view(),
                forall|k: Seq<u8>| #![trigger first_value(self.app_state_view(), k)]
                    first_value(self.app_state_view(), k)
                        == chain_app_value(old(self), c.take(i as int), k, first_value(old(self).app_state_view(), k)),
                forall|k: Seq<u8>| #![trigger self.vs_state().committed().has(k)]
                    self.vs_state().committed().has(k)
                        == chain_vs_has(old(self), c.take(i as int), k, old(self).vs_state().committed().has(k)),
                vs_view(self.vs_state()) == chain_vs_state(old(self), c.take(i as int), vs_view(old(self).vs_state())),
                committed@.len() == i,
                forall|m: int| 0 <= m < i ==> (#[trigger] committed@[m]).0@ == c[m] && committed@[m].1 == old(self).pending_vs(c[m]),
                self.locked() == old(self).locked(),
                self.highest() == old(self).highest(),
                self.newest() == old(self).newest(),
                self.view_entered() == old(self).view_entered(),
                self.view_voted() == old(self).view_voted(),
            decreases chain@.len() - i,
        {
            let h = chain[i];
            assert(c[i as int] == h@);
            assert(self.has_block(h@));
            let pos = self.find(&h).unwrap();
            let height = self.entries[pos].block.height;
            let ghost pre = *self;
            assert(height == old(self).block_of(h@).height);
            let (app, vs) = self.take_entry_updates(pos);
            let ghost mid = *self;
            match &app {
                Some(u) => {
                    u.apply_to(&mut self.committed_app_state);
                },
                None => {},
            }
            let vs_out = match vs {
                Some(u) => {
                    self.validator_set_state.commit_updates(&u, height);
                    Some(u)
                },
                None => None,
            };
            self.committed_chain.push((height, h));
            self.highest_committed_block = Some(h);
            committed.push((h, vs_out));
            proof {
                assert(c.take(i as int + 1).drop_last() =~= c.take(i as int));
                assert(c.take(i as int + 1).last() == h@);
                assert(old(self).pending_app_updates(h@) == pre.pending_app_updates(h@));
                assert(chain_heights(old(self), c.take(i as int + 1)) =~= chain_heights(old(self), c.take(i as int)).push((height, h@)));
                assert(self.committed_chain_view() =~= pre.committed_chain_view().push((height, h@)));
                assert(self.committed_chain_view() =~= old(self).committed_chain_view() + chain_heights(old(self), c.take(i as int + 1)));
                assert(self.entries == mid.entries);
                assert(self.has_block(h@));
                assert forall|m: int| 0 <= m < self.committed_chain@.len() implies self.has_block(#[trigger] self.committed_chain@[m].1@) by {
                    if m < mid.committed_chain@.len() {
                        assert(self.committed_chain@[m] == mid.committed_chain@[m]);
                        assert(mid.has_block(mid.committed_chain@[m].1@));
                    }
                }
                assert(self.wf());
                assert forall|g: Seq<u8>| #![trigger self.has_block(g)] self.has_block(g) == old(self).has_block(g)
                    && (old(self).has_block(g) ==> self.block_of(g) == old(self).block_of(g))
                    && self.has_updates(g) == old(self).has_updates(g) by {
                    assert(self.has_block(g) == mid.has_block(g));
                    assert(self.index_of(g) == mid.index_of(g));
                    assert(mid.has_block(g) == pre.has_block(g));
                }
                assert forall|k: Seq<u8>| #![trigger first_value(self.app_state_view(), k)]
                    first_value(self.app_state_view(), k)
                        == chain_app_value(old(self), c.take(i as int + 1), k, first_value(old(self).app_state_view(), k)) by {
                    assert(first_value(pre.app_state_view(), k)
                        == chain_app_value(old(self), c.take(i as int), k, first_value(old(self).app_state_view(), k)));
                    assert(mid.app_state_view() == pre.app_state_view());
                }
                assert forall|k: int| i + 1 <= k < chain@.len() implies self.pending_app_updates(#[trigger] c[k])
                    == old(self).pending_app_updates(c[k]) && self.pending_vs(c[k]) == old(self).pending_vs(c[k]) by {
                    assert(c[k] != h@);
                }
            }
            i = i + 1;
        }
        proof {
            assert(c.take(i as int) =~= c);
        }
        committed
    }
}

/// How the committed state of `after` follows from that of `before` by committing the blocks of
/// `chain`, lowest first, as `o` reports.
pub open spec fn final_parts(after: &BlockTree, before: &BlockTree, o: UpdateOutcome, chain: Seq<Seq<u8>>) -> bool {
    &&& after.committed_chain_view() == before.committed_chain_view() + chain_heights(before, chain)
    &&& o.committed_blocks@.len() == chain.len()
    &&& forall|k: Seq<u8>| #![trigger first_value(after.app_state_view(), k)]
        first_value(after.app_state_view(), k) == chain_app_value(before, chain, k, first_value(before.app_state_view(), k))
    &&& forall|k: Seq<u8>| #![trigger after.vs_state().committed().has(k)]
        after.vs_state().committed().has(k) == chain_vs_has(before, chain, k, before.vs_state().committed().has(k))
}

/// What an update of `before` by `justify` that produced `o` and left `after` did: raised the
/// highest certificate, locked and committed as the safety rules say, marked a decided update on
/// a `Decide` certificate, and kept every block.
pub open spec fn update_effects(before: &BlockTree, after: &BlockTree, justify: QcView, o: UpdateOutcome) -> bool {
    &&& (justify.view > before.highest().view ==> after.highest() == justify
        && o.highest_pc is Some && o.highest_pc->0@ == justify)
    &&& (justify.view <= before.highest().view ==> after.highest() == before.highest()
        && o.highest_pc is None)
    &&& (pc_to_lock_spec(before, justify) matches Decision::Decided(l) && match l {
        Some(l) => after.locked() == l && o.locked_pc is Some && o.locked_pc->0@ == l,
        None => after.locked() == before.locked() && o.locked_pc is None,
    })
    &&& (block_to_commit_spec(before, justify) matches Decision::Decided(b) && match b {
        Some(b) => after.committed_block() == Some(b)
            && is_commit_chain(before, b, o.committed_hashes())
            && final_parts(after, before, o, o.committed_hashes()),
        None => after.committed_block() == before.committed_block()
            && after.committed_chain_view() == before.committed_chain_view()
            && after.app_state_view() == before.app_state_view()
            && o.committed_blocks@.len() == 0,
    })
    &&& (justify.phase == crate::hotstuff::types::Phase::Decide ==> after.vs_state().decided())
    &&& vs_view(after.vs_state()) == decided_if(chain_vs_state(before, o.committed_hashes(), vs_view(before.vs_state())),
        justify.phase == crate::hotstuff::types::Phase::Decide)
    &&& forall|g: Seq<u8>| after.has_block(g) == before.has_block(g)
        && (before.has_block(g) ==> after.block_of(g) == before.block_of(g))
}

/// What an update with `justify` does, read concretely: the highest certificate becomes `justify`
/// exactly when its view is above the old highest view, and otherwise stays, so the highest view
/// never decreases; the committed chain only grows at its end; the lock and the highest committed
/// block change only as the locking and commit rules decide; and every block stays, unchanged.
pub proof fn lemma_update_moves_forward(before: &BlockTree, after: &BlockTree, justify: QcView, o: UpdateOutcome)
    requires
        update_effects(before, after, justify, o),
    ensures
        after.highest() == if justify.view > before.highest().view { justify } else { before.highest() },
        after.highest().view >= before.highest().view,
        after.committed_chain_view().len() >= before.committed_chain_view().len(),
        after.committed_chain_view().take(before.committed_chain_view().len() as int) == before.committed_chain_view(),
        pc_to_lock_spec(before, justify) == Decision::<Option<QcView>>::Decided(None) ==> after.locked() == before.locked(),
        pc_to_lock_spec(before, justify) matches Decision::Decided(Some(l)) ==> after.locked() == l,
        block_to_commit_spec(before, justify) == Decision::<Option<Seq<u8>>>::Decided(None)
            ==> after.committed_block() == before.committed_block()
                && after.committed_chain_view() == before.committed_chain_view(),
        block_to_commit_spec(before, justify) matches Decision::Decided(Some(b)) ==> after.committed_block() == Some(b),
        forall|g: Seq<u8>| #[trigger] before.has_block(g) ==> after.has_block(g) && after.block_of(g) == before.block_of(g),
{
    let c = before.committed_chain_view();
    if block_to_commit_spec(before, justify) matches Decision::Decided(Some(b)) {
        assert((c + chain_heights(before, o.committed_hashes())).take(c.len() as int) =~= c);
    } else {
        assert(after.committed_chain_view().take(c.len() as int) =~= c);
    }
}

/// What an update of the block tree changed: the new highest certificate and the new locked
/// certificate (if they changed), and the blocks it committed, lowest first, each with the
/// validator set updates that its commit applied.
pub struct UpdateOutcome {
    pub highest_pc: Option<QuorumCertificate>,
    pub locked_pc: Option<QuorumCertificate>,
    pub committed_blocks: Vec<(CryptoHash, Option<ValidatorSetUpdates>)>,
}

impl UpdateOutcome {
    /// The hashes of the committed blocks, lowest first.
    pub open spec fn committed_hashes(&self) -> Seq<Seq<u8>> {
        self.committed_blocks@.map_values(|p: (CryptoHash, Option<ValidatorSetUpdates>)| p.0@)
    }

    /// The validator set updates of the highest committed block that had any.
    pub fn resulting_validator_set_updates(&self) -> (u: Option<ValidatorSetUpdates>)
        ensures
            match u {
                Some(u) => exists|i: int| 0 <= i < self.committed_blocks@.len()
                    && (#[trigger] self.committed_blocks@[i]).1 is Some && self.committed_blocks@[i].1->0.inserts@ == u.inserts@
                    && self.committed_blocks@[i].1->0.deletes@ == u.deletes@
                    && forall|j: int| i < j < self.committed_blocks@.len() ==> (#[trigger] self.committed_blocks@[j]).1 is None,
                None => forall|i: int| 0 <= i < self.committed_blocks@.len() ==> (#[trigger] self.committed_blocks@[i]).1 is None,
            },
    {
        let mut i: usize = self.committed_blocks.len();
        while i > 0
            invariant
                i <= self.committed_blocks@.len(),
                forall|j: int| i <= j < self.committed_blocks@.len() ==> (#[trigger] self.committed_blocks@[j]).1 is None,
            decreases i,
        {
            i = i - 1;
            match &self.committed_blocks[i].1 {
                Some(u) => {
                    return Some(u.clone());
                },
                None => {},
            }
        }
        None
    }
}

impl BlockTree {
    /// Update the block tree after the replica sees the certificate `justify`: raise the highest
    /// certificate, lock as `pc_to_lock` says, commit as `block_to_commit` says, and mark the
    /// latest validator set update decided when `justify` is a `Decide` certificate. On an error
    /// (a block that the rules need is missing) nothing changes.
    #[verifier::rlimit(60)]
    pub fn update(&mut self, justify: &QuorumCertificate) -> (r: Result<UpdateOutcome, BlockTreeError>)
        requires
            old(self).wf(),
        ensures
            final(self).wf(),
            old(self).committed_chain_view().is_prefix_of(final(self).committed_chain_view()),
            old(self).committed_height() matches Some(h) ==> final(self).committed_height() matches Some(h2) && h2 >= h,
            final(self).highest().view >= old(self).highest().view,
            r is Err <==> update_fails(old(self), justify@),
            forall|h: Seq<u8>| #[trigger] keeps_block(old(self), final(self), h),
            match r {
                Err(BlockTreeError::BlockExpectedButNotFound { block }) => {
                    &&& *final(self) == *old(self)
                    &&& (pc_to_lock_spec(old(self), justify@) == Decision::<Option<QcView>>::Missing(block@)
                        || block_to_commit_spec(old(self), justify@) == Decision::<Option<Seq<u8>>>::Missing(block@)
                        || !old(self).has_block(block@))
                },
                Ok(o) => {
                    &&& update_effects(old(self), final(self), justify@, o)
                    &&& final(self).view_entered() == old(self).view_entered()
                    &&& final(self).view_voted() == old(self).view_voted()
                },
            },
    {
        let update_highest = justify.view > self.highest_pc.view;
        let lock = match pc_to_lock(justify, self) {
            Ok(l) => l,
            Err(e) => {
                return Err(e);
            },
        };
        let to_commit = match block_to_commit(justify, self) {
            Ok(b) => b,
            Err(e) => {
                return Err(e);
            },
        };
        let chain = match &to_commit {
            Some(b) => match self.uncommitted_chain(b) {
                Ok(c) => c,
                Err(e) => {
                    return Err(e);
                },
            },
            None => Vec::new(),
        };
        proof {
            if to_commit is Some {
                let c = chain@.map_values(|h: CryptoHash| h@);
                assert(is_commit_chain(self, to_commit->0@, c));
                if c.len() == 0 {
                    assert(crate::block_tree::invariants::not_committed_yet(self, self.block_of(to_commit->0@).height as int));
                }
                assert forall|k: int| 0 <= k < chain@.len() implies self.has_block(#[trigger] chain@[k]@) by {
                    assert(c[k] == chain@[k]@);
                }
                assert forall|a: int, b: int| 0 <= a < b < chain@.len() implies chain@[a]@ != chain@[b]@ by {
                    assert(c[a] == chain@[a]@);
                    assert(c[b] == chain@[b]@);
                }
            }
        }
        let ghost c = chain@.map_values(|h: CryptoHash| h@);
        let o = self.apply_update(justify, update_highest, lock, &chain);
        proof {
            if to_commit is Some {
                let b = to_commit->0@;
                assert(is_commit_chain(old(self), b, c));
                assert(final_parts(self, old(self), o, c));
                if c.len() > 0 {
                    assert(self.committed_block() == Some(b));
                    assert(old(self).has_block(b));
                    assert(self.block_of(b) == old(self).block_of(b));
                }
            }
            assert(old(self).committed_chain_view().is_prefix_of(self.committed_chain_view())) by {
                assert(self.committed_chain_view().take(old(self).committed_chain_view().len() as int)
                    =~= old(self).committed_chain_view());
            }
        }
        Ok(o)
    }

    /// Make the changes that `update` decided on: raise the highest certificate if
    /// `update_highest`, lock on `lock`, commit `chain`, and mark the latest validator set update
    /// decided if `justify` is a `Decide` certificate.
    fn apply_update(
        &mut self,
        justify: &QuorumCertificate,
        update_highest: bool,
        lock: Option<QuorumCertificate>,
        chain: &Vec<CryptoHash>,
    ) -> (o: UpdateOutcome)
        requires
            old(self).wf(),
            forall|k: int| 0 <= k < chain@.len() ==> old(self).has_block(#[trigger] chain@[k]@),
            forall|a: int, b: int| 0 <= a < b < chain@.len() ==> chain@[a]@ != chain@[b]@,
        ensures
            final(self).wf(),
            update_highest ==> final(self).highest() == justify@ && o.highest_pc is Some && o.highest_pc->0@ == justify@,
            !update_highest ==> final(self).highest() == old(self).highest() && o.highest_pc is None,
            lock is Some ==> final(self).locked() == lock->0@ && o.locked_pc is Some && o.locked_pc->0@ == lock->0@,
            lock is None ==> final(self).locked() == old(self).locked() && o.locked_pc is None,
            ({
                let c = chain@.map_values(|h: CryptoHash| h@);
                &&& final(self).committed_chain_view() == old(self).committed_chain_view() + chain_heights(old(self), c)
                &&& c.len() > 0 ==> final(self).committed_block() == Some(c.last())
                &&& c.len() == 0 ==> final(self).committed_block() == old(self).committed_block()
                    && final(self).app_state_view() == old(self).app_state_view()
                &&& forall|k: Seq<u8>| #![trigger first_value(final(self).app_state_view(), k)]
                    first_value(final(self).app_state_view(), k)
                        == chain_app_value(old(self), c, k, first_value(old(self).app_state_view(), k))
                &&& forall|k: Seq<u8>| #![trigger final(self).vs_state().committed().has(k)]
                    final(self).vs_state().committed().has(k)
                        == chain_vs_has(old(self), c, k, old(self).vs_state().committed().has(k))
                &&& vs_view(final(self).vs_state()) == decided_if(chain_vs_state(old(self), c, vs_view(old(self).vs_state())),
                    justify@.phase == crate::hotstuff::types::Phase::Decide)
                &&& o.committed_blocks@.len() == c.len()
                &&& o.committed_hashes() == c
            }),
            justify@.phase == crate::hotstuff::types::Phase::Decide ==> final(self).vs_state().decided(),
            forall|g: Seq<u8>| final(self).has_block(g) == old(self).has_block(g)
                && (old(self).has_block(g) ==> final(self).block_of(g) == old(self).block_of(g)),
            final(self).view_entered() == old(self).view_entered(),
            final(self).view_voted() == old(self).view_voted(),
    {
        let ghost pre = *self;
        let highest_out = if update_highest {
            self.highest_pc = justify.clone();
            Some(justify.clone())
        } else {
            None
        };
        let locked_out = match &lock {
            Some(l) => {
                self.locked_pc = l.clone();
                Some(l.clone())
            },
            None => None,
        };
        let ghost mid = *self;
        proof {
            assert forall|g: Seq<u8>| #![trigger mid.has_block(g)] mid.has_block(g) == pre.has_block(g)
                && mid.index_of(g) == pre.index_of(g)
                && mid.pending_app_updates(g) == pre.pending_app_updates(g)
                && mid.pending_vs(g) == pre.pending_vs(g) by {}
            let c = chain@.map_values(|h: CryptoHash| h@);
            assert forall|k: int| 0 <= k < chain@.len() implies mid.has_block(#[trigger] chain@[k]@) by {
                assert(c[k] == chain@[k]@);
            }
            assert forall|a: int, b: int| 0 <= a < b < chain@.len() implies chain@[a]@ != chain@[b]@ by {
                assert(c[a] == chain@[a]@);
                assert(c[b] == chain@[b]@);
            }
            assert(mid.committed_chain_view() == pre.committed_chain_view());
            assert(mid.app_state_view() == pre.app_state_view());
        }
        let committed_blocks = self.commit_chain(chain);
        proof {
            let c = chain@.map_values(|h: CryptoHash| h@);
            assert(chain_heights(&mid, c) =~= chain_heights(&pre, c));
            assert forall|k: Seq<u8>| chain_app_value(&mid, c, k, first_value(pre.app_state_view(), k))
                == chain_app_value(&pre, c, k, first_value(pre.app_state_view(), k)) by {
                lemma_chain_app_value_same(&mid, &pre, c, k, first_value(pre.app_state_view(), k));
            }
            assert forall|k: Seq<u8>| chain_vs_has(&mid, c, k, pre.vs_state().committed().has(k))
                == chain_vs_has(&pre, c, k, pre.vs_state().committed().has(k)) by {
                lemma_chain_vs_has_same(&mid, &pre, c, k, pre.vs_state().committed().has(k));
            }
            assert(mid.entries == pre.entries);
            lemma_chain_vs_state_same(&mid, &pre, c, vs_view(pre.vs_state()));
        }
        let ghost after_commit = *self;
        if justify.phase.is_decide() {
            self.validator_set_state.set_decided();
        }
        proof {
            assert forall|g: Seq<u8>| self.has_block(g) == old(self).has_block(g)
                && (old(self).has_block(g) ==> self.block_of(g) == old(self).block_of(g)) by {
                assert(self.has_block(g) == after_commit.has_block(g));
                assert(self.index_of(g) == after_commit.index_of(g));
                assert(mid.has_block(g) == pre.has_block(g));
                assert(mid.index_of(g) == pre.index_of(g));
            }
        }
        let o = UpdateOutcome { highest_pc: highest_out, locked_pc: locked_out, committed_blocks };
        proof {
            let c = chain@.map_values(|h: CryptoHash| h@);
            assert(o.committed_hashes() =~= c);
        }
        o
    }
}

proof fn lemma_chain_app_value_same(a: &BlockTree, b: &BlockTree, c: Seq<Seq<u8>>, k: Seq<u8>, before: Option<Seq<u8>>)
    requires
        forall|g: Seq<u8>| #![trigger a.has_block(g)] a.pending_app_updates(g) == b.pending_app_updates(g),
    ensures
        chain_app_value(a, c, k, before) == chain_app_value(b, c, k, before),
    decreases c.len(),
{
    if c.len() > 0 {
        lemma_chain_app_value_same(a, b, c.drop_last(), k, before);
        assert(a.has_block(c.last()) == a.has_block(c.last()));
    }
}

proof fn lemma_chain_vs_has_same(a: &BlockTree, b: &BlockTree, c: Seq<Seq<u8>>, k: Seq<u8>, before: bool)
    requires
        forall|g: Seq<u8>| #![trigger a.has_block(g)] a.pending_vs(g) == b.pending_vs(g),
    ensures
        chain_vs_has(a, c, k, before) == chain_vs_has(b, c, k, before),
    decreases c.len(),
{
    if c.len() > 0 {
        lemma_chain_vs_has_same(a, b, c.drop_last(), k, before);
        assert(a.has_block(c.last()) == a.has_block(c.last()));
    }
}

proof fn lemma_chain_vs_state_same(a: &BlockTree, b: &BlockTree, c: Seq<Seq<u8>>, start: ValidatorSetStateView)
    requires
        forall|g: Seq<u8>| #![trigger a.has_block(g)] a.pending_vs(g) == b.pending_vs(g) && a.block_of(g) == b.block_of(g),
    ensures
        chain_vs_state(a, c, start) == chain_vs_state(b, c, start),
    decreases c.len(),
{
    if c.len() > 0 {
        lemma_chain_vs_state_same(a, b, c.drop_last(), start);
        assert(a.has_block(c.last()) == a.has_block(c.last()));
    }
}

/// The children listed for `h` in a list of (parent, children) pairs: those of the first pair for
/// `h`, or none.
pub open spec fn children_in(lists: Seq<(CryptoHash, Vec<CryptoHash>)>, h: Seq<u8>) -> Seq<Seq<u8>>
    decreases lists.len(),
{
    if lists.len() == 0 {
        Seq::empty()
    } else if lists[0].0@ == h {
        lists[0].1@.map_values(|c: CryptoHash| c@)
    } else {
        children_in(lists.drop_first(), h)
    }
}

/// The position of the first pair for `h`.
fn find_children(lists: &Vec<(CryptoHash, Vec<CryptoHash>)>, h: &CryptoHash) -> (pos: Option<usize>)
    ensures
        match pos {
            Some(i) => i < lists@.len() && lists@[i as int].0@ == h@
                && children_in(lists@, h@) == lists@[i as int].1@.map_values(|c: CryptoHash| c@)
                && forall|j: int| 0 <= j < i ==> lists@[j].0@ != h@,
            None => children_in(lists@, h@) == Seq::<Seq<u8>>::empty()
                && forall|j: int| 0 <= j < lists@.len() ==> lists@[j].0@ != h@,
        },
{
    let mut i: usize = 0;
    assert(lists@.skip(0) =~= lists@);
    while i < lists.len()
        invariant
            i <= lists@.len(),
            children_in(lists@, h@) == children_in(lists@.skip(i as int), h@),
            forall|j: int| 0 <= j < i ==> lists@[j].0@ != h@,
        decreases lists@.len() - i,
    {
        assert(lists@.skip(i as int).drop_first() =~= lists@.skip(i as int + 1));
        if bytes32_eq(&lists[i].0, h) {
            return Some(i);
        }
        i = i + 1;
    }
    None
}

impl Clone for AppStateUpdates {
    fn clone(&self) -> (u: Self)
        ensures
            u.insert_pairs() == self.insert_pairs(),
            u.delete_keys() == self.delete_keys(),
    {
        let mut inserts: Vec<(Vec<u8>, Vec<u8>)> = Vec::new();
        let mut i: usize = 0;
        while i < self.inserts.len()
            invariant
                i <= self.inserts@.len(),
                inserts@.len() == i,
                forall|j: int| 0 <= j < i ==> inserts@[j].0@ == self.inserts@[j].0@ && inserts@[j].1@ == self.inserts@[j].1@,
            decreases self.inserts@.len() - i,
        {
            let k = crate::types::copy_bytes(self.inserts[i].0.as_slice());
            let v = crate::types::copy_bytes(self.inserts[i].1.as_slice());
            inserts.push((k, v));
            i = i + 1;
        }
        let mut deletes: Vec<Vec<u8>> = Vec::new();
        let mut d: usize = 0;
        while d < self.deletes.len()
            invariant
                d <= self.deletes@.len(),
                deletes@.len() == d,
                forall|j: int| 0 <= j < d ==> deletes@[j]@ == self.deletes@[j]@,
            decreases self.deletes@.len() - d,
        {
            deletes.push(crate::types::copy_bytes(self.deletes[d].as_slice()));
            d = d + 1;
        }
        let u = AppStateUpdates { inserts, deletes };
        assert(u.insert_pairs() =~= self.insert_pairs());
        assert(u.delete_keys() =~= self.delete_keys());
        u
    }
}

/// Seeing a `Commit` or `Decide` certificate for a block of the tree commits up to that block:
/// afterwards the highest committed block is at least as high as it.
pub proof fn lemma_commit_certificate_commits(before: &BlockTree, after: &BlockTree, justify: QcView, o: UpdateOutcome)
    requires
        before.wf(),
        update_effects(before, after, justify, o),
        justify.phase == crate::hotstuff::types::Phase::Commit || justify.phase == crate::hotstuff::types::Phase::Decide,
        before.has_block(justify.block),
    ensures
        after.committed_height() matches Some(h) && h >= before.block_of(justify.block).height,
{
    assert(!justify.is_genesis());
    if let Some(c) = before.committed_block() {
        assert(before.has_block(c));
    }
}

} // verus!
