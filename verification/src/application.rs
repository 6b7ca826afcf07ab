//! What the replica hands to the app and gets back from it: the requests to produce and to
//! validate a block, the app's responses, and the view of the block tree that the app sees.

use vstd::prelude::*;

use crate::block::Block;
use crate::block_tree::{chain_app_value, is_commit_chain, BlockTree, BlockTreeError};
use crate::hotstuff::types::QuorumCertificate;
use crate::types::{BlockHeight, CryptoHash, ViewNumber};
use crate::update_sets::{first_value, updated_value, AppStateUpdates};
use crate::validator_set::{ValidatorSet, ValidatorSetUpdates};

verus! {

/// The value of `key` seen through `pending`, the pending app state updates of a chain of blocks,
/// newest first, above a committed state in which `key` has value `committed`: the newest updates
/// that delete or insert `key` decide its value.
pub open spec fn view_value(pending: Seq<Option<AppStateUpdates>>, key: Seq<u8>, committed: Option<Seq<u8>>) -> Option<Seq<u8>>
    decreases pending.len(),
{
    if pending.len() == 0 {
        committed
    } else {
        match pending[0] {
            Some(u) => if u.deletes_key(key) {
                None
            } else {
                match u.inserted_value(key) {
                    Some(v) => Some(v),
                    None => view_value(pending.drop_first(), key, committed),
                }
            },
            None => view_value(pending.drop_first(), key, committed),
        }
    }
}

/// The pending app state updates of the blocks of `chain` (lowest first), newest first.
pub open spec fn pending_of(bt: &BlockTree, chain: Seq<Seq<u8>>) -> Seq<Option<AppStateUpdates>> {
    Seq::new(chain.len(), |i: int| bt.pending_app_updates(chain[chain.len() - 1 - i]))
}

/// Seeing the app state through the pending updates of a chain gives the value that committing
/// the chain would give.
pub proof fn lemma_view_value_is_commit_value(bt: &BlockTree, chain: Seq<Seq<u8>>, key: Seq<u8>, committed: Option<Seq<u8>>)
    ensures
        view_value(pending_of(bt, chain), key, committed) == chain_app_value(bt, chain, key, committed),
    decreases chain.len(),
{
    if chain.len() > 0 {
        let rest = chain.drop_last();
        lemma_view_value_is_commit_value(bt, rest, key, committed);
        assert(pending_of(bt, chain).drop_first() =~= pending_of(bt, rest));
        assert(pending_of(bt, chain)[0] == bt.pending_app_updates(chain.last()));
        match bt.pending_app_updates(chain.last()) {
            Some(u) => {
                assert(view_value(pending_of(bt, chain), key, committed)
                    == updated_value(view_value(pending_of(bt, rest), key, committed), u, key));
            },
            None => {},
        }
    }
}

/// Whether two optional sets of app state updates make the same updates.
pub open spec fn same_updates(a: Option<AppStateUpdates>, b: Option<AppStateUpdates>) -> bool {
    match (a, b) {
        (Some(x), Some(y)) => x.insert_pairs() == y.insert_pairs() && x.delete_keys() == y.delete_keys(),
        (None, None) => true,
        _ => false,
    }
}

/// Whether two sequences of optional app state updates make the same updates, item by item.
pub open spec fn same_pending(a: Seq<Option<AppStateUpdates>>, b: Seq<Option<AppStateUpdates>>) -> bool {
    a.len() == b.len() && forall|j: int| 0 <= j < a.len() ==> same_updates(#[trigger] a[j], b[j])
}

/// Sequences that make the same updates give every key the same value.
pub proof fn lemma_view_value_same(a: Seq<Option<AppStateUpdates>>, b: Seq<Option<AppStateUpdates>>, key: Seq<u8>, committed: Option<Seq<u8>>)
    requires
        same_pending(a, b),
    ensures
        view_value(a, key, committed) == view_value(b, key, committed),
    decreases a.len(),
{
    if a.len() > 0 {
        assert(same_updates(a[0], b[0]));
        assert forall|j: int| 0 <= j < a.drop_first().len() implies same_updates(#[trigger] a.drop_first()[j], b.drop_first()[j]) by {
            assert(same_updates(a[j + 1], b[j + 1]));
        }
        lemma_view_value_same(a.drop_first(), b.drop_first(), key, committed);
    }
}

/// The block tree as the app sees it from a block: the committed state, with the pending app
/// state updates of the block and of its uncommitted ancestors on top.
pub struct AppBlockTreeView<'a> {
    block_tree: &'a BlockTree,
    pending_ancestors_app_state_updates: Vec<Option<AppStateUpdates>>,
}

impl<'a> AppBlockTreeView<'a> {
    pub closed spec fn tree(&self) -> BlockTree {
        *self.block_tree
    }

    /// The pending app state updates seen through, newest first.
    pub closed spec fn pending(&self) -> Seq<Option<AppStateUpdates>> {
        self.pending_ancestors_app_state_updates@
    }

    pub closed spec fn wf(&self) -> bool {
        self.block_tree.wf()
    }

    pub fn block(&self, block: &CryptoHash) -> (b: Option<Block>)
        requires
            self.wf(),
        ensures
            match b {
                Some(b) => self.tree().has_block(block@) && b@ == self.tree().block_of(block@),
                None => !self.tree().has_block(block@),
            },
    {
        self.block_tree.block(block)
    }

    pub fn block_height(&self, block: &CryptoHash) -> (h: Option<BlockHeight>)
        requires
            self.wf(),
        ensures
            match h {
                Some(h) => self.tree().has_block(block@) && h == self.tree().block_of(block@).height,
                None => !self.tree().has_block(block@),
            },
    {
        self.block_tree.block_height(block)
    }

    pub fn block_justify(&self, block: &CryptoHash) -> (r: Result<QuorumCertificate, BlockTreeError>)
        requires
            self.wf(),
        ensures
            match r {
                Ok(qc) => self.tree().has_block(block@) && qc@ == self.tree().block_of(block@).justify,
                Err(BlockTreeError::BlockExpectedButNotFound { block: b }) => !self.tree().has_block(block@) && b@ == block@,
            },
    {
        self.block_tree.block_justify(block)
    }

    pub fn block_data_hash(&self, block: &CryptoHash) -> (d: Option<CryptoHash>)
        requires
            self.wf(),
        ensures
            match d {
                Some(d) => self.tree().has_block(block@) && d@ == self.tree().block_of(block@).data_hash,
                None => !self.tree().has_block(block@),
            },
    {
        self.block_tree.block_data_hash(block)
    }

    pub fn block_data_len(&self, block: &CryptoHash) -> (n: Option<u32>)
        requires
            self.wf(),
        ensures
            match n {
                Some(n) => self.tree().has_block(block@) && n == self.tree().block_of(block@).data.len(),
                None => !self.tree().has_block(block@) || self.tree().block_of(block@).data.len() > u32::MAX,
            },
    {
        self.block_tree.block_data_len(block)
    }

    pub fn block_data(&self, block: &CryptoHash) -> (d: Option<Vec<Vec<u8>>>)
        requires
            self.wf(),
        ensures
            match d {
                Some(d) => self.tree().has_block(block@)
                    && d@.map_values(|x: Vec<u8>| x@) == self.tree().block_of(block@).data,
                None => !self.tree().has_block(block@),
            },
    {
        self.block_tree.block_data(block)
    }

    pub fn block_datum(&self, block: &CryptoHash, datum_index: u32) -> (d: Option<Vec<u8>>)
        requires
            self.wf(),
        ensures
            match d {
                Some(d) => self.tree().has_block(block@) && datum_index < self.tree().block_of(block@).data.len()
                    && d@ == self.tree().block_of(block@).data[datum_index as int],
                None => !self.tree().has_block(block@) || datum_index >= self.tree().block_of(block@).data.len(),
            },
    {
        self.block_tree.block_datum(block, datum_index)
    }

    pub fn block_at_height(&self, height: BlockHeight) -> (h: Option<CryptoHash>)
        ensures
            match h {
                Some(h) => exists|i: int| 0 <= i < self.tree().committed_chain_view().len()
                    && #[trigger] self.tree().committed_chain_view()[i] == (height, h@),
                None => forall|i: int| 0 <= i < self.tree().committed_chain_view().len()
                    ==> #[trigger] self.tree().committed_chain_view()[i].0 != height,
            },
    {
        self.block_tree.block_at_height(height)
    }

    /// The value of `key` in the app state as seen from this view's block.
    pub fn app_state(&self, key: &[u8]) -> (v: Option<Vec<u8>>)
        ensures
            match v {
                Some(v) => view_value(self.pending(), key@, first_value(self.tree().app_state_view(), key@)) == Some(v@),
                None => view_value(self.pending(), key@, first_value(self.tree().app_state_view(), key@)) is None,
            },
    {
        let ghost committed = first_value(self.tree().app_state_view(), key@);
        let mut i: usize = 0;
        assert(self.pending().skip(0) =~= self.pending());
        while i < self.pending_ancestors_app_state_updates.len()
            invariant
                i <= self.pending().len(),
                committed == first_value(self.tree().app_state_view(), key@),
                view_value(self.pending(), key@, committed) == view_value(self.pending().skip(i as int), key@, committed),
            decreases self.pending().len() - i,
        {
            assert(self.pending().skip(i as int).drop_first() =~= self.pending().skip(i as int + 1));
            assert(self.pending().skip(i as int)[0] == self.pending_ancestors_app_state_updates@[i as int]);
            match &self.pending_ancestors_app_state_updates[i] {
                Some(updates) => {
                    if updates.contains_delete(key) {
                        return None;
                    }
                    match updates.get_insert(key) {
                        Some(value) => {
                            return Some(value);
                        },
                        None => {},
                    }
                },
                None => {},
            }
            i = i + 1;
        }
        assert(self.pending().skip(i as int).len() == 0);
        self.block_tree.committed_app_state(key)
    }

    /// The committed validator set.
    pub fn validator_set(&self) -> (vs: &ValidatorSet)
        requires
            self.wf(),
        ensures
            *vs == self.tree().vs_state().committed(),
    {
        self.block_tree.committed_validator_set()
    }
}

impl BlockTree {
    /// The view of the tree that an app sees from `parent`: the committed state with the pending
    /// app state updates of `parent` and its uncommitted ancestors on top (or the committed state
    /// alone, for no parent). An error names a needed block that is not in the tree.
    pub fn app_view<'a>(&'a self, parent: Option<&CryptoHash>) -> (r: Result<AppBlockTreeView<'a>, BlockTreeError>)
        requires
            self.wf(),
        ensures
            match r {
                Ok(v) => v.wf() && v.tree() == *self && match parent {
                    Some(p) => exists|chain: Seq<Seq<u8>>| is_commit_chain(self, p@, chain)
                        && same_pending(v.pending(), #[trigger] pending_of(self, chain)),
                    None => v.pending().len() == 0,
                },
                Err(BlockTreeError::BlockExpectedButNotFound { block: b }) => !self.has_block(b@) && parent is Some,
            },
    {
        let mut pending: Vec<Option<AppStateUpdates>> = Vec::new();
        match parent {
            None => {},
            Some(p) => {
                let chain = match self.uncommitted_chain(p) {
                    Ok(c) => c,
                    Err(e) => {
                        return Err(e);
                    },
                };
                let ghost c = chain@.map_values(|h: CryptoHash| h@);
                let mut i: usize = chain.len();
                while i > 0
                    invariant
                        self.wf(),
                        i <= chain@.len(),
                        c == chain@.map_values(|h: CryptoHash| h@),
                        pending@.len() == chain@.len() - i,
                        forall|j: int| 0 <= j < pending@.len() ==> same_updates(#[trigger] pending@[j], pending_of(self, c)[j]),
                    decreases i,
                {
                    i = i - 1;
                    let u = self.pending_app_state_updates(&chain[i]);
                    proof {
                        assert(c[i as int] == chain@[i as int]@);
                    }
                    pending.push(u);
                }
                proof {
                    assert(same_pending(pending@, pending_of(self, c)));
                }
            },
        }
        Ok(AppBlockTreeView { block_tree: self, pending_ancestors_app_state_updates: pending })
    }
}

/// The app's answer to a request to produce a block.
pub struct ProduceBlockResponse {
    pub data_hash: CryptoHash,
    pub data: Vec<Vec<u8>>,
    pub app_state_updates: Option<AppStateUpdates>,
    pub validator_set_updates: Option<ValidatorSetUpdates>,
}

/// The app's answer to a request to validate a block.
pub enum ValidateBlockResponse {
    /// The block is valid; executing it makes these updates.
    Valid { app_state_updates: Option<AppStateUpdates>, validator_set_updates: Option<ValidatorSetUpdates> },
    /// The block is invalid.
    Invalid,
}

/// A request to the app to produce a block for view `cur_view`, as a child of `parent_block`.
pub struct ProduceBlockRequest<'a> {
    cur_view: ViewNumber,
    parent_block: Option<CryptoHash>,
    block_tree: AppBlockTreeView<'a>,
}

impl<'a> ProduceBlockRequest<'a> {
    pub closed spec fn view_spec(&self) -> ViewNumber {
        self.cur_view
    }

    pub closed spec fn parent_spec(&self) -> Option<CryptoHash> {
        self.parent_block
    }

    pub closed spec fn tree_view(&self) -> AppBlockTreeView<'a> {
        self.block_tree
    }

    pub fn new(cur_view: ViewNumber, parent_block: Option<CryptoHash>, block_tree: AppBlockTreeView<'a>) -> (r: Self)
        ensures
            r.view_spec() == cur_view,
            r.parent_spec() == parent_block,
            r.tree_view() == block_tree,
    {
        ProduceBlockRequest { cur_view, parent_block, block_tree }
    }

    pub fn cur_view(&self) -> (v: ViewNumber)
        ensures
            v == self.view_spec(),
    {
        self.cur_view
    }

    pub fn parent_block(&self) -> (p: Option<CryptoHash>)
        ensures
            p == self.parent_spec(),
    {
        self.parent_block
    }

    pub fn block_tree(&self) -> (v: &AppBlockTreeView<'a>)
        ensures
            *v == self.tree_view(),
    {
        &self.block_tree
    }
}

/// A request to the app to validate `proposed_block`.
pub struct ValidateBlockRequest<'a, 'b> {
    proposed_block: &'a Block,
    block_tree: AppBlockTreeView<'b>,
}

impl<'a, 'b> ValidateBlockRequest<'a, 'b> {
    pub closed spec fn block_spec(&self) -> Block {
        *self.proposed_block
    }

    pub closed spec fn tree_view(&self) -> AppBlockTreeView<'b> {
        self.block_tree
    }

    pub fn new(proposed_block: &'a Block, block_tree: AppBlockTreeView<'b>) -> (r: Self)
        ensures
            r.block_spec() == *proposed_block,
            r.tree_view() == block_tree,
    {
        ValidateBlockRequest { proposed_block, block_tree }
    }

    pub fn proposed_block(&self) -> (b: &Block)
        ensures
            *b == self.block_spec(),
    {
        self.proposed_block
    }

    pub fn block_tree(&self) -> (v: &AppBlockTreeView<'b>)
        ensures
            *v == self.tree_view(),
    {
        &self.block_tree
    }
}

} // verus!
