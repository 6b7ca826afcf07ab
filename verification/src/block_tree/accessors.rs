//! Read-only access to the block tree: snapshots, and the chains of blocks that block sync
//! serves.

use vstd::prelude::*;

use crate::block::{Block, BlockView};
use crate::block_tree::{follows_parents, lemma_parent_walk_prefix, BlockTree, BlockTreeError};
use crate::hotstuff::types::QuorumCertificate;
use crate::types::{BlockHeight, CryptoHash, ViewNumber};
use crate::update_sets::{first_value, AppStateUpdates};
use crate::validator_set::{ValidatorSet, ValidatorSetState, ValidatorSetUpdatesStatus};

verus! {

/// Whether `chain` walks down the tree from `start`: its first block is `start`, every block is
/// the tree's block of its hash, and each next block is the parent of the one before.
pub open spec fn is_parent_walk(bt: &BlockTree, start: Seq<u8>, chain: Seq<BlockView>) -> bool {
    &&& chain.len() > 0 ==> chain[0].hash == start
    &&& forall|i: int| 0 <= i < chain.len() ==> bt.has_block(#[trigger] chain[i].hash) && bt.block_of(chain[i].hash) == chain[i]
    &&& forall|i: int| 0 <= i < chain.len() - 1 ==> #[trigger] chain[i + 1].hash == chain[i].justify.block
}

/// Whether a walk from the newest block towards the committed block goes on past `b`: its
/// justify names neither the highest committed block nor is the genesis certificate.
pub open spec fn walk_continues(bt: &BlockTree, b: BlockView) -> bool {
    bt.committed_block() != Some(b.justify.block) && !b.justify.is_genesis()
}

/// The blocks' mathematical values.
pub open spec fn block_views(blocks: Seq<Block>) -> Seq<BlockView> {
    blocks.map_values(|b: Block| b@)
}

/// Whether `chain` is the chain from the newest block down to (not including) the highest
/// committed block or genesis: a parent walk from the newest block that goes on past each block
/// but the last, and stops at the last (or at as many blocks as the tree holds).
pub open spec fn is_speculative_chain(bt: &BlockTree, chain: Seq<BlockView>) -> bool {
    match bt.newest() {
        None => chain.len() == 0,
        Some(n) => {
            &&& chain.len() > 0
            &&& is_parent_walk(bt, n, chain)
            &&& forall|i: int| 0 <= i < chain.len() - 1 ==> walk_continues(bt, #[trigger] chain[i])
            &&& (walk_continues(bt, chain.last()) ==> chain.len() >= bt.size())
        },
    }
}

/// Whether `blocks` are the committed blocks at heights `height`, `height + 1`, and so on.
pub open spec fn is_committed_run(bt: &BlockTree, height: BlockHeight, blocks: Seq<BlockView>) -> bool {
    forall|i: int| 0 <= i < blocks.len() ==> {
        &&& bt.has_block(#[trigger] blocks[i].hash)
        &&& bt.block_of(blocks[i].hash) == blocks[i]
        &&& exists|j: int| 0 <= j < bt.committed_chain_view().len()
            && #[trigger] bt.committed_chain_view()[j] == ((height + i) as BlockHeight, blocks[i].hash)
    }
}

/// Whether the committed chain has a block at `height`.
pub open spec fn has_committed_at(bt: &BlockTree, height: int) -> bool {
    exists|j: int| 0 <= j < bt.committed_chain_view().len() && #[trigger] bt.committed_chain_view()[j].0 == height
}

/// Whether `v` is the answer to a request for the blocks from `height` towards the newest block,
/// at most `limit`: its first `k` blocks are the committed blocks from `height` on, and, unless
/// those alone reached the limit, they are all the committed blocks from `height` on, and the rest
/// are the lowest blocks of `sc`, the chain from the newest block down to the highest committed
/// block (all of them, unless the limit was reached).
pub open spec fn is_height_to_newest(bt: &BlockTree, height: BlockHeight, limit: u32, v: Seq<BlockView>, k: int, sc: Seq<BlockView>) -> bool {
    &&& 0 <= k <= v.len() <= limit
    &&& is_committed_run(bt, height, v.take(k))
    &&& (k < v.len() || v.len() < limit) ==> {
        &&& (!has_committed_at(bt, height + k) || height + k > u64::MAX)
        &&& is_speculative_chain(bt, sc)
        &&& v.skip(k) =~= sc.reverse().take(v.len() - k)
        &&& (v.len() < limit ==> v.len() - k == sc.len())
    }
}

/// Whether `w` is the walk from the newest block `n` down its ancestors that reaches a block
/// missing from `bt` before it stops (at the highest committed block, at genesis, or after as
/// many blocks as `bt` holds).
pub open spec fn is_speculative_walk_to_missing(bt: &BlockTree, n: Seq<u8>, w: Seq<Seq<u8>>) -> bool {
    &&& 0 < w.len() <= bt.size()
    &&& w[0] == n
    &&& !bt.has_block(w.last())
    &&& follows_parents(bt, w)
    &&& forall|k: int| 0 <= k < w.len() - 1 ==> walk_continues(bt, bt.block_of(#[trigger] w[k]))
}

/// Whether the chain from the newest block down to the highest committed block reaches a block
/// missing from `bt`.
pub open spec fn speculative_walk_fails(bt: &BlockTree) -> bool {
    bt.newest() matches Some(n) && exists|w: Seq<Seq<u8>>| #[trigger] is_speculative_walk_to_missing(bt, n, w)
}

/// Whether the committed blocks from `height` on alone make up a full answer of `limit` blocks.
pub open spec fn committed_run_fills(bt: &BlockTree, height: BlockHeight, limit: u32) -> bool {
    forall|i: int| 0 <= i < limit ==> height + i <= u64::MAX && #[trigger] has_committed_at(bt, height + i)
}

/// A parent walk from the newest block that stops at its last block (which does not go on past,
/// or comes after as many blocks as the tree holds) reaches no missing block.
proof fn lemma_speculative_walk_blocked(bt: &BlockTree, n: Seq<u8>, chain: Seq<BlockView>)
    requires
        is_parent_walk(bt, n, chain),
        chain.len() > 0,
        !walk_continues(bt, chain.last()) || chain.len() >= bt.size(),
    ensures
        forall|w: Seq<Seq<u8>>| !#[trigger] is_speculative_walk_to_missing(bt, n, w),
{
    let v = chain.map_values(|b: BlockView| b.hash);
    assert forall|k: int| 0 <= k < v.len() implies bt.has_block(#[trigger] v[k]) by {
        assert(v[k] == chain[k].hash);
    }
    assert forall|k: int| 0 <= k < v.len() - 1 implies #[trigger] v[k + 1] == bt.block_of(v[k]).justify.block by {
        assert(v[k] == chain[k].hash);
        assert(v[k + 1] == chain[k + 1].hash);
    }
    assert(v[0] == chain[0].hash);
    assert forall|w: Seq<Seq<u8>>| !#[trigger] is_speculative_walk_to_missing(bt, n, w) by {
        if is_speculative_walk_to_missing(bt, n, w) {
            lemma_parent_walk_prefix(bt, w, v);
            let last = v.len() - 1;
            assert(w[last] == v[last]);
            assert(v[last] == chain.last().hash);
            assert(walk_continues(bt, bt.block_of(w[last])));
        }
    }
}

/// Hands out snapshots of a block tree.
pub struct BlockTreeCamera<'a> {
    block_tree: &'a BlockTree,
}

impl<'a> BlockTreeCamera<'a> {
    pub closed spec fn tree(&self) -> BlockTree {
        *self.block_tree
    }

    pub fn new(block_tree: &'a BlockTree) -> (c: BlockTreeCamera<'a>)
        ensures
            c.tree() == *block_tree,
    {
        BlockTreeCamera { block_tree }
    }

    pub fn snapshot(&self) -> (s: BlockTreeSnapshot<'a>)
        ensures
            s.tree() == self.tree(),
    {
        BlockTreeSnapshot { block_tree: self.block_tree }
    }
}

/// A read-only view of a block tree that stays unchanged while it is held.
pub struct BlockTreeSnapshot<'a> {
    block_tree: &'a BlockTree,
}

impl<'a> BlockTreeSnapshot<'a> {
    pub closed spec fn tree(&self) -> BlockTree {
        *self.block_tree
    }

    pub fn new(block_tree: &'a BlockTree) -> (s: BlockTreeSnapshot<'a>)
        ensures
            s.tree() == *block_tree,
    {
        BlockTreeSnapshot { block_tree }
    }

    /// The chain from the newest block down to, not including, the highest committed block or
    /// genesis, highest first. An error names a block on the way that is not in the tree.
    pub fn blocks_from_newest_to_committed(&self) -> (r: Result<Vec<Block>, BlockTreeError>)
        requires
            self.tree().wf(),
        ensures
            match r {
                Ok(chain) => is_speculative_chain(&self.tree(), block_views(chain@)),
                Err(BlockTreeError::BlockExpectedButNotFound { block }) => !self.tree().has_block(block@),
            },
            r is Err <==> speculative_walk_fails(&self.tree()),
    {
        let bt = self.block_tree;
        let mut res: Vec<Block> = Vec::new();
        let newest = match bt.newest_block() {
            Some(n) => n,
            None => {
                assert(block_views(res@) =~= Seq::<BlockView>::empty());
                return Ok(res);
            },
        };
        let mut cursor = newest;
        let fuel = bt.num_blocks();
        loop
            invariant_except_break
                res@.len() < fuel || res@.len() == 0,
                res@.len() == 0 ==> cursor == newest,
                res@.len() > 0 ==> cursor@ == res@.last()@.justify.block,
                res@.len() > 0 ==> walk_continues(bt, res@.last()@),
            invariant
                bt.wf(),
                *bt == self.tree(),
                fuel == bt.size(),
                bt.newest() == Some(newest@),
                is_parent_walk(bt, newest@, block_views(res@)),
                forall|i: int| 0 <= i < res@.len() - 1 ==> walk_continues(bt, #[trigger] block_views(res@)[i]),
            ensures
                res@.len() > 0,
                walk_continues(bt, res@.last()@) ==> res@.len() >= bt.size(),
            decreases fuel - res@.len(),
        {
            let block = match bt.block(&cursor) {
                Some(b) => b,
                None => {
                    proof {
                        bt.lemma_newest_in_tree();
                        let chain = block_views(res@);
                        let v = chain.map_values(|b: BlockView| b.hash);
                        let w = v.push(cursor@);
                        assert forall|k: int| 0 <= k < w.len() - 1 implies bt.has_block(#[trigger] w[k])
                            && w[k + 1] == bt.block_of(w[k]).justify.block by {
                            assert(w[k] == chain[k].hash);
                            if k + 1 < v.len() {
                                assert(w[k + 1] == chain[k + 1].hash);
                            }
                        }
                        assert forall|k: int| 0 <= k < w.len() - 1 implies walk_continues(bt, bt.block_of(#[trigger] w[k])) by {
                            assert(w[k] == chain[k].hash);
                        }
                        if v.len() > 0 {
                            assert(w[0] == chain[0].hash);
                        }
                        assert(is_speculative_walk_to_missing(bt, newest@, w));
                    }
                    return Err(BlockTreeError::BlockExpectedButNotFound { block: cursor });
                },
            };
            let justify_block = block.justify.block;
            let stop_committed = match bt.highest_committed_block() {
                Some(c) => crate::types::bytes32_eq(&justify_block, &c),
                None => false,
            };
            let stop_genesis = block.justify.is_genesis_qc();
            let ghost before = block_views(res@);
            res.push(block);
            proof {
                assert(block_views(res@) =~= before.push(res@.last()@));
            }
            if stop_committed || stop_genesis || res.len() >= fuel {
                break;
            }
            cursor = justify_block;
        }
        proof {
            lemma_speculative_walk_blocked(bt, newest@, block_views(res@));
        }
        Ok(res)
    }

    /// The chain of blocks from `height` towards the newest block: the committed blocks at
    /// `height`, `height + 1`, ... as long as there are any, then the speculative blocks, lowest
    /// first; at most `limit` blocks. An error names a block that is not in the tree.
    pub fn blocks_from_height_to_newest(&self, height: BlockHeight, limit: u32) -> (r: Result<Vec<Block>, BlockTreeError>)
        requires
            self.tree().wf(),
        ensures
            match r {
                Ok(blocks) => {
                    &&& blocks@.len() <= limit
                    &&& exists|k: int, sc: Seq<BlockView>|
                        #[trigger] is_height_to_newest(&self.tree(), height, limit, block_views(blocks@), k, sc)
                },
                Err(BlockTreeError::BlockExpectedButNotFound { block }) => !self.tree().has_block(block@),
            },
            r is Err <==> (!committed_run_fills(&self.tree(), height, limit) && speculative_walk_fails(&self.tree())),
    {
        let bt = self.block_tree;
        let mut res: Vec<Block> = Vec::new();
        if limit == 0 {
            proof {
                assert(block_views(res@) =~= Seq::<BlockView>::empty());
                assert(is_height_to_newest(&self.tree(), height, limit, block_views(res@), 0, Seq::<BlockView>::empty()));
            }
            return Ok(res);
        }
        let mut cursor: BlockHeight = height;
        let mut done_committed = false;
        loop
            invariant_except_break
                !done_committed,
                cursor == height + res@.len(),
                limit > 0 ==> res@.len() < limit,
            invariant
                bt.wf(),
                *bt == self.tree(),
                is_committed_run(bt, height, block_views(res@)),
            ensures
                is_committed_run(bt, height, block_views(res@)),
                limit > 0 ==> res@.len() <= limit,
                (limit == 0 || res@.len() < limit) ==> (!has_committed_at(bt, height + res@.len())
                    || height + res@.len() > u64::MAX),
                done_committed ==> (limit > 0 && res@.len() == limit),
                !done_committed ==> (limit == 0 || res@.len() < limit),
                height + res@.len() <= u64::MAX + 1,
            decreases u64::MAX + 1 - cursor,
        {
            let hash = match bt.block_at_height(cursor) {
                Some(h) => h,
                None => {
                    break;
                },
            };
            let block = match bt.block(&hash) {
                Some(b) => b,
                None => {
                    return Err(BlockTreeError::BlockExpectedButNotFound { block: hash });
                },
            };
            let ghost before = block_views(res@);
            res.push(block);
            proof {
                assert(block_views(res@) =~= before.push(res@.last()@));
                assert forall|i: int| 0 <= i < block_views(res@).len() implies {
                    &&& bt.has_block(#[trigger] block_views(res@)[i].hash)
                    &&& bt.block_of(block_views(res@)[i].hash) == block_views(res@)[i]
                    &&& exists|j: int| 0 <= j < bt.committed_chain_view().len()
                        && #[trigger] bt.committed_chain_view()[j] == ((height + i) as BlockHeight, block_views(res@)[i].hash)
                } by {
                    if i < before.len() {
                        assert(block_views(res@)[i] == before[i]);
                    } else {
                        let j = choose|j: int| 0 <= j < bt.committed_chain_view().len()
                            && #[trigger] bt.committed_chain_view()[j] == (cursor, hash@);
                        assert(bt.committed_chain_view()[j] == ((height + i) as BlockHeight, block_views(res@)[i].hash));
                    }
                }
            }
            if limit > 0 && res.len() == limit as usize {
                done_committed = true;
                break;
            }
            if cursor == u64::MAX {
                break;
            }
            cursor = cursor + 1;
        }
        let k = res.len();
        let ghost committed_part = block_views(res@);
        if done_committed {
            proof {
                assert(block_views(res@).take(k as int) =~= committed_part);
                assert(is_height_to_newest(&self.tree(), height, limit, block_views(res@), k as int, Seq::<BlockView>::empty()));
                assert forall|i: int| 0 <= i < limit implies height + i <= u64::MAX && #[trigger] has_committed_at(bt, height + i) by {
                    let v = block_views(res@);
                    assert(bt.has_block(v[i].hash));
                    let j = choose|j: int| 0 <= j < bt.committed_chain_view().len()
                        && #[trigger] bt.committed_chain_view()[j] == ((height + i) as BlockHeight, v[i].hash);
                    assert(bt.committed_chain_view()[j].0 == height + i);
                }
                assert(committed_run_fills(&self.tree(), height, limit));
            }
            return Ok(res);
        }
        proof {
            if limit > 0 {
                assert(!(height + k <= u64::MAX && has_committed_at(bt, height + k)));
            }
            assert(!committed_run_fills(&self.tree(), height, limit));
        }
        let speculative = match self.blocks_from_newest_to_committed() {
            Ok(c) => c,
            Err(e) => {
                return Err(e);
            },
        };
        let ghost sc = block_views(speculative@);
        assert(!has_committed_at(bt, height + k) || height + k > u64::MAX);
        let mut i: usize = speculative.len();
        while i > 0
            invariant_except_break
                limit > 0 ==> res@.len() < limit,
            invariant
                *bt == self.tree(),
                i <= speculative@.len(),
                sc == block_views(speculative@),
                is_speculative_chain(bt, sc),
                res@.len() >= k,
                k <= res@.len(),
                block_views(res@).take(k as int) == committed_part,
                block_views(res@).skip(k as int) == sc.reverse().take(res@.len() - k),
                res@.len() - k == speculative@.len() - i,
            ensures
                i == 0 || (limit > 0 && res@.len() == limit),
                limit > 0 ==> res@.len() <= limit,
            decreases i,
        {
            i = i - 1;
            let ghost before = block_views(res@);
            res.push(speculative[i].clone());
            proof {
                assert(block_views(res@) =~= before.push(speculative@[i as int]@));
                assert(block_views(res@).take(k as int) =~= before.take(k as int));
                assert(sc.reverse()[res@.len() - 1 - k] == sc[i as int]);
                assert(block_views(res@).skip(k as int) =~= sc.reverse().take(res@.len() - k));
            }
            if limit > 0 && res.len() == limit as usize {
                break;
            }
        }
        proof {
            assert(is_height_to_newest(&self.tree(), height, limit, block_views(res@), k as int, sc));
            assert(exists|kk: int, s2: Seq<BlockView>| #[trigger] is_height_to_newest(&self.tree(), height, limit, block_views(res@), kk, s2));
            assert(limit > 0 ==> res@.len() <= limit);
        }
        let out: Result<Vec<Block>, BlockTreeError> = Ok(res);
        assert(out matches Ok(blocks) && (limit > 0 ==> blocks@.len() <= limit)
            && exists|kk: int, s2: Seq<BlockView>| #[trigger] is_height_to_newest(&self.tree(), height, limit, block_views(blocks@), kk, s2));
        out
    }

    /// The height of the highest committed block, if any block is committed.
    pub fn highest_committed_block_height(&self) -> (h: Option<BlockHeight>)
        requires
            self.tree().wf(),
        ensures
            h == self.tree().committed_height(),
    {
        self.block_tree.highest_committed_block_height()
    }

    pub fn block(&self, block: &CryptoHash) -> (b: Option<Block>)
        requires
            self.tree().wf(),
        ensures
            match b {
                Some(b) => self.tree().has_block(block@) && b@ == self.tree().block_of(block@),
                None => !self.tree().has_block(block@),
            },
    {
        self.block_tree.block(block)
    }

    pub fn highest_pc(&self) -> (qc: QuorumCertificate)
        ensures
            qc@ == self.tree().highest(),
    {
        self.block_tree.highest_pc()
    }

    pub fn locked_pc(&self) -> (qc: QuorumCertificate)
        ensures
            qc@ == self.tree().locked(),
    {
        self.block_tree.locked_pc()
    }

    pub fn highest_committed_block(&self) -> (h: Option<CryptoHash>)
        ensures
            match h {
                Some(h) => self.tree().committed_block() == Some(h@),
                None => self.tree().committed_block() is None,
            },
    {
        self.block_tree.highest_committed_block()
    }

    pub fn newest_block(&self) -> (h: Option<CryptoHash>)
        ensures
            match h {
                Some(h) => self.tree().newest() == Some(h@),
                None => self.tree().newest() is None,
            },
    {
        self.block_tree.newest_block()
    }
}


/// A block that a read expected in the tree is not there.
pub struct BlockNotFoundError;

/// The children of a block are not committed yet.
pub struct ChildrenNotYetCommittedError;

impl<'a> BlockTreeSnapshot<'a> {
    /// Item `index` of the data of `block`: an error when the block is not in the tree, none when
    /// it has no such item.
    pub fn get_block_datum_by_hash(&self, block: &CryptoHash, index: u32) -> (r: Result<Option<Vec<u8>>, BlockNotFoundError>)
        requires
            self.tree().wf(),
        ensures
            match r {
                Err(_) => !self.tree().has_block(block@),
                Ok(None) => self.tree().has_block(block@) && index >= self.tree().block_of(block@).data.len(),
                Ok(Some(d)) => self.tree().has_block(block@) && index < self.tree().block_of(block@).data.len()
                    && d@ == self.tree().block_of(block@).data[index as int],
            },
    {
        if !self.block_tree.contains(block) {
            return Err(BlockNotFoundError);
        }
        Ok(self.block_tree.block_datum(block, index))
    }

    /// The committed child of the committed block `parent`: the committed block one above it. An
    /// error when `parent` is not below the highest committed block (none of its children is
    /// committed yet); none when no block one above it was committed.
    pub fn get_committed_block_child(&self, parent: &CryptoHash) -> (r: Result<Option<Block>, ChildrenNotYetCommittedError>)
        requires
            self.tree().wf(),
        ensures
            match r {
                Err(_) => !(self.tree().has_block(parent@) && (self.tree().committed_height() matches Some(c)
                    && self.tree().block_of(parent@).height < c)),
                Ok(Some(b)) => self.tree().has_block(parent@) && (self.tree().committed_height() matches Some(c)
                    && self.tree().block_of(parent@).height < c
                    && self.tree().has_block(b@.hash) && b@ == self.tree().block_of(b@.hash)
                    && exists|j: int| 0 <= j < self.tree().committed_chain_view().len()
                        && #[trigger] self.tree().committed_chain_view()[j]
                            == ((self.tree().block_of(parent@).height + 1) as BlockHeight, b@.hash)),
                Ok(None) => self.tree().has_block(parent@) && (self.tree().committed_height() matches Some(c)
                    && self.tree().block_of(parent@).height < c
                    && forall|j: int| 0 <= j < self.tree().committed_chain_view().len()
                        ==> #[trigger] self.tree().committed_chain_view()[j].0 != self.tree().block_of(parent@).height + 1),
            },
    {
        let committed = match self.block_tree.highest_committed_block_height() {
            Some(c) => c,
            None => {
                return Err(ChildrenNotYetCommittedError);
            },
        };
        let height = match self.block_tree.block_height(parent) {
            Some(h) => h,
            None => {
                return Err(ChildrenNotYetCommittedError);
            },
        };
        if height >= committed {
            return Err(ChildrenNotYetCommittedError);
        }
        match self.block_tree.block_at_height(height + 1) {
            Some(child) => Ok(self.block_tree.block(&child)),
            None => Ok(None),
        }
    }
}

impl<'a> BlockTreeSnapshot<'a> {
    pub fn contains(&self, block: &CryptoHash) -> (b: bool)
        requires
            self.tree().wf(),
        ensures
            b == self.tree().has_block(block@),
    {
        self.block_tree.contains(block)
    }

    pub fn block_height(&self, block: &CryptoHash) -> (h: Option<BlockHeight>)
        requires
            self.tree().wf(),
        ensures
            match h {
                Some(h) => self.tree().has_block(block@) && h == self.tree().block_of(block@).height,
                None => !self.tree().has_block(block@),
            },
    {
        self.block_tree.block_height(block)
    }

    /// The justify of `block`; an error if the block is not in the tree.
    pub fn block_justify(&self, block: &CryptoHash) -> (r: Result<QuorumCertificate, BlockTreeError>)
        requires
            self.tree().wf(),
        ensures
            match r {
                Ok(qc) => self.tree().has_block(block@) && qc@ == self.tree().block_of(block@).justify,
                Err(BlockTreeError::BlockExpectedButNotFound { block: b }) => !self.tree().has_block(block@) && b@ == block@,
            },
    {
        self.block_tree.block_justify(block)
    }

    pub fn block_data_hash(&self, block: &CryptoHash) -> (d: Option<CryptoHash>)
        requires
            self.tree().wf(),
        ensures
            match d {
                Some(d) => self.tree().has_block(block@) && d@ == self.tree().block_of(block@).data_hash,
                None => !self.tree().has_block(block@),
            },
    {
        self.block_tree.block_data_hash(block)
    }

    /// The number of data items of `block`, if it is in the tree and that number fits in a `u32`.
    pub fn block_data_len(&self, block: &CryptoHash) -> (n: Option<u32>)
        requires
            self.tree().wf(),
        ensures
            match n {
                Some(n) => self.tree().has_block(block@) && n == self.tree().block_of(block@).data.len(),
                None => !self.tree().has_block(block@) || self.tree().block_of(block@).data.len() > u32::MAX,
            },
    {
        self.block_tree.block_data_len(block)
    }

    pub fn block_data(&self, block: &CryptoHash) -> (d: Option<Vec<Vec<u8>>>)
        requires
            self.tree().wf(),
        ensures
            match d {
                Some(d) => self.tree().has_block(block@) && d@.map_values(|x: Vec<u8>| x@) == self.tree().block_of(block@).data,
                None => !self.tree().has_block(block@),
            },
    {
        self.block_tree.block_data(block)
    }

    /// Item `datum_index` of the data of `block`, if the block is in the tree and has that item.
    pub fn block_datum(&self, block: &CryptoHash, datum_index: u32) -> (d: Option<Vec<u8>>)
        requires
            self.tree().wf(),
        ensures
            match d {
                Some(d) => self.tree().has_block(block@) && datum_index < self.tree().block_of(block@).data.len()
                    && d@ == self.tree().block_of(block@).data[datum_index as int],
                None => !self.tree().has_block(block@) || datum_index >= self.tree().block_of(block@).data.len(),
            },
    {
        self.block_tree.block_datum(block, datum_index)
    }

    /// The committed block at `height`, if there is one.
    pub fn block_at_height(&self, height: BlockHeight) -> (h: Option<CryptoHash>)
        ensures
            match h {
                Some(h) => exists|i: int| 0 <= i < self.tree().committed_chain_view().len()
                    && #[trigger] self.tree().committed_chain_view()[i] == (height, h@),
                None => forall|i: int| 0 <= i < self.tree().committed_chain_view().len()
                    ==> #[trigger] self.tree().committed_chain_view()[i].0 != height,
            },
    {
        self.block_tree.block_at_height(height)
    }

    /// The children of `block` in the tree (empty if it has none or is not in the tree).
    pub fn children(&self, block: &CryptoHash) -> (c: Vec<CryptoHash>)
        requires
            self.tree().wf(),
        ensures
            c@.map_values(|x: CryptoHash| x@) == self.tree().children_of(block@),
    {
        self.block_tree.children(block)
    }

    /// The value of `key` in the committed app state.
    pub fn committed_app_state(&self, key: &[u8]) -> (v: Option<Vec<u8>>)
        ensures
            match v {
                Some(v) => first_value(self.tree().app_state_view(), key@) == Some(v@),
                None => first_value(self.tree().app_state_view(), key@) is None,
            },
    {
        self.block_tree.committed_app_state(key)
    }

    /// The app state updates of `block`, if it is in the tree, uncommitted, and makes any.
    pub fn pending_app_state_updates(&self, block: &CryptoHash) -> (u: Option<AppStateUpdates>)
        requires
            self.tree().wf(),
        ensures
            (u is Some) == (self.tree().pending_app_updates(block@) is Some),
            u matches Some(u) ==> u.insert_pairs() == self.tree().pending_app_updates(block@)->0.insert_pairs()
                && u.delete_keys() == self.tree().pending_app_updates(block@)->0.delete_keys(),
    {
        self.block_tree.pending_app_state_updates(block)
    }

    pub fn committed_validator_set(&self) -> (vs: ValidatorSet)
        requires
            self.tree().wf(),
        ensures
            vs.keys() == self.tree().vs_state().committed().keys(),
            vs.power_seq() == self.tree().vs_state().committed().power_seq(),
            vs.wf(),
    {
        self.block_tree.committed_validator_set().clone()
    }

    pub fn previous_validator_set(&self) -> (vs: ValidatorSet)
        requires
            self.tree().wf(),
        ensures
            vs.keys() == self.tree().vs_state().previous().keys(),
            vs.power_seq() == self.tree().vs_state().previous().power_seq(),
            vs.wf(),
    {
        self.block_tree.previous_validator_set().clone()
    }

    /// What the tree records of `block`'s validator set updates (`NoUpdates` for a block that is
    /// not in the tree).
    pub fn validator_set_updates_status(&self, block: &CryptoHash) -> (s: ValidatorSetUpdatesStatus)
        requires
            self.tree().wf(),
        ensures
            !(s is NoUpdates) == self.tree().has_updates(block@),
            (s is Committed) == self.tree().updates_committed(block@),
            (s is Pending) == (self.tree().pending_vs(block@) is Some),
            s matches ValidatorSetUpdatesStatus::Pending(u) ==> u.inserts@ == self.tree().pending_vs(block@)->0.inserts@
                && u.deletes@ == self.tree().pending_vs(block@)->0.deletes@,
    {
        self.block_tree.validator_set_updates_status(block)
    }

    pub fn validator_set_state(&self) -> (s: ValidatorSetState)
        requires
            self.tree().wf(),
        ensures
            s.committed().keys() == self.tree().vs_state().committed().keys(),
            s.committed().power_seq() == self.tree().vs_state().committed().power_seq(),
            s.previous().keys() == self.tree().vs_state().previous().keys(),
            s.previous().power_seq() == self.tree().vs_state().previous().power_seq(),
            s.height_of_update() == self.tree().vs_state().height_of_update(),
            s.decided() == self.tree().vs_state().decided(),
            s.wf(),
    {
        self.block_tree.validator_set_state().clone()
    }

    /// The height of the block whose validator set updates were committed last, if any were.
    pub fn validator_set_update_block_height(&self) -> (h: Option<BlockHeight>)
        ensures
            h == self.tree().vs_state().height_of_update(),
    {
        self.block_tree.validator_set_update_block_height()
    }

    /// Whether the validator set updates committed last have been decided.
    pub fn validator_set_update_complete(&self) -> (b: bool)
        ensures
            b == self.tree().vs_state().decided(),
    {
        self.block_tree.validator_set_update_complete()
    }

    pub fn highest_view_entered(&self) -> (v: ViewNumber)
        ensures
            v == self.tree().view_entered(),
    {
        self.block_tree.highest_view_entered()
    }

    /// The highest view in which this replica sent a phase vote, if it ever did.
    pub fn highest_view_voted(&self) -> (v: Option<ViewNumber>)
        ensures
            v == self.tree().view_voted(),
    {
        self.block_tree.highest_view_phase_voted()
    }
}

} // verus!
