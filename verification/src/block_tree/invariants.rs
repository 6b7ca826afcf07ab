//! Rules and predicates that keep the block tree's invariants.
//!
//! The "whether" rules (`safe_pc`, `safe_block`, `safe_nudge`, `repropose_block`) decide whether a
//! certificate, block or nudge may cause updates to the block tree; the "what" rules (`pc_to_lock`,
//! `block_to_commit`) decide which updates a certificate should cause.

use vstd::prelude::*;

use super::{BlockTree, BlockTreeError};
use crate::block::Block;
use crate::hotstuff::messages::Nudge;
use crate::hotstuff::types::{Phase, QcView, QuorumCertificate};
use crate::types::{bytes32_eq, ChainID, CryptoHash, ViewNumber};

verus! {

/// The outcome of a rule that reads blocks from the tree: either a block that it needed was not
/// there, or the rule decided on a value.
pub enum Decision<T> {
    Missing(Seq<u8>),
    Decided(T),
}

/// `block` is the locked certificate's block, or that block's child, or its grandchild: whether
/// `block` extends the locked block, looking no deeper than the grandparent.
pub open spec fn extends_locked(bt: &BlockTree, block: Seq<u8>) -> bool {
    let locked = bt.locked().block;
    ||| block == locked
    ||| (bt.parent_of(block) matches Some(p) && (p == locked || (bt.parent_of(p) matches Some(g) && g == locked)))
}

/// The four conditions under which a certificate may cause updates to the block tree.
pub open spec fn safe_pc_spec(bt: &BlockTree, pc: QcView, chain_id: ChainID) -> bool {
    &&& (pc.chain_id == chain_id || pc.is_genesis())
    &&& (bt.has_block(pc.block) || pc.is_genesis())
    &&& (pc.view > bt.locked().view || extends_locked(bt, pc.block))
    &&& ((pc.phase != Phase::Generic && bt.has_updates(pc.block)) || (pc.phase == Phase::Generic && !bt.has_updates(pc.block)))
}

pub open spec fn safe_block_spec(bt: &BlockTree, justify: QcView, chain_id: ChainID) -> bool {
    safe_pc_spec(bt, justify, chain_id) && justify.block_justify()
}

pub open spec fn safe_nudge_spec(
    bt: &BlockTree,
    justify: QcView,
    nudge_chain_id: ChainID,
    current_view: ViewNumber,
    chain_id: ChainID,
) -> bool {
    &&& safe_pc_spec(bt, justify, chain_id)
    &&& justify.nudge_justify()
    &&& nudge_chain_id == chain_id
    &&& (justify.phase == Phase::Commit || justify.view + 1 == current_view)
}

/// The certificate that seeing `justify` would lock on, before the check against the current lock.
pub open spec fn lock_candidate(bt: &BlockTree, justify: QcView) -> Option<QcView> {
    match justify.phase {
        Phase::Generic => Some(bt.block_of(justify.block).justify),
        Phase::Prepare => None,
        Phase::Precommit => Some(justify),
        Phase::Commit | Phase::Decide => if bt.locked().block != justify.block {
            Some(justify)
        } else {
            None
        },
    }
}

/// The certificate (if any) that becomes the locked certificate after the replica sees `justify`.
///
/// | `justify` is | lock on (unless it already is the locked certificate) |
/// |---|---|
/// | the genesis certificate | nothing |
/// | `Generic` | `justify.block.justify` |
/// | `Prepare` | nothing |
/// | `Precommit` | `justify` |
/// | `Commit` or `Decide` | `justify`, if its block is not the locked block |
pub open spec fn pc_to_lock_spec(bt: &BlockTree, justify: QcView) -> Decision<Option<QcView>> {
    if justify.is_genesis() {
        Decision::Decided(None)
    } else if justify.phase == Phase::Generic && !bt.has_block(justify.block) {
        Decision::Missing(justify.block)
    } else {
        match lock_candidate(bt, justify) {
            Some(c) => if c != bt.locked() {
                Decision::Decided(Some(c))
            } else {
                Decision::Decided(None)
            },
            None => Decision::Decided(None),
        }
    }
}

/// Whether a block at `height` is above the highest committed block.
pub open spec fn not_committed_yet(bt: &BlockTree, height: int) -> bool {
    match bt.committed_height() {
        Some(h) => height > h,
        None => true,
    }
}

/// The block (if any) that, with its uncommitted ancestors, should be committed after the replica
/// sees `justify`.
///
/// For a `Generic` certificate this is the great-grandparent of the new block, when the three
/// certificates of the chain have consecutive views (the commit rule); for a `Commit` or `Decide`
/// certificate it is `justify.block`; for `Prepare` and `Precommit` certificates there is none. A
/// block that is already committed is never returned.
pub open spec fn block_to_commit_spec(bt: &BlockTree, justify: QcView) -> Decision<Option<Seq<u8>>> {
    if justify.is_genesis() {
        Decision::Decided(None)
    } else {
        match justify.phase {
            Phase::Generic => if !bt.has_block(justify.block) {
                Decision::Missing(justify.block)
            } else {
                let pj = bt.block_of(justify.block).justify;
                if pj.is_genesis() {
                    Decision::Decided(None)
                } else if !bt.has_block(pj.block) {
                    Decision::Missing(pj.block)
                } else {
                    let gj = bt.block_of(pj.block).justify;
                    if gj.is_genesis() {
                        Decision::Decided(None)
                    } else if !bt.has_block(gj.block) {
                        Decision::Missing(gj.block)
                    } else if justify.view == pj.view + 1 && pj.view == gj.view + 1
                        && not_committed_yet(bt, bt.block_of(gj.block).height as int) {
                        Decision::Decided(Some(gj.block))
                    } else {
                        Decision::Decided(None)
                    }
                }
            },
            Phase::Prepare | Phase::Precommit => Decision::Decided(None),
            Phase::Commit | Phase::Decide => if !bt.has_block(justify.block) {
                Decision::Missing(justify.block)
            } else if not_committed_yet(bt, bt.block_of(justify.block).height as int) {
                Decision::Decided(Some(justify.block))
            } else {
                Decision::Decided(None)
            },
        }
    }
}

pub open spec fn opt_qc_view(o: Option<QuorumCertificate>) -> Option<QcView> {
    match o {
        Some(q) => Some(q@),
        None => None,
    }
}

pub open spec fn opt_hash_view(o: Option<CryptoHash>) -> Option<Seq<u8>> {
    match o {
        Some(h) => Some(h@),
        None => None,
    }
}

/// Whether `pc.block` extends the locked block (see [`extends_locked`]).
pub fn extends_locked_pc_block(pc: &QuorumCertificate, block_tree: &BlockTree) -> (b: bool)
    requires
        block_tree.wf(),
    ensures
        b == extends_locked(block_tree, pc@.block),
{
    let locked_pc = block_tree.locked_pc();
    let block = pc.block;
    if bytes32_eq(&block, &locked_pc.block) {
        return true;
    }
    match block_tree.block_justify(&block) {
        Ok(parent_justify) => {
            let parent = parent_justify.block;
            if bytes32_eq(&parent, &locked_pc.block) {
                return true;
            }
            match block_tree.block_justify(&parent) {
                Ok(grandparent_justify) => bytes32_eq(&grandparent_justify.block, &locked_pc.block),
                Err(_) => false,
            }
        },
        Err(_) => false,
    }
}

/// Whether `block` is the locked block, or a block of `bt` whose parent is the locked block, or a
/// block of `bt` whose parent is a block of `bt` whose parent is the locked block.
pub open spec fn within_two_of_locked(bt: &BlockTree, block: Seq<u8>) -> bool {
    ||| block == bt.locked().block
    ||| bt.has_block(block) && bt.block_of(block).justify.block == bt.locked().block
    ||| bt.has_block(block) && bt.has_block(bt.block_of(block).justify.block)
        && bt.block_of(bt.block_of(block).justify.block).justify.block == bt.locked().block
}

/// Whether `b` is the great-grandparent that the `Generic` certificate `justify` commits in `bt`
/// under the three-chain rule: `justify` certifies a block of `bt` whose justify `pj` certifies a
/// block of `bt` whose justify `gj` certifies `b`; the three views are consecutive
/// (`gj.view + 1 == pj.view` and `pj.view + 1 == justify.view`); and `b` is in `bt` above the
/// highest committed height.
pub open spec fn generic_three_chain(bt: &BlockTree, justify: QcView, b: Seq<u8>) -> bool {
    &&& bt.has_block(justify.block)
    &&& bt.has_block(bt.block_of(justify.block).justify.block)
    &&& b == bt.block_of(bt.block_of(justify.block).justify.block).justify.block
    &&& bt.has_block(b)
    &&& !bt.block_of(justify.block).justify.is_genesis()
    &&& !bt.block_of(bt.block_of(justify.block).justify.block).justify.is_genesis()
    &&& justify.view == bt.block_of(justify.block).justify.view + 1
    &&& bt.block_of(justify.block).justify.view == bt.block_of(bt.block_of(justify.block).justify.block).justify.view + 1
    &&& match bt.committed_height() {
        Some(h) => bt.block_of(b).height > h,
        None => true,
    }
}

/// The commit rule. A `Generic` certificate commits a block only when it ends a three-chain of
/// consecutive views, and then the block is the great-grandparent of the certified block; when all
/// three blocks are in the tree, the certificates are not genesis, and the views of the parent's
/// and grandparent's certificates are not consecutive, it commits nothing. A `Commit` or `Decide`
/// certificate commits only its own block, and a `Prepare` or `Precommit` one commits nothing.
pub proof fn lemma_commit_rule(bt: &BlockTree, justify: QcView)
    ensures
        block_to_commit_spec(bt, justify) matches Decision::Decided(Some(b))
            ==> (justify.phase == Phase::Generic ==> generic_three_chain(bt, justify, b)),
        block_to_commit_spec(bt, justify) matches Decision::Decided(Some(b))
            ==> (justify.phase != Phase::Generic ==> b == justify.block
                && (justify.phase == Phase::Commit || justify.phase == Phase::Decide)),
        ({
            let pj = bt.block_of(justify.block).justify;
            let gj = bt.block_of(pj.block).justify;
            justify.phase == Phase::Generic && !justify.is_genesis() && bt.has_block(justify.block)
                && !pj.is_genesis() && bt.has_block(pj.block) && !gj.is_genesis() && bt.has_block(gj.block)
                && (pj.view != gj.view + 1 || justify.view != pj.view + 1)
                ==> block_to_commit_spec(bt, justify) == Decision::<Option<Seq<u8>>>::Decided(None)
        }),
        ({
            let pj = bt.block_of(justify.block).justify;
            let gj = bt.block_of(pj.block).justify;
            justify.phase == Phase::Generic && !justify.is_genesis() && bt.has_block(justify.block)
                && !pj.is_genesis() && bt.has_block(pj.block) && !gj.is_genesis() && bt.has_block(gj.block)
                && justify.view == pj.view + 1 && pj.view == gj.view + 1
                && (bt.committed_height() matches Some(h) ==> bt.block_of(gj.block).height > h)
                ==> block_to_commit_spec(bt, justify) == Decision::Decided(Some(gj.block))
        }),
        justify.is_genesis() ==> block_to_commit_spec(bt, justify) == Decision::<Option<Seq<u8>>>::Decided(None),
        block_to_commit_spec(bt, justify) matches Decision::Missing(m) ==> !bt.has_block(m),
        !justify.is_genesis() && (justify.phase == Phase::Prepare || justify.phase == Phase::Precommit)
            ==> block_to_commit_spec(bt, justify) == Decision::<Option<Seq<u8>>>::Decided(None),
        !justify.is_genesis() && (justify.phase == Phase::Commit || justify.phase == Phase::Decide) && bt.has_block(justify.block)
            ==> block_to_commit_spec(bt, justify) == if (bt.committed_height() matches Some(h) ==> bt.block_of(justify.block).height > h) {
                Decision::Decided(Some(justify.block))
            } else {
                Decision::<Option<Seq<u8>>>::Decided(None)
            },
{
}

/// The locking rule. Seeing `justify` locks on a certificate other than the current lock: on the
/// justify of the certified block for a `Generic` certificate, on `justify` itself for a
/// `Precommit` certificate, and for a `Commit` or `Decide` certificate whose block is not the
/// locked block; never on a `Prepare` or the genesis certificate. Only a `Generic` certificate
/// for a block missing from the tree leaves the rule undecided.
pub proof fn lemma_lock_rule(bt: &BlockTree, justify: QcView)
    ensures
        justify.is_genesis() || justify.phase == Phase::Prepare
            ==> pc_to_lock_spec(bt, justify) == Decision::<Option<QcView>>::Decided(None),
        pc_to_lock_spec(bt, justify) matches Decision::Missing(m)
            ==> m == justify.block && !bt.has_block(m) && justify.phase == Phase::Generic,
        pc_to_lock_spec(bt, justify) matches Decision::Decided(Some(c)) ==> {
            &&& c != bt.locked()
            &&& !justify.is_genesis()
            &&& justify.phase == Phase::Generic ==> c == bt.block_of(justify.block).justify
            &&& justify.phase != Phase::Generic ==> c == justify
            &&& justify.phase != Phase::Prepare
            &&& (justify.phase == Phase::Commit || justify.phase == Phase::Decide) ==> justify.block != bt.locked().block
        },
        !justify.is_genesis() && justify.phase == Phase::Generic && bt.has_block(justify.block)
            && bt.block_of(justify.block).justify != bt.locked()
            ==> pc_to_lock_spec(bt, justify) == Decision::Decided(Some(bt.block_of(justify.block).justify)),
        !justify.is_genesis() && justify.phase == Phase::Precommit && justify != bt.locked()
            ==> pc_to_lock_spec(bt, justify) == Decision::Decided(Some(justify)),
        !justify.is_genesis() && (justify.phase == Phase::Commit || justify.phase == Phase::Decide)
            && justify.block != bt.locked().block
            ==> pc_to_lock_spec(bt, justify) == Decision::Decided(Some(justify)),
        !justify.is_genesis() && (justify.phase == Phase::Commit || justify.phase == Phase::Decide)
            && justify.block == bt.locked().block
            ==> pc_to_lock_spec(bt, justify) == Decision::<Option<QcView>>::Decided(None),
{
}

/// A certificate whose view is not above the locked certificate's view is safe only when its
/// block is the locked block, that block's child or its grandchild: a stale certificate for a
/// conflicting block is never safe.
pub proof fn lemma_safe_pc_respects_lock(bt: &BlockTree, pc: QcView, chain_id: ChainID)
    ensures
        safe_pc_spec(bt, pc, chain_id) && pc.view <= bt.locked().view ==> within_two_of_locked(bt, pc.block),
        safe_pc_spec(bt, pc, chain_id) ==> pc.view > bt.locked().view || within_two_of_locked(bt, pc.block),
{
}

/// The safety rules in full. A certificate is safe exactly when it is of the replica's chain, its
/// block is in the tree (both waived for the genesis certificate), its view is above the lock's or
/// its block is within two generations of the locked block, and it is a `Generic` certificate
/// exactly when its block does not update the validator set. A block is safe exactly when its
/// justify is safe and is `Generic` or `Decide`; a nudge exactly when its justify is safe and is
/// `Prepare`, `Precommit` or `Commit`, the nudge is of the replica's chain, and its justify is a
/// `Commit` certificate or of the view just before the current one.
pub proof fn lemma_safety_rules(bt: &BlockTree, pc: QcView, chain_id: ChainID, nudge_chain_id: ChainID, current_view: ViewNumber)
    ensures
        safe_pc_spec(bt, pc, chain_id) == {
            &&& pc.chain_id == chain_id || pc.is_genesis()
            &&& bt.has_block(pc.block) || pc.is_genesis()
            &&& pc.view > bt.locked().view || within_two_of_locked(bt, pc.block)
            &&& (pc.phase == Phase::Generic) == !bt.has_updates(pc.block)
        },
        safe_block_spec(bt, pc, chain_id) == (safe_pc_spec(bt, pc, chain_id)
            && (pc.phase == Phase::Generic || pc.phase == Phase::Decide)),
        safe_nudge_spec(bt, pc, nudge_chain_id, current_view, chain_id) == {
            &&& safe_pc_spec(bt, pc, chain_id)
            &&& pc.phase == Phase::Prepare || pc.phase == Phase::Precommit || pc.phase == Phase::Commit
            &&& nudge_chain_id == chain_id
            &&& pc.phase == Phase::Commit || pc.view + 1 == current_view
        },
{
}

/// Whether `pc` can safely cause updates to `block_tree`, given the replica's `chain_id`:
/// 1. `pc.chain_id` is `chain_id`, or `pc` is the genesis certificate;
/// 2. the tree contains `pc.block`, or `pc` is the genesis certificate;
/// 3. `pc.view` is greater than the locked certificate's view, or `pc.block` extends the locked
///    block;
/// 4. `pc.block` updates the validator set exactly when `pc.phase` is not `Generic`.
pub fn safe_pc(pc: &QuorumCertificate, block_tree: &BlockTree, chain_id: ChainID) -> (b: bool)
    requires
        block_tree.wf(),
    ensures
        b == safe_pc_spec(block_tree, pc@, chain_id),
        b ==> pc@.view > block_tree.locked().view || within_two_of_locked(block_tree, pc@.block),
{
    proof {
        lemma_safe_pc_respects_lock(block_tree, pc@, chain_id);
    }
    let is_genesis = pc.is_genesis_qc();
    (pc.chain_id == chain_id || is_genesis)
        && (block_tree.contains(&pc.block) || is_genesis)
        && (pc.view > block_tree.locked_pc().view || extends_locked_pc_block(pc, block_tree))
        && (((pc.phase.is_prepare() || pc.phase.is_precommit() || pc.phase.is_commit() || pc.phase.is_decide())
            && block_tree.validator_set_updates_status(&pc.block).contains_updates())
            || (pc.phase.is_generic() && !block_tree.validator_set_updates_status(&pc.block).contains_updates()))
}

/// Whether `block` can safely cause updates to `block_tree`: its justify is safe, and is a
/// `Generic` or `Decide` certificate.
pub fn safe_block(block: &Block, block_tree: &BlockTree, chain_id: ChainID) -> (b: bool)
    requires
        block_tree.wf(),
    ensures
        b == safe_block_spec(block_tree, block@.justify, chain_id),
{
    safe_pc(&block.justify, block_tree, chain_id) && block.justify.is_block_justify()
}

/// Whether `nudge` can safely cause updates to `block_tree`, given the replica's `current_view`
/// and `chain_id`: its justify is safe; is a `Prepare`, `Precommit` or `Commit` certificate; the
/// nudge is for `chain_id`; and the justify is a `Commit` certificate or from the view just before
/// `current_view`.
pub fn safe_nudge(nudge: &Nudge, current_view: ViewNumber, block_tree: &BlockTree, chain_id: ChainID) -> (b: bool)
    requires
        block_tree.wf(),
    ensures
        b == safe_nudge_spec(block_tree, nudge.justify@, nudge.chain_id, current_view, chain_id),
{
    safe_pc(&nudge.justify, block_tree, chain_id) && nudge.justify.is_nudge_justify() && (nudge.chain_id == chain_id)
        && (nudge.justify.phase.is_commit() || (current_view > 0 && nudge.justify.view == current_view - 1))
}

/// The certificate (if any) that should become the locked certificate after the replica sees
/// `justify` (see [`pc_to_lock_spec`]).
pub fn pc_to_lock(justify: &QuorumCertificate, block_tree: &BlockTree) -> (r: Result<Option<QuorumCertificate>, BlockTreeError>)
    requires
        block_tree.wf(),
    ensures
        match r {
            Ok(o) => pc_to_lock_spec(block_tree, justify@) == Decision::Decided(opt_qc_view(o)),
            Err(BlockTreeError::BlockExpectedButNotFound { block }) => pc_to_lock_spec(block_tree, justify@)
                == Decision::<Option<QcView>>::Missing(block@),
        },
{
    if justify.is_genesis_qc() {
        return Ok(None);
    }
    let locked_pc = block_tree.locked_pc();
    let pc_to_lock = match justify.phase {
        Phase::Generic => {
            let parent_justify = block_tree.block_justify(&justify.block)?;
            Some(parent_justify)
        },
        Phase::Prepare => None,
        Phase::Precommit => Some(justify.clone()),
        Phase::Commit | Phase::Decide => {
            if !bytes32_eq(&locked_pc.block, &justify.block) {
                Some(justify.clone())
            } else {
                None
            }
        },
    };
    match pc_to_lock {
        Some(pc) => {
            if !pc.same_as(&locked_pc) {
                Ok(Some(pc))
            } else {
                Ok(None)
            }
        },
        None => Ok(None),
    }
}

/// The block (if any) that, with its uncommitted ancestors, should be committed after the replica
/// sees `justify` (see [`block_to_commit_spec`]).
pub fn block_to_commit(justify: &QuorumCertificate, block_tree: &BlockTree) -> (r: Result<Option<CryptoHash>, BlockTreeError>)
    requires
        block_tree.wf(),
    ensures
        match r {
            Ok(o) => block_to_commit_spec(block_tree, justify@) == Decision::Decided(opt_hash_view(o)),
            Err(BlockTreeError::BlockExpectedButNotFound { block }) => block_to_commit_spec(block_tree, justify@)
                == Decision::<Option<Seq<u8>>>::Missing(block@),
        },
        r matches Ok(Some(b)) ==> (justify@.phase == Phase::Generic ==> generic_three_chain(block_tree, justify@, b@)),
        r matches Ok(Some(b)) ==> (justify@.phase != Phase::Generic ==> b@ == justify@.block),
{
    proof {
        lemma_commit_rule(block_tree, justify@);
    }
    if justify.is_genesis_qc() {
        return Ok(None);
    }
    match justify.phase {
        Phase::Generic => {
            let parent_justify = block_tree.block_justify(&justify.block)?;
            if parent_justify.is_genesis_qc() {
                return Ok(None);
            }
            let grandparent_justify = block_tree.block_justify(&parent_justify.block)?;
            if grandparent_justify.is_genesis_qc() {
                return Ok(None);
            }
            let commit_rule_satisfied = parent_justify.view < u64::MAX && justify.view == parent_justify.view + 1
                && grandparent_justify.view < u64::MAX && parent_justify.view == grandparent_justify.view + 1;
            let greatgrandparent_height = match block_tree.block_height(&grandparent_justify.block) {
                Some(h) => h,
                None => {
                    return Err(BlockTreeError::BlockExpectedButNotFound { block: grandparent_justify.block });
                },
            };
            let highest_committed_block_height = block_tree.highest_committed_block_height();
            let not_committed_yet = match highest_committed_block_height {
                Some(h) => greatgrandparent_height > h,
                None => true,
            };
            if commit_rule_satisfied && not_committed_yet {
                Ok(Some(grandparent_justify.block))
            } else {
                Ok(None)
            }
        },
        Phase::Prepare | Phase::Precommit => Ok(None),
        Phase::Commit | Phase::Decide => {
            let parent_height = match block_tree.block_height(&justify.block) {
                Some(h) => h,
                None => {
                    return Err(BlockTreeError::BlockExpectedButNotFound { block: justify.block });
                },
            };
            let highest_committed_block_height = block_tree.highest_committed_block_height();
            let not_committed_yet = match highest_committed_block_height {
                Some(h) => parent_height > h,
                None => true,
            };
            if not_committed_yet {
                Ok(Some(justify.block))
            } else {
                Ok(None)
            }
        },
    }
}

/// The block (if any) that a leader of `current_view` should re-propose: the highest certificate's
/// block, when that certificate is a `Prepare` or `Precommit` certificate from a view other than
/// the one just before `current_view`.
pub fn repropose_block(current_view: ViewNumber, block_tree: &BlockTree) -> (r: Option<CryptoHash>)
    ensures
        match r {
            Some(h) => (block_tree.highest().phase == Phase::Prepare || block_tree.highest().phase == Phase::Precommit)
                && current_view != block_tree.highest().view + 1 && h@ == block_tree.highest().block,
            None => !((block_tree.highest().phase == Phase::Prepare || block_tree.highest().phase == Phase::Precommit)
                && current_view != block_tree.highest().view + 1),
        },
{
    let highest_pc = block_tree.highest_pc();
    let phased = highest_pc.phase.is_prepare() || highest_pc.phase.is_precommit();
    if phased && (highest_pc.view == u64::MAX || current_view != highest_pc.view + 1) {
        Some(highest_pc.block)
    } else {
        None
    }
}

/// Immediacy of validator set updates: a block whose parent updates the validator set is safe only
/// under a `Decide` certificate for that parent, so work on the children of a validator set
/// updating block begins only after its updates are decided.
pub proof fn lemma_updating_parent_needs_decide(bt: &BlockTree, justify: QcView, chain_id: ChainID)
    requires
        safe_block_spec(bt, justify, chain_id),
        bt.has_updates(justify.block),
    ensures
        justify.phase == Phase::Decide,
{
}

} // verus!
