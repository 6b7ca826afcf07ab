//! Blocks: the units of the replicated blockchain.

use vstd::prelude::*;

use crate::crypto::{block_hash_preimage, qc_bytes, sha256, sha256_digest, u64_bytes};
use crate::block_tree::BlockTree;
use crate::hotstuff::types::{is_correct_spec, QcView, QuorumCertificate};
use crate::types::{BlockHeight, CryptoHash, Data};

verus! {

/// A block: its height, its hash, the certificate that justifies it (and thereby names its
/// parent), the hash of its data, and the data.
pub struct Block {
    pub height: BlockHeight,
    pub hash: CryptoHash,
    pub justify: QuorumCertificate,
    pub data_hash: CryptoHash,
    pub data: Data,
}

/// The mathematical value of a block.
pub struct BlockView {
    pub height: BlockHeight,
    pub hash: Seq<u8>,
    pub justify: QcView,
    pub data_hash: Seq<u8>,
    pub data: Seq<Seq<u8>>,
}

impl View for Block {
    type V = BlockView;

    open spec fn view(&self) -> BlockView {
        BlockView {
            height: self.height,
            hash: self.hash@,
            justify: self.justify@,
            data_hash: self.data_hash@,
            data: self.data@.map_values(|d: Vec<u8>| d@),
        }
    }
}

/// The hash of a block with the given height, justify and data hash: SHA-256 of the height's
/// bytes, the justify's bytes and the data hash.
pub open spec fn block_hash(height: BlockHeight, justify: QcView, data_hash: Seq<u8>) -> Seq<u8> {
    sha256(u64_bytes(height) + qc_bytes(justify) + data_hash)
}

impl Block {
    /// Compute the hash of a block with the given height, justify and data hash.
    pub fn hash(height: BlockHeight, justify: &QuorumCertificate, data_hash: &CryptoHash) -> (h: CryptoHash)
        requires
            justify@.signatures.len() <= u32::MAX,
        ensures
            h@ == block_hash(height, justify@, data_hash@),
    {
        let bs = block_hash_preimage(
            height,
            justify.chain_id,
            justify.view,
            &justify.block,
            justify.phase.wire_tag(),
            &justify.signatures.signatures,
            data_hash,
        );
        assert(bs@ =~= u64_bytes(height) + qc_bytes(justify@) + data_hash@);
        sha256_digest(bs.as_slice())
    }

    /// Create a block, computing its hash.
    pub fn new(height: BlockHeight, justify: QuorumCertificate, data_hash: CryptoHash, data: Data) -> (b: Block)
        requires
            justify@.signatures.len() <= u32::MAX,
        ensures
            b.height == height,
            b@.justify == justify@,
            b.data_hash == data_hash,
            b.data == data,
            b@.hash == block_hash(height, justify@, data_hash@),
    {
        let hash = Self::hash(height, &justify, &data_hash);
        Block { height, hash, justify, data_hash, data }
    }

    /// Whether the block's hash is the hash of its height, justify and data hash.
    pub fn is_hash_correct(&self) -> (b: bool)
        requires
            self.justify@.signatures.len() <= u32::MAX,
        ensures
            b == (self.hash@ == block_hash(self.height, self.justify@, self.data_hash@)),
    {
        let h = Self::hash(self.height, &self.justify, &self.data_hash);
        crate::types::bytes32_eq(&h, &self.hash)
    }

    /// Whether the block is correct given `block_tree`: its justify is correct and its hash is the
    /// hash of its contents. A block whose justify has more signature slots than a `u32` counts
    /// cannot be hashed, and is not correct.
    pub fn is_correct(&self, block_tree: &BlockTree) -> (b: bool)
        requires
            block_tree.wf(),
        ensures
            b == block_correct_spec(block_tree, self@),
    {
        if self.justify.signatures.len() > u32::MAX as usize {
            return false;
        }
        self.justify.is_correct(block_tree) && self.is_hash_correct()
    }
}

/// Whether `block` is correct given `bt` (see [`Block::is_correct`]).
pub open spec fn block_correct_spec(bt: &BlockTree, block: BlockView) -> bool {
    &&& block.justify.signatures.len() <= u32::MAX
    &&& is_correct_spec(bt, block.justify)
    &&& block.hash == block_hash(block.height, block.justify, block.data_hash)
}

impl Clone for Block {
    fn clone(&self) -> (b: Self)
        ensures
            b@ == self@,
    {
        let mut data: Data = Vec::new();
        let mut i: usize = 0;
        while i < self.data.len()
            invariant
                i <= self.data@.len(),
                data@.len() == i,
                forall|j: int| 0 <= j < i ==> data@[j]@ == self.data@[j]@,
            decreases self.data@.len() - i,
        {
            data.push(crate::types::copy_bytes(self.data[i].as_slice()));
            i = i + 1;
        }
        let b = Block {
            height: self.height,
            hash: self.hash,
            justify: self.justify.clone(),
            data_hash: self.data_hash,
            data,
        };
        assert(b@.data =~= self@.data);
        b
    }
}

} // verus!
