//! The messages of the block sync protocol: the requests and responses that a sync client and a
//! sync server exchange, and the advertisements that sync servers broadcast.

use vstd::prelude::*;

use crate::block::Block;
use crate::crypto::{advertise_message_bytes, ed25519_sign, ed25519_verify, sign_message, u64_bytes, verify_signature};
use crate::hotstuff::types::QuorumCertificate;
use crate::types::{BlockHeight, ChainID, SignatureBytes, SigningKeyBytes, VerifyingKeyBytes};

verus! {

/// A message between a sync client and a sync server while syncing.
pub enum BlockSyncMessage {
    BlockSyncRequest(BlockSyncRequest),
    BlockSyncResponse(BlockSyncResponse),
}

impl BlockSyncMessage {
    pub fn block_sync_request(chain_id: ChainID, start_height: BlockHeight, limit: u32) -> (m: BlockSyncMessage)
        ensures
            m == BlockSyncMessage::BlockSyncRequest(BlockSyncRequest { chain_id, start_height, limit }),
    {
        BlockSyncMessage::BlockSyncRequest(BlockSyncRequest { chain_id, start_height, limit })
    }

    pub fn block_sync_response(blocks: Vec<Block>, highest_pc: QuorumCertificate) -> (m: BlockSyncMessage)
        ensures
            m == BlockSyncMessage::BlockSyncResponse(BlockSyncResponse { blocks, highest_pc }),
    {
        BlockSyncMessage::BlockSyncResponse(BlockSyncResponse { blocks, highest_pc })
    }
}

/// A request for at most `limit` blocks of chain `chain_id`, from `start_height` on.
pub struct BlockSyncRequest {
    pub chain_id: ChainID,
    pub start_height: BlockHeight,
    pub limit: u32,
}

/// A response to a sync request: blocks, and the highest certificate that the server knows.
pub struct BlockSyncResponse {
    pub blocks: Vec<Block>,
    pub highest_pc: QuorumCertificate,
}

/// What a sync server broadcasts from time to time.
pub enum BlockSyncAdvertiseMessage {
    AdvertiseBlock(AdvertiseBlock),
    AdvertisePC(AdvertisePC),
}

/// The bytes that an [`AdvertiseBlock`] signs: its chain id and height.
pub open spec fn advertise_bytes(chain_id: ChainID, height: BlockHeight) -> Seq<u8> {
    u64_bytes(chain_id) + u64_bytes(height)
}

impl BlockSyncAdvertiseMessage {
    /// An advertisement of the server's highest committed block height, signed with `me`.
    pub fn advertise_block(me: &SigningKeyBytes, chain_id: ChainID, highest_committed_block_height: BlockHeight) -> (m: Self)
        ensures
            m matches BlockSyncAdvertiseMessage::AdvertiseBlock(a) && a.chain_id == chain_id
                && a.highest_committed_block_height == highest_committed_block_height
                && a.signature@ == ed25519_sign(me@, advertise_bytes(chain_id, highest_committed_block_height)),
    {
        let message = advertise_message_bytes(chain_id, highest_committed_block_height);
        let signature = sign_message(me, message.as_slice());
        BlockSyncAdvertiseMessage::AdvertiseBlock(AdvertiseBlock { chain_id, highest_committed_block_height, signature })
    }

    /// An advertisement of the server's highest certificate.
    pub fn advertise_pc(highest_pc: QuorumCertificate) -> (m: Self)
        ensures
            m == BlockSyncAdvertiseMessage::AdvertisePC(AdvertisePC { highest_pc }),
    {
        BlockSyncAdvertiseMessage::AdvertisePC(AdvertisePC { highest_pc })
    }

    /// The chain that the advertisement is about.
    pub fn chain_id(&self) -> (c: ChainID)
        ensures
            c == match self {
                BlockSyncAdvertiseMessage::AdvertiseBlock(a) => a.chain_id,
                BlockSyncAdvertiseMessage::AdvertisePC(a) => a.highest_pc.chain_id,
            },
    {
        match self {
            BlockSyncAdvertiseMessage::AdvertiseBlock(a) => a.chain_id,
            BlockSyncAdvertiseMessage::AdvertisePC(a) => a.highest_pc.chain_id,
        }
    }

    /// The size in memory of the advertisement's variant.
    pub fn size(&self) -> (s: u64)
        ensures
            s == match self {
                BlockSyncAdvertiseMessage::AdvertiseBlock(_) => vstd::layout::size_of::<AdvertiseBlock>(),
                BlockSyncAdvertiseMessage::AdvertisePC(_) => vstd::layout::size_of::<AdvertisePC>(),
            },
    {
        match self {
            BlockSyncAdvertiseMessage::AdvertiseBlock(_) => core::mem::size_of::<AdvertiseBlock>() as u64,
            BlockSyncAdvertiseMessage::AdvertisePC(_) => core::mem::size_of::<AdvertisePC>() as u64,
        }
    }
}

/// A sync server's signed promise to serve blocks at least up to `highest_committed_block_height`.
pub struct AdvertiseBlock {
    pub chain_id: ChainID,
    pub highest_committed_block_height: BlockHeight,
    pub signature: SignatureBytes,
}

impl AdvertiseBlock {
    /// The bytes that the advertisement's signature signs.
    pub fn message_bytes(&self) -> (bs: Vec<u8>)
        ensures
            bs@ == advertise_bytes(self.chain_id, self.highest_committed_block_height),
    {
        advertise_message_bytes(self.chain_id, self.highest_committed_block_height)
    }

    /// Whether the advertisement is correctly signed by `signer`.
    pub fn is_correct(&self, signer: &VerifyingKeyBytes) -> (b: bool)
        ensures
            b == ed25519_verify(signer@, advertise_bytes(self.chain_id, self.highest_committed_block_height), self.signature@),
    {
        let bs = self.message_bytes();
        verify_signature(signer, bs.as_slice(), &self.signature)
    }
}

/// A sync server's highest certificate, evidence of how far the validators have come.
pub struct AdvertisePC {
    pub highest_pc: QuorumCertificate,
}

} // verus!
