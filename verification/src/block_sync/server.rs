//! The decisions of a block sync server: how it answers a sync request, and when it advertises
//! itself.

use vstd::prelude::*;

use crate::block::BlockView;
use crate::block_sync::messages::{advertise_bytes, BlockSyncAdvertiseMessage, BlockSyncRequest, BlockSyncResponse};
use crate::block_tree::accessors::{
    block_views, committed_run_fills, is_height_to_newest, speculative_walk_fails, BlockTreeSnapshot,
};
use crate::crypto::ed25519_sign;
use crate::types::{BlockHeight, ChainID, SigningKeyBytes};

verus! {

/// The configuration of a sync server: its chain, its secret key, its own limit on blocks per
/// response, and how often (in milliseconds) it advertises.
pub struct BlockSyncServerConfiguration {
    pub chain_id: ChainID,
    pub keypair: SigningKeyBytes,
    pub request_limit: u32,
    pub advertise_time: u64,
}

/// The limit on the blocks of a response: the smaller of the request's and the server's.
pub open spec fn response_limit(request_limit: u32, server_limit: u32) -> u32 {
    if request_limit <= server_limit {
        request_limit
    } else {
        server_limit
    }
}

/// A block sync server: its configuration and when (in milliseconds) it last advertised.
pub struct BlockSyncServer {
    config: BlockSyncServerConfiguration,
    last_advertisement: u64,
}

impl BlockSyncServer {
    pub closed spec fn chain_id(&self) -> ChainID {
        self.config.chain_id
    }

    pub closed spec fn keypair(&self) -> Seq<u8> {
        self.config.keypair@
    }

    pub closed spec fn request_limit(&self) -> u32 {
        self.config.request_limit
    }

    pub closed spec fn advertise_time(&self) -> u64 {
        self.config.advertise_time
    }

    pub closed spec fn last_advertised(&self) -> u64 {
        self.last_advertisement
    }

    /// The chain whose sync requests the server answers.
    pub fn server_chain_id(&self) -> (c: ChainID)
        ensures
            c == self.chain_id(),
    {
        self.config.chain_id
    }

    /// A server that counts `now` as its last advertisement.
    pub fn new(config: BlockSyncServerConfiguration, now: u64) -> (s: BlockSyncServer)
        ensures
            s.chain_id() == config.chain_id,
            s.keypair() == config.keypair@,
            s.request_limit() == config.request_limit,
            s.advertise_time() == config.advertise_time,
            s.last_advertised() == now,
    {
        BlockSyncServer { config, last_advertisement: now }
    }

    /// The answer to `request`: none for a request of another chain, or when the chain from the
    /// newest block down to the highest committed block, which the answer needs, lacks a block;
    /// else the blocks from the requested height towards the newest block, at most the smaller of
    /// the request's and the server's limits, and the highest certificate.
    pub fn handle_request(&self, request: &BlockSyncRequest, snapshot: &BlockTreeSnapshot) -> (r: Option<BlockSyncResponse>)
        requires
            snapshot.tree().wf(),
        ensures
            request.chain_id != self.chain_id() ==> r is None,
            r is None <==> (request.chain_id != self.chain_id()
                || (!committed_run_fills(&snapshot.tree(), request.start_height, response_limit(request.limit, self.request_limit()))
                    && speculative_walk_fails(&snapshot.tree()))),
            r matches Some(resp) ==> {
                let limit = response_limit(request.limit, self.request_limit());
                &&& request.chain_id == self.chain_id()
                &&& resp.highest_pc@ == snapshot.tree().highest()
                &&& resp.blocks@.len() <= limit
                &&& exists|k: int, sc: Seq<BlockView>| #[trigger] is_height_to_newest(
                    &snapshot.tree(), request.start_height, limit, block_views(resp.blocks@), k, sc)
            },
    {
        if request.chain_id != self.config.chain_id {
            return None;
        }
        let limit = if request.limit <= self.config.request_limit {
            request.limit
        } else {
            self.config.request_limit
        };
        assert(limit == response_limit(request.limit, self.config.request_limit));
        match snapshot.blocks_from_height_to_newest(request.start_height, limit) {
            Ok(blocks) => {
                let ghost gb = blocks@;
                let highest_pc = snapshot.highest_pc();
                let resp = BlockSyncResponse { blocks, highest_pc };
                assert(resp.blocks@ == gb);
                assert(exists|k: int, sc: Seq<BlockView>| #[trigger] is_height_to_newest(
                    &snapshot.tree(), request.start_height, limit, block_views(resp.blocks@), k, sc));
                Some(resp)
            },
            Err(_) => None,
        }
    }

    /// The advertisements due at `now`: when at least the advertise time has passed since the last
    /// ones, an advertisement of the highest certificate and a signed one of the highest committed
    /// block height (0 when no block is committed), and `now` becomes the last advertisement.
    pub fn advertise(&mut self, now: u64, snapshot: &BlockTreeSnapshot) -> (r: Option<(BlockSyncAdvertiseMessage, BlockSyncAdvertiseMessage)>)
        requires
            snapshot.tree().wf(),
        ensures
            final(self).chain_id() == old(self).chain_id(),
            final(self).keypair() == old(self).keypair(),
            final(self).request_limit() == old(self).request_limit(),
            final(self).advertise_time() == old(self).advertise_time(),
            ({
                let elapsed = if now >= old(self).last_advertised() { now - old(self).last_advertised() } else { 0 };
                if elapsed >= old(self).advertise_time() {
                    let height: BlockHeight = match snapshot.tree().committed_height() {
                        Some(h) => h,
                        None => 0,
                    };
                    &&& final(self).last_advertised() == now
                    &&& r matches Some(msgs)
                    &&& msgs.0 matches BlockSyncAdvertiseMessage::AdvertisePC(a) && a.highest_pc@ == snapshot.tree().highest()
                    &&& msgs.1 matches BlockSyncAdvertiseMessage::AdvertiseBlock(b) && b.chain_id == old(self).chain_id()
                        && b.highest_committed_block_height == height
                        && b.signature@ == ed25519_sign(old(self).keypair(), advertise_bytes(old(self).chain_id(), height))
                } else {
                    r is None && final(self).last_advertised() == old(self).last_advertised()
                }
            }),
    {
        let elapsed = now.saturating_sub(self.last_advertisement);
        if elapsed < self.config.advertise_time {
            return None;
        }
        let highest_pc = snapshot.highest_pc();
        let height = match snapshot.highest_committed_block_height() {
            Some(h) => h,
            None => 0,
        };
        let pc_msg = BlockSyncAdvertiseMessage::advertise_pc(highest_pc);
        let block_msg = BlockSyncAdvertiseMessage::advertise_block(&self.config.keypair, self.config.chain_id, height);
        self.last_advertisement = now;
        Some((pc_msg, block_msg))
    }
}

} // verus!
