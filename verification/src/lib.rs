//! Byzantine fault tolerant state machine replication: the HotStuff subprotocol's safety rules,
//! its block tree, vote collection, block sync bookkeeping and message buffering, with their
//! contracts proved by Verus.

pub mod types;
pub mod hotstuff;
pub mod validator_set;
pub mod update_sets;
pub mod crypto;
pub mod block;
pub mod block_tree;
pub mod application;
pub mod block_sync;
pub mod events;
pub mod networking;
pub mod msg_types;
