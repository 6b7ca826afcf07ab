//! The HotStuff subprotocol: the subprotocol for committing blocks.

pub mod types;

pub mod messages;

pub mod roles;

pub mod implementation;
