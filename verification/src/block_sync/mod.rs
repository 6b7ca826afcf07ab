//! Block sync: how a replica that has fallen behind catches up with the others.

pub mod messages;

pub mod server;

pub mod client;
