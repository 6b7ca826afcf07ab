//! The networking of a replica: what it does with the messages it receives.

pub mod receiving;
