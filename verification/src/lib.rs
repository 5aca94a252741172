//! Trust-boundary mechanisms of a secure overlay network: a replay window
//! over the nonces of an encrypted channel, and the registry that maps
//! captured TCP flows to the outlets and connections they belong to.
//! Beside them stands the command that shows a relay of a node.

pub mod nonce_tracker;
pub mod outlet;
pub mod relay;
