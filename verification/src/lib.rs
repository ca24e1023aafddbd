//! A verified core for a small proof-of-work coin node: Merkle trees of
//! transaction ids, address inclusion filters, light-node block tracking and
//! the decisions a node takes on incoming peer messages.

pub mod utils;
pub mod hashing;
pub mod transaction;
pub mod merkle_tree;
pub mod address_inclusion_filter;
pub mod interesting_blocks;
pub mod peer;
pub mod message;
pub mod light_node_behavior;
pub mod api_server;
pub mod node;
pub mod sync;
