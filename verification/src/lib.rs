//! A Kademlia-style distributed hash table backing a proof-of-work ledger
//! that anchors auction and bid records.
//!
//! The crate is organised leaf-first: the identifier metric, then k-buckets
//! and the routing table, the RPC decision logic that drives them, and on
//! top of those the ledger engine and the auction verification rules.

pub mod auction;
pub mod block;
pub mod chain;
pub mod crypto;
pub mod entropy;
pub mod json;
pub mod k_bucket;
pub mod node;
pub mod node_id;
pub mod params;
pub mod protocol;
pub mod routing_table;
pub mod signature;
pub mod textenc;
pub mod transaction;
