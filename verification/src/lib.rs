//! Verified core of a crosslink wallet and of its finality service.
use vstd::prelude::*;

pub mod accounts;
pub mod addresses;
pub mod anchors;
pub mod assemble;
pub mod audit;
pub mod bft;
pub mod block_seq;
pub mod blocks;
pub mod bonds;
pub mod books;
pub mod byte_map;
pub mod bytes;
pub mod commands;
pub mod compact;
pub mod decide;
pub mod fees;
pub mod files;
pub mod full_tx;
pub mod funds;
pub mod hardfork;
pub mod hash_text;
pub mod height;
pub mod issuance;
pub mod limits;
pub mod listing;
pub mod memos;
pub mod network;
pub mod node_key;
pub mod note_flow;
pub mod note_log;
pub mod notes;
pub mod orchard_parts;
pub mod orchard_scan;
pub mod perform;
pub mod pow_cache;
pub mod proposals;
pub mod propose;
pub mod queue;
pub mod recency;
pub mod records;
pub mod reorg;
pub mod rollback;
pub mod roster;
pub mod scan;
pub mod service;
pub mod shard_form;
pub mod snapshot;
pub mod staking;
pub mod state;
pub mod store;
pub mod submit;
pub mod summary;
pub mod sync;
pub mod text;
pub mod tree;
pub mod tree_wire;
pub mod tx_part;
pub mod txo_flow;
pub mod viewing_key;
pub mod voters;
pub mod walkback;
pub mod wallet_tx;
pub mod wire;
pub mod zats;

verus! {

} // verus!
