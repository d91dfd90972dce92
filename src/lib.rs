//! Byzantine reliable broadcast over a replicated data type, with a
//! generational membership protocol deciding who votes.
//!
//! - `actor`: identities (ed25519 public keys) and signatures.
//! - `codec`: the byte helpers of the canonical encoding.
//! - `vote`: reconfigurations, ballots and votes, and their encoding.
//! - `order`: the order on reconfigs and on reconfig sets.
//! - `membership`: supermajority voting on the member set, generation by generation.
//! - `clock`: version clocks and dots.
//! - `packet`: messages, broadcast operations, payloads and packets.
//! - `error`: why packets and operations are refused.
//! - `brb_data_type`: what a replicated data type provides.
//! - `deterministic_brb`: the per-source ordered, three-phase broadcast.
//! - `net`: processes exchanging packets in memory.

pub mod actor;
pub mod codec;
pub mod vote;
pub mod order;
pub mod membership;
pub mod clock;
pub mod packet;
pub mod error;
pub mod brb_data_type;
pub mod deterministic_brb;
pub mod net;
