//! A multipath UDP tunnel: selected UDP flows are tagged with a 4-byte
//! trailer carrying a 26-bit sequence and fragmentation metadata, duplicated
//! or fragmented across several egress interfaces, and reassembled,
//! deduplicated and reordered at the peer, which forwards them or re-emits
//! them through a SNAT proxy. An HMAC-based beacon installs per-source
//! accept rules on the server within a rolling time window.
//!
//! This crate holds the per-packet pipeline — trailer codec, sender
//! fragmentation, ordered reassembly, SNAT source table, and admission
//! check — with its behaviour stated in contracts. The netfilter queues,
//! raw sockets and system commands around it live with the I/O layer.

pub mod bytes;
pub mod dedup;
pub mod packet;
pub mod receiver;
pub mod sender;
pub mod snat;
pub mod trailer;
pub mod types;
pub mod utils;
pub mod whitelist;
