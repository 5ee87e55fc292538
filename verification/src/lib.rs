//! Single-packet authorization (SPA) gateway library.
//!
//! A client proves possession of a pre-shared key and of the decapsulation
//! key of an ML-KEM-768 keypair by sending one UDP datagram (a "knock").
//! This crate holds the verified core of both peers: the wire codec, the
//! MAC composition, freshness and replay suppression, rate limiting, the
//! decision pipeline of the daemon, and the knock assembly of the client.
//! The unverified shell around it (sockets, files, the packet-filter tool)
//! lives outside this crate and exchanges plain values with it.

pub mod bytes_be;
pub mod client;
pub mod clock;
pub mod codec;
pub mod crypto;
pub mod daemon;
pub mod rate;
pub mod replay;
pub mod text;
