//! Device identity, discovery, pairing and session rules of one LAN node.
pub mod address;
pub mod discovery;
pub mod dns_sd;
pub mod endpoint;
pub mod error;
pub mod identity;
pub mod order;
pub mod peer;
pub mod primitives;
pub mod repository;
pub mod runtime;
pub mod table;
pub mod text;
pub mod wire;
