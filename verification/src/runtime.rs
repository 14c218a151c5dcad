//! The rules of the process-wide runtime: sessions, handshakes, pairing,
//! dialing and scanning.
pub mod accept;
pub mod diagnostics;
pub mod dial;
pub mod limits;
pub mod pairing;
pub mod protocol;
pub mod registry;
pub mod relay;
pub mod scan;
pub mod session;
pub mod node;
