//! The constants of the wire protocol that a build speaks.
use vstd::prelude::*;

use crate::runtime::session::SessionKindNumbers;

verus! {

/// The constants of the wire protocol.
#[derive(Debug)]
pub struct WireProtocol {
    /// Version of the session protocol.
    pub major: u32,
    /// Lowest minor version that is spoken.
    pub min_minor: u32,
    /// Highest minor version that is spoken.
    pub max_minor: u32,
    /// The value of the `protocol` property of an announcement.
    pub discovery_protocol: String,
    /// The service type of announcements.
    pub service_type: String,
    /// The numbers of the session kinds.
    pub kinds: SessionKindNumbers,
}

} // verus!
