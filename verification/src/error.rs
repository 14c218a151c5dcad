//! The errors of the library.
use vstd::prelude::*;
use vstd::string::*;

use crate::text::joined;

verus! {

/// Why a network operation failed. The texts carry the detail.
#[derive(Debug)]
pub enum NetworkError {
    /// A socket or file operation failed.
    Io(String),
    /// TLS could not be configured.
    Tls(String),
    /// An identity, key or signature is not what it claims to be.
    InvalidIdentity(String),
    /// The discovery service failed.
    Discovery(String),
    /// The QUIC transport failed.
    Quic(String),
    /// A peer or a caller broke the protocol.
    Protocol(String),
    /// No connection could be made.
    Connect(String),
    /// The peer is not paired with this device.
    Unpaired,
    /// The peer lacks the permission.
    Unauthorized(String),
    /// The peer repository failed.
    Repository(String),
    /// The operation took too long.
    Timeout,
    /// The peer is this device.
    SelfConnection,
    /// A limit on concurrent work was reached.
    Busy(String),
    /// There is no asynchronous runtime to work on.
    RuntimeUnavailable,
    /// A frame could not be read or written.
    Frame(String),
}

/// What a [`NetworkError`] says.
pub enum NetworkErrorView {
    Io(Seq<char>),
    Tls(Seq<char>),
    InvalidIdentity(Seq<char>),
    Discovery(Seq<char>),
    Quic(Seq<char>),
    Protocol(Seq<char>),
    Connect(Seq<char>),
    Unpaired,
    Unauthorized(Seq<char>),
    Repository(Seq<char>),
    Timeout,
    SelfConnection,
    Busy(Seq<char>),
    RuntimeUnavailable,
    Frame(Seq<char>),
}

impl View for NetworkError {
    type V = NetworkErrorView;

    open spec fn view(&self) -> NetworkErrorView {
        match self {
            NetworkError::Io(text) => NetworkErrorView::Io(text@),
            NetworkError::Tls(text) => NetworkErrorView::Tls(text@),
            NetworkError::InvalidIdentity(text) => NetworkErrorView::InvalidIdentity(text@),
            NetworkError::Discovery(text) => NetworkErrorView::Discovery(text@),
            NetworkError::Quic(text) => NetworkErrorView::Quic(text@),
            NetworkError::Protocol(text) => NetworkErrorView::Protocol(text@),
            NetworkError::Connect(text) => NetworkErrorView::Connect(text@),
            NetworkError::Unpaired => NetworkErrorView::Unpaired,
            NetworkError::Unauthorized(text) => NetworkErrorView::Unauthorized(text@),
            NetworkError::Repository(text) => NetworkErrorView::Repository(text@),
            NetworkError::Timeout => NetworkErrorView::Timeout,
            NetworkError::SelfConnection => NetworkErrorView::SelfConnection,
            NetworkError::Busy(text) => NetworkErrorView::Busy(text@),
            NetworkError::RuntimeUnavailable => NetworkErrorView::RuntimeUnavailable,
            NetworkError::Frame(text) => NetworkErrorView::Frame(text@),
        }
    }
}

impl NetworkErrorView {
    /// The stable category of the error.
    pub open spec fn category(self) -> Seq<char> {
        match self {
            NetworkErrorView::Io(_) => "network.unavailable"@,
            NetworkErrorView::Tls(_) => "network.tls_configuration"@,
            NetworkErrorView::InvalidIdentity(_) => "network.invalid_identity"@,
            NetworkErrorView::Discovery(_) => "network.unavailable"@,
            NetworkErrorView::Quic(_) => "network.unavailable"@,
            NetworkErrorView::Protocol(_) => "network.protocol"@,
            NetworkErrorView::Connect(_) => "network.unavailable"@,
            NetworkErrorView::Unpaired => "network.unpaired"@,
            NetworkErrorView::Unauthorized(_) => "network.permission_denied"@,
            NetworkErrorView::Repository(_) => "network.repository"@,
            NetworkErrorView::Timeout => "network.deadline_exceeded"@,
            NetworkErrorView::SelfConnection => "network.self_connection"@,
            NetworkErrorView::Busy(_) => "network.busy"@,
            NetworkErrorView::RuntimeUnavailable => "network.runtime_unavailable"@,
            NetworkErrorView::Frame(_) => "network.protocol"@,
        }
    }

    /// The sentence that describes the error.
    pub open spec fn sentence(self) -> Seq<char> {
        match self {
            NetworkErrorView::Io(text) => "network I/O failed: "@ + text,
            NetworkErrorView::Tls(text) => "TLS configuration failed: "@ + text,
            NetworkErrorView::InvalidIdentity(text) => "invalid device identity: "@ + text,
            NetworkErrorView::Discovery(text) => "discovery failed: "@ + text,
            NetworkErrorView::Quic(text) => "QUIC failed: "@ + text,
            NetworkErrorView::Protocol(text) => "protocol violation: "@ + text,
            NetworkErrorView::Connect(text) => "connection failed: "@ + text,
            NetworkErrorView::Unpaired => "peer is not paired"@,
            NetworkErrorView::Unauthorized(text) => "peer is not authorized: "@ + text,
            NetworkErrorView::Repository(text) => "peer repository failed: "@ + text,
            NetworkErrorView::Timeout => "operation timed out"@,
            NetworkErrorView::SelfConnection => "cannot connect to this device"@,
            NetworkErrorView::Busy(text) => "network runtime is busy: "@ + text,
            NetworkErrorView::RuntimeUnavailable => "an active Tokio runtime is required"@,
            NetworkErrorView::Frame(text) => text,
        }
    }
}

impl NetworkError {
    /// Stable machine-readable category for application adapters.
    pub fn code(&self) -> (code: &'static str)
        ensures
            code@ == self@.category(),
    {
        match self {
            NetworkError::Io(_) => "network.unavailable",
            NetworkError::Tls(_) => "network.tls_configuration",
            NetworkError::InvalidIdentity(_) => "network.invalid_identity",
            NetworkError::Discovery(_) => "network.unavailable",
            NetworkError::Quic(_) => "network.unavailable",
            NetworkError::Protocol(_) => "network.protocol",
            NetworkError::Connect(_) => "network.unavailable",
            NetworkError::Unpaired => "network.unpaired",
            NetworkError::Unauthorized(_) => "network.permission_denied",
            NetworkError::Repository(_) => "network.repository",
            NetworkError::Timeout => "network.deadline_exceeded",
            NetworkError::SelfConnection => "network.self_connection",
            NetworkError::Busy(_) => "network.busy",
            NetworkError::RuntimeUnavailable => "network.runtime_unavailable",
            NetworkError::Frame(_) => "network.protocol",
        }
    }

    /// The sentence that describes the error.
    pub fn message(&self) -> (message: String)
        ensures
            message@ == self@.sentence(),
    {
        match self {
            NetworkError::Io(text) => joined("network I/O failed: ", text.as_str()),
            NetworkError::Tls(text) => joined("TLS configuration failed: ", text.as_str()),
            NetworkError::InvalidIdentity(text) => joined("invalid device identity: ", text.as_str()),
            NetworkError::Discovery(text) => joined("discovery failed: ", text.as_str()),
            NetworkError::Quic(text) => joined("QUIC failed: ", text.as_str()),
            NetworkError::Protocol(text) => joined("protocol violation: ", text.as_str()),
            NetworkError::Connect(text) => joined("connection failed: ", text.as_str()),
            NetworkError::Unpaired => "peer is not paired".to_owned(),
            NetworkError::Unauthorized(text) => joined("peer is not authorized: ", text.as_str()),
            NetworkError::Repository(text) => joined("peer repository failed: ", text.as_str()),
            NetworkError::Timeout => "operation timed out".to_owned(),
            NetworkError::SelfConnection => "cannot connect to this device".to_owned(),
            NetworkError::Busy(text) => joined("network runtime is busy: ", text.as_str()),
            NetworkError::RuntimeUnavailable => "an active Tokio runtime is required".to_owned(),
            NetworkError::Frame(text) => text.clone(),
        }
    }
}

impl Clone for NetworkError {
    fn clone(&self) -> (copy: Self)
        ensures
            copy@ == self@,
    {
        match self {
            NetworkError::Io(text) => NetworkError::Io(text.clone()),
            NetworkError::Tls(text) => NetworkError::Tls(text.clone()),
            NetworkError::InvalidIdentity(text) => NetworkError::InvalidIdentity(text.clone()),
            NetworkError::Discovery(text) => NetworkError::Discovery(text.clone()),
            NetworkError::Quic(text) => NetworkError::Quic(text.clone()),
            NetworkError::Protocol(text) => NetworkError::Protocol(text.clone()),
            NetworkError::Connect(text) => NetworkError::Connect(text.clone()),
            NetworkError::Unpaired => NetworkError::Unpaired,
            NetworkError::Unauthorized(text) => NetworkError::Unauthorized(text.clone()),
            NetworkError::Repository(text) => NetworkError::Repository(text.clone()),
            NetworkError::Timeout => NetworkError::Timeout,
            NetworkError::SelfConnection => NetworkError::SelfConnection,
            NetworkError::Busy(text) => NetworkError::Busy(text.clone()),
            NetworkError::RuntimeUnavailable => NetworkError::RuntimeUnavailable,
            NetworkError::Frame(text) => NetworkError::Frame(text.clone()),
        }
    }
}

/// A protocol violation, described by `text`.
pub fn protocol(text: &str) -> (error: NetworkError)
    ensures
        error@ == NetworkErrorView::Protocol(text@),
{
    NetworkError::Protocol(text.to_owned())
}

/// An identity that is not what it claims to be, described by `text`.
pub fn invalid_identity(text: &str) -> (error: NetworkError)
    ensures
        error@ == NetworkErrorView::InvalidIdentity(text@),
{
    NetworkError::InvalidIdentity(text.to_owned())
}

/// A failed connection, described by `text`.
pub fn connect_failed(text: &str) -> (error: NetworkError)
    ensures
        error@ == NetworkErrorView::Connect(text@),
{
    NetworkError::Connect(text.to_owned())
}

/// A failed repository operation, described by `text`.
pub fn repository_failed(text: &str) -> (error: NetworkError)
    ensures
        error@ == NetworkErrorView::Repository(text@),
{
    NetworkError::Repository(text.to_owned())
}

/// A failed discovery operation, described by `text`.
pub fn discovery_failed(text: &str) -> (error: NetworkError)
    ensures
        error@ == NetworkErrorView::Discovery(text@),
{
    NetworkError::Discovery(text.to_owned())
}

/// A limit that was reached, described by `text`.
pub fn busy(text: &str) -> (error: NetworkError)
    ensures
        error@ == NetworkErrorView::Busy(text@),
{
    NetworkError::Busy(text.to_owned())
}

/// A missing permission, described by `text`.
pub fn unauthorized(text: &str) -> (error: NetworkError)
    ensures
        error@ == NetworkErrorView::Unauthorized(text@),
{
    NetworkError::Unauthorized(text.to_owned())
}

/// What a result says, where its value is of interest through its view.
pub open spec fn result_view<T: View>(result: Result<T, NetworkError>) -> Result<
    T::V,
    NetworkErrorView,
> {
    match result {
        Ok(value) => Ok(value@),
        Err(error) => Err(error@),
    }
}

/// What a result says, where its value is plain.
pub open spec fn plain_result<T>(result: Result<T, NetworkError>) -> Result<T, NetworkErrorView> {
    match result {
        Ok(value) => Ok(value),
        Err(error) => Err(error@),
    }
}

} // verus!
