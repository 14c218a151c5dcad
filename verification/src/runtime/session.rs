//! Authenticated sessions and the streams that features open on them.
use vstd::prelude::*;
use vstd::string::*;
use vstd::utf8::*;

use crate::discovery::{DeviceMetadata, DeviceMetadataView};
use crate::error::{plain_result, protocol, result_view, NetworkError, NetworkErrorView};
use crate::order::{
    byte_key, bytes_before, lemma_before_asymmetric, lemma_before_total, lemma_byte_key_injective,
    lemma_text_key_injective, seq_before, text_key,
};
use crate::peer::{DeviceId, DevicePublicKey};
use crate::primitives::random_nonzero_u64;
use crate::text::{byte_len, copy_bytes, utf8_len};

verus! {

/// What a session is for.
#[derive(Debug, Clone, Copy, PartialEq, Eq, PartialOrd, Ord, Hash, Structural)]
pub enum SessionKind {
    /// Establishing trust.
    Pairing,
    /// Controlling features.
    Control,
    /// Input from another screen.
    RealtimeInput,
    /// Sending files.
    FileTransfer,
    /// Printing.
    Print,
    /// Asking who is there.
    DiscoveryProbe,
}

/// The numbers that stand for the kinds on the wire.
#[derive(Debug, Clone, Copy)]
pub struct SessionKindNumbers {
    pub pairing: i32,
    pub control: i32,
    pub realtime_input: i32,
    pub file_transfer: i32,
    pub print: i32,
    pub discovery_probe: i32,
}

impl SessionKindNumbers {
    /// No two kinds share a number.
    pub open spec fn distinct(self) -> bool {
        forall|a: SessionKind, b: SessionKind|
            a != b ==> #[trigger] a.number(self) != #[trigger] b.number(self)
    }
}

impl SessionKind {
    /// The number that stands for the kind on the wire.
    pub open spec fn number(self, numbers: SessionKindNumbers) -> i32 {
        match self {
            SessionKind::Pairing => numbers.pairing,
            SessionKind::Control => numbers.control,
            SessionKind::RealtimeInput => numbers.realtime_input,
            SessionKind::FileTransfer => numbers.file_transfer,
            SessionKind::Print => numbers.print,
            SessionKind::DiscoveryProbe => numbers.discovery_probe,
        }
    }

    /// The kind that a number stands for on the wire.
    pub open spec fn from_number(value: i32, numbers: SessionKindNumbers) -> Result<
        SessionKind,
        NetworkErrorView,
    > {
        if value == numbers.pairing {
            Ok(SessionKind::Pairing)
        } else if value == numbers.control {
            Ok(SessionKind::Control)
        } else if value == numbers.realtime_input {
            Ok(SessionKind::RealtimeInput)
        } else if value == numbers.file_transfer {
            Ok(SessionKind::FileTransfer)
        } else if value == numbers.print {
            Ok(SessionKind::Print)
        } else if value == numbers.discovery_probe {
            Ok(SessionKind::DiscoveryProbe)
        } else {
            Err(NetworkErrorView::Protocol("invalid session kind"@))
        }
    }

    /// The number that stands for the kind on the wire.
    pub fn encode(self, numbers: &SessionKindNumbers) -> (value: i32)
        ensures
            value == self.number(*numbers),
    {
        match self {
            SessionKind::Pairing => numbers.pairing,
            SessionKind::Control => numbers.control,
            SessionKind::RealtimeInput => numbers.realtime_input,
            SessionKind::FileTransfer => numbers.file_transfer,
            SessionKind::Print => numbers.print,
            SessionKind::DiscoveryProbe => numbers.discovery_probe,
        }
    }

    /// The kind that a number stands for on the wire.
    pub fn decode(value: i32, numbers: &SessionKindNumbers) -> (kind: Result<Self, NetworkError>)
        ensures
            plain_result(kind) == SessionKind::from_number(value, *numbers),
    {
        if value == numbers.pairing {
            Ok(SessionKind::Pairing)
        } else if value == numbers.control {
            Ok(SessionKind::Control)
        } else if value == numbers.realtime_input {
            Ok(SessionKind::RealtimeInput)
        } else if value == numbers.file_transfer {
            Ok(SessionKind::FileTransfer)
        } else if value == numbers.print {
            Ok(SessionKind::Print)
        } else if value == numbers.discovery_probe {
            Ok(SessionKind::DiscoveryProbe)
        } else {
            Err(protocol("invalid session kind"))
        }
    }

    /// Kinds that a device may use before it is paired.
    pub open spec fn nearby(self) -> bool {
        self == SessionKind::Pairing || self == SessionKind::FileTransfer || self
            == SessionKind::DiscoveryProbe
    }

    /// Whether a device may use the kind before it is paired.
    pub fn is_nearby(self) -> (answer: bool)
        ensures
            answer == self.nearby(),
    {
        self == SessionKind::Pairing || self == SessionKind::FileTransfer || self
            == SessionKind::DiscoveryProbe
    }
}

/// A kind reads back from its number, and only from it.
pub proof fn law_kind_round_trip(kind: SessionKind, value: i32, numbers: SessionKindNumbers)
    requires
        numbers.distinct(),
    ensures
        SessionKind::from_number(kind.number(numbers), numbers) == Ok::<_, NetworkErrorView>(kind),
        SessionKind::from_number(value, numbers) matches Ok(read) ==> read.number(numbers) == value,
{
    let kinds = seq![
        SessionKind::Pairing,
        SessionKind::Control,
        SessionKind::RealtimeInput,
        SessionKind::FileTransfer,
        SessionKind::Print,
        SessionKind::DiscoveryProbe,
    ];
    assert forall|i: int| 0 <= i < 6 implies (kind == #[trigger] kinds[i] || kind.number(numbers)
        != kinds[i].number(numbers)) by {}
    assert(kinds[0].number(numbers) == numbers.pairing);
    assert(kinds[1].number(numbers) == numbers.control);
    assert(kinds[2].number(numbers) == numbers.realtime_input);
    assert(kinds[3].number(numbers) == numbers.file_transfer);
    assert(kinds[4].number(numbers) == numbers.print);
    assert(kinds[5].number(numbers) == numbers.discovery_probe);
}

/// The device at the other end of a session.
#[derive(Debug)]
pub struct SessionPeer {
    pub device_id: DeviceId,
    pub public_key: DevicePublicKey,
    pub metadata: DeviceMetadata,
    pub certificate_sha256: [u8; 32],
    pub listen_port: u16,
}

/// What a [`SessionPeer`] says.
pub struct SessionPeerView {
    pub device_id: Seq<char>,
    pub public_key: Seq<u8>,
    pub metadata: DeviceMetadataView,
    pub certificate_sha256: Seq<u8>,
    pub listen_port: u16,
}

impl View for SessionPeer {
    type V = SessionPeerView;

    open spec fn view(&self) -> SessionPeerView {
        SessionPeerView {
            device_id: self.device_id@,
            public_key: self.public_key@,
            metadata: self.metadata@,
            certificate_sha256: self.certificate_sha256@,
            listen_port: self.listen_port,
        }
    }
}

impl Clone for SessionPeer {
    fn clone(&self) -> (copy: Self)
        ensures
            copy@ == self@,
    {
        SessionPeer {
            device_id: self.device_id.clone(),
            public_key: self.public_key.clone(),
            metadata: self.metadata.clone(),
            certificate_sha256: self.certificate_sha256,
            listen_port: self.listen_port,
        }
    }
}

/// Who dialed a session. Of two sessions that the two sides dialed at once the
/// lower rank wins.
#[derive(Debug)]
pub struct SessionRank {
    pub initiator_id: DeviceId,
    pub initiator_nonce: Vec<u8>,
}

/// What a [`SessionRank`] says.
pub struct SessionRankView {
    pub initiator_id: Seq<char>,
    pub initiator_nonce: Seq<u8>,
}

impl View for SessionRank {
    type V = SessionRankView;

    open spec fn view(&self) -> SessionRankView {
        SessionRankView {
            initiator_id: self.initiator_id@,
            initiator_nonce: self.initiator_nonce@,
        }
    }
}

impl SessionRankView {
    /// Ranks are ordered by the initiator and, for one initiator, by the nonce.
    pub open spec fn before(self, other: SessionRankView) -> bool {
        seq_before(text_key(self.initiator_id), text_key(other.initiator_id)) || (self.initiator_id
            == other.initiator_id && seq_before(
            byte_key(self.initiator_nonce),
            byte_key(other.initiator_nonce),
        ))
    }
}

impl SessionRank {
    /// Whether this rank is lower than `other`.
    pub fn is_before(&self, other: &SessionRank) -> (before: bool)
        ensures
            before == self@.before(other@),
    {
        self.initiator_id.is_before(&other.initiator_id) || (self.initiator_id.same(
            &other.initiator_id,
        ) && bytes_before(self.initiator_nonce.as_slice(), other.initiator_nonce.as_slice()))
    }
}

impl Clone for SessionRank {
    fn clone(&self) -> (copy: Self)
        ensures
            copy@ == self@,
    {
        SessionRank {
            initiator_id: self.initiator_id.clone(),
            initiator_nonce: copy_bytes(self.initiator_nonce.as_slice()),
        }
    }
}

/// The bytes of a process instance id.
pub open spec fn instance_view(instance: Option<[u8; 16]>) -> Option<Seq<u8>> {
    match instance {
        Some(bytes) => Some(bytes@),
        None => None,
    }
}

/// An authenticated session.
#[derive(Debug)]
pub struct Session {
    pub id: u64,
    pub kind: SessionKind,
    pub peer: SessionPeer,
    pub verification_code: String,
    pub rank: SessionRank,
    pub protocol_minor: u32,
    /// The process at the other end, where it tells.
    pub peer_process_instance_id: Option<[u8; 16]>,
    /// Whether the session runs through another device.
    pub relayed: bool,
}

/// What a [`Session`] says.
pub struct SessionView {
    pub id: u64,
    pub kind: SessionKind,
    pub peer: SessionPeerView,
    pub verification_code: Seq<char>,
    pub rank: SessionRankView,
    pub protocol_minor: u32,
    pub instance: Option<Seq<u8>>,
    pub relayed: bool,
}

impl View for Session {
    type V = SessionView;

    open spec fn view(&self) -> SessionView {
        SessionView {
            id: self.id,
            kind: self.kind,
            peer: self.peer@,
            verification_code: self.verification_code@,
            rank: self.rank@,
            protocol_minor: self.protocol_minor,
            instance: instance_view(self.peer_process_instance_id),
            relayed: self.relayed,
        }
    }
}

/// Bytes that may stand in the name of a feature or an operation.
pub open spec fn name_byte(byte: u8) -> bool {
    (97 <= byte <= 122) || (48 <= byte <= 57) || byte == 46 || byte == 45 || byte == 95
}

/// Every byte of the text may stand in a name.
pub open spec fn is_name(text: Seq<char>) -> bool {
    forall|i: int| 0 <= i < encode_utf8(text).len() ==> name_byte(#[trigger] encode_utf8(text)[i])
}

/// Names of features: 1 to 128 bytes of lower case letters, digits, `.`, `-`
/// and `_`.
pub open spec fn feature_name(text: Seq<char>) -> bool {
    0 < utf8_len(text) <= 128 && is_name(text)
}

/// Names of operations: like those of features, up to 64 bytes, or empty.
pub open spec fn operation_name(text: Seq<char>) -> bool {
    utf8_len(text) <= 64 && is_name(text)
}

fn only_name_bytes(value: &str) -> (answer: bool)
    ensures
        answer == is_name(value@),
{
    let bytes = value.as_bytes();
    let mut i: usize = 0;
    while i < bytes.len()
        invariant
            i <= bytes.len(),
            bytes@ == encode_utf8(value@),
            forall|j: int| 0 <= j < i ==> name_byte(#[trigger] bytes@[j]),
        decreases bytes.len() - i,
    {
        let byte: u8 = bytes[i];
        let letter = 97 <= byte && byte <= 122;
        let digit = 48 <= byte && byte <= 57;
        if !(letter || digit || byte == 46 || byte == 45 || byte == 95) {
            assert(!name_byte(encode_utf8(value@)[i as int]));
            return false;
        }
        i += 1;
    }
    true
}

/// Whether a text can name a feature.
pub fn valid_feature_id(value: &str) -> (valid: bool)
    ensures
        valid == feature_name(value@),
{
    let len: usize = byte_len(value);
    len > 0 && len <= 128 && only_name_bytes(value)
}

/// Whether a text can name an operation.
pub fn valid_operation(value: &str) -> (valid: bool)
    ensures
        valid == operation_name(value@),
{
    byte_len(value) <= 64 && only_name_bytes(value)
}

/// The first message on a feature stream.
#[derive(Debug)]
pub struct FeatureHeader {
    pub feature_id: String,
    pub body: Vec<u8>,
    pub feature_major: u32,
    pub min_feature_minor: u32,
    pub max_feature_minor: u32,
    pub stream_id: u64,
    pub operation: String,
}

/// What a [`FeatureHeader`] or a [`FeatureStream`] says.
pub struct FeatureHeaderView {
    pub feature_id: Seq<char>,
    pub body: Seq<u8>,
    pub feature_major: u32,
    pub min_feature_minor: u32,
    pub max_feature_minor: u32,
    pub stream_id: u64,
    pub operation: Seq<char>,
}

impl View for FeatureHeader {
    type V = FeatureHeaderView;

    open spec fn view(&self) -> FeatureHeaderView {
        FeatureHeaderView {
            feature_id: self.feature_id@,
            body: self.body@,
            feature_major: self.feature_major,
            min_feature_minor: self.min_feature_minor,
            max_feature_minor: self.max_feature_minor,
            stream_id: self.stream_id,
            operation: self.operation@,
        }
    }
}

impl FeatureHeaderView {
    /// The names and versions of the header can stand on a stream.
    pub open spec fn well_formed(self) -> bool {
        feature_name(self.feature_id) && self.feature_major != 0 && self.min_feature_minor
            <= self.max_feature_minor && operation_name(self.operation)
    }
}

/// A stream of a feature, as its header describes it.
#[derive(Debug)]
pub struct FeatureStream {
    pub feature_id: String,
    pub opening_payload: Vec<u8>,
    pub feature_major: u32,
    pub min_feature_minor: u32,
    pub max_feature_minor: u32,
    pub stream_id: u64,
    pub operation: String,
}

impl View for FeatureStream {
    type V = FeatureHeaderView;

    open spec fn view(&self) -> FeatureHeaderView {
        FeatureHeaderView {
            feature_id: self.feature_id@,
            body: self.opening_payload@,
            feature_major: self.feature_major,
            min_feature_minor: self.min_feature_minor,
            max_feature_minor: self.max_feature_minor,
            stream_id: self.stream_id,
            operation: self.operation@,
        }
    }
}

/// How many headers of one session may be read at a time.
pub const MAX_PENDING_HEADERS: usize = 8;

/// The largest header of a feature stream, in bytes.
pub const FEATURE_HEADER_LIMIT: usize = 65_536;

/// The header of an outgoing stream, or the error where it would not be
/// accepted.
pub open spec fn outgoing_header(header: FeatureHeaderView) -> Result<
    FeatureHeaderView,
    NetworkErrorView,
> {
    if header.well_formed() {
        Ok(header)
    } else {
        Err(NetworkErrorView::Protocol("invalid local feature stream header"@))
    }
}

/// The stream that a received header opens.
pub open spec fn incoming_stream(header: FeatureHeaderView) -> Result<
    FeatureHeaderView,
    NetworkErrorView,
> {
    if header.well_formed() && header.stream_id != 0 {
        Ok(header)
    } else {
        Err(NetworkErrorView::Protocol("invalid feature stream header"@))
    }
}

/// A header that one device may send opens the same stream at the other.
pub proof fn law_sent_header_is_accepted(header: FeatureHeaderView)
    requires
        outgoing_header(header) is Ok,
        header.stream_id != 0,
    ensures
        incoming_stream(header) == outgoing_header(header),
{
}

impl Session {
    /// Whether the session runs through another device.
    pub fn is_relayed(&self) -> (relayed: bool)
        ensures
            relayed == self@.relayed,
    {
        self.relayed
    }

    /// The number of the session.
    pub fn id(&self) -> (id: u64)
        ensures
            id == self@.id,
    {
        self.id
    }

    /// What the session is for.
    pub fn kind(&self) -> (kind: SessionKind)
        ensures
            kind == self@.kind,
    {
        self.kind
    }

    /// The protocol version in use.
    pub fn protocol_minor(&self) -> (minor: u32)
        ensures
            minor == self@.protocol_minor,
    {
        self.protocol_minor
    }

    /// The device at the other end.
    pub fn peer(&self) -> (peer: &SessionPeer)
        ensures
            peer@ == self@.peer,
    {
        &self.peer
    }

    /// The device that dialed the session. Only the initiator opens the
    /// session's primary feature stream.
    pub fn initiator_id(&self) -> (id: &DeviceId)
        ensures
            id@ == self@.rank.initiator_id,
    {
        &self.rank.initiator_id
    }

    /// The six digits that both devices show during pairing.
    pub fn verification_code(&self) -> (code: &str)
        ensures
            code@ == self@.verification_code,
    {
        self.verification_code.as_str()
    }

    /// The header of a new stream, under the number `stream_id`.
    pub fn feature_header(
        feature_id: String,
        feature_major: u32,
        min_feature_minor: u32,
        max_feature_minor: u32,
        operation: String,
        opening_payload: &[u8],
        stream_id: u64,
    ) -> (header: Result<FeatureHeader, NetworkError>)
        ensures
            result_view(header) == outgoing_header(
                FeatureHeaderView {
                    feature_id: feature_id@,
                    body: opening_payload@,
                    feature_major,
                    min_feature_minor,
                    max_feature_minor,
                    stream_id,
                    operation: operation@,
                },
            ),
    {
        if !valid_feature_id(feature_id.as_str()) || feature_major == 0 || min_feature_minor
            > max_feature_minor || !valid_operation(operation.as_str()) {
            return Err(protocol("invalid local feature stream header"));
        }
        Ok(
            FeatureHeader {
                feature_id,
                body: copy_bytes(opening_payload),
                feature_major,
                min_feature_minor,
                max_feature_minor,
                stream_id,
                operation,
            },
        )
    }

    /// The header of a new stream of a feature with these versions. The stream
    /// gets a random number that is not zero.
    pub fn open_feature_stream_versioned(
        &self,
        feature_id: String,
        feature_major: u32,
        min_feature_minor: u32,
        max_feature_minor: u32,
        operation: String,
        opening_payload: &[u8],
    ) -> (header: Result<FeatureHeader, NetworkError>)
        ensures
            exists|stream_id: u64|
                stream_id != 0 && result_view(header) == #[trigger] outgoing_header(
                    FeatureHeaderView {
                        feature_id: feature_id@,
                        body: opening_payload@,
                        feature_major,
                        min_feature_minor,
                        max_feature_minor,
                        stream_id,
                        operation: operation@,
                    },
                ),
    {
        let stream_id: u64 = random_nonzero_u64();
        Session::feature_header(
            feature_id,
            feature_major,
            min_feature_minor,
            max_feature_minor,
            operation,
            opening_payload,
            stream_id,
        )
    }

    /// The header of a new stream of a feature in its first version.
    pub fn open_feature_stream(&self, feature_id: String, opening_payload: &[u8]) -> (header:
        Result<FeatureHeader, NetworkError>)
        ensures
            exists|stream_id: u64|
                stream_id != 0 && result_view(header) == #[trigger] outgoing_header(
                    FeatureHeaderView {
                        feature_id: feature_id@,
                        body: opening_payload@,
                        feature_major: 1,
                        min_feature_minor: 0,
                        max_feature_minor: 0,
                        stream_id,
                        operation: ""@,
                    },
                ),
    {
        self.open_feature_stream_versioned(feature_id, 1, 0, 0, "".to_owned(), opening_payload)
    }

    /// The stream that a received header opens. A header that is not well formed
    /// resets its stream.
    pub fn read_feature_header(header: FeatureHeader) -> (stream: Result<
        FeatureStream,
        NetworkError,
    >)
        ensures
            result_view(stream) == incoming_stream(header@),
    {
        if !valid_feature_id(header.feature_id.as_str()) || header.feature_major == 0
            || header.min_feature_minor > header.max_feature_minor || header.stream_id == 0
            || !valid_operation(header.operation.as_str()) {
            return Err(protocol("invalid feature stream header"));
        }
        Ok(
            FeatureStream {
                feature_id: header.feature_id,
                opening_payload: header.body,
                feature_major: header.feature_major,
                min_feature_minor: header.min_feature_minor,
                max_feature_minor: header.max_feature_minor,
                stream_id: header.stream_id,
                operation: header.operation,
            },
        )
    }

    /// Whether another header may be read while `pending` are being read.
    pub fn may_accept_header(pending: usize) -> (may: bool)
        ensures
            may == (pending < MAX_PENDING_HEADERS),
    {
        pending < MAX_PENDING_HEADERS
    }
}

/// The highest version in two ranges, where they meet.
pub open spec fn common_minor(a_min: u32, a_max: u32, b_min: u32, b_max: u32) -> Option<u32> {
    let low = if a_min >= b_min {
        a_min
    } else {
        b_min
    };
    let high = if a_max <= b_max {
        a_max
    } else {
        b_max
    };
    if low <= high {
        Some(high)
    } else {
        None
    }
}

/// The version lies in the range.
pub open spec fn in_range(min: u32, max: u32, minor: u32) -> bool {
    min <= minor <= max
}

/// Both sides settle on the same version. It lies in both ranges, no higher one
/// does, and there is one wherever the ranges meet.
pub proof fn law_common_minor(a_min: u32, a_max: u32, b_min: u32, b_max: u32)
    ensures
        common_minor(a_min, a_max, b_min, b_max) == common_minor(b_min, b_max, a_min, a_max),
        match common_minor(a_min, a_max, b_min, b_max) {
            Some(minor) => in_range(a_min, a_max, minor) && in_range(b_min, b_max, minor)
                && forall|v: u32| #[trigger]
                in_range(a_min, a_max, v) && in_range(b_min, b_max, v) ==> v <= minor,
            None => forall|v: u32| !(#[trigger] in_range(a_min, a_max, v) && in_range(b_min, b_max, v)),
        },
{
}

/// The highest version in two ranges, where they meet.
pub fn highest_common(a_min: u32, a_max: u32, b_min: u32, b_max: u32) -> (minor: Option<u32>)
    ensures
        minor == common_minor(a_min, a_max, b_min, b_max),
{
    let low: u32 = if a_min >= b_min {
        a_min
    } else {
        b_min
    };
    let high: u32 = if a_max <= b_max {
        a_max
    } else {
        b_max
    };
    if low <= high {
        Some(high)
    } else {
        None
    }
}

/// The version in which a stream runs with a service that supports these.
pub open spec fn negotiated(
    stream: FeatureHeaderView,
    supported_major: u32,
    supported_min_minor: u32,
    supported_max_minor: u32,
) -> Result<u32, NetworkErrorView> {
    if stream.feature_major != supported_major || supported_min_minor > supported_max_minor {
        Err(NetworkErrorView::Protocol("unsupported feature major version"@))
    } else {
        match common_minor(
            stream.min_feature_minor,
            stream.max_feature_minor,
            supported_min_minor,
            supported_max_minor,
        ) {
            Some(minor) => Ok(minor),
            None => Err(NetworkErrorView::Protocol("no compatible feature minor version"@)),
        }
    }
}

impl FeatureStream {
    /// The version in which the stream runs with a service that supports these.
    pub fn negotiate_minor(
        &self,
        supported_major: u32,
        supported_min_minor: u32,
        supported_max_minor: u32,
    ) -> (minor: Result<u32, NetworkError>)
        ensures
            plain_result(minor) == negotiated(
                self@,
                supported_major,
                supported_min_minor,
                supported_max_minor,
            ),
    {
        if self.feature_major != supported_major || supported_min_minor > supported_max_minor {
            return Err(protocol("unsupported feature major version"));
        }
        match highest_common(
            self.min_feature_minor,
            self.max_feature_minor,
            supported_min_minor,
            supported_max_minor,
        ) {
            Some(minor) => Ok(minor),
            None => Err(protocol("no compatible feature minor version")),
        }
    }
}

/// A kind needs no pairing exactly where it is for pairing, for sending files or
/// for probing.
pub proof fn law_nearby_kinds(kind: SessionKind)
    ensures
        kind.nearby() <==> kind != SessionKind::Control && kind != SessionKind::RealtimeInput && kind
            != SessionKind::Print,
{
}

/// Of two ranks of different sides the one of the lower device id comes first,
/// whatever the nonces, and of two of one side the one of the lower nonce.
pub proof fn law_rank_order(a: SessionRankView, b: SessionRankView)
    ensures
        a.initiator_id != b.initiator_id ==> (a.before(b) <==> seq_before(
            text_key(a.initiator_id),
            text_key(b.initiator_id),
        )),
        a.initiator_id == b.initiator_id ==> (a.before(b) <==> seq_before(
            byte_key(a.initiator_nonce),
            byte_key(b.initiator_nonce),
        )),
        !(a.before(b) && b.before(a)),
        a.before(b) || b.before(a) || a == b,
{
    lemma_before_total(text_key(a.initiator_id), text_key(b.initiator_id));
    lemma_before_total(byte_key(a.initiator_nonce), byte_key(b.initiator_nonce));
    if text_key(a.initiator_id) == text_key(b.initiator_id) {
        lemma_text_key_injective(a.initiator_id, b.initiator_id);
    }
    if byte_key(a.initiator_nonce) == byte_key(b.initiator_nonce) {
        lemma_byte_key_injective(a.initiator_nonce, b.initiator_nonce);
    }
    if seq_before(text_key(a.initiator_id), text_key(b.initiator_id)) {
        lemma_before_asymmetric(text_key(a.initiator_id), text_key(b.initiator_id));
    }
    if seq_before(text_key(b.initiator_id), text_key(a.initiator_id)) {
        lemma_before_asymmetric(text_key(b.initiator_id), text_key(a.initiator_id));
    }
    if seq_before(byte_key(a.initiator_nonce), byte_key(b.initiator_nonce)) {
        lemma_before_asymmetric(byte_key(a.initiator_nonce), byte_key(b.initiator_nonce));
    }
    if seq_before(byte_key(b.initiator_nonce), byte_key(a.initiator_nonce)) {
        lemma_before_asymmetric(byte_key(b.initiator_nonce), byte_key(a.initiator_nonce));
    }
}

/// A header stands on a stream exactly where its versions make a range, it has a
/// major version, and its names are made of lower case letters, digits, `.`, `-`
/// and `_`: that of the feature of 1 to 128 bytes, that of the operation of at most
/// 64. A received one also has a number. It is taken as it is.
pub proof fn law_header_that_is_taken(header: FeatureHeaderView)
    ensures
        ({
            let plain = |text: Seq<char>|
                forall|i: int|
                    0 <= i < encode_utf8(text).len() ==> {
                        let byte = #[trigger] encode_utf8(text)[i];
                        'a' as u8 <= byte <= 'z' as u8 || '0' as u8 <= byte <= '9' as u8 || byte
                            == '.' as u8 || byte == '-' as u8 || byte == '_' as u8
                    };
            let good = 1 <= encode_utf8(header.feature_id).len() <= 128 && plain(header.feature_id)
                && encode_utf8(header.operation).len() <= 64 && plain(header.operation)
                && header.feature_major > 0 && header.min_feature_minor <= header.max_feature_minor;
            &&& outgoing_header(header) is Ok <==> good
            &&& incoming_stream(header) is Ok <==> good && header.stream_id != 0
            &&& outgoing_header(header) matches Ok(sent) ==> sent == header
            &&& incoming_stream(header) matches Ok(taken) ==> taken == header
        }),
{
    lemma_name(header.feature_id);
    lemma_name(header.operation);
}

/// What the bytes of a name are.
proof fn lemma_name(text: Seq<char>)
    ensures
        is_name(text) <==> forall|i: int|
            0 <= i < encode_utf8(text).len() ==> {
                let byte = #[trigger] encode_utf8(text)[i];
                'a' as u8 <= byte <= 'z' as u8 || '0' as u8 <= byte <= '9' as u8 || byte
                    == '.' as u8 || byte == '-' as u8 || byte == '_' as u8
            },
{
    if is_name(text) {
        assert forall|i: int| 0 <= i < encode_utf8(text).len() implies {
            let byte = #[trigger] encode_utf8(text)[i];
            'a' as u8 <= byte <= 'z' as u8 || '0' as u8 <= byte <= '9' as u8 || byte == '.' as u8
                || byte == '-' as u8 || byte == '_' as u8
        } by {
            assert(name_byte(encode_utf8(text)[i]));
        }
    }
}

/// A stream runs exactly where the major versions agree and some minor version is
/// spoken by both, and it runs in the highest of them.
pub proof fn law_version_of_a_stream(stream: FeatureHeaderView, major: u32, min: u32, max: u32)
    requires
        min <= max,
        stream.min_feature_minor <= stream.max_feature_minor,
    ensures
        negotiated(stream, major, min, max) is Ok <==> stream.feature_major == major && min
            <= stream.max_feature_minor && stream.min_feature_minor <= max,
        negotiated(stream, major, min, max) matches Ok(chosen) ==> {
            &&& min <= chosen <= max
            &&& stream.min_feature_minor <= chosen <= stream.max_feature_minor
            &&& chosen == max || chosen == stream.max_feature_minor
        },
{
}

} // verus!
