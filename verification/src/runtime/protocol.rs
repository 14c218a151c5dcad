//! The handshake of a session: what the two sides say, what each checks, and
//! what both derive from it.
use vstd::prelude::*;
use vstd::string::*;
use vstd::utf8::*;

use crate::discovery::{
    DeviceMetadata, DeviceMetadataView, PeerAdvertisement, PeerAdvertisementView,
};
use crate::error::{
    invalid_identity, plain_result, protocol, repository_failed, result_view, unauthorized,
    NetworkError, NetworkErrorView,
};
use crate::identity::{transcript, verdict, verify_signature, DeviceIdentity, SigningDomains};
use crate::order::{
    lemma_before_asymmetric, lemma_before_total, lemma_text_key_injective, seq_before, text_before,
    text_key,
};
use crate::peer::{
    DeviceId, DevicePublicKey, DeviceSignature, PeerRecord, PeerRecordView, SigningContext,
    TrustState,
};
use crate::primitives::{
    append_big_endian, append_bytes, big_endian, ed25519_accepts, ed25519_decodes,
    ed25519_public_key, ed25519_signature, encodes_neutral_point, epoch_number, lemma_big_endian_injective, now_ms, random_nonce,
    random_nonzero_u64, sha256, sha256_digest, to_array16, to_array32,
};
use crate::runtime::session::{
    common_minor, highest_common, instance_view, law_kind_round_trip, Session, SessionKind,
    SessionPeer, SessionPeerView, SessionRank, SessionRankView, SessionView,
};
use crate::text::{
    byte_len, copy_bytes, lemma_padded_shape, padded, padded_text, same_bytes, same_text, utf8_len,
};
use crate::wire::WireProtocol;

verus! {

/// The largest frame of a handshake, in bytes.
pub const HANDSHAKE_FRAME_LIMIT: usize = 65_536;

/// How long a handshake may take, in milliseconds.
pub const HANDSHAKE_TIMEOUT_MS: u64 = 12_000;

/// The label under which both sides derive a secret from the TLS connection.
pub const TLS_EXPORTER_LABEL: &'static str = "EXPORTER-ArcRelay-v1-session";

/// Who dialed a session.
#[derive(Debug, Clone, Copy, PartialEq, Eq, Structural)]
pub enum Direction {
    Inbound,
    Outbound,
}

/// The first message of each side.
#[derive(Debug)]
pub struct SessionHello {
    pub protocol_major: u32,
    pub session_kind: i32,
    pub device_id: String,
    pub device_name: String,
    pub platform: String,
    pub model: String,
    pub nonce: Vec<u8>,
    pub root_public_key: Vec<u8>,
    pub endpoint_certificate_sha256: Vec<u8>,
    pub endpoint_binding_signature: Vec<u8>,
    pub min_protocol_minor: u32,
    pub max_protocol_minor: u32,
}

/// What a [`SessionHello`] says.
pub struct SessionHelloView {
    pub protocol_major: u32,
    pub session_kind: i32,
    pub device_id: Seq<char>,
    pub device_name: Seq<char>,
    pub platform: Seq<char>,
    pub model: Seq<char>,
    pub nonce: Seq<u8>,
    pub root_public_key: Seq<u8>,
    pub endpoint_certificate_sha256: Seq<u8>,
    pub endpoint_binding_signature: Seq<u8>,
    pub min_protocol_minor: u32,
    pub max_protocol_minor: u32,
}

impl View for SessionHello {
    type V = SessionHelloView;

    open spec fn view(&self) -> SessionHelloView {
        SessionHelloView {
            protocol_major: self.protocol_major,
            session_kind: self.session_kind,
            device_id: self.device_id@,
            device_name: self.device_name@,
            platform: self.platform@,
            model: self.model@,
            nonce: self.nonce@,
            root_public_key: self.root_public_key@,
            endpoint_certificate_sha256: self.endpoint_certificate_sha256@,
            endpoint_binding_signature: self.endpoint_binding_signature@,
            min_protocol_minor: self.min_protocol_minor,
            max_protocol_minor: self.max_protocol_minor,
        }
    }
}

/// What the identity fields of a hello were read as: the device id, the key,
/// whether the key belongs to the id, and the signature. Where one could not be
/// read, the reason stands in its place.
#[derive(Debug)]
pub struct IdentityClaims {
    pub device_id: Result<DeviceId, String>,
    pub public_key: Result<DevicePublicKey, String>,
    pub key_binding: Result<(), String>,
    pub signature: Result<DeviceSignature, String>,
}

/// What [`IdentityClaims`] say.
pub struct IdentityClaimsView {
    pub device_id: Result<Seq<char>, Seq<char>>,
    pub public_key: Result<Seq<u8>, Seq<char>>,
    pub key_binding: Result<(), Seq<char>>,
    pub signature: Result<Seq<u8>, Seq<char>>,
}

/// What a result with a reason says.
pub open spec fn reason_view<T: View>(result: Result<T, String>) -> Result<T::V, Seq<char>> {
    match result {
        Ok(value) => Ok(value@),
        Err(reason) => Err(reason@),
    }
}

/// What a check with a reason says.
pub open spec fn check_view(result: Result<(), String>) -> Result<(), Seq<char>> {
    match result {
        Ok(()) => Ok(()),
        Err(reason) => Err(reason@),
    }
}

impl View for IdentityClaims {
    type V = IdentityClaimsView;

    open spec fn view(&self) -> IdentityClaimsView {
        IdentityClaimsView {
            device_id: reason_view(self.device_id),
            public_key: reason_view(self.public_key),
            key_binding: check_view(self.key_binding),
            signature: reason_view(self.signature),
        }
    }
}

/// The versions and lengths of a hello are within their bounds.
pub open spec fn hello_in_bounds(hello: SessionHelloView, wire: WireProtocol) -> bool {
    &&& hello.protocol_major == wire.major
    &&& hello.min_protocol_minor <= hello.max_protocol_minor
    &&& wire.min_minor <= hello.max_protocol_minor
    &&& hello.min_protocol_minor <= wire.max_minor
    &&& hello.nonce.len() == 32
    &&& hello.endpoint_certificate_sha256.len() == 32
    &&& utf8_len(hello.device_name) <= 255
    &&& utf8_len(hello.platform) <= 64
    &&& utf8_len(hello.model) <= 255
}

/// The device that a hello with these claims introduces.
pub open spec fn introduced(
    hello: SessionHelloView,
    device_id: Seq<char>,
    public_key: Seq<u8>,
) -> SessionPeerView {
    SessionPeerView {
        device_id,
        public_key,
        metadata: DeviceMetadataView {
            name: hello.device_name,
            platform: hello.platform,
            model: hello.model,
        },
        certificate_sha256: hello.endpoint_certificate_sha256,
        listen_port: 0,
    }
}

/// The identity that the claims establish: the device id, its key, and the
/// endpoint certificate signed with the key. `domain` is that of endpoint
/// bindings.
pub open spec fn established(
    hello: SessionHelloView,
    claims: IdentityClaimsView,
    domain: Seq<u8>,
) -> Result<SessionPeerView, NetworkErrorView> {
    match (claims.device_id, claims.public_key, claims.key_binding, claims.signature) {
        (Err(reason), _, _, _) => Err(NetworkErrorView::InvalidIdentity(reason)),
        (Ok(_), Err(reason), _, _) => Err(NetworkErrorView::InvalidIdentity(reason)),
        (Ok(_), Ok(_), Err(reason), _) => Err(NetworkErrorView::InvalidIdentity(reason)),
        (Ok(_), Ok(_), Ok(_), Err(reason)) => Err(NetworkErrorView::InvalidIdentity(reason)),
        (Ok(id), Ok(key), Ok(_), Ok(signature)) => match verdict(
            key,
            transcript(domain, hello.endpoint_certificate_sha256),
            signature,
        ) {
            Ok(()) => Ok(introduced(hello, id, key)),
            Err(error) => Err(error),
        },
    }
}

/// What a hello comes to: the device that it introduces, or the first thing that
/// is wrong with it.
pub open spec fn hello_verdict(
    hello: SessionHelloView,
    expected_kind: Option<SessionKind>,
    claims: IdentityClaimsView,
    wire: WireProtocol,
    domain: Seq<u8>,
) -> Result<SessionPeerView, NetworkErrorView> {
    if !hello_in_bounds(hello, wire) {
        Err(NetworkErrorView::Protocol("invalid session hello"@))
    } else {
        match SessionKind::from_number(hello.session_kind, wire.kinds) {
            Err(error) => Err(error),
            Ok(kind) => if expected_kind is Some && expected_kind != Some(kind) {
                Err(NetworkErrorView::Protocol("session kind mismatch"@))
            } else {
                established(hello, claims, domain)
            },
        }
    }
}

/// Checks a hello and says which device it introduces.
pub fn validate_hello(
    hello: &SessionHello,
    expected_kind: Option<SessionKind>,
    claims: IdentityClaims,
    wire: &WireProtocol,
    domains: &SigningDomains,
) -> (peer: Result<SessionPeer, NetworkError>)
    ensures
        result_view(peer) == hello_verdict(
            hello@,
            expected_kind,
            claims@,
            *wire,
            domains.of(SigningContext::EndpointBinding),
        ),
{
    if hello.protocol_major != wire.major || hello.min_protocol_minor > hello.max_protocol_minor
        || hello.max_protocol_minor < wire.min_minor || hello.min_protocol_minor > wire.max_minor
        || hello.nonce.len() != 32 || hello.endpoint_certificate_sha256.len() != 32 || byte_len(
        hello.device_name.as_str(),
    ) > 255 || byte_len(hello.platform.as_str()) > 64 || byte_len(hello.model.as_str()) > 255 {
        return Err(protocol("invalid session hello"));
    }
    let kind = match SessionKind::decode(hello.session_kind, &wire.kinds) {
        Ok(kind) => kind,
        Err(error) => {
            return Err(error);
        },
    };
    if let Some(expected) = expected_kind {
        if expected != kind {
            return Err(protocol("session kind mismatch"));
        }
    }
    let device_id = match claims.device_id {
        Ok(id) => id,
        Err(reason) => {
            return Err(NetworkError::InvalidIdentity(reason));
        },
    };
    let public_key = match claims.public_key {
        Ok(key) => key,
        Err(reason) => {
            return Err(NetworkError::InvalidIdentity(reason));
        },
    };
    if let Err(reason) = claims.key_binding {
        return Err(NetworkError::InvalidIdentity(reason));
    }
    let certificate_sha256 = match to_array32(hello.endpoint_certificate_sha256.as_slice()) {
        Some(digest) => digest,
        None => {
            return Err(invalid_identity("certificate digest length"));
        },
    };
    let signature = match claims.signature {
        Ok(signature) => signature,
        Err(reason) => {
            return Err(NetworkError::InvalidIdentity(reason));
        },
    };
    if let Err(error) = verify_signature(
        domains,
        &public_key,
        SigningContext::EndpointBinding,
        certificate_sha256.as_slice(),
        &signature,
    ) {
        return Err(error);
    }
    Ok(
        SessionPeer {
            device_id,
            public_key,
            metadata: DeviceMetadata {
                name: hello.device_name.clone(),
                platform: hello.platform.clone(),
                model: hello.model.clone(),
            },
            certificate_sha256,
            listen_port: 0,
        },
    )
}

/// The hello of a device.
pub open spec fn own_hello(
    device_id: Seq<char>,
    public_key: Seq<u8>,
    certificate_sha256: Seq<u8>,
    signature: Seq<u8>,
    metadata: DeviceMetadataView,
    kind: SessionKind,
    nonce: Seq<u8>,
    wire: WireProtocol,
) -> SessionHelloView {
    SessionHelloView {
        protocol_major: wire.major,
        session_kind: kind.number(wire.kinds),
        device_id,
        device_name: metadata.name,
        platform: metadata.platform,
        model: metadata.model,
        nonce,
        root_public_key: public_key,
        endpoint_certificate_sha256: certificate_sha256,
        endpoint_binding_signature: signature,
        min_protocol_minor: wire.min_minor,
        max_protocol_minor: wire.max_minor,
    }
}

/// The signature that binds the endpoint certificate to an identity.
pub open spec fn binding_signature(identity: DeviceIdentity) -> Seq<u8> {
    ed25519_signature(
        identity.root(),
        transcript(
            identity.domain_of(SigningContext::EndpointBinding),
            sha256_digest(identity.certificate()),
        ),
    )
}

/// The hello of this device with the nonce `nonce`.
pub fn hello_with_nonce(
    identity: &DeviceIdentity,
    metadata: &DeviceMetadata,
    kind: SessionKind,
    nonce: [u8; 32],
    wire: &WireProtocol,
) -> (hello: SessionHello)
    ensures
        hello@ == own_hello(
            identity.id(),
            ed25519_public_key(identity.root()),
            sha256_digest(identity.certificate()),
            binding_signature(*identity),
            metadata@,
            kind,
            nonce@,
            *wire,
        ),
        !encodes_neutral_point(binding_signature(*identity).take(32)) ==> verdict(
            ed25519_public_key(identity.root()),
            transcript(
                identity.domain_of(SigningContext::EndpointBinding),
                sha256_digest(identity.certificate()),
            ),
            binding_signature(*identity),
        ) == Ok::<(), NetworkErrorView>(()),
        sha256_digest(identity.certificate()).len() == 32,
{
    let id = identity.device_id();
    let digest = identity.certificate_sha256();
    let key = identity.public_key_value();
    let signature = identity.endpoint_binding_signature();
    assert(digest@.len() == 32);
    SessionHello {
        protocol_major: wire.major,
        session_kind: kind.encode(&wire.kinds),
        device_id: id.as_str().to_owned(),
        device_name: metadata.name.clone(),
        platform: metadata.platform.clone(),
        model: metadata.model.clone(),
        nonce: copy_bytes(nonce.as_slice()),
        root_public_key: copy_bytes(key.as_bytes()),
        endpoint_certificate_sha256: copy_bytes(digest.as_slice()),
        endpoint_binding_signature: copy_bytes(signature.as_bytes()),
        min_protocol_minor: wire.min_minor,
        max_protocol_minor: wire.max_minor,
    }
}

/// The hello of this device, with a random nonce of 32 bytes.
pub fn local_hello(
    identity: &DeviceIdentity,
    metadata: &DeviceMetadata,
    kind: SessionKind,
    wire: &WireProtocol,
) -> (hello: SessionHello)
    ensures
        hello@.nonce.len() == 32,
        hello@ == own_hello(
            identity.id(),
            ed25519_public_key(identity.root()),
            sha256_digest(identity.certificate()),
            binding_signature(*identity),
            metadata@,
            kind,
            hello@.nonce,
            *wire,
        ),
{
    let nonce = random_nonce();
    assert(nonce@.len() == 32);
    hello_with_nonce(identity, metadata, kind, nonce, wire)
}

/// The hello of a device passes the checks of another that speaks the same
/// protocol: it introduces the device with its key, metadata and certificate.
pub proof fn law_own_hello_is_accepted(
    device_id: Seq<char>,
    public_key: Seq<u8>,
    certificate_sha256: Seq<u8>,
    signature: Seq<u8>,
    metadata: DeviceMetadataView,
    kind: SessionKind,
    nonce: Seq<u8>,
    wire: WireProtocol,
    domain: Seq<u8>,
)
    requires
        wire.min_minor <= wire.max_minor,
        wire.kinds.distinct(),
        nonce.len() == 32,
        certificate_sha256.len() == 32,
        utf8_len(metadata.name) <= 255,
        utf8_len(metadata.platform) <= 64,
        utf8_len(metadata.model) <= 255,
        verdict(public_key, transcript(domain, certificate_sha256), signature) == Ok::<
            (),
            NetworkErrorView,
        >(()),
    ensures
        ({
            let hello = own_hello(
                device_id,
                public_key,
                certificate_sha256,
                signature,
                metadata,
                kind,
                nonce,
                wire,
            );
            let claims = IdentityClaimsView {
                device_id: Ok(device_id),
                public_key: Ok(public_key),
                key_binding: Ok(()),
                signature: Ok(signature),
            };
            hello_verdict(hello, Some(kind), claims, wire, domain) == Ok::<_, NetworkErrorView>(
                SessionPeerView {
                    device_id,
                    public_key,
                    metadata,
                    certificate_sha256,
                    listen_port: 0,
                },
            )
        }),
{
    law_kind_round_trip(kind, 0, wire.kinds);
}

/// The minor version that two hellos settle on.
pub open spec fn settled_minor(local: SessionHelloView, remote: SessionHelloView) -> Result<
    u32,
    NetworkErrorView,
> {
    match common_minor(
        local.min_protocol_minor,
        local.max_protocol_minor,
        remote.min_protocol_minor,
        remote.max_protocol_minor,
    ) {
        Some(minor) => Ok(minor),
        None => Err(NetworkErrorView::Protocol("no compatible protocol minor version"@)),
    }
}

/// The minor version that two hellos settle on: the highest that both speak.
pub fn negotiate_protocol_minor(local: &SessionHello, remote: &SessionHello) -> (minor: Result<
    u32,
    NetworkError,
>)
    ensures
        plain_result(minor) == settled_minor(local@, remote@),
{
    match highest_common(
        local.min_protocol_minor,
        local.max_protocol_minor,
        remote.min_protocol_minor,
        remote.max_protocol_minor,
    ) {
        Some(minor) => Ok(minor),
        None => Err(protocol("no compatible protocol minor version")),
    }
}

/// The process that a peer names: none where it names none, otherwise 16 bytes.
pub open spec fn named_instance(value: Seq<u8>) -> Result<Option<Seq<u8>>, NetworkErrorView> {
    if value.len() == 0 {
        Ok(None)
    } else if value.len() == 16 {
        Ok(Some(value))
    } else {
        Err(NetworkErrorView::Protocol("invalid peer process instance id"@))
    }
}

/// The process that a peer names.
pub fn validate_process_instance_id(value: &[u8]) -> (instance: Result<
    Option<[u8; 16]>,
    NetworkError,
>)
    ensures
        match instance {
            Ok(instance) => named_instance(value@) == Ok::<_, NetworkErrorView>(
                instance_view(instance),
            ),
            Err(error) => named_instance(value@) == Err::<Option<Seq<u8>>, _>(error@),
        },
{
    if value.len() == 0 {
        return Ok(None);
    }
    match to_array16(value) {
        Some(instance) => {
            assert(instance@.len() == 16);
            Ok(Some(instance))
        },
        None => Err(protocol("invalid peer process instance id")),
    }
}

/// A message with its length in front.
pub open spec fn framed(message: Seq<u8>) -> Seq<u8> {
    big_endian(message.len() as u64) + message
}

/// What both sides sign: the hellos, the one of the lower device id first, and
/// the secret of the TLS connection.
pub open spec fn session_bytes(first: Seq<u8>, second: Seq<u8>, exporter: Seq<u8>) -> Seq<u8> {
    encode_utf8("arcrelay.session-transcript.v1\0"@) + framed(first) + framed(second) + exporter
}

/// What a side signs, given its own id and hello and those of the other side.
pub open spec fn signed_by(
    local_id: Seq<char>,
    remote_id: Seq<char>,
    local: Seq<u8>,
    remote: Seq<u8>,
    exporter: Seq<u8>,
) -> Seq<u8> {
    if seq_before(text_key(remote_id), text_key(local_id)) {
        session_bytes(remote, local, exporter)
    } else {
        session_bytes(local, remote, exporter)
    }
}

/// Both sides of a session sign the same bytes, and so show the same code.
pub proof fn law_both_sides_sign_the_same(
    a_id: Seq<char>,
    b_id: Seq<char>,
    a: Seq<u8>,
    b: Seq<u8>,
    exporter: Seq<u8>,
)
    requires
        a_id != b_id,
    ensures
        signed_by(a_id, b_id, a, b, exporter) == signed_by(b_id, a_id, b, a, exporter),
        shown_code(sha256_digest(signed_by(a_id, b_id, a, b, exporter))) == shown_code(
            sha256_digest(signed_by(b_id, a_id, b, a, exporter)),
        ),
{
    let x = text_key(a_id);
    let y = text_key(b_id);
    lemma_before_total(x, y);
    if x == y {
        lemma_text_key_injective(a_id, b_id);
    }
    if seq_before(x, y) {
        lemma_before_asymmetric(x, y);
    } else {
        lemma_before_asymmetric(y, x);
    }
}

/// Sessions that differ in a hello or in the TLS connection sign different
/// bytes.
pub proof fn law_session_bytes_are_injective(
    a: Seq<u8>,
    b: Seq<u8>,
    exporter: Seq<u8>,
    other_a: Seq<u8>,
    other_b: Seq<u8>,
    other_exporter: Seq<u8>,
)
    requires
        a.len() <= u64::MAX,
        b.len() <= u64::MAX,
        other_a.len() <= u64::MAX,
        other_b.len() <= u64::MAX,
        session_bytes(a, b, exporter) == session_bytes(other_a, other_b, other_exporter),
    ensures
        a == other_a,
        b == other_b,
        exporter == other_exporter,
{
    let label = encode_utf8("arcrelay.session-transcript.v1\0"@);
    let n = label.len() as int;
    let x = session_bytes(a, b, exporter);
    let y = session_bytes(other_a, other_b, other_exporter);
    let x_rest = framed(a) + framed(b) + exporter;
    let y_rest = framed(other_a) + framed(other_b) + other_exporter;
    assert(x =~= label + x_rest);
    assert(y =~= label + y_rest);
    assert(x_rest =~= x.skip(n));
    assert(y_rest =~= y.skip(n));
    assert(x_rest =~= framed(a) + (framed(b) + exporter));
    assert(y_rest =~= framed(other_a) + (framed(other_b) + other_exporter));
    lemma_framed_injective(a, framed(b) + exporter, other_a, framed(other_b) + other_exporter);
    lemma_framed_injective(b, exporter, other_b, other_exporter);
}

proof fn lemma_framed_injective(a: Seq<u8>, rest: Seq<u8>, b: Seq<u8>, other_rest: Seq<u8>)
    requires
        a.len() <= u64::MAX,
        b.len() <= u64::MAX,
        framed(a) + rest == framed(b) + other_rest,
    ensures
        a == b,
        rest == other_rest,
{
    let x = framed(a) + rest;
    let y = framed(b) + other_rest;
    let p = big_endian(a.len() as u64);
    let q = big_endian(b.len() as u64);
    assert(p.len() == 8 && q.len() == 8);
    assert(x.subrange(0, 8) =~= p);
    assert(y.subrange(0, 8) =~= q);
    lemma_big_endian_injective(a.len() as u64, b.len() as u64);
    assert(x.subrange(8, (8 + a.len()) as int) =~= a);
    assert(y.subrange(8, (8 + b.len()) as int) =~= b);
    assert(x.skip((8 + a.len()) as int) =~= rest);
    assert(y.skip((8 + b.len()) as int) =~= other_rest);
}

/// Puts a message with its length behind what is there.
pub fn append_message(target: &mut Vec<u8>, encoded: &[u8])
    ensures
        final(target)@ == old(target)@ + framed(encoded@),
{
    append_big_endian(target, encoded.len() as u64);
    append_bytes(target, encoded);
    assert(target@ =~= old(target)@ + framed(encoded@));
}

/// What this side signs. `exporter` is the secret of the TLS connection, where
/// the connection gives one.
pub fn session_transcript(
    local_id: &str,
    remote_id: &str,
    local: &[u8],
    remote: &[u8],
    exporter: &Option<[u8; 32]>,
) -> (bytes: Result<Vec<u8>, NetworkError>)
    ensures
        result_view(bytes) == match *exporter {
            Some(exporter) => Ok(signed_by(local_id@, remote_id@, local@, remote@, exporter@)),
            None => Err(NetworkErrorView::Tls("TLS exporter is unavailable"@)),
        },
{
    match exporter {
        None => Err(NetworkError::Tls("TLS exporter is unavailable".to_owned())),
        Some(exporter) => {
            let mut bytes: Vec<u8> = Vec::new();
            append_bytes(&mut bytes, "arcrelay.session-transcript.v1\0".as_bytes());
            if text_before(remote_id, local_id) {
                append_message(&mut bytes, remote);
                append_message(&mut bytes, local);
            } else {
                append_message(&mut bytes, local);
                append_message(&mut bytes, remote);
            }
            append_bytes(&mut bytes, exporter.as_slice());
            assert(bytes@ =~= signed_by(local_id@, remote_id@, local@, remote@, exporter@));
            Ok(bytes)
        },
    }
}

/// The number in the first four bytes of a digest.
pub open spec fn leading_number(digest: Seq<u8>) -> nat {
    (((digest[0] as nat * 256 + digest[1] as nat) * 256 + digest[2] as nat) * 256
        + digest[3] as nat) as nat
}

/// The code that both sides show for a digest: six digits.
pub open spec fn shown_code(digest: Seq<u8>) -> Seq<char> {
    padded(leading_number(digest) % 1_000_000, 6)
}

/// The code has six decimal digits, whatever was signed.
pub proof fn law_code_has_six_digits(digest: Seq<u8>)
    ensures
        shown_code(digest).len() == 6,
        forall|i: int| 0 <= i < 6 ==> '0' <= #[trigger] shown_code(digest)[i] <= '9',
{
    lemma_padded_shape(leading_number(digest) % 1_000_000, 6);
}

/// The code that both sides show for a digest.
pub fn code_of_digest(digest: &[u8; 32]) -> (code: String)
    ensures
        code@ == shown_code(digest@),
{
    let number: u64 = ((digest[0] as u64 * 256 + digest[1] as u64) * 256 + digest[2] as u64) * 256
        + digest[3] as u64;
    padded_text((number % 1_000_000) as u32, 6)
}

/// The code that both sides of a session show.
pub fn verification_code(transcript: &[u8]) -> (code: String)
    ensures
        code@ == shown_code(sha256_digest(transcript@)),
{
    let digest = sha256(transcript);
    code_of_digest(&digest)
}

/// The second message of each side: the signature under what was said.
#[derive(Debug)]
pub struct SessionAuth {
    pub device_id: String,
    pub signature: Vec<u8>,
}

/// What a handshake settles on once the hellos are exchanged: the kind of the
/// session, the version, and what both sides sign.
pub open spec fn settled(
    own_id: Seq<char>,
    peer_id: Seq<char>,
    local: SessionHelloView,
    remote: SessionHelloView,
    local_encoded: Seq<u8>,
    remote_encoded: Seq<u8>,
    exporter: Option<[u8; 32]>,
    wire: WireProtocol,
) -> Result<(SessionKind, u32, Seq<u8>), NetworkErrorView> {
    if peer_id == own_id {
        Err(NetworkErrorView::SelfConnection)
    } else {
        match (
            SessionKind::from_number(remote.session_kind, wire.kinds),
            settled_minor(local, remote),
            exporter,
        ) {
            (Err(error), _, _) => Err(error),
            (Ok(_), Err(error), _) => Err(error),
            (Ok(_), Ok(_), None) => Err(NetworkErrorView::Tls("TLS exporter is unavailable"@)),
            (Ok(kind), Ok(minor), Some(exporter)) => Ok(
                (
                    kind,
                    minor,
                    signed_by(
                        local.device_id,
                        remote.device_id,
                        local_encoded,
                        remote_encoded,
                        exporter@,
                    ),
                ),
            ),
        }
    }
}

/// Both sides of a connection settle alike: on the same kind, the same version
/// and the same bytes to sign, or both on none. So both show the same code.
pub proof fn law_both_sides_settle_alike(
    a: SessionHelloView,
    b: SessionHelloView,
    a_encoded: Seq<u8>,
    b_encoded: Seq<u8>,
    exporter: [u8; 32],
    wire: WireProtocol,
)
    requires
        a.device_id != b.device_id,
        a.session_kind == b.session_kind,
    ensures
        settled(
            a.device_id,
            b.device_id,
            a,
            b,
            a_encoded,
            b_encoded,
            Some(exporter),
            wire,
        ) == settled(
            b.device_id,
            a.device_id,
            b,
            a,
            b_encoded,
            a_encoded,
            Some(exporter),
            wire,
        ),
{
    law_both_sides_sign_the_same(a.device_id, b.device_id, a_encoded, b_encoded, exporter@);
}

/// What a handshake goes on from once the hellos are exchanged.
pub struct HandshakeView {
    pub own_id: Seq<char>,
    /// The device that the hello of the other side introduces.
    pub peer: SessionPeerView,
    pub direction: Direction,
    pub local: SessionHelloView,
    pub remote: SessionHelloView,
    pub local_encoded: Seq<u8>,
    pub remote_encoded: Seq<u8>,
    pub exporter: Option<[u8; 32]>,
    pub wire: WireProtocol,
    /// The domain in which both sides sign.
    pub domain: Seq<u8>,
}

impl HandshakeView {
    /// What the handshake settles on.
    pub open spec fn settles(self) -> Result<(SessionKind, u32, Seq<u8>), NetworkErrorView> {
        settled(
            self.own_id,
            self.peer.device_id,
            self.local,
            self.remote,
            self.local_encoded,
            self.remote_encoded,
            self.exporter,
            self.wire,
        )
    }
}

/// A handshake once the hellos are exchanged: both sides know what to sign.
pub struct Handshake {
    own_id: DeviceId,
    peer: SessionPeer,
    direction: Direction,
    local_nonce: Vec<u8>,
    remote_nonce: Vec<u8>,
    kind: SessionKind,
    protocol_minor: u32,
    transcript: Vec<u8>,
    auth: SessionAuth,
    domains: SigningDomains,
    from: Ghost<HandshakeView>,
}

impl Handshake {
    #[verifier::type_invariant]
    spec fn consistent(self) -> bool {
        let from = self.from@;
        &&& from.settles() == Ok::<_, NetworkErrorView>(
            (self.kind, self.protocol_minor, self.transcript@),
        )
        &&& self.own_id@ == from.own_id
        &&& self.peer@ == from.peer
        &&& self.direction == from.direction
        &&& self.local_nonce@ == from.local.nonce
        &&& self.remote_nonce@ == from.remote.nonce
        &&& self.domains.of(SigningContext::SessionAuthentication) == from.domain
    }

    /// What the handshake goes on from.
    pub closed spec fn start(&self) -> HandshakeView {
        self.from@
    }

    /// What this side sends next.
    pub closed spec fn reply(&self) -> SessionAuth {
        self.auth
    }

    /// The kind of the session.
    pub fn kind(&self) -> (kind: SessionKind)
        ensures
            self.start().settles() is Ok,
            kind == self.start().settles()->Ok_0.0,
    {
        proof {
            use_type_invariant(self);
        }
        self.kind
    }

    /// The version that both sides speak.
    pub fn protocol_minor(&self) -> (minor: u32)
        ensures
            self.start().settles() is Ok,
            minor == self.start().settles()->Ok_0.1,
    {
        proof {
            use_type_invariant(self);
        }
        self.protocol_minor
    }

    /// What both sides sign.
    pub fn transcript(&self) -> (bytes: &[u8])
        ensures
            self.start().settles() is Ok,
            bytes@ == self.start().settles()->Ok_0.2,
    {
        proof {
            use_type_invariant(self);
        }
        self.transcript.as_slice()
    }

    /// What this side sends next.
    pub fn auth(&self) -> (auth: &SessionAuth)
        ensures
            *auth == self.reply(),
    {
        &self.auth
    }
}

/// Goes on with a handshake once the hellos are exchanged. `local_encoded` and
/// `remote_encoded` are the encodings of the hellos.
pub fn begin_authentication(
    identity: &DeviceIdentity,
    peer: SessionPeer,
    direction: Direction,
    local: &SessionHello,
    remote: &SessionHello,
    local_encoded: &[u8],
    remote_encoded: &[u8],
    exporter: &Option<[u8; 32]>,
    wire: &WireProtocol,
) -> (handshake: Result<Handshake, NetworkError>)
    ensures
        ({
            let from = HandshakeView {
                own_id: identity.id(),
                peer: peer@,
                direction,
                local: local@,
                remote: remote@,
                local_encoded: local_encoded@,
                remote_encoded: remote_encoded@,
                exporter: *exporter,
                wire: *wire,
                domain: identity.domain_of(SigningContext::SessionAuthentication),
            };
            match handshake {
                Err(error) => from.settles() == Err::<(SessionKind, u32, Seq<u8>), _>(error@),
                Ok(handshake) => {
                    let signed = transcript(from.domain, from.settles()->Ok_0.2);
                    let auth = handshake.reply();
                    &&& from.settles() is Ok
                    &&& handshake.start() == from
                    &&& auth.device_id@ == identity.id()
                    &&& auth.signature@ == ed25519_signature(identity.root(), signed)
                    &&& !encodes_neutral_point(auth.signature@.take(32)) ==> verdict(
                        ed25519_public_key(identity.root()),
                        signed,
                        auth.signature@,
                    ) == Ok::<(), NetworkErrorView>(())
                },
            }
        }),
{
    let ghost from = HandshakeView {
        own_id: identity.id(),
        peer: peer@,
        direction,
        local: local@,
        remote: remote@,
        local_encoded: local_encoded@,
        remote_encoded: remote_encoded@,
        exporter: *exporter,
        wire: *wire,
        domain: identity.domain_of(SigningContext::SessionAuthentication),
    };
    let own_id = identity.device_id();
    if peer.device_id.same(&own_id) {
        return Err(NetworkError::SelfConnection);
    }
    let kind = match SessionKind::decode(remote.session_kind, &wire.kinds) {
        Ok(kind) => kind,
        Err(error) => {
            return Err(error);
        },
    };
    let protocol_minor: u32 = match negotiate_protocol_minor(local, remote) {
        Ok(minor) => minor,
        Err(error) => {
            return Err(error);
        },
    };
    let transcript = match session_transcript(
        local.device_id.as_str(),
        remote.device_id.as_str(),
        local_encoded,
        remote_encoded,
        exporter,
    ) {
        Ok(bytes) => bytes,
        Err(error) => {
            return Err(error);
        },
    };
    let signature = identity.sign(SigningContext::SessionAuthentication, transcript.as_slice());
    let auth = SessionAuth {
        device_id: own_id.as_str().to_owned(),
        signature: copy_bytes(signature.as_bytes()),
    };
    Ok(
        Handshake {
            own_id,
            peer,
            direction,
            local_nonce: copy_bytes(local.nonce.as_slice()),
            remote_nonce: copy_bytes(remote.nonce.as_slice()),
            kind,
            protocol_minor,
            transcript,
            auth,
            domains: identity.domains().clone(),
            from: Ghost(from),
        },
    )
}

/// Whether the signature of the other side holds.
pub open spec fn auth_verdict(
    peer: SessionPeerView,
    auth_id: Seq<char>,
    signature: Result<Seq<u8>, Seq<char>>,
    transcript_bytes: Seq<u8>,
    domain: Seq<u8>,
) -> Result<(), NetworkErrorView> {
    if auth_id != peer.device_id {
        Err(NetworkErrorView::InvalidIdentity("session auth device id mismatch"@))
    } else {
        match signature {
            Err(reason) => Err(NetworkErrorView::InvalidIdentity(reason)),
            Ok(signature) => verdict(
                peer.public_key,
                transcript(domain, transcript_bytes),
                signature,
            ),
        }
    }
}

/// Checks the signature of the other side. `signature` is what the signature
/// bytes of the message were read as.
pub fn check_remote_auth(
    peer: &SessionPeer,
    auth_id: &str,
    signature: Result<DeviceSignature, String>,
    transcript: &[u8],
    domains: &SigningDomains,
) -> (outcome: Result<(), NetworkError>)
    ensures
        plain_result(outcome) == auth_verdict(
            peer@,
            auth_id@,
            reason_view(signature),
            transcript@,
            domains.of(SigningContext::SessionAuthentication),
        ),
{
    if !same_text(auth_id, peer.device_id.as_str()) {
        return Err(invalid_identity("session auth device id mismatch"));
    }
    match signature {
        Err(reason) => Err(NetworkError::InvalidIdentity(reason)),
        Ok(signature) => verify_signature(
            domains,
            &peer.public_key,
            SigningContext::SessionAuthentication,
            transcript,
            &signature,
        ),
    }
}

/// Honest sides authenticate each other: what one signs passes the check of the
/// other, which knows it by the same id and key.
pub proof fn law_honest_sides_authenticate(
    a_id: Seq<char>,
    b_id: Seq<char>,
    a: Seq<u8>,
    b: Seq<u8>,
    exporter: Seq<u8>,
    peer: SessionPeerView,
    signature: Seq<u8>,
    domain: Seq<u8>,
)
    requires
        a_id != b_id,
        peer.device_id == a_id,
        verdict(
            peer.public_key,
            transcript(domain, signed_by(a_id, b_id, a, b, exporter)),
            signature,
        ) == Ok::<(), NetworkErrorView>(()),
    ensures
        auth_verdict(
            peer,
            a_id,
            Ok(signature),
            signed_by(b_id, a_id, b, a, exporter),
            domain,
        ) == Ok::<(), NetworkErrorView>(()),
{
    law_both_sides_sign_the_same(a_id, b_id, a, b, exporter);
}

/// The third message of each side.
#[derive(Debug)]
pub struct SessionAccepted {
    pub session_id: u64,
    pub accepted_at_ms: i64,
    pub listen_port: u32,
    pub protocol_minor: u32,
    pub process_instance_id: Vec<u8>,
}

/// What a [`SessionAccepted`] says.
pub struct SessionAcceptedView {
    pub session_id: u64,
    pub accepted_at_ms: i64,
    pub listen_port: u32,
    pub protocol_minor: u32,
    pub process_instance_id: Seq<u8>,
}

impl View for SessionAccepted {
    type V = SessionAcceptedView;

    open spec fn view(&self) -> SessionAcceptedView {
        SessionAcceptedView {
            session_id: self.session_id,
            accepted_at_ms: self.accepted_at_ms,
            listen_port: self.listen_port,
            protocol_minor: self.protocol_minor,
            process_instance_id: self.process_instance_id@,
        }
    }
}

/// The third message of this side, under a session number and a time.
pub open spec fn acceptance_message(
    protocol_minor: u32,
    listen_port: u16,
    instance: Seq<u8>,
    session_id: u64,
    accepted_at_ms: i64,
) -> SessionAcceptedView {
    SessionAcceptedView {
        session_id,
        accepted_at_ms,
        listen_port: listen_port as u32,
        protocol_minor,
        process_instance_id: instance,
    }
}

/// The third message of this side, under a session number and a time.
pub fn accepted_with(
    protocol_minor: u32,
    listen_port: u16,
    instance: &[u8; 16],
    session_id: u64,
    accepted_at_ms: i64,
) -> (accepted: SessionAccepted)
    ensures
        accepted@ == acceptance_message(
            protocol_minor,
            listen_port,
            instance@,
            session_id,
            accepted_at_ms,
        ),
{
    SessionAccepted {
        session_id,
        accepted_at_ms,
        listen_port: listen_port as u32,
        protocol_minor,
        process_instance_id: copy_bytes(instance.as_slice()),
    }
}

/// The third message of this side, under a random session number that is not
/// zero and at the time of the clock.
pub fn accept_session(protocol_minor: u32, listen_port: u16, instance: &[u8; 16]) -> (accepted:
    SessionAccepted)
    ensures
        exists|session_id: u64, elapsed: Option<u128>|
            session_id != 0 && accepted@ == #[trigger] acceptance_message(
                protocol_minor,
                listen_port,
                instance@,
                session_id,
                epoch_number(elapsed),
            ),
{
    let session_id: u64 = random_nonzero_u64();
    let accepted_at_ms: i64 = now_ms();
    accepted_with(protocol_minor, listen_port, instance, session_id, accepted_at_ms)
}

/// What the third message of the other side comes to: the process that it
/// names.
pub open spec fn acceptance(protocol_minor: u32, remote: SessionAcceptedView) -> Result<
    Option<Seq<u8>>,
    NetworkErrorView,
> {
    if remote.session_id == 0 || remote.accepted_at_ms <= 0 {
        Err(NetworkErrorView::Protocol("invalid remote session id"@))
    } else if remote.protocol_minor != protocol_minor {
        Err(NetworkErrorView::Protocol("peer selected a different protocol minor version"@))
    } else {
        named_instance(remote.process_instance_id)
    }
}

/// The third message of one side is taken by the other, which learns its process
/// and its port from it. The clock of the sender stands after the epoch.
pub proof fn law_own_acceptance_is_taken(
    protocol_minor: u32,
    listen_port: u16,
    instance: [u8; 16],
    session_id: u64,
    accepted_at_ms: i64,
)
    requires
        session_id != 0,
        accepted_at_ms > 0,
    ensures
        ({
            let message = acceptance_message(
                protocol_minor,
                listen_port,
                instance@,
                session_id,
                accepted_at_ms,
            );
            acceptance(protocol_minor, message) == Ok::<_, NetworkErrorView>(Some(instance@))
                && port_or_zero(message.listen_port) == listen_port
        }),
{
}

/// The port of a message, zero where it is none.
pub open spec fn port_or_zero(port: u32) -> u16 {
    if port <= 65535 {
        port as u16
    } else {
        0
    }
}

/// The session that a handshake ends in.
pub open spec fn concluded(
    kind: SessionKind,
    protocol_minor: u32,
    code: Seq<char>,
    own_id: Seq<char>,
    peer: SessionPeerView,
    direction: Direction,
    local_nonce: Seq<u8>,
    remote_nonce: Seq<u8>,
    session_id: u64,
    remote: SessionAcceptedView,
) -> Result<SessionView, NetworkErrorView> {
    match acceptance(protocol_minor, remote) {
        Err(error) => Err(error),
        Ok(instance) => Ok(
            SessionView {
                id: session_id,
                kind,
                peer: SessionPeerView { listen_port: port_or_zero(remote.listen_port), ..peer },
                verification_code: code,
                rank: match direction {
                    Direction::Outbound => SessionRankView {
                        initiator_id: own_id,
                        initiator_nonce: local_nonce,
                    },
                    Direction::Inbound => SessionRankView {
                        initiator_id: peer.device_id,
                        initiator_nonce: remote_nonce,
                    },
                },
                protocol_minor,
                instance,
                relayed: false,
            },
        ),
    }
}

/// The two ends of a session rank it alike, and name the same initiator: the side
/// that dialed.
pub proof fn law_both_ends_rank_alike(
    kind: SessionKind,
    minor: u32,
    code: Seq<char>,
    dialer: SessionPeerView,
    listener: SessionPeerView,
    dialer_nonce: Seq<u8>,
    listener_nonce: Seq<u8>,
    dialer_session: u64,
    listener_session: u64,
    by_dialer: SessionAcceptedView,
    by_listener: SessionAcceptedView,
)
    requires
        acceptance(minor, by_dialer) is Ok,
        acceptance(minor, by_listener) is Ok,
    ensures
        ({
            let outbound = concluded(
                kind,
                minor,
                code,
                dialer.device_id,
                listener,
                Direction::Outbound,
                dialer_nonce,
                listener_nonce,
                dialer_session,
                by_listener,
            );
            let inbound = concluded(
                kind,
                minor,
                code,
                listener.device_id,
                dialer,
                Direction::Inbound,
                listener_nonce,
                dialer_nonce,
                listener_session,
                by_dialer,
            );
            &&& outbound matches Ok(at_dialer)
            &&& inbound matches Ok(at_listener)
            &&& at_dialer.rank == at_listener.rank
            &&& at_dialer.rank.initiator_id == dialer.device_id
            &&& at_dialer.verification_code == at_listener.verification_code
        }),
{
}

/// Concludes a handshake with a session that shows the code `code`.
pub fn conclude_session(
    kind: SessionKind,
    protocol_minor: u32,
    code: String,
    own_id: DeviceId,
    peer: SessionPeer,
    direction: Direction,
    local_nonce: &[u8],
    remote_nonce: &[u8],
    session_id: u64,
    remote: &SessionAccepted,
) -> (session: Result<Session, NetworkError>)
    ensures
        result_view(session) == concluded(
            kind,
            protocol_minor,
            code@,
            own_id@,
            peer@,
            direction,
            local_nonce@,
            remote_nonce@,
            session_id,
            remote@,
        ),
{
    if remote.session_id == 0 || remote.accepted_at_ms <= 0 {
        return Err(protocol("invalid remote session id"));
    }
    if remote.protocol_minor != protocol_minor {
        return Err(protocol("peer selected a different protocol minor version"));
    }
    let peer_process_instance_id = match validate_process_instance_id(
        remote.process_instance_id.as_slice(),
    ) {
        Ok(instance) => instance,
        Err(error) => {
            return Err(error);
        },
    };
    let listen_port: u16 = if remote.listen_port <= 65535 {
        remote.listen_port as u16
    } else {
        0
    };
    let rank = match direction {
        Direction::Outbound => SessionRank {
            initiator_id: own_id,
            initiator_nonce: copy_bytes(local_nonce),
        },
        Direction::Inbound => SessionRank {
            initiator_id: peer.device_id.clone(),
            initiator_nonce: copy_bytes(remote_nonce),
        },
    };
    Ok(
        Session {
            id: session_id,
            kind,
            peer: SessionPeer {
                device_id: peer.device_id,
                public_key: peer.public_key,
                metadata: peer.metadata,
                certificate_sha256: peer.certificate_sha256,
                listen_port,
            },
            verification_code: code,
            rank,
            protocol_minor,
            peer_process_instance_id,
            relayed: false,
        },
    )
}

/// The digest of the certificate that the peer showed.
pub fn observed_certificate_sha256(certificate: Option<&[u8]>) -> (digest: Result<
    [u8; 32],
    NetworkError,
>)
    ensures
        match (certificate, digest) {
            (Some(certificate), Ok(digest)) => digest@ == sha256_digest(certificate@),
            (None, Err(error)) => error@ == NetworkErrorView::InvalidIdentity(
                "peer TLS certificate is missing"@,
            ),
            _ => false,
        },
{
    match certificate {
        Some(certificate) => Ok(sha256(certificate)),
        None => Err(invalid_identity("peer TLS certificate is missing")),
    }
}

/// Checks that the certificate of a connection is the announced one.
pub fn check_advertised_certificate(observed: &[u8; 32], expected: &PeerAdvertisement) -> (outcome:
    Result<(), NetworkError>)
    ensures
        plain_result(outcome) == if observed@ == expected@.certificate_sha256 {
            Ok(())
        } else {
            Err(
                NetworkErrorView::InvalidIdentity(
                    "TLS certificate differs from discovery advertisement"@,
                ),
            )
        },
{
    if !same_bytes(observed.as_slice(), expected.certificate_sha256.as_slice()) {
        return Err(invalid_identity("TLS certificate differs from discovery advertisement"));
    }
    Ok(())
}

/// The certificate of the connection is the one that the device signed.
pub open spec fn bound_certificate(observed: Seq<u8>, peer: SessionPeerView) -> Result<
    (),
    NetworkErrorView,
> {
    if peer.certificate_sha256 == observed {
        Ok(())
    } else {
        Err(
            NetworkErrorView::InvalidIdentity(
                "TLS certificate differs from authenticated endpoint binding"@,
            ),
        )
    }
}

/// Checks that the certificate of a connection is the one that the device
/// signed. This is all that a probe of an unknown device can check.
pub fn authenticate_outbound_probe(observed: &[u8; 32], peer: &SessionPeer) -> (outcome: Result<
    (),
    NetworkError,
>)
    ensures
        plain_result(outcome) == bound_certificate(observed@, peer@),
{
    if !same_bytes(peer.certificate_sha256.as_slice(), observed.as_slice()) {
        return Err(invalid_identity("TLS certificate differs from authenticated endpoint binding"));
    }
    Ok(())
}

/// The device that was dialed is the announced one, and the certificate of the
/// connection is the one that it signed.
pub open spec fn announced_verdict(
    observed: Seq<u8>,
    peer: SessionPeerView,
    expected: PeerAdvertisementView,
) -> Result<(), NetworkErrorView> {
    if bound_certificate(observed, peer) is Err {
        bound_certificate(observed, peer)
    } else if peer.device_id == expected.device_id && peer.public_key == expected.public_key
        && peer.certificate_sha256 == expected.certificate_sha256 {
        Ok(())
    } else {
        Err(
            NetworkErrorView::InvalidIdentity(
                "authenticated identity differs from discovery advertisement"@,
            ),
        )
    }
}

/// Checks that the device that was dialed is the announced one.
pub fn authenticate_outbound(
    observed: &[u8; 32],
    peer: &SessionPeer,
    expected: &PeerAdvertisement,
) -> (outcome: Result<(), NetworkError>)
    ensures
        plain_result(outcome) == announced_verdict(observed@, peer@, expected@),
{
    if let Err(error) = authenticate_outbound_probe(observed, peer) {
        return Err(error);
    }
    if !peer.device_id.same(&expected.device_id) || !peer.public_key.same(&expected.public_key)
        || !same_bytes(
        peer.certificate_sha256.as_slice(),
        expected.certificate_sha256.as_slice(),
    ) {
        return Err(invalid_identity("authenticated identity differs from discovery advertisement"));
    }
    Ok(())
}

/// The device that was dialed is the paired one, and the certificate of the
/// connection is the one that it signed.
pub open spec fn paired_verdict(
    observed: Seq<u8>,
    peer: SessionPeerView,
    expected: PeerRecordView,
) -> Result<(), NetworkErrorView> {
    if peer.certificate_sha256 == observed && peer.device_id == expected.device_id
        && peer.public_key == expected.public_key {
        Ok(())
    } else {
        Err(NetworkErrorView::InvalidIdentity("remembered endpoint belongs to another device"@))
    }
}

/// A paired device may change its certificate, but only for one that is signed
/// with the key that was paired.
pub proof fn law_new_certificate_is_signed_by_the_paired_key(
    hello: SessionHelloView,
    kind: SessionKind,
    claims: IdentityClaimsView,
    wire: WireProtocol,
    domain: Seq<u8>,
    peer: SessionPeerView,
    observed: Seq<u8>,
    expected: PeerRecordView,
)
    requires
        hello_verdict(hello, Some(kind), claims, wire, domain) == Ok::<_, NetworkErrorView>(peer),
        paired_verdict(observed, peer, expected) is Ok,
    ensures
        claims.signature matches Ok(signature) && verdict(
            expected.public_key,
            transcript(domain, observed),
            signature,
        ) == Ok::<(), NetworkErrorView>(()),
{
}

/// Checks that the device that was dialed is the paired one. Its certificate may
/// have changed: the one of the connection must be signed with the paired key.
pub fn authenticate_outbound_paired(
    observed: &[u8; 32],
    peer: &SessionPeer,
    expected: &PeerRecord,
) -> (outcome: Result<(), NetworkError>)
    ensures
        plain_result(outcome) == paired_verdict(observed@, peer@, expected@),
{
    if !same_bytes(peer.certificate_sha256.as_slice(), observed.as_slice())
        || !peer.device_id.same(&expected.device_id) || !peer.public_key.same(
        &expected.public_key,
    ) {
        return Err(invalid_identity("remembered endpoint belongs to another device"));
    }
    Ok(())
}

/// Whether a device that connected is let in. While this device is hidden,
/// devices that are not paired cannot use the kinds that need no pairing.
pub fn authenticate_inbound(discoverable: bool, paired: bool, kind: SessionKind) -> (outcome: Result<
    (),
    NetworkError,
>)
    ensures
        plain_result(outcome) == if !discoverable && !paired && kind.nearby() {
            Err(
                NetworkErrorView::Unauthorized(
                    "device is not accepting new nearby connections"@,
                ),
            )
        } else {
            Ok(())
        },
{
    if !discoverable && !paired && kind.is_nearby() {
        return Err(unauthorized("device is not accepting new nearby connections"));
    }
    Ok(())
}

/// The record of a paired device, as the repository gave it: the device is
/// paired, and its key is still the paired one where a key is given.
pub open spec fn pairing_of(
    record: Result<Option<PeerRecordView>, Seq<char>>,
    key: Option<Seq<u8>>,
) -> Result<PeerRecordView, NetworkErrorView> {
    match record {
        Err(reason) => Err(NetworkErrorView::Repository(reason)),
        Ok(None) => Err(NetworkErrorView::Unpaired),
        Ok(Some(peer)) => if peer.trust_state != TrustState::Paired {
            Err(NetworkErrorView::Unpaired)
        } else if key is Some && key != Some(peer.public_key) {
            Err(NetworkErrorView::InvalidIdentity("paired device key changed"@))
        } else {
            Ok(peer)
        },
    }
}

/// What the repository gave.
pub open spec fn record_view(record: Result<Option<PeerRecord>, String>) -> Result<
    Option<PeerRecordView>,
    Seq<char>,
> {
    match record {
        Ok(Some(peer)) => Ok(Some(peer@)),
        Ok(None) => Ok(None),
        Err(reason) => Err(reason@),
    }
}

/// The bytes of an optional key.
pub open spec fn key_view(key: Option<&DevicePublicKey>) -> Option<Seq<u8>> {
    match key {
        Some(key) => Some(key@),
        None => None,
    }
}

/// The record of a paired device, from what the repository gave.
pub fn require_paired(
    record: Result<Option<PeerRecord>, String>,
    key: Option<&DevicePublicKey>,
) -> (peer: Result<PeerRecord, NetworkError>)
    ensures
        result_view(peer) == pairing_of(record_view(record), key_view(key)),
{
    let peer = match record {
        Err(reason) => {
            return Err(repository_failed(reason.as_str()));
        },
        Ok(None) => {
            return Err(NetworkError::Unpaired);
        },
        Ok(Some(peer)) => peer,
    };
    if peer.trust_state != TrustState::Paired {
        return Err(NetworkError::Unpaired);
    }
    if let Some(key) = key {
        if !key.same(&peer.public_key) {
            return Err(invalid_identity("paired device key changed"));
        }
    }
    Ok(peer)
}

/// Whether an authenticated device may have a session of a kind: any device one
/// that needs no pairing, and a paired device any.
pub open spec fn admission(
    kind: SessionKind,
    peer: SessionPeerView,
    record: Result<Option<PeerRecordView>, Seq<char>>,
) -> Result<(), NetworkErrorView> {
    if kind.nearby() {
        Ok(())
    } else {
        match pairing_of(record, Some(peer.public_key)) {
            Ok(_) => Ok(()),
            Err(error) => Err(error),
        }
    }
}

/// A session for lasting work goes only to a device that is paired, with the key
/// that was paired.
pub proof fn law_lasting_session_needs_pairing(
    kind: SessionKind,
    peer: SessionPeerView,
    record: Result<Option<PeerRecordView>, Seq<char>>,
)
    requires
        !kind.nearby(),
        admission(kind, peer, record) is Ok,
    ensures
        record matches Ok(Some(paired)) && paired.trust_state == TrustState::Paired
            && paired.public_key == peer.public_key,
{
}

/// Whether an authenticated device may have a session of a kind. `record` is
/// what the repository gave, and counts only for the kinds that need pairing.
pub fn admit_session(
    kind: SessionKind,
    peer: &SessionPeer,
    record: Result<Option<PeerRecord>, String>,
) -> (outcome: Result<(), NetworkError>)
    ensures
        plain_result(outcome) == admission(kind, peer@, record_view(record)),
{
    if kind.is_nearby() {
        return Ok(());
    }
    match require_paired(record, Some(&peer.public_key)) {
        Ok(_) => Ok(()),
        Err(error) => Err(error),
    }
}

/// The second message of the other side, as it came: the id that it names, and
/// what its signature bytes were read as.
pub struct AuthReplyView {
    pub device_id: Seq<char>,
    pub signature: Result<Seq<u8>, Seq<char>>,
}

/// What a whole handshake comes to: it settles, the other side signs, it is
/// admitted, and it accepts in turn.
pub open spec fn handshake_result(
    start: HandshakeView,
    reply: AuthReplyView,
    record: Result<Option<PeerRecordView>, Seq<char>>,
    session_id: u64,
    remote: SessionAcceptedView,
) -> Result<SessionView, NetworkErrorView> {
    match start.settles() {
        Err(error) => Err(error),
        Ok((kind, minor, signed)) => match auth_verdict(
            start.peer,
            reply.device_id,
            reply.signature,
            signed,
            start.domain,
        ) {
            Err(error) => Err(error),
            Ok(_) => match admission(kind, start.peer, record) {
                Err(error) => Err(error),
                Ok(_) => concluded(
                    kind,
                    minor,
                    shown_code(sha256_digest(signed)),
                    start.own_id,
                    start.peer,
                    start.direction,
                    start.local.nonce,
                    start.remote.nonce,
                    session_id,
                    remote,
                ),
            },
        },
    }
}

/// A session comes out of a handshake only where every step succeeded: the two
/// sides are different devices and settled on a kind and a version, the peer
/// signed what both said with the key that it introduced itself with, it may have
/// a session of the kind, and it accepted the session. The session is one of that
/// peer, and a session for lasting work is one of a paired device.
pub proof fn law_session_needs_every_step(
    start: HandshakeView,
    reply: AuthReplyView,
    record: Result<Option<PeerRecordView>, Seq<char>>,
    session_id: u64,
    remote: SessionAcceptedView,
)
    requires
        handshake_result(start, reply, record, session_id, remote) is Ok,
    ensures
        ({
            let session = handshake_result(start, reply, record, session_id, remote)->Ok_0;
            &&& start.peer.device_id != start.own_id
            &&& start.settles() matches Ok((kind, minor, signed))
            &&& reply.device_id == start.peer.device_id
            &&& reply.signature matches Ok(signature)
            &&& verdict(start.peer.public_key, transcript(start.domain, signed), signature)
                == Ok::<(), NetworkErrorView>(())
            &&& admission(kind, start.peer, record) is Ok
            &&& acceptance(minor, remote) is Ok
            &&& session.kind == kind && session.protocol_minor == minor
            &&& session.peer.device_id == start.peer.device_id
            &&& session.peer.public_key == start.peer.public_key
            &&& !session.kind.nearby() ==> (record matches Ok(Some(paired)) && paired.trust_state
                == TrustState::Paired && paired.public_key == session.peer.public_key)
        }),
{
}

/// A handshake in which the other side has signed.
pub struct VerifiedHandshake {
    handshake: Handshake,
    reply: Ghost<AuthReplyView>,
}

/// A handshake in which the other side has signed and is admitted.
pub struct AdmittedHandshake {
    handshake: Handshake,
    reply: Ghost<AuthReplyView>,
    record: Ghost<Result<Option<PeerRecordView>, Seq<char>>>,
}

/// The signature holds in the handshake.
pub open spec fn is_signed(start: HandshakeView, reply: AuthReplyView) -> bool {
    start.settles() matches Ok((kind, minor, signed)) && auth_verdict(
        start.peer,
        reply.device_id,
        reply.signature,
        signed,
        start.domain,
    ) is Ok
}

/// The other side is admitted in the handshake.
pub open spec fn is_admitted(
    start: HandshakeView,
    record: Result<Option<PeerRecordView>, Seq<char>>,
) -> bool {
    start.settles() matches Ok((kind, minor, signed)) && admission(kind, start.peer, record) is Ok
}

impl Handshake {
    /// Takes the signature of the other side. `signature` is what the signature
    /// bytes of the message were read as.
    pub fn verify(self, auth_id: &str, signature: Result<DeviceSignature, String>) -> (outcome:
        Result<VerifiedHandshake, NetworkError>)
        ensures
            ({
                let reply = AuthReplyView {
                    device_id: auth_id@,
                    signature: reason_view(signature),
                };
                &&& self.start().settles() is Ok
                &&& match outcome {
                    Ok(verified) => verified.start() == self.start() && verified.answer() == reply
                        && is_signed(self.start(), reply),
                    Err(error) => auth_verdict(
                        self.start().peer,
                        reply.device_id,
                        reply.signature,
                        self.start().settles()->Ok_0.2,
                        self.start().domain,
                    ) == Err::<(), _>(error@),
                }
            }),
    {
        proof {
            use_type_invariant(&self);
        }
        let ghost reply = AuthReplyView {
            device_id: auth_id@,
            signature: reason_view(signature),
        };
        match check_remote_auth(
            &self.peer,
            auth_id,
            signature,
            self.transcript.as_slice(),
            &self.domains,
        ) {
            Ok(()) => Ok(VerifiedHandshake { handshake: self, reply: Ghost(reply) }),
            Err(error) => Err(error),
        }
    }
}

impl VerifiedHandshake {
    #[verifier::type_invariant]
    spec fn consistent(self) -> bool {
        is_signed(self.handshake.start(), self.reply@)
    }

    /// What the handshake goes on from.
    pub closed spec fn start(&self) -> HandshakeView {
        self.handshake.start()
    }

    /// The signature of the other side.
    pub closed spec fn answer(&self) -> AuthReplyView {
        self.reply@
    }

    /// The kind of the session.
    pub fn kind(&self) -> (kind: SessionKind)
        ensures
            self.start().settles() is Ok,
            kind == self.start().settles()->Ok_0.0,
    {
        self.handshake.kind()
    }

    /// Admits the other side, or not. `record` is what the repository gave of it,
    /// and counts only for the kinds that need pairing.
    pub fn authorize(self, record: Result<Option<PeerRecord>, String>) -> (outcome: Result<
        AdmittedHandshake,
        NetworkError,
    >)
        ensures
            self.start().settles() is Ok,
            match outcome {
                Ok(admitted) => admitted.start() == self.start() && admitted.answer()
                    == self.answer() && admitted.known() == record_view(record) && is_admitted(
                    self.start(),
                    record_view(record),
                ),
                Err(error) => admission(
                    self.start().settles()->Ok_0.0,
                    self.start().peer,
                    record_view(record),
                ) == Err::<(), _>(error@),
            },
    {
        proof {
            use_type_invariant(&self);
            use_type_invariant(&self.handshake);
        }
        let ghost known = record_view(record);
        match admit_session(self.handshake.kind, &self.handshake.peer, record) {
            Ok(()) => Ok(
                AdmittedHandshake {
                    handshake: self.handshake,
                    reply: self.reply,
                    record: Ghost(known),
                },
            ),
            Err(error) => Err(error),
        }
    }
}

impl AdmittedHandshake {
    #[verifier::type_invariant]
    spec fn consistent(self) -> bool {
        is_signed(self.handshake.start(), self.reply@) && is_admitted(
            self.handshake.start(),
            self.record@,
        )
    }

    /// What the handshake goes on from.
    pub closed spec fn start(&self) -> HandshakeView {
        self.handshake.start()
    }

    /// The signature of the other side.
    pub closed spec fn answer(&self) -> AuthReplyView {
        self.reply@
    }

    /// What the repository gave of the other side.
    pub closed spec fn known(&self) -> Result<Option<PeerRecordView>, Seq<char>> {
        self.record@
    }

    /// The version that both sides speak.
    pub fn protocol_minor(&self) -> (minor: u32)
        ensures
            self.start().settles() is Ok,
            minor == self.start().settles()->Ok_0.1,
    {
        self.handshake.protocol_minor()
    }
}

/// Concludes a handshake once both sides have accepted it. `accepted` is the
/// message of this side. There is a session only where the other side signed and
/// is admitted.
pub fn finish_authentication(
    handshake: AdmittedHandshake,
    accepted: &SessionAccepted,
    remote_accepted: &SessionAccepted,
) -> (session: Result<Session, NetworkError>)
    ensures
        result_view(session) == handshake_result(
            handshake.start(),
            handshake.answer(),
            handshake.known(),
            accepted@.session_id,
            remote_accepted@,
        ),
        is_signed(handshake.start(), handshake.answer()),
        is_admitted(handshake.start(), handshake.known()),
        session is Ok <==> acceptance(handshake.start().settles()->Ok_0.1, remote_accepted@) is Ok,
{
    proof {
        use_type_invariant(&handshake);
        use_type_invariant(&handshake.handshake);
    }
    let agreed = handshake.handshake;
    let code = verification_code(agreed.transcript.as_slice());
    conclude_session(
        agreed.kind,
        agreed.protocol_minor,
        code,
        agreed.own_id,
        agreed.peer,
        agreed.direction,
        agreed.local_nonce.as_slice(),
        agreed.remote_nonce.as_slice(),
        accepted.session_id,
        remote_accepted,
    )
}

/// Whether a session belongs to a paired device: an unpaired device is no error,
/// since files may be sent to it with the user's approval.
pub fn is_paired_session(paired: &Result<PeerRecord, NetworkError>) -> (answer: Result<
    bool,
    NetworkError,
>)
    ensures
        plain_result(answer) == match *paired {
            Ok(_) => Ok(true),
            Err(error) => if error@ == NetworkErrorView::Unpaired {
                Ok(false)
            } else {
                Err(error@)
            },
        },
{
    match paired {
        Ok(_) => Ok(true),
        Err(NetworkError::Unpaired) => Ok(false),
        Err(error) => Err(error.clone()),
    }
}

/// A hello is taken exactly where it speaks a version that is spoken here, its
/// nonce and its digest have 32 bytes, its texts are of bounded length, its kind is
/// the expected one, and its claims hold: the id and the key are well formed and
/// belong together, and the key has signed the digest of the certificate.
pub proof fn law_hello_that_is_taken(
    hello: SessionHelloView,
    kind: SessionKind,
    claims: IdentityClaimsView,
    wire: WireProtocol,
    domain: Seq<u8>,
)
    requires
        wire.kinds.distinct(),
    ensures
        hello_verdict(hello, Some(kind), claims, wire, domain) is Ok <==> {
            &&& hello.protocol_major == wire.major
            &&& hello.min_protocol_minor <= hello.max_protocol_minor
            &&& hello.min_protocol_minor <= wire.max_minor
            &&& wire.min_minor <= hello.max_protocol_minor
            &&& hello.nonce.len() == 32
            &&& hello.endpoint_certificate_sha256.len() == 32
            &&& encode_utf8(hello.device_name).len() <= 255
            &&& encode_utf8(hello.platform).len() <= 64
            &&& encode_utf8(hello.model).len() <= 255
            &&& hello.session_kind == kind.number(wire.kinds)
            &&& claims.device_id is Ok
            &&& claims.public_key matches Ok(key)
            &&& claims.key_binding is Ok
            &&& claims.signature matches Ok(signature)
            &&& key.len() == 32
            &&& signature.len() == 64
            &&& ed25519_decodes(key)
            &&& ed25519_accepts(
                key,
                transcript(domain, hello.endpoint_certificate_sha256),
                signature,
            )
        },
{
    law_kind_round_trip(kind, hello.session_kind, wire.kinds);
}

/// A hello introduces the device of its claims, as it presents itself, with the
/// certificate whose digest it names, and with no port yet.
pub proof fn law_hello_introduces_its_device(
    hello: SessionHelloView,
    expected_kind: Option<SessionKind>,
    claims: IdentityClaimsView,
    wire: WireProtocol,
    domain: Seq<u8>,
)
    ensures
        hello_verdict(hello, expected_kind, claims, wire, domain) matches Ok(peer) ==> {
            &&& claims.device_id == Ok::<_, Seq<char>>(peer.device_id)
            &&& claims.public_key == Ok::<_, Seq<char>>(peer.public_key)
            &&& peer.metadata.name == hello.device_name
            &&& peer.metadata.platform == hello.platform
            &&& peer.metadata.model == hello.model
            &&& peer.certificate_sha256 == hello.endpoint_certificate_sha256
            &&& peer.listen_port == 0
        },
{
}

/// The own hello says who this device is: its id, its key, the digest of its
/// certificate and the signature on it, how it presents itself, the kind of the
/// session, the versions that it speaks, and the nonce.
pub proof fn law_own_hello_says_who_this_is(
    device_id: Seq<char>,
    public_key: Seq<u8>,
    certificate_sha256: Seq<u8>,
    signature: Seq<u8>,
    metadata: DeviceMetadataView,
    kind: SessionKind,
    nonce: Seq<u8>,
    wire: WireProtocol,
)
    ensures
        ({
            let hello = own_hello(
                device_id,
                public_key,
                certificate_sha256,
                signature,
                metadata,
                kind,
                nonce,
                wire,
            );
            &&& hello.device_id == device_id
            &&& hello.root_public_key == public_key
            &&& hello.endpoint_certificate_sha256 == certificate_sha256
            &&& hello.endpoint_binding_signature == signature
            &&& hello.device_name == metadata.name
            &&& hello.platform == metadata.platform
            &&& hello.model == metadata.model
            &&& hello.nonce == nonce
            &&& hello.protocol_major == wire.major
            &&& hello.min_protocol_minor == wire.min_minor
            &&& hello.max_protocol_minor == wire.max_minor
            &&& wire.kinds.distinct() ==> SessionKind::from_number(hello.session_kind, wire.kinds)
                == Ok::<_, NetworkErrorView>(kind)
        }),
{
    if wire.kinds.distinct() {
        law_kind_round_trip(kind, 0, wire.kinds);
    }
}

/// A handshake settles exactly where the two are different devices, the kind is
/// known, both speak some version, and the connection can be bound to. It settles
/// on the kind that the other side names and on the highest version that both
/// speak.
pub proof fn law_settlement(
    own_id: Seq<char>,
    peer_id: Seq<char>,
    local: SessionHelloView,
    remote: SessionHelloView,
    local_encoded: Seq<u8>,
    remote_encoded: Seq<u8>,
    exporter: Option<[u8; 32]>,
    wire: WireProtocol,
)
    ensures
        ({
            let outcome = settled(
                own_id,
                peer_id,
                local,
                remote,
                local_encoded,
                remote_encoded,
                exporter,
                wire,
            );
            &&& outcome is Ok <==> {
                &&& own_id != peer_id
                &&& SessionKind::from_number(remote.session_kind, wire.kinds) is Ok
                &&& local.min_protocol_minor <= local.max_protocol_minor
                &&& remote.min_protocol_minor <= remote.max_protocol_minor
                &&& local.min_protocol_minor <= remote.max_protocol_minor
                &&& remote.min_protocol_minor <= local.max_protocol_minor
                &&& exporter is Some
            }
            &&& own_id == peer_id ==> outcome == Err::<(SessionKind, u32, Seq<u8>), _>(
                NetworkErrorView::SelfConnection,
            )
            &&& outcome matches Ok((kind, minor, signed)) ==> {
                &&& SessionKind::from_number(remote.session_kind, wire.kinds) == Ok::<
                    _,
                    NetworkErrorView,
                >(kind)
                &&& local.min_protocol_minor <= minor <= local.max_protocol_minor
                &&& remote.min_protocol_minor <= minor <= remote.max_protocol_minor
                &&& minor == local.max_protocol_minor || minor == remote.max_protocol_minor
            }
        }),
{
}

/// The code that both sides show is the number that the first four bytes of the
/// digest make, up to its last six digits.
pub proof fn law_code_is_of_the_digest(digest: Seq<u8>)
    requires
        digest.len() >= 4,
    ensures
        ({
            let code = shown_code(digest);
            let digit = |i: int| code[i] as int - '0' as int;
            code.len() == 6 && digit(0) * 100_000 + digit(1) * 10_000 + digit(2) * 1_000 + digit(3)
                * 100 + digit(4) * 10 + digit(5) == (digest[0] * 0x100_0000 + digest[1] * 0x1_0000
                + digest[2] * 0x100 + digest[3]) % 1_000_000
        }),
{
    let number = leading_number(digest) % 1_000_000;
    lemma_padded_shape(number, 6);
    reveal_with_fuel(padded, 7);
    let code = shown_code(digest);
    assert(code[5] as int == 48 + number % 10);
    assert(code[4] as int == 48 + number / 10 % 10);
    assert(code[3] as int == 48 + number / 10 / 10 % 10);
    assert(code[2] as int == 48 + number / 10 / 10 / 10 % 10);
    assert(code[1] as int == 48 + number / 10 / 10 / 10 / 10 % 10);
    assert(code[0] as int == 48 + number / 10 / 10 / 10 / 10 / 10 % 10);
}

/// The signature of the other side holds exactly where it names the device that
/// its hello introduced, and the key of that device has signed what both said.
pub proof fn law_signature_that_holds(
    peer: SessionPeerView,
    auth_id: Seq<char>,
    signature: Result<Seq<u8>, Seq<char>>,
    transcript_bytes: Seq<u8>,
    domain: Seq<u8>,
)
    ensures
        auth_verdict(peer, auth_id, signature, transcript_bytes, domain) is Ok <==> {
            &&& auth_id == peer.device_id
            &&& signature matches Ok(bytes)
            &&& bytes.len() == 64
            &&& peer.public_key.len() == 32
            &&& ed25519_decodes(peer.public_key)
            &&& ed25519_accepts(peer.public_key, transcript(domain, transcript_bytes), bytes)
        },
{
}

/// The third message is taken exactly where it names a session and a time, repeats
/// the version that was settled on, and names no process or one by 16 bytes.
pub proof fn law_acceptance_that_is_taken(protocol_minor: u32, remote: SessionAcceptedView)
    ensures
        acceptance(protocol_minor, remote) is Ok <==> remote.session_id != 0
            && remote.accepted_at_ms > 0 && remote.protocol_minor == protocol_minor && (
        remote.process_instance_id.len() == 0 || remote.process_instance_id.len() == 16),
        acceptance(protocol_minor, remote) matches Ok(instance) ==> {
            &&& remote.process_instance_id.len() == 0 ==> instance is None
            &&& remote.process_instance_id.len() == 16 ==> instance == Some(
                remote.process_instance_id,
            )
        },
{
}

/// The session is the one that was agreed on: of that kind and version, under the
/// number of this side, with that peer at the port that it listens on, showing
/// that code, direct, and dialed by the side that dialed.
pub proof fn law_session_is_as_agreed(
    kind: SessionKind,
    protocol_minor: u32,
    code: Seq<char>,
    own_id: Seq<char>,
    peer: SessionPeerView,
    direction: Direction,
    local_nonce: Seq<u8>,
    remote_nonce: Seq<u8>,
    session_id: u64,
    remote: SessionAcceptedView,
)
    ensures
        ({
            let outcome = concluded(
                kind,
                protocol_minor,
                code,
                own_id,
                peer,
                direction,
                local_nonce,
                remote_nonce,
                session_id,
                remote,
            );
            &&& outcome is Ok <==> remote.session_id != 0 && remote.accepted_at_ms > 0
                && remote.protocol_minor == protocol_minor && (remote.process_instance_id.len() == 0
                || remote.process_instance_id.len() == 16)
            &&& outcome matches Ok(session) ==> {
                &&& session.id == session_id
                &&& session.kind == kind
                &&& session.protocol_minor == protocol_minor
                &&& session.verification_code == code
                &&& !session.relayed
                &&& session.peer.device_id == peer.device_id
                &&& session.peer.public_key == peer.public_key
                &&& session.peer.metadata == peer.metadata
                &&& session.peer.certificate_sha256 == peer.certificate_sha256
                &&& remote.listen_port <= 65535 ==> session.peer.listen_port == remote.listen_port
                &&& remote.listen_port > 65535 ==> session.peer.listen_port == 0
                &&& direction == Direction::Outbound ==> session.rank.initiator_id == own_id
                    && session.rank.initiator_nonce == local_nonce
                &&& direction == Direction::Inbound ==> session.rank.initiator_id == peer.device_id
                    && session.rank.initiator_nonce == remote_nonce
                &&& session.instance is Some <==> remote.process_instance_id.len() == 16
                &&& session.instance matches Some(instance) ==> instance
                    == remote.process_instance_id
            }
        }),
{
}

/// A device that was dialed passes exactly where its id, its key and the digest of
/// its certificate are the announced ones, or its id and key those that were
/// paired, and the certificate of the connection is the one that it signed.
pub proof fn law_expected_device(
    observed: Seq<u8>,
    peer: SessionPeerView,
    announced: PeerAdvertisementView,
    paired: PeerRecordView,
)
    ensures
        announced_verdict(observed, peer, announced) is Ok <==> peer.certificate_sha256 == observed
            && announced.certificate_sha256 == observed && peer.device_id == announced.device_id
            && peer.public_key == announced.public_key,
        paired_verdict(observed, peer, paired) is Ok <==> peer.certificate_sha256 == observed
            && peer.device_id == paired.device_id && peer.public_key == paired.public_key,
        bound_certificate(observed, peer) is Ok <==> peer.certificate_sha256 == observed,
{
}

/// A record stands for a pairing exactly where it is there, its device is paired,
/// and a key that is shown is the paired one. It is the record itself then.
pub proof fn law_pairing_that_stands(
    record: Result<Option<PeerRecordView>, Seq<char>>,
    key: Option<Seq<u8>>,
)
    ensures
        pairing_of(record, key) is Ok <==> (record matches Ok(Some(peer)) && peer.trust_state
            == TrustState::Paired && (key is None || key == Some(peer.public_key))),
        pairing_of(record, key) matches Ok(peer) ==> record == Ok::<_, Seq<char>>(Some(peer)),
        record matches Ok(known) ==> (known is None || known->0.trust_state != TrustState::Paired)
            ==> pairing_of(record, key) == Err::<PeerRecordView, _>(NetworkErrorView::Unpaired),
{
}

/// Pairing, sending files and probing need no pairing. Everything else does, under
/// the paired key.
pub proof fn law_kinds_that_need_pairing(
    kind: SessionKind,
    peer: SessionPeerView,
    record: Result<Option<PeerRecordView>, Seq<char>>,
)
    ensures
        kind == SessionKind::Pairing || kind == SessionKind::FileTransfer || kind
            == SessionKind::DiscoveryProbe ==> admission(kind, peer, record) is Ok,
        kind == SessionKind::Control || kind == SessionKind::RealtimeInput || kind
            == SessionKind::Print ==> (admission(kind, peer, record) is Ok <==> (record matches Ok(
            Some(paired),
        ) && paired.trust_state == TrustState::Paired && paired.public_key == peer.public_key)),
{
}

} // verus!
