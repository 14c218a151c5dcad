//! The cryptographic identity of one installation.
use vstd::prelude::*;
use vstd::string::*;

use crate::error::{invalid_identity, plain_result, NetworkError, NetworkErrorView};
use crate::peer::{DeviceId, DevicePublicKey, DeviceSignature, SigningContext};
use crate::primitives::{
    append_big_endian, append_bytes, big_endian, certificate_names, decode_public_key, derive_public_key,
    ed25519_accepts, ed25519_decodes, ed25519_public_key, ed25519_signature, encodes_neutral_point,
    generate_seed, self_signed_certificate, sha256, sha256_digest,
    sign_message, to_array32, to_array64, verify_strictly,
};
use crate::text::{copy_bytes, digit_char, digit_text};

verus! {

/// File that holds the root key.
pub const ROOT_KEY_FILE: &'static str = "device-root.ed25519";

/// File that holds the endpoint certificate.
pub const TLS_CERT_FILE: &'static str = "endpoint-cert.der";

/// File that holds the private key of the endpoint certificate.
pub const TLS_KEY_FILE: &'static str = "endpoint-key.der";

/// The byte strings that keep signatures of different purposes apart.
#[derive(Debug)]
pub struct SigningDomains {
    pub endpoint_binding: Vec<u8>,
    pub session_authentication: Vec<u8>,
    pub feature_payload: Vec<u8>,
}

impl SigningDomains {
    /// The domain of a purpose.
    pub open spec fn of(&self, context: SigningContext) -> Seq<u8> {
        match context {
            SigningContext::EndpointBinding => self.endpoint_binding@,
            SigningContext::SessionAuthentication => self.session_authentication@,
            SigningContext::FeaturePayload => self.feature_payload@,
        }
    }

    /// The domain of a purpose.
    pub fn domain(&self, context: SigningContext) -> (domain: &[u8])
        ensures
            domain@ == self.of(context),
    {
        match context {
            SigningContext::EndpointBinding => self.endpoint_binding.as_slice(),
            SigningContext::SessionAuthentication => self.session_authentication.as_slice(),
            SigningContext::FeaturePayload => self.feature_payload.as_slice(),
        }
    }
}

impl Clone for SigningDomains {
    fn clone(&self) -> (copy: Self)
        ensures
            forall|context: SigningContext| #[trigger] copy.of(context) == self.of(context),
    {
        SigningDomains {
            endpoint_binding: copy_bytes(self.endpoint_binding.as_slice()),
            session_authentication: copy_bytes(self.session_authentication.as_slice()),
            feature_payload: copy_bytes(self.feature_payload.as_slice()),
        }
    }
}

/// What is signed for `message`: the domain, the length and the message.
pub open spec fn transcript(domain: Seq<u8>, message: Seq<u8>) -> Seq<u8> {
    domain + big_endian(message.len() as u64) + message
}

/// Under one domain, different messages are signed as different bytes.
pub proof fn law_transcript_is_injective(domain: Seq<u8>, a: Seq<u8>, b: Seq<u8>)
    requires
        transcript(domain, a) == transcript(domain, b),
    ensures
        a == b,
{
    let x = transcript(domain, a);
    let y = transcript(domain, b);
    let start = domain.len() + 8;
    assert(x.len() == start + a.len());
    assert(y.len() == start + b.len());
    assert(a =~= x.subrange(start as int, x.len() as int));
    assert(b =~= y.subrange(start as int, y.len() as int));
}

/// A signature made for one purpose is made over other bytes than any signature
/// for another purpose, as long as neither domain begins with the other.
pub proof fn law_purposes_are_separated(
    domain: Seq<u8>,
    other: Seq<u8>,
    message: Seq<u8>,
    other_message: Seq<u8>,
)
    requires
        !domain.is_prefix_of(other),
        !other.is_prefix_of(domain),
    ensures
        transcript(domain, message) != transcript(other, other_message),
{
    let x = transcript(domain, message);
    let y = transcript(other, other_message);
    if x == y {
        if domain.len() <= other.len() {
            assert(domain =~= x.subrange(0, domain.len() as int));
            assert(other.subrange(0, domain.len() as int) =~= y.subrange(0, domain.len() as int));
            assert(domain.is_prefix_of(other));
        } else {
            assert(other =~= y.subrange(0, other.len() as int));
            assert(domain.subrange(0, other.len() as int) =~= x.subrange(0, other.len() as int));
            assert(other.is_prefix_of(domain));
        }
    }
}

/// What is signed for `message`.
pub fn signing_transcript(domain: &[u8], message: &[u8]) -> (bytes: Vec<u8>)
    ensures
        bytes@ == transcript(domain@, message@),
{
    let mut bytes: Vec<u8> = Vec::new();
    append_bytes(&mut bytes, domain);
    append_big_endian(&mut bytes, message.len() as u64);
    append_bytes(&mut bytes, message);
    assert(bytes@ =~= transcript(domain@, message@));
    bytes
}

/// Whether a signature holds, given whether the key decodes and whether strict
/// verification accepts the signature.
pub open spec fn signature_verdict(
    key_len: nat,
    signature_len: nat,
    decodes: bool,
    accepted: bool,
) -> Result<(), NetworkErrorView> {
    if key_len != 32 {
        Err(NetworkErrorView::InvalidIdentity("public key length"@))
    } else if signature_len != 64 {
        Err(NetworkErrorView::InvalidIdentity("signature length"@))
    } else if !decodes {
        Err(NetworkErrorView::InvalidIdentity("public key"@))
    } else if !accepted {
        Err(NetworkErrorView::InvalidIdentity("signature verification"@))
    } else {
        Ok(())
    }
}

/// The verdict on `signature` over `signed` under `key`.
pub open spec fn verdict(key: Seq<u8>, signed: Seq<u8>, signature: Seq<u8>) -> Result<
    (),
    NetworkErrorView,
> {
    signature_verdict(
        key.len(),
        signature.len(),
        ed25519_decodes(key),
        ed25519_accepts(key, signed, signature),
    )
}

/// Turns the outcomes of the cryptographic checks into the verdict.
pub fn signature_outcome(
    key_len: usize,
    signature_len: usize,
    decodes: bool,
    accepted: bool,
) -> (outcome: Result<(), NetworkError>)
    ensures
        plain_result(outcome) == signature_verdict(
            key_len as nat,
            signature_len as nat,
            decodes,
            accepted,
        ),
{
    if key_len != 32 {
        Err(invalid_identity("public key length"))
    } else if signature_len != 64 {
        Err(invalid_identity("signature length"))
    } else if !decodes {
        Err(invalid_identity("public key"))
    } else if !accepted {
        Err(invalid_identity("signature verification"))
    } else {
        Ok(())
    }
}

/// Checks that `signature` was made by the owner of `public_key`, for this
/// purpose and this message.
pub fn verify_signature(
    domains: &SigningDomains,
    public_key: &DevicePublicKey,
    context: SigningContext,
    message: &[u8],
    signature: &DeviceSignature,
) -> (outcome: Result<(), NetworkError>)
    ensures
        plain_result(outcome) == verdict(
            public_key@,
            transcript(domains.of(context), message@),
            signature@,
        ),
{
    let key_len: usize = public_key.as_bytes().len();
    let signature_len: usize = signature.as_bytes().len();
    let mut decodes = false;
    let mut accepted = false;
    if let Some(key) = to_array32(public_key.as_bytes()) {
        decodes = decode_public_key(&key).is_ok();
        if decodes {
            if let Some(signature) = to_array64(signature.as_bytes()) {
                let signed = signing_transcript(domains.domain(context), message);
                accepted = verify_strictly(&key, signed.as_slice(), &signature).is_ok();
            }
        }
    }
    signature_outcome(key_len, signature_len, decodes, accepted)
}

/// The sole cryptographic identity of an installation. The endpoint certificate
/// may be replaced; the root key and the device id that derives from it do not
/// change.
pub struct DeviceIdentity {
    seed: [u8; 32],
    public_key: [u8; 32],
    device_id: DeviceId,
    certificate_der: Vec<u8>,
    certificate_sha256: [u8; 32],
    domains: SigningDomains,
}

impl DeviceIdentity {
    #[verifier::type_invariant]
    spec fn consistent(self) -> bool {
        &&& self.public_key@ == ed25519_public_key(self.seed@)
        &&& ed25519_decodes(self.public_key@)
        &&& self.certificate_sha256@ == sha256_digest(self.certificate_der@)
    }

    /// The root secret.
    pub closed spec fn root(&self) -> Seq<u8> {
        self.seed@
    }

    /// The device id.
    pub closed spec fn id(&self) -> Seq<char> {
        self.device_id@
    }

    /// The endpoint certificate.
    pub closed spec fn certificate(&self) -> Seq<u8> {
        self.certificate_der@
    }

    /// The domain of a purpose.
    pub closed spec fn domain_of(&self, context: SigningContext) -> Seq<u8> {
        self.domains.of(context)
    }

    /// The public key that a root secret has.
    pub fn public_key_of(seed: &[u8; 32]) -> (key: DevicePublicKey)
        ensures
            key@ == ed25519_public_key(seed@),
    {
        let bytes = derive_public_key(seed);
        let mut key: Vec<u8> = Vec::new();
        append_bytes(&mut key, bytes.as_slice());
        assert(key@ =~= bytes@);
        DevicePublicKey::from_bytes(key)
    }

    /// The identity with this root secret and this endpoint certificate.
    /// `device_id` is the id that derives from the root's public key.
    pub fn new(
        seed: [u8; 32],
        device_id: DeviceId,
        certificate_der: Vec<u8>,
        domains: SigningDomains,
    ) -> (identity: Self)
        ensures
            identity.root() == seed@,
            identity.id() == device_id@,
            identity.certificate() == certificate_der@,
            forall|context: SigningContext| #[trigger]
                identity.domain_of(context) == domains.of(context),
    {
        let public_key = derive_public_key(&seed);
        let certificate_sha256 = sha256(certificate_der.as_slice());
        DeviceIdentity { seed, public_key, device_id, certificate_der, certificate_sha256, domains }
    }

    /// The device id.
    pub fn device_id(&self) -> (id: DeviceId)
        ensures
            id@ == self.id(),
    {
        self.device_id.clone()
    }

    /// The root public key.
    pub fn public_key_value(&self) -> (key: DevicePublicKey)
        ensures
            key@ == ed25519_public_key(self.root()),
            key@.len() == 32,
    {
        proof {
            use_type_invariant(self);
        }
        let mut key: Vec<u8> = Vec::new();
        append_bytes(&mut key, self.public_key.as_slice());
        assert(key@ =~= self.public_key@);
        DevicePublicKey::from_bytes(key)
    }

    /// The endpoint certificate.
    pub fn certificate_der(&self) -> (der: &[u8])
        ensures
            der@ == self.certificate(),
    {
        self.certificate_der.as_slice()
    }

    /// The digest of the endpoint certificate.
    pub fn certificate_sha256(&self) -> (digest: [u8; 32])
        ensures
            digest@ == sha256_digest(self.certificate()),
    {
        proof {
            use_type_invariant(self);
        }
        self.certificate_sha256
    }

    /// The signing domains.
    pub fn domains(&self) -> (domains: &SigningDomains)
        ensures
            forall|context: SigningContext| #[trigger]
                domains.of(context) == self.domain_of(context),
    {
        &self.domains
    }

    /// The signature that binds the endpoint certificate to the device. It
    /// verifies under the device's public key, unless it begins with the
    /// neutral point, which no strict verification accepts.
    pub fn endpoint_binding_signature(&self) -> (signature: DeviceSignature)
        ensures
            signature@ == ed25519_signature(
                self.root(),
                transcript(
                    self.domain_of(SigningContext::EndpointBinding),
                    sha256_digest(self.certificate()),
                ),
            ),
            !encodes_neutral_point(signature@.take(32)) ==> verdict(
                ed25519_public_key(self.root()),
                transcript(
                    self.domain_of(SigningContext::EndpointBinding),
                    sha256_digest(self.certificate()),
                ),
                signature@,
            ) == Ok::<(), NetworkErrorView>(()),
    {
        proof {
            use_type_invariant(self);
        }
        self.sign(SigningContext::EndpointBinding, self.certificate_sha256.as_slice())
    }

    /// Signs `message` for a purpose. The signature verifies under the device's
    /// public key, for the same purpose and message, unless it begins with the
    /// neutral point, which no strict verification accepts.
    pub fn sign(&self, context: SigningContext, message: &[u8]) -> (signature: DeviceSignature)
        ensures
            signature@ == ed25519_signature(
                self.root(),
                transcript(self.domain_of(context), message@),
            ),
            signature@.len() == 64,
            !encodes_neutral_point(signature@.take(32)) ==> verdict(
                ed25519_public_key(self.root()),
                transcript(self.domain_of(context), message@),
                signature@,
            ) == Ok::<(), NetworkErrorView>(()),
    {
        proof {
            use_type_invariant(self);
        }
        let signed = signing_transcript(self.domains.domain(context), message);
        let bytes = sign_message(&self.seed, signed.as_slice());
        let mut signature: Vec<u8> = Vec::new();
        append_bytes(&mut signature, bytes.as_slice());
        assert(signature@ =~= bytes@);
        assert(self.public_key@.len() == 32);
        DeviceSignature::from_bytes(signature)
    }
}

/// A root secret, and whether it still has to be stored.
pub struct RootKey {
    pub seed: [u8; 32],
    pub is_new: bool,
}

/// The root secret, and whether it is new: the stored one, or the drawn one where
/// none is stored.
pub open spec fn root_outcome(stored: Option<Seq<u8>>, drawn: Seq<u8>) -> Result<
    (Seq<u8>, bool),
    NetworkErrorView,
> {
    match stored {
        Some(bytes) => if bytes.len() == 32 {
            Ok((bytes, false))
        } else {
            Err(NetworkErrorView::InvalidIdentity("stored root key length"@))
        },
        None => Ok((drawn, true)),
    }
}

/// What a [`RootKey`] or the error in its place says.
pub open spec fn root_view(root: Result<RootKey, NetworkError>) -> Result<
    (Seq<u8>, bool),
    NetworkErrorView,
> {
    match root {
        Ok(root) => Ok((root.seed@, root.is_new)),
        Err(error) => Err(error@),
    }
}

/// The bytes that are stored.
pub open spec fn stored_view(stored: Option<Vec<u8>>) -> Option<Seq<u8>> {
    match stored {
        Some(bytes) => Some(bytes@),
        None => None,
    }
}

/// Takes the stored root secret, or the drawn one where none is stored.
pub fn root_or_drawn(stored: Option<Vec<u8>>, drawn: [u8; 32]) -> (root: Result<
    RootKey,
    NetworkError,
>)
    ensures
        root_view(root) == root_outcome(stored_view(stored), drawn@),
{
    match stored {
        Some(bytes) => match to_array32(bytes.as_slice()) {
            Some(seed) => Ok(RootKey { seed, is_new: false }),
            None => Err(invalid_identity("stored root key length")),
        },
        None => Ok(RootKey { seed: drawn, is_new: true }),
    }
}

/// Takes the stored root secret, or draws one where none is stored.
pub fn load_or_create_root(stored: Option<Vec<u8>>) -> (root: Result<RootKey, NetworkError>)
    ensures
        exists|drawn: Seq<u8>|
            drawn.len() == 32 && root_view(root) == #[trigger] root_outcome(
                stored_view(stored),
                drawn,
            ),
{
    let drawn: [u8; 32] = if stored.is_none() {
        generate_seed()
    } else {
        [0; 32]
    };
    assert(drawn@.len() == 32);
    root_or_drawn(stored, drawn)
}

/// An endpoint certificate with its private key, and whether they still have to
/// be stored.
pub struct TlsMaterial {
    pub certificate: Vec<u8>,
    pub private_key: Vec<u8>,
    pub is_new: bool,
}

/// Turns the outcome of making a certificate into the material to store.
pub fn new_tls_material(generated: Result<(Vec<u8>, Vec<u8>), String>) -> (material: Result<
    TlsMaterial,
    NetworkError,
>)
    ensures
        match generated {
            Ok(pair) => material matches Ok(made) && made.certificate == pair.0
                && made.private_key == pair.1 && made.is_new,
            Err(text) => material matches Err(error) && error@ == NetworkErrorView::Tls(text@),
        },
{
    match generated {
        Ok((certificate, private_key)) => Ok(
            TlsMaterial { certificate, private_key, is_new: true },
        ),
        Err(text) => Err(NetworkError::Tls(text)),
    }
}

/// Takes the stored endpoint certificate and key, or makes them where either is
/// missing.
pub fn load_or_create_tls(certificate: Option<Vec<u8>>, private_key: Option<Vec<u8>>) -> (material:
    Result<TlsMaterial, NetworkError>)
    ensures
        match (certificate, private_key) {
            (Some(certificate), Some(private_key)) => material matches Ok(found)
                && found.certificate == certificate && found.private_key == private_key
                && !found.is_new,
            _ => match material {
                Ok(made) => made.is_new && made.certificate@.len() > 0 && made.private_key@.len()
                    > 0,
                Err(error) => error is Tls,
            },
        },
{
    match (certificate, private_key) {
        (Some(certificate), Some(private_key)) => Ok(
            TlsMaterial { certificate, private_key, is_new: false },
        ),
        _ => {
            let mut names: Vec<String> = Vec::new();
            names.push("ArcRelay".to_owned());
            names.push("localhost".to_owned());
            assert(crate::peer::texts(names@) =~= certificate_names());
            new_tls_material(self_signed_certificate(names))
        },
    }
}

/// The last `width` hexadecimal digits of `value`.
pub open spec fn padded_hex(value: nat, width: nat) -> Seq<char>
    decreases width,
{
    if width == 0 {
        seq![]
    } else {
        padded_hex(value / 16, (width - 1) as nat).push(digit_char((value % 16) as int))
    }
}

/// The last `width` hexadecimal digits of `value`.
pub fn padded_hex_text(value: u64, width: u32) -> (text: String)
    ensures
        text@ == padded_hex(value as nat, width as nat),
    decreases width,
{
    if width == 0 {
        let text = String::new();
        assert(text@ =~= padded_hex(value as nat, 0));
        text
    } else {
        let mut text = padded_hex_text(value / 16, width - 1);
        text.append(digit_text((value % 16) as u8));
        text
    }
}

/// The name under which a private file is written before it takes its place.
pub fn temporary_name(file_name: &str, token: u64) -> (name: String)
    ensures
        name@ == "."@ + file_name@ + ".tmp-"@ + padded_hex(token as nat, 16),
{
    let mut name = ".".to_owned();
    name.append(file_name);
    name.append(".tmp-");
    name.append(padded_hex_text(token, 16).as_str());
    name
}

/// A signature holds exactly where the key has 32 bytes and is one, the signature
/// has 64 bytes, and strict verification accepts it for what was signed.
pub proof fn law_signature_holds(key: Seq<u8>, signed: Seq<u8>, signature: Seq<u8>)
    ensures
        verdict(key, signed, signature) is Ok <==> key.len() == 32 && signature.len() == 64
            && ed25519_decodes(key) && ed25519_accepts(key, signed, signature),
        verdict(key, signed, signature) matches Err(error) ==> error is InvalidIdentity,
{
}

/// What is signed begins with the domain and ends with the message, with eight
/// bytes for its length between them.
pub proof fn law_signed_bytes(domain: Seq<u8>, message: Seq<u8>)
    requires
        message.len() <= u64::MAX,
    ensures
        ({
            let signed = transcript(domain, message);
            &&& signed.len() == domain.len() + 8 + message.len()
            &&& signed.take(domain.len() as int) == domain
            &&& signed.skip(domain.len() as int + 8) == message
            &&& signed.subrange(domain.len() as int, domain.len() as int + 8) == big_endian(
                message.len() as u64,
            )
        }),
{
    let signed = transcript(domain, message);
    assert(signed.take(domain.len() as int) =~= domain);
    assert(signed.skip(domain.len() as int + 8) =~= message);
    assert(signed.subrange(domain.len() as int, domain.len() as int + 8) =~= big_endian(
        message.len() as u64,
    ));
}

/// A stored secret of 32 bytes is the one in use and is not stored again, and one
/// of another length is refused. Where none is stored the drawn one is used, and
/// has to be stored.
pub proof fn law_stored_root_is_kept(bytes: Seq<u8>, drawn: Seq<u8>)
    ensures
        bytes.len() == 32 ==> root_outcome(Some(bytes), drawn) == Ok::<_, NetworkErrorView>(
            (bytes, false),
        ),
        bytes.len() != 32 ==> root_outcome(Some(bytes), drawn) is Err,
        root_outcome(None, drawn) == Ok::<_, NetworkErrorView>((drawn, true)),
{
}

} // verus!
