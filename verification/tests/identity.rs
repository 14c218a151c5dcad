use arcrelay_network::error::NetworkError;
use arcrelay_network::identity::{
    load_or_create_root, load_or_create_tls, new_tls_material, root_or_drawn, signature_outcome,
    signing_transcript, temporary_name, verify_signature, DeviceIdentity, SigningDomains,
};
use arcrelay_network::peer::{DeviceId, DevicePublicKey, DeviceSignature, SigningContext};
use arcrelay_network::primitives::{epoch_timestamp, nonzero, now_ms, random_nonzero_u64};

fn domains() -> SigningDomains {
    SigningDomains {
        endpoint_binding: b"test.endpoint\0".to_vec(),
        session_authentication: b"test.session\0".to_vec(),
        feature_payload: b"test.feature\0".to_vec(),
    }
}

fn identity(seed: [u8; 32], certificate: &[u8]) -> DeviceIdentity {
    DeviceIdentity::new(
        seed,
        DeviceId::from_text("arc-0123456789abcdef0123456789abcdef".to_string()),
        certificate.to_vec(),
        domains(),
    )
}

#[test]
fn identity_is_stable_and_binds_endpoint_certificate() {
    let root = load_or_create_root(None).unwrap_or_else(|_| panic!("a new root is made"));
    assert!(root.is_new);
    let tls = load_or_create_tls(None, None).unwrap_or_else(|_| panic!("a certificate is made"));
    assert!(tls.is_new);
    let again = load_or_create_root(Some(root.seed.to_vec())).unwrap_or_else(|_| panic!("stored"));
    assert!(!again.is_new);
    let tls_again =
        load_or_create_tls(Some(tls.certificate.clone()), Some(tls.private_key.clone()))
            .unwrap_or_else(|_| panic!("stored"));
    assert!(!tls_again.is_new);
    let first = identity(root.seed, &tls.certificate);
    let second = identity(again.seed, &tls_again.certificate);
    assert_eq!(first.device_id(), second.device_id());
    assert_eq!(first.certificate_sha256(), second.certificate_sha256());
    verify_signature(
        &domains(),
        &first.public_key_value(),
        SigningContext::EndpointBinding,
        &first.certificate_sha256(),
        &first.endpoint_binding_signature(),
    )
    .unwrap();
    assert_eq!(first.public_key_value(), second.public_key_value());
    assert_eq!(first.certificate_der(), tls.certificate.as_slice());
}

#[test]
fn new_roots_and_certificates_differ() {
    let a = load_or_create_root(None).unwrap_or_else(|_| panic!("root"));
    let b = load_or_create_root(None).unwrap_or_else(|_| panic!("root"));
    assert_ne!(a.seed, b.seed);
    let x = load_or_create_tls(None, None).unwrap_or_else(|_| panic!("certificate"));
    assert!(!x.certificate.is_empty());
    assert!(!x.private_key.is_empty());
    let y = load_or_create_tls(Some(x.certificate.clone()), None)
        .unwrap_or_else(|_| panic!("certificate"));
    assert!(y.is_new);
    assert_ne!(x.certificate, y.certificate);
    assert_eq!(x.certificate[0], 0x30);
    assert_eq!(x.private_key[0], 0x30);
}

#[test]
fn a_drawn_root_is_used_where_none_is_stored() {
    let root = root_or_drawn(None, [5; 32]).unwrap_or_else(|_| panic!("root"));
    assert_eq!(root.seed, [5; 32]);
    assert!(root.is_new);
    let root = root_or_drawn(Some(vec![6; 32]), [5; 32]).unwrap_or_else(|_| panic!("root"));
    assert_eq!(root.seed, [6; 32]);
    assert!(!root.is_new);
}

#[test]
fn stored_root_must_have_the_right_length() {
    assert!(matches!(
        load_or_create_root(Some(vec![1; 31])),
        Err(NetworkError::InvalidIdentity(text)) if text == "stored root key length"
    ));
    assert!(matches!(
        new_tls_material(Err("no entropy".to_string())),
        Err(NetworkError::Tls(text)) if text == "no entropy"
    ));
}

#[test]
fn known_key_and_digest() {
    // The first test vector of the Ed25519 standard.
    let seed: [u8; 32] = [
        0x9d, 0x61, 0xb1, 0x9d, 0xef, 0xfd, 0x5a, 0x60, 0xba, 0x84, 0x4a, 0xf4, 0x92, 0xec, 0x2c,
        0xc4, 0x44, 0x49, 0xc5, 0x69, 0x7b, 0x32, 0x69, 0x19, 0x70, 0x3b, 0xac, 0x03, 0x1c, 0xae,
        0x7f, 0x60,
    ];
    let key: [u8; 32] = [
        0xd7, 0x5a, 0x98, 0x01, 0x82, 0xb1, 0x0a, 0xb7, 0xd5, 0x4b, 0xfe, 0xd3, 0xc9, 0x64, 0x07,
        0x3a, 0x0e, 0xe1, 0x72, 0xf3, 0xda, 0xa6, 0x23, 0x25, 0xaf, 0x02, 0x1a, 0x68, 0xf7, 0x07,
        0x51, 0x1a,
    ];
    assert_eq!(DeviceIdentity::public_key_of(&seed).as_bytes(), &key);
    let own = identity(seed, b"abc");
    assert_eq!(own.public_key_value().as_bytes(), &key);
    // SHA-256 of "abc".
    assert_eq!(own.certificate_sha256()[..4], [0xba, 0x78, 0x16, 0xbf]);
    assert_eq!(own.certificate_sha256()[28..], [0xf2, 0x00, 0x15, 0xad]);
}

#[test]
fn signatures_hold_for_one_key_purpose_and_message() {
    let own = identity([7; 32], b"certificate");
    let other = identity([8; 32], b"certificate");
    let signature = own.sign(SigningContext::FeaturePayload, b"message");
    let key = own.public_key_value();
    let check = |key: &DevicePublicKey, context, message: &[u8], signature: &DeviceSignature| {
        verify_signature(&domains(), key, context, message, signature)
    };
    assert!(check(&key, SigningContext::FeaturePayload, b"message", &signature).is_ok());
    for outcome in [
        check(&other.public_key_value(), SigningContext::FeaturePayload, b"message", &signature),
        check(&key, SigningContext::SessionAuthentication, b"message", &signature),
        check(&key, SigningContext::FeaturePayload, b"other", &signature),
        check(&key, SigningContext::FeaturePayload, b"message", &DeviceSignature::from_bytes(vec![0; 64])),
    ] {
        assert!(matches!(
            outcome,
            Err(NetworkError::InvalidIdentity(text)) if text == "signature verification"
        ));
    }
    assert!(matches!(
        check(&DevicePublicKey::from_bytes(vec![1; 31]), SigningContext::FeaturePayload, b"", &signature),
        Err(NetworkError::InvalidIdentity(text)) if text == "public key length"
    ));
    assert!(matches!(
        check(&key, SigningContext::FeaturePayload, b"", &DeviceSignature::from_bytes(vec![1; 63])),
        Err(NetworkError::InvalidIdentity(text)) if text == "signature length"
    ));
    let mut undecodable = vec![0_u8; 32];
    undecodable[0] = 2;
    assert!(matches!(
        check(&DevicePublicKey::from_bytes(undecodable), SigningContext::FeaturePayload, b"", &signature),
        Err(NetworkError::InvalidIdentity(text)) if text == "public key"
    ));
}

#[test]
fn outcomes_of_the_checks_become_the_verdict() {
    assert!(signature_outcome(32, 64, true, true).is_ok());
    let text = |outcome: Result<(), NetworkError>| match outcome {
        Err(NetworkError::InvalidIdentity(text)) => text,
        _ => panic!("an invalid identity"),
    };
    assert_eq!(text(signature_outcome(31, 63, false, false)), "public key length");
    assert_eq!(text(signature_outcome(32, 63, false, false)), "signature length");
    assert_eq!(text(signature_outcome(32, 64, false, false)), "public key");
    assert_eq!(text(signature_outcome(32, 64, true, false)), "signature verification");
}

#[test]
fn transcripts_frame_the_message() {
    assert_eq!(
        signing_transcript(b"d", b"xyz"),
        vec![b'd', 0, 0, 0, 0, 0, 0, 0, 3, b'x', b'y', b'z']
    );
    assert_ne!(signing_transcript(b"d", b"a"), signing_transcript(b"d", b"b"));
    assert_ne!(signing_transcript(b"da", b""), signing_transcript(b"db", b""));
}

#[test]
fn temporary_files_stand_beside_their_target() {
    assert_eq!(
        temporary_name("device-root.ed25519", 0xab),
        ".device-root.ed25519.tmp-00000000000000ab"
    );
}

#[test]
fn clocks_and_numbers() {
    assert_eq!(epoch_timestamp(None), 0);
    assert_eq!(epoch_timestamp(Some(1_700_000_000_000)), 1_700_000_000_000);
    assert!(now_ms() > 1_600_000_000_000);
    assert_eq!(nonzero(0), 1);
    assert_eq!(nonzero(9), 9);
    assert_ne!(random_nonzero_u64(), 0);
    assert_ne!(random_nonzero_u64(), random_nonzero_u64());
}
