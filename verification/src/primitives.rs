//! The operations that other crates and the operating system supply: hashes,
//! signatures, base64, certificates, random numbers and the clock.
use base64::Engine;
use ed25519_dalek::Signer;
use rand::RngCore;
use sha2::Digest;
use std::time::{Duration, SystemTime, SystemTimeError};
use vstd::prelude::*;

use crate::peer::texts;

verus! {

/// SHA-256 digest of `data`.
pub uninterp spec fn sha256_digest(data: Seq<u8>) -> Seq<u8>;

/// Calls `sha2::Sha256::digest`. The digest depends on `data` alone.
#[verifier::external_body]
pub(crate) fn sha256(data: &[u8]) -> (digest: [u8; 32])
    ensures
        digest@ == sha256_digest(data@),
{
    sha2::Sha256::digest(data).into()
}

/// Ed25519 public key that belongs to the secret key `seed`.
pub uninterp spec fn ed25519_public_key(seed: Seq<u8>) -> Seq<u8>;

/// Whether `key` is the encoding of a point on the Ed25519 curve.
pub uninterp spec fn ed25519_decodes(key: Seq<u8>) -> bool;

/// Ed25519 signature of `message` under the secret key `seed`.
pub uninterp spec fn ed25519_signature(seed: Seq<u8>, message: Seq<u8>) -> Seq<u8>;

/// Whether strict verification accepts `signature` for `message` under `key`.
pub uninterp spec fn ed25519_accepts(key: Seq<u8>, message: Seq<u8>, signature: Seq<u8>) -> bool;

/// The encoding of the neutral point of the Ed25519 curve.
pub open spec fn encodes_neutral_point(bytes: Seq<u8>) -> bool {
    &&& bytes.len() == 32
    &&& bytes[0] == 1
    &&& forall|i: int| 1 <= i < 32 ==> bytes[i] == 0
}

/// Calls `ed25519_dalek::SigningKey::verifying_key` on the key made of `seed`.
/// The public key depends on `seed` alone, and is the encoding of a point.
#[verifier::external_body]
pub(crate) fn derive_public_key(seed: &[u8; 32]) -> (key: [u8; 32])
    ensures
        key@ == ed25519_public_key(seed@),
        ed25519_decodes(key@),
{
    ed25519_dalek::SigningKey::from_bytes(seed).verifying_key().to_bytes()
}

/// Calls `ed25519_dalek::SigningKey::sign` on the key made of `seed`. The
/// signature depends on `seed` and `message` alone. Strict verification under
/// the matching public key accepts it, unless its first half encodes the
/// neutral point, which strict verification refuses.
#[verifier::external_body]
pub(crate) fn sign_message(seed: &[u8; 32], message: &[u8]) -> (signature: [u8; 64])
    ensures
        signature@ == ed25519_signature(seed@, message@),
        !encodes_neutral_point(signature@.take(32)) ==> ed25519_accepts(
            ed25519_public_key(seed@),
            message@,
            signature@,
        ),
{
    ed25519_dalek::SigningKey::from_bytes(seed).sign(message).to_bytes()
}

/// Calls `ed25519_dalek::VerifyingKey::from_bytes`, which succeeds exactly on
/// the encodings of points. Only the outcome is kept.
#[verifier::external_body]
pub(crate) fn decode_public_key(key: &[u8; 32]) -> (outcome: Result<(), ed25519_dalek::SignatureError>)
    ensures
        outcome is Ok <==> ed25519_decodes(key@),
{
    ed25519_dalek::VerifyingKey::from_bytes(key).map(|_| ())
}

/// Calls `ed25519_dalek::VerifyingKey::verify_strict` for a key that decodes.
/// The outcome depends on the three arguments alone.
#[verifier::external_body]
pub(crate) fn verify_strictly(
    key: &[u8; 32],
    message: &[u8],
    signature: &[u8; 64],
) -> (outcome: Result<(), ed25519_dalek::SignatureError>)
    requires
        ed25519_decodes(key@),
    ensures
        outcome is Ok <==> ed25519_accepts(key@, message@, signature@),
{
    let signature = ed25519_dalek::Signature::from_bytes(signature);
    ed25519_dalek::VerifyingKey::from_bytes(key)?.verify_strict(message, &signature)
}

/// The error of `ed25519_dalek`, which tells nothing beyond the failure.
#[verifier::external_type_specification]
#[verifier::external_body]
pub struct ExSignatureError(ed25519_dalek::SignatureError);

/// URL-safe base64 text of `bytes`, without padding.
pub uninterp spec fn base64_text(bytes: Seq<u8>) -> Seq<char>;

/// The bytes that URL-safe base64 text without padding stands for.
pub uninterp spec fn base64_bytes(text: Seq<char>) -> Option<Seq<u8>>;

/// The length of base64 text without padding: four characters for each three
/// bytes, and one more than there are bytes for a rest.
pub open spec fn base64_len(count: nat) -> nat {
    4 * (count / 3) + if count % 3 == 0 {
        0
    } else {
        count % 3 + 1
    }
}

/// The characters of URL-safe base64 text.
pub open spec fn base64_char(c: char) -> bool {
    'A' <= c <= 'Z' || 'a' <= c <= 'z' || '0' <= c <= '9' || c == '-' || c == '_'
}

/// Calls `base64::Engine::encode` of the `URL_SAFE_NO_PAD` engine. The text
/// depends on `bytes` alone, has the length of unpadded base64, holds only
/// characters of the URL-safe alphabet, and decoding it gives `bytes` back.
/// Encoding panics where the length of the text overflows, which the bound
/// leaves out.
#[verifier::external_body]
pub(crate) fn encode_base64(bytes: &[u8]) -> (text: String)
    requires
        bytes@.len() <= 0x1000_0000,
    ensures
        text@ == base64_text(bytes@),
        base64_bytes(text@) == Some(bytes@),
        text@.len() == base64_len(bytes@.len()),
        forall|i: int| 0 <= i < text@.len() ==> base64_char(#[trigger] text@[i]),
{
    base64::engine::general_purpose::URL_SAFE_NO_PAD.encode(bytes)
}

/// Calls `base64::Engine::decode` of the `URL_SAFE_NO_PAD` engine. The outcome
/// depends on `text` alone.
#[verifier::external_body]
pub(crate) fn decode_base64(text: &str) -> (bytes: Result<Vec<u8>, base64::DecodeError>)
    ensures
        match bytes {
            Ok(bytes) => base64_bytes(text@) == Some(bytes@),
            Err(_) => base64_bytes(text@) is None,
        },
{
    base64::engine::general_purpose::URL_SAFE_NO_PAD.decode(text)
}

/// The error of `base64` decoding.
#[verifier::external_type_specification]
#[verifier::external_body]
pub struct ExDecodeError(base64::DecodeError);

/// The names of a new endpoint certificate.
pub open spec fn certificate_names() -> Seq<Seq<char>> {
    seq!["ArcRelay"@, "localhost"@]
}

/// Calls `rcgen::generate_simple_self_signed` for the host names `names`, and
/// hands out the certificate and the private key, both in DER. The key is
/// random, so nothing more is claimed of either than that it is not empty; an
/// error is handed out as its text. The bound fixes the names that the library
/// asks for.
#[verifier::external_body]
pub(crate) fn self_signed_certificate(names: Vec<String>) -> (outcome: Result<
    (Vec<u8>, Vec<u8>),
    String,
>)
    requires
        texts(names@) == certificate_names(),
    ensures
        outcome matches Ok(made) ==> made.0@.len() > 0 && made.1@.len() > 0,
{
    let generated = rcgen::generate_simple_self_signed(names).map_err(|error| error.to_string())?;
    Ok((generated.cert.der().to_vec(), generated.key_pair.serialize_der()))
}

/// Calls `ed25519_dalek::SigningKey::generate` with the system's random source.
/// Nothing is claimed of the secret key, which is random.
#[verifier::external_body]
pub(crate) fn generate_seed() -> (seed: [u8; 32]) {
    ed25519_dalek::SigningKey::generate(&mut rand::rngs::OsRng).to_bytes()
}

/// Calls `rand::rngs::OsRng::next_u64`. Nothing is claimed of the number, which
/// is random.
#[verifier::external_body]
pub(crate) fn random_u64() -> (number: u64) {
    rand::rngs::OsRng.next_u64()
}

/// Calls `rand::rngs::OsRng::fill_bytes` on 32 bytes. Nothing is claimed of the
/// bytes, which are random.
#[verifier::external_body]
pub(crate) fn random_nonce() -> (nonce: [u8; 32]) {
    let mut nonce = [0_u8; 32];
    rand::rngs::OsRng.fill_bytes(&mut nonce);
    nonce
}

/// Calls `rand::random` for 16 bytes. Nothing is claimed of the bytes, which
/// are random.
#[verifier::external_body]
pub(crate) fn random_instance_id() -> (id: [u8; 16]) {
    rand::random()
}

/// A point in time of the system clock.
#[verifier::external_type_specification]
#[verifier::external_body]
pub struct ExSystemTime(SystemTime);

/// The error of asking for the time since a later point.
#[verifier::external_type_specification]
#[verifier::external_body]
pub struct ExSystemTimeError(SystemTimeError);

/// Calls `std::time::SystemTime::now`. Nothing is claimed of the clock.
#[verifier::external_body]
fn clock_now() -> (now: SystemTime) {
    SystemTime::now()
}

/// Calls `std::time::SystemTime::duration_since` with the Unix epoch. Nothing
/// is claimed of the clock, which may stand before the epoch.
#[verifier::external_body]
fn since_epoch(now: SystemTime) -> (elapsed: Result<Duration, SystemTimeError>) {
    now.duration_since(SystemTime::UNIX_EPOCH)
}

/// Calls `std::time::Duration::as_millis`. A duration is opaque to contracts, so
/// nothing is claimed of the number.
#[verifier::external_body]
fn whole_millis(elapsed: Duration) -> (millis: u128) {
    elapsed.as_millis()
}

/// Milliseconds since the Unix epoch as a signed number, or zero for a clock
/// that stands before the epoch.
pub open spec fn epoch_number(elapsed: Option<u128>) -> i64 {
    match elapsed {
        Some(millis) => millis as i64,
        None => 0,
    }
}

/// Turns the milliseconds since the Unix epoch into a timestamp.
pub fn epoch_timestamp(elapsed: Option<u128>) -> (timestamp: i64)
    ensures
        timestamp == epoch_number(elapsed),
{
    match elapsed {
        Some(millis) => millis as i64,
        None => 0,
    }
}

/// Milliseconds since the Unix epoch.
pub fn now_ms() -> (timestamp: i64)
    ensures
        exists|elapsed: Option<u128>| timestamp == #[trigger] epoch_number(elapsed),
{
    let elapsed: Option<u128> = match since_epoch(clock_now()) {
        Ok(elapsed) => Some(whole_millis(elapsed)),
        Err(_) => None,
    };
    epoch_timestamp(elapsed)
}

/// A number for `number` that is never zero.
pub fn nonzero(number: u64) -> (result: u64)
    ensures
        result == if number == 0 {
            1
        } else {
            number
        },
{
    if number == 0 {
        1
    } else {
        number
    }
}

/// A random number that is never zero.
pub fn random_nonzero_u64() -> (number: u64)
    ensures
        number != 0,
{
    nonzero(random_u64())
}

/// The bytes as an array, if there are as many as it holds.
pub fn to_array32(bytes: &[u8]) -> (array: Option<[u8; 32]>)
    ensures
        match array {
            Some(array) => array@ == bytes@,
            None => bytes@.len() != 32,
        },
{
    if bytes.len() != 32 {
        return None;
    }
    let mut array: [u8; 32] = [0; 32];
    let mut i: usize = 0;
    while i < 32
        invariant
            i <= 32,
            bytes@.len() == 32,
            forall|j: int| 0 <= j < i ==> array@[j] == bytes@[j],
        decreases 32 - i,
    {
        array[i] = bytes[i];
        i += 1;
    }
    assert(array@ =~= bytes@);
    Some(array)
}

/// The bytes as an array, if there are as many as it holds.
pub fn to_array16(bytes: &[u8]) -> (array: Option<[u8; 16]>)
    ensures
        match array {
            Some(array) => array@ == bytes@,
            None => bytes@.len() != 16,
        },
{
    if bytes.len() != 16 {
        return None;
    }
    let mut array: [u8; 16] = [0; 16];
    let mut i: usize = 0;
    while i < 16
        invariant
            i <= 16,
            bytes@.len() == 16,
            forall|j: int| 0 <= j < i ==> array@[j] == bytes@[j],
        decreases 16 - i,
    {
        array[i] = bytes[i];
        i += 1;
    }
    assert(array@ =~= bytes@);
    Some(array)
}

/// The bytes as an array, if there are as many as it holds.
pub fn to_array64(bytes: &[u8]) -> (array: Option<[u8; 64]>)
    ensures
        match array {
            Some(array) => array@ == bytes@,
            None => bytes@.len() != 64,
        },
{
    if bytes.len() != 64 {
        return None;
    }
    let mut array: [u8; 64] = [0; 64];
    let mut i: usize = 0;
    while i < 64
        invariant
            i <= 64,
            bytes@.len() == 64,
            forall|j: int| 0 <= j < i ==> array@[j] == bytes@[j],
        decreases 64 - i,
    {
        array[i] = bytes[i];
        i += 1;
    }
    assert(array@ =~= bytes@);
    Some(array)
}

/// Big-endian bytes of `value`.
pub open spec fn big_endian(value: u64) -> Seq<u8> {
    Seq::new(8, |i: int| big_endian_byte(value, i))
}

/// Byte `index` of the big-endian form of `value`.
pub open spec fn big_endian_byte(value: u64, index: int) -> u8 {
    if index == 0 {
        (value >> 56) as u8
    } else if index == 1 {
        (value >> 48) as u8
    } else if index == 2 {
        (value >> 40) as u8
    } else if index == 3 {
        (value >> 32) as u8
    } else if index == 4 {
        (value >> 24) as u8
    } else if index == 5 {
        (value >> 16) as u8
    } else if index == 6 {
        (value >> 8) as u8
    } else {
        value as u8
    }
}

/// Two numbers with the same big-endian bytes are equal.
pub proof fn lemma_big_endian_injective(a: u64, b: u64)
    requires
        big_endian(a) == big_endian(b),
    ensures
        a == b,
{
    assert forall|i: int| 0 <= i < 8 implies big_endian_byte(a, i) == big_endian_byte(b, i) by {
        assert(big_endian(a)[i] == big_endian_byte(a, i));
        assert(big_endian(b)[i] == big_endian_byte(b, i));
    }
    assert(big_endian_byte(a, 0) == big_endian_byte(b, 0));
    assert(big_endian_byte(a, 1) == big_endian_byte(b, 1));
    assert(big_endian_byte(a, 2) == big_endian_byte(b, 2));
    assert(big_endian_byte(a, 3) == big_endian_byte(b, 3));
    assert(big_endian_byte(a, 4) == big_endian_byte(b, 4));
    assert(big_endian_byte(a, 5) == big_endian_byte(b, 5));
    assert(big_endian_byte(a, 6) == big_endian_byte(b, 6));
    assert(big_endian_byte(a, 7) == big_endian_byte(b, 7));
    assert(a == b) by (bit_vector)
        requires
            (a >> 56) as u8 == (b >> 56) as u8,
            (a >> 48) as u8 == (b >> 48) as u8,
            (a >> 40) as u8 == (b >> 40) as u8,
            (a >> 32) as u8 == (b >> 32) as u8,
            (a >> 24) as u8 == (b >> 24) as u8,
            (a >> 16) as u8 == (b >> 16) as u8,
            (a >> 8) as u8 == (b >> 8) as u8,
            a as u8 == b as u8,
    ;
}

/// Appends the big-endian bytes of `value`.
pub fn append_big_endian(target: &mut Vec<u8>, value: u64)
    ensures
        final(target)@ == old(target)@ + big_endian(value),
{
    target.push((value >> 56) as u8);
    target.push((value >> 48) as u8);
    target.push((value >> 40) as u8);
    target.push((value >> 32) as u8);
    target.push((value >> 24) as u8);
    target.push((value >> 16) as u8);
    target.push((value >> 8) as u8);
    target.push(value as u8);
    assert(target@ =~= old(target)@ + big_endian(value));
}

/// Appends `bytes`.
pub fn append_bytes(target: &mut Vec<u8>, bytes: &[u8])
    ensures
        final(target)@ == old(target)@ + bytes@,
{
    let mut i: usize = 0;
    while i < bytes.len()
        invariant
            i <= bytes.len(),
            target@ == old(target)@ + bytes@.take(i as int),
        decreases bytes.len() - i,
    {
        target.push(bytes[i]);
        assert(target@ =~= old(target)@ + bytes@.take(i + 1));
        i += 1;
    }
    assert(bytes@.take(i as int) =~= bytes@);
}

} // verus!
