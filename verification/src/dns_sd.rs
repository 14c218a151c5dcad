//! The announcement of a device as a DNS-SD service: what it holds, and what a
//! device reads from the announcement of another.
use vstd::prelude::*;
use vstd::string::*;
use vstd::utf8::*;

use crate::address::{
    address_set, endpoint_set, is_address_set, is_endpoint_set, law_address_set, law_endpoint_set,
    IpAddress, SocketAddress,
};
use crate::discovery::{
    DeviceMetadata, DeviceMetadataView, PeerAdvertisement, PeerAdvertisementView,
};
use crate::error::{discovery_failed, result_view, NetworkError, NetworkErrorView};
use crate::identity::DeviceIdentity;
use crate::peer::{DeviceId, DevicePublicKey};
use crate::primitives::{
    base64_bytes, base64_char, base64_text, decode_base64, ed25519_public_key, encode_base64,
    sha256_digest, to_array32,
};
use crate::text::{
    byte_len, contains_bytes, decimal, decimal_text, digit_char, digit_text, digit_value, head,
    hex_value, lemma_decimal_round_trip, lemma_decimal_short, lemma_encode_utf8_add,
    lemma_encode_utf8_injective, parse_number, parsed_number,
    same_text, strip_start, stripped, text_head, utf8_len,
};
use crate::wire::WireProtocol;

verus! {

/// The service type of the web gateway.
pub const WEB_DISCOVERY_SERVICE_TYPE: &'static str = "_arcrelay-web._tcp.local.";

/// The TXT properties of a service, as `mdns-sd` holds them.
#[verifier::external_type_specification]
#[verifier::external_body]
pub struct ExTxtProperties(mdns_sd::TxtProperties);

/// A service that can be registered with the `mdns-sd` daemon.
#[verifier::external_type_specification]
#[verifier::external_body]
pub struct ExServiceInfo(mdns_sd::ServiceInfo);

/// The error of `mdns-sd`.
#[verifier::external_type_specification]
#[verifier::external_body]
pub struct ExMdnsError(mdns_sd::Error);

/// What TXT properties hold: for each key in lower case the text of the first
/// property with that key, empty where it has no value or one that is no text.
pub uninterp spec fn txt_values(properties: mdns_sd::TxtProperties) -> Map<Seq<char>, Seq<char>>;

/// What the TXT properties of a service hold.
pub uninterp spec fn service_values(info: mdns_sd::ServiceInfo) -> Map<Seq<char>, Seq<char>>;

/// The full name of a service.
pub uninterp spec fn service_fullname(info: mdns_sd::ServiceInfo) -> Seq<char>;

/// The host of a service.
pub uninterp spec fn service_host(info: mdns_sd::ServiceInfo) -> Seq<char>;

/// The port of a service.
pub uninterp spec fn service_port(info: mdns_sd::ServiceInfo) -> u16;

/// Keys of lower case letters and `_`.
pub open spec fn plain_key(key: Seq<char>) -> bool {
    forall|i: int| 0 <= i < key.len() ==> ('a' <= #[trigger] key[i] <= 'z' || key[i] == '_')
}

/// The value of a key, where there is one.
pub open spec fn lookup(map: Map<Seq<char>, Seq<char>>, key: Seq<char>) -> Option<Seq<char>> {
    if map.contains_key(key) {
        Some(map[key])
    } else {
        None
    }
}

/// What an optional text says.
pub open spec fn text_option(text: Option<String>) -> Option<Seq<char>> {
    match text {
        Some(text) => Some(text@),
        None => None,
    }
}

/// Calls `mdns_sd::TxtProperties::get_property_val_str`. For a key in lower case
/// it gives the text of the first property with that key.
#[verifier::external_body]
pub(crate) fn property(properties: &mdns_sd::TxtProperties, key: &str) -> (value: Option<String>)
    requires
        plain_key(key@),
    ensures
        text_option(value) == lookup(txt_values(*properties), key@),
{
    properties.get_property_val_str(key).map(|value| value.to_owned())
}

/// What a list of properties says.
pub open spec fn pairs(list: Seq<(String, String)>) -> Seq<(Seq<char>, Seq<char>)> {
    list.map_values(|pair: (String, String)| (pair.0@, pair.1@))
}

/// The values of a list of properties by key.
pub open spec fn property_map(list: Seq<(Seq<char>, Seq<char>)>) -> Map<Seq<char>, Seq<char>>
    decreases list.len(),
{
    if list.len() == 0 {
        Map::empty()
    } else {
        property_map(list.drop_last()).insert(list.last().0, list.last().1)
    }
}

/// The keys are plain and no key occurs twice.
pub open spec fn plain_keys(list: Seq<(Seq<char>, Seq<char>)>) -> bool {
    &&& forall|i: int| 0 <= i < list.len() ==> plain_key((#[trigger] list[i]).0)
    &&& forall|i: int, j: int|
        0 <= i < j < list.len() ==> (#[trigger] list[i]).0 != (#[trigger] list[j]).0
}

/// Each property fits in a TXT string, whose length is one byte.
pub open spec fn fits(list: Seq<(Seq<char>, Seq<char>)>) -> bool {
    forall|i: int|
        0 <= i < list.len() ==> utf8_len((#[trigger] list[i]).0) + 1 + utf8_len(list[i].1) <= 255
}

/// The text has no character that is escaped in a service name.
pub open spec fn plain_label(text: Seq<char>) -> bool {
    forall|i: int| 0 <= i < text.len() ==> #[trigger] text[i] != '.' && text[i] != '\\'
}

/// The text ends with `tail`.
pub open spec fn ends_with(text: Seq<char>, tail: Seq<char>) -> bool {
    tail.is_suffix_of(text)
}

/// The service holds these values.
pub open spec fn carries(
    info: mdns_sd::ServiceInfo,
    service_type: Seq<char>,
    instance: Seq<char>,
    host: Seq<char>,
    port: u16,
    values: Map<Seq<char>, Seq<char>>,
) -> bool {
    &&& service_values(info) == values
    &&& service_port(info) == port
    &&& plain_label(instance) && !contains_bytes(
        encode_utf8(service_type),
        encode_utf8("._sub."@),
    ) ==> service_fullname(info) == instance + "."@ + service_type
    &&& !ends_with(host, ".local.local."@) ==> service_host(info) == host
}

/// Calls `mdns_sd::ServiceInfo::new` without addresses. It fails exactly where a
/// property does not fit. The service has the given properties, port and host,
/// and its full name is the instance and the service type. Left unsaid are the
/// names that it normalises: an instance with characters to escape, a subtype,
/// and a host that ends with the domain twice.
#[verifier::external_body]
fn new_service_info(
    service_type: &str,
    instance: &str,
    host: &str,
    port: u16,
    properties: &Vec<(String, String)>,
) -> (info: Result<mdns_sd::ServiceInfo, mdns_sd::Error>)
    requires
        plain_keys(pairs(properties@)),
    ensures
        info is Ok <==> fits(pairs(properties@)),
        info matches Ok(info) ==> carries(
            info,
            service_type@,
            instance@,
            host@,
            port,
            property_map(pairs(properties@)),
        ),
{
    mdns_sd::ServiceInfo::new(service_type, instance, host, "", port, properties.as_slice())
}

/// Calls `mdns_sd::ServiceInfo::enable_addr_auto`, which leaves the name, the
/// host, the port and the properties as they are. Left unsaid is that the
/// daemon then keeps the addresses of the service up to date.
#[verifier::external_body]
fn with_automatic_addresses(info: mdns_sd::ServiceInfo) -> (result: mdns_sd::ServiceInfo)
    ensures
        service_values(result) == service_values(info),
        service_fullname(result) == service_fullname(info),
        service_host(result) == service_host(info),
        service_port(result) == service_port(info),
{
    info.enable_addr_auto()
}

/// Calls `mdns_sd::ServiceInfo::get_fullname`.
#[verifier::external_body]
pub(crate) fn fullname_of(info: &mdns_sd::ServiceInfo) -> (name: String)
    ensures
        name@ == service_fullname(*info),
{
    info.get_fullname().to_owned()
}

/// Turns an error of `mdns-sd` into text. Nothing is claimed of the text.
#[verifier::external_body]
fn mdns_error_text(error: &mdns_sd::Error) -> (text: String) {
    error.to_string()
}

/// A service to register.
#[derive(Debug)]
pub struct ServiceRecord {
    pub service_type: String,
    pub instance: String,
    pub host: String,
    pub port: u16,
    pub properties: Vec<(String, String)>,
}

/// What a [`ServiceRecord`] says.
pub struct ServiceRecordView {
    pub service_type: Seq<char>,
    pub instance: Seq<char>,
    pub host: Seq<char>,
    pub port: u16,
    pub properties: Seq<(Seq<char>, Seq<char>)>,
}

impl View for ServiceRecord {
    type V = ServiceRecordView;

    open spec fn view(&self) -> ServiceRecordView {
        ServiceRecordView {
            service_type: self.service_type@,
            instance: self.instance@,
            host: self.host@,
            port: self.port,
            properties: pairs(self.properties@),
        }
    }
}

/// The service of a record, or the error where a property does not fit.
pub fn to_service(record: &ServiceRecord) -> (info: Result<mdns_sd::ServiceInfo, NetworkError>)
    requires
        plain_keys(record@.properties),
    ensures
        match info {
            Ok(info) => fits(record@.properties) && carries(
                info,
                record@.service_type,
                record@.instance,
                record@.host,
                record@.port,
                property_map(record@.properties),
            ),
            Err(error) => !fits(record@.properties) && error@ is Discovery,
        },
{
    match new_service_info(
        record.service_type.as_str(),
        record.instance.as_str(),
        record.host.as_str(),
        record.port,
        &record.properties,
    ) {
        Ok(info) => Ok(with_automatic_addresses(info)),
        Err(error) => Err(discovery_failed(mdns_error_text(&error).as_str())),
    }
}

/// Hexadecimal text of bytes, two digits each.
pub open spec fn hex_text(bytes: Seq<u8>) -> Seq<char>
    decreases bytes.len(),
{
    if bytes.len() == 0 {
        seq![]
    } else {
        hex_text(bytes.drop_last()) + seq![
            digit_char(bytes.last() as int / 16),
            digit_char(bytes.last() as int % 16),
        ]
    }
}

/// Hexadecimal text of bytes, two digits each.
pub fn hex(bytes: &[u8]) -> (text: String)
    ensures
        text@ == hex_text(bytes@),
{
    let mut text = String::new();
    let mut i: usize = 0;
    assert(text@ =~= hex_text(bytes@.take(0)));
    while i < bytes.len()
        invariant
            i <= bytes.len(),
            text@ == hex_text(bytes@.take(i as int)),
        decreases bytes.len() - i,
    {
        let ghost before = text@;
        let byte: u8 = bytes[i];
        text.append(digit_text(byte / 16));
        text.append(digit_text(byte % 16));
        proof {
            let part = bytes@.take(i + 1);
            assert(part.drop_last() =~= bytes@.take(i as int));
            assert(part.last() == byte);
            assert(text@ =~= before + seq![
                digit_char(byte as int / 16),
                digit_char(byte as int % 16),
            ]);
        }
        i += 1;
    }
    assert(bytes@.take(i as int) =~= bytes@);
    text
}

/// The byte that two characters stand for: two hexadecimal digits, or a plus
/// sign and one.
pub open spec fn pair_value(high: u8, low: u8) -> Option<u8> {
    match (digit_value(high), digit_value(low)) {
        (Some(h), Some(l)) => Some((h * 16 + l) as u8),
        (None, Some(l)) => if high == 43 {
            Some(l)
        } else {
            None
        },
        _ => None,
    }
}

/// The bytes that a hexadecimal text stands for.
pub open spec fn unhexed(text: Seq<u8>) -> Option<Seq<u8>>
    decreases text.len(),
{
    if text.len() == 0 {
        Some(seq![])
    } else if text.len() == 1 {
        None
    } else {
        match (
            unhexed(text.take(text.len() - 2)),
            pair_value(text[text.len() - 2], text[text.len() - 1]),
        ) {
            (Some(bytes), Some(byte)) => Some(bytes.push(byte)),
            _ => None,
        }
    }
}

/// A text whose beginning stands for no bytes stands for none.
proof fn lemma_unhexed_prefix(text: Seq<u8>, count: int)
    requires
        0 <= count <= text.len(),
        (text.len() - count) % 2 == 0,
        unhexed(text.take(count)) is None,
    ensures
        unhexed(text) is None,
    decreases text.len(),
{
    if count == text.len() {
        assert(text.take(count) =~= text);
    } else {
        let part = text.take(text.len() - 2);
        assert(part.take(count) =~= text.take(count));
        lemma_unhexed_prefix(part, count);
    }
}

/// A text of odd length stands for no bytes.
proof fn lemma_unhexed_odd(text: Seq<u8>)
    requires
        text.len() % 2 == 1,
    ensures
        unhexed(text) is None,
    decreases text.len(),
{
    if text.len() > 1 {
        lemma_unhexed_odd(text.take(text.len() - 2));
    }
}

/// The bytes that a hexadecimal text stands for.
pub fn unhex(value: &str) -> (bytes: Option<Vec<u8>>)
    ensures
        match bytes {
            Some(bytes) => unhexed(encode_utf8(value@)) == Some(bytes@),
            None => unhexed(encode_utf8(value@)) is None,
        },
{
    let text = value.as_bytes();
    let ghost all = encode_utf8(value@);
    if text.len() % 2 != 0 {
        proof {
            lemma_unhexed_odd(all);
        }
        return None;
    }
    let mut bytes: Vec<u8> = Vec::new();
    let mut i: usize = 0;
    assert(all.take(0) =~= seq![]);
    while i < text.len()
        invariant
            i <= text.len(),
            i % 2 == 0,
            text@.len() % 2 == 0,
            text@ == all,
            all == encode_utf8(value@),
            unhexed(all.take(i as int)) == Some(bytes@),
        decreases text.len() - i,
    {
        let high = hex_value(text[i]);
        let low = hex_value(text[i + 1]);
        let ghost part = all.take(i + 2);
        proof {
            assert(part.take(part.len() - 2) =~= all.take(i as int));
            assert(part[i as int] == all[i as int]);
            assert(part[i + 1] == all[i + 1]);
        }
        let byte: u8 = match (high, low) {
            (Some(h), Some(l)) => h * 16 + l,
            (None, Some(l)) if text[i] == 43 => l,
            _ => {
                proof {
                    assert(unhexed(part) is None);
                    lemma_unhexed_prefix(all, i + 2);
                }
                return None;
            },
        };
        assert(pair_value(part[i as int], part[i + 1]) == Some(byte));
        bytes.push(byte);
        i += 2;
    }
    assert(all.take(i as int) =~= all);
    Some(bytes)
}

proof fn lemma_hex_ascii(bytes: Seq<u8>)
    ensures
        is_ascii_chars(hex_text(bytes)),
        hex_text(bytes).len() == 2 * bytes.len(),
    decreases bytes.len(),
{
    if bytes.len() > 0 {
        lemma_hex_ascii(bytes.drop_last());
    }
}

/// Bytes read back from their hexadecimal text.
pub proof fn law_hex_round_trip(bytes: Seq<u8>)
    ensures
        unhexed(encode_utf8(hex_text(bytes))) == Some(bytes),
    decreases bytes.len(),
{
    lemma_hex_ascii(bytes);
    is_ascii_chars_encode_utf8(hex_text(bytes));
    if bytes.len() > 0 {
        let rest = bytes.drop_last();
        let byte = bytes.last();
        law_hex_round_trip(rest);
        lemma_hex_ascii(rest);
        is_ascii_chars_encode_utf8(hex_text(rest));
        let text = encode_utf8(hex_text(bytes));
        assert(text.take(text.len() - 2) =~= encode_utf8(hex_text(rest)));
        let high = (byte / 16) as int;
        let low = (byte % 16) as int;
        assert(hex_text(bytes)[text.len() - 2] == digit_char(high));
        assert(hex_text(bytes)[text.len() - 1] == digit_char(low));
        assert(digit_value(text[text.len() - 2]) == Some(high as u8));
        assert(digit_value(text[text.len() - 1]) == Some(low as u8));
        assert(high * 16 + low == byte);
        assert(rest.push(byte) =~= bytes);
    } else {
        assert(encode_utf8(hex_text(bytes)) =~= seq![]);
        assert(bytes =~= seq![]);
    }
}

/// The part of a device id that names it among others.
pub open spec fn id_suffix(id: Seq<char>) -> Seq<char> {
    stripped(id, "arc-"@)
}

/// `limit`, or the length of the text in bytes where that is less.
pub open spec fn cut(text: Seq<char>, limit: int) -> int {
    if utf8_len(text) < limit {
        utf8_len(text) as int
    } else {
        limit
    }
}

/// The host name of a device: at most 32 bytes of the id.
pub open spec fn hostname(id: Seq<char>) -> Seq<char> {
    "arcrelay-"@ + head(id_suffix(id), cut(id_suffix(id), 32)) + ".local"@
}

/// The host name of a device.
pub fn device_hostname(id: &DeviceId) -> (name: String)
    requires
        is_char_boundary(encode_utf8(id_suffix(id@)), cut(id_suffix(id@), 32)),
    ensures
        name@ == hostname(id@),
{
    let suffix = strip_start(id.as_str(), "arc-");
    let len: usize = byte_len(suffix);
    let count: usize = if len < 32 {
        len
    } else {
        32
    };
    let mut name = "arcrelay-".to_owned();
    name.append(text_head(suffix, count));
    name.append(".local");
    name
}

/// The id is long enough to name the service and the host of the device.
pub open spec fn names_service(id: Seq<char>) -> bool {
    is_char_boundary(encode_utf8(id_suffix(id)), 20) && is_char_boundary(
        encode_utf8(id_suffix(id)),
        32,
    )
}

/// What the announcement of a device holds.
pub open spec fn announced(
    id: Seq<char>,
    key_text: Seq<char>,
    metadata: DeviceMetadataView,
    port: u16,
    certificate_sha256: Seq<u8>,
    wire: WireProtocol,
) -> Seq<(Seq<char>, Seq<char>)> {
    seq![
        ("protocol"@, wire.discovery_protocol@),
        ("protocol_minor_min"@, decimal(wire.min_minor as nat)),
        ("protocol_minor_max"@, decimal(wire.max_minor as nat)),
        ("device_id"@, id),
        ("device_name"@, metadata.name),
        ("platform"@, metadata.platform),
        ("model"@, metadata.model),
        ("public_key"@, key_text),
        ("port"@, decimal(port as nat)),
        ("certificate"@, hex_text(certificate_sha256)),
    ]
}

/// The service of a device.
pub open spec fn announcement(
    id: Seq<char>,
    key_text: Seq<char>,
    metadata: DeviceMetadataView,
    port: u16,
    certificate_sha256: Seq<u8>,
    wire: WireProtocol,
) -> ServiceRecordView {
    ServiceRecordView {
        service_type: wire.service_type@,
        instance: "arc-"@ + head(id_suffix(id), 20),
        host: "arcrelay-"@ + head(id_suffix(id), 32) + ".local."@,
        port,
        properties: announced(id, key_text, metadata, port, certificate_sha256, wire),
    }
}

/// The keys of an announcement are plain and differ from each other.
proof fn lemma_announced_keys(
    id: Seq<char>,
    key_text: Seq<char>,
    metadata: DeviceMetadataView,
    port: u16,
    certificate_sha256: Seq<u8>,
    wire: WireProtocol,
)
    ensures
        plain_keys(announced(id, key_text, metadata, port, certificate_sha256, wire)),
{
    reveal_strlit("protocol");
    reveal_strlit("protocol_minor_min");
    reveal_strlit("protocol_minor_max");
    reveal_strlit("device_id");
    reveal_strlit("device_name");
    reveal_strlit("platform");
    reveal_strlit("model");
    reveal_strlit("public_key");
    reveal_strlit("port");
    reveal_strlit("certificate");
    let list = announced(id, key_text, metadata, port, certificate_sha256, wire);
    assert(list[0].0 == "protocol"@ && list[0].0.len() == 8 && list[0].0[1] == 'r');
    assert(list[1].0 == "protocol_minor_min"@ && list[1].0.len() == 18 && list[1].0[16] == 'i');
    assert(list[2].0 == "protocol_minor_max"@ && list[2].0.len() == 18 && list[2].0[16] == 'a');
    assert(list[3].0 == "device_id"@ && list[3].0.len() == 9);
    assert(list[4].0 == "device_name"@ && list[4].0.len() == 11 && list[4].0[0] == 'd');
    assert(list[5].0 == "platform"@ && list[5].0.len() == 8 && list[5].0[1] == 'l');
    assert(list[6].0 == "model"@ && list[6].0.len() == 5);
    assert(list[7].0 == "public_key"@ && list[7].0.len() == 10);
    assert(list[8].0 == "port"@ && list[8].0.len() == 4);
    assert(list[9].0 == "certificate"@ && list[9].0.len() == 11 && list[9].0[0] == 'c');
    assert(plain_key("protocol"@));
    assert(plain_key("protocol_minor_min"@));
    assert(plain_key("protocol_minor_max"@));
    assert(plain_key("device_id"@));
    assert(plain_key("device_name"@));
    assert(plain_key("platform"@));
    assert(plain_key("model"@));
    assert(plain_key("public_key"@));
    assert(plain_key("port"@));
    assert(plain_key("certificate"@));
    assert forall|i: int| 0 <= i < list.len() implies plain_key((#[trigger] list[i]).0) by {}
    assert forall|i: int, j: int| 0 <= i < j < list.len() implies (#[trigger] list[i]).0 != (
    #[trigger] list[j]).0 by {}
}

/// What a device tells of itself leaves room for the keys, so that its
/// announcement fits.
pub open spec fn has_room(id: Seq<char>, metadata: DeviceMetadataView, wire: WireProtocol) -> bool {
    &&& utf8_len(wire.discovery_protocol@) <= 246
    &&& utf8_len(id) <= 245
    &&& utf8_len(metadata.name) <= 243
    &&& utf8_len(metadata.platform) <= 246
    &&& utf8_len(metadata.model) <= 249
}

/// ASCII text has as many bytes as characters.
proof fn lemma_ascii_len(text: Seq<char>)
    requires
        is_ascii_chars(text),
    ensures
        utf8_len(text) == text.len(),
{
    is_ascii_chars_encode_utf8(text);
}

/// Whether the announcement of a device fits depends only on what the device
/// tells of itself: the key, the digest and the numbers always fit.
proof fn lemma_announced_fits(
    id: Seq<char>,
    key_text: Seq<char>,
    metadata: DeviceMetadataView,
    port: u16,
    certificate_sha256: Seq<u8>,
    wire: WireProtocol,
)
    requires
        key_text.len() == 43,
        forall|i: int| 0 <= i < key_text.len() ==> base64_char(#[trigger] key_text[i]),
        certificate_sha256.len() == 32,
    ensures
        fits(announced(id, key_text, metadata, port, certificate_sha256, wire)) <==> has_room(
            id,
            metadata,
            wire,
        ),
{
    reveal_strlit("protocol");
    reveal_strlit("protocol_minor_min");
    reveal_strlit("protocol_minor_max");
    reveal_strlit("device_id");
    reveal_strlit("device_name");
    reveal_strlit("platform");
    reveal_strlit("model");
    reveal_strlit("public_key");
    reveal_strlit("port");
    reveal_strlit("certificate");
    lemma_ascii_len("protocol"@);
    lemma_ascii_len("protocol_minor_min"@);
    lemma_ascii_len("protocol_minor_max"@);
    lemma_ascii_len("device_id"@);
    lemma_ascii_len("device_name"@);
    lemma_ascii_len("platform"@);
    lemma_ascii_len("model"@);
    lemma_ascii_len("public_key"@);
    lemma_ascii_len("port"@);
    lemma_ascii_len("certificate"@);
    lemma_ascii_len(key_text);
    lemma_hex_ascii(certificate_sha256);
    lemma_ascii_len(hex_text(certificate_sha256));
    lemma_decimal_short(wire.min_minor);
    lemma_decimal_short(wire.max_minor);
    lemma_decimal_short(port as u32);
    let list = announced(id, key_text, metadata, port, certificate_sha256, wire);
    assert(list[0] == ("protocol"@, wire.discovery_protocol@));
    assert(list[3] == ("device_id"@, id));
    assert(list[4] == ("device_name"@, metadata.name));
    assert(list[5] == ("platform"@, metadata.platform));
    assert(list[6] == ("model"@, metadata.model));
    if has_room(id, metadata, wire) {
        assert forall|i: int| 0 <= i < list.len() implies utf8_len((#[trigger] list[i]).0) + 1
            + utf8_len(list[i].1) <= 255 by {}
    }
}

/// The service that announces a device.
pub fn service_record(
    identity: &DeviceIdentity,
    metadata: &DeviceMetadata,
    port: u16,
    wire: &WireProtocol,
) -> (record: Result<ServiceRecord, NetworkError>)
    requires
        port != 0 ==> names_service(identity.id()),
    ensures
        result_view(record) == if port == 0 {
            Err(NetworkErrorView::Discovery("endpoint port cannot be zero"@))
        } else {
            Ok(
                announcement(
                    identity.id(),
                    base64_text(ed25519_public_key(identity.root())),
                    metadata@,
                    port,
                    sha256_digest(identity.certificate()),
                    *wire,
                ),
            )
        },
        record is Ok ==> plain_keys(record->Ok_0@.properties) && base64_bytes(
            base64_text(ed25519_public_key(identity.root())),
        ) == Some(ed25519_public_key(identity.root())) && sha256_digest(
            identity.certificate(),
        ).len() == 32 && (fits(record->Ok_0@.properties) <==> has_room(
            identity.id(),
            metadata@,
            *wire,
        )),
{
    if port == 0 {
        return Err(discovery_failed("endpoint port cannot be zero"));
    }
    let id = identity.device_id();
    let key = identity.public_key_value();
    let key_text = encode_base64(key.as_bytes());
    let digest = identity.certificate_sha256();
    let mut properties: Vec<(String, String)> = Vec::new();
    properties.push(("protocol".to_owned(), wire.discovery_protocol.clone()));
    properties.push(("protocol_minor_min".to_owned(), decimal_text(wire.min_minor as u64)));
    properties.push(("protocol_minor_max".to_owned(), decimal_text(wire.max_minor as u64)));
    properties.push(("device_id".to_owned(), id.as_str().to_owned()));
    properties.push(("device_name".to_owned(), metadata.name.clone()));
    properties.push(("platform".to_owned(), metadata.platform.clone()));
    properties.push(("model".to_owned(), metadata.model.clone()));
    properties.push(("public_key".to_owned(), key_text));
    properties.push(("port".to_owned(), decimal_text(port as u64)));
    properties.push(("certificate".to_owned(), hex(digest.as_slice())));
    let suffix = strip_start(id.as_str(), "arc-");
    let mut instance = "arc-".to_owned();
    instance.append(text_head(suffix, 20));
    let mut host = "arcrelay-".to_owned();
    host.append(text_head(suffix, 32));
    host.append(".local.");
    let record = ServiceRecord {
        service_type: wire.service_type.clone(),
        instance,
        host,
        port,
        properties,
    };
    proof {
        let expected = announced(
            identity.id(),
            base64_text(ed25519_public_key(identity.root())),
            metadata@,
            port,
            sha256_digest(identity.certificate()),
            *wire,
        );
        assert(pairs(record.properties@) =~= expected);
        lemma_announced_keys(
            identity.id(),
            base64_text(ed25519_public_key(identity.root())),
            metadata@,
            port,
            sha256_digest(identity.certificate()),
            *wire,
        );
        lemma_announced_fits(
            identity.id(),
            base64_text(ed25519_public_key(identity.root())),
            metadata@,
            port,
            sha256_digest(identity.certificate()),
            *wire,
        );
    }
    Ok(record)
}

/// The service that announces a device, ready to be registered.
pub fn service_info(
    identity: &DeviceIdentity,
    metadata: &DeviceMetadata,
    port: u16,
    wire: &WireProtocol,
) -> (info: Result<mdns_sd::ServiceInfo, NetworkError>)
    requires
        port != 0 ==> names_service(identity.id()),
    ensures
        ({
            let record = announcement(
                identity.id(),
                base64_text(ed25519_public_key(identity.root())),
                metadata@,
                port,
                sha256_digest(identity.certificate()),
                *wire,
            );
            match info {
                Ok(info) => port != 0 && fits(record.properties) && carries(
                    info,
                    record.service_type,
                    record.instance,
                    record.host,
                    port,
                    property_map(record.properties),
                ),
                Err(error) => if port == 0 {
                    error@ == NetworkErrorView::Discovery("endpoint port cannot be zero"@)
                } else {
                    !fits(record.properties) && error@ is Discovery
                },
            }
        }),
        info is Ok <==> port != 0 && has_room(identity.id(), metadata@, *wire),
        info is Ok ==> sha256_digest(identity.certificate()).len() == 32 && base64_bytes(
            base64_text(ed25519_public_key(identity.root())),
        ) == Some(ed25519_public_key(identity.root())),
{
    match service_record(identity, metadata, port, wire) {
        Ok(record) => to_service(&record),
        Err(error) => Err(error),
    }
}

/// The service of the web gateway of a device.
pub open spec fn gateway(id: Seq<char>, site_name: Seq<char>, port: u16) -> ServiceRecordView {
    ServiceRecordView {
        service_type: WEB_DISCOVERY_SERVICE_TYPE@,
        instance: "arc-web-"@ + head(id_suffix(id), cut(id_suffix(id), 20)),
        host: hostname(id) + "."@,
        port,
        properties: seq![
            ("feature"@, "files"@),
            ("site_name"@, site_name),
            ("version"@, "1"@),
        ],
    }
}

/// The service of the web gateway of a device.
pub fn web_gateway_record(id: &DeviceId, site_name: &str, port: u16) -> (record: Result<
    ServiceRecord,
    NetworkError,
>)
    requires
        port != 0 ==> is_char_boundary(encode_utf8(id_suffix(id@)), cut(id_suffix(id@), 20))
            && is_char_boundary(encode_utf8(id_suffix(id@)), cut(id_suffix(id@), 32)),
    ensures
        result_view(record) == if port == 0 {
            Err(NetworkErrorView::Discovery("web gateway port cannot be zero"@))
        } else {
            Ok(gateway(id@, site_name@, port))
        },
        record is Ok ==> plain_keys(record->Ok_0@.properties),
{
    if port == 0 {
        return Err(discovery_failed("web gateway port cannot be zero"));
    }
    let suffix = strip_start(id.as_str(), "arc-");
    let len: usize = byte_len(suffix);
    let count: usize = if len < 20 {
        len
    } else {
        20
    };
    let mut instance = "arc-web-".to_owned();
    instance.append(text_head(suffix, count));
    let mut host = device_hostname(id);
    host.append(".");
    let mut properties: Vec<(String, String)> = Vec::new();
    properties.push(("feature".to_owned(), "files".to_owned()));
    properties.push(("site_name".to_owned(), site_name.to_owned()));
    properties.push(("version".to_owned(), "1".to_owned()));
    let record = ServiceRecord {
        service_type: WEB_DISCOVERY_SERVICE_TYPE.to_owned(),
        instance,
        host,
        port,
        properties,
    };
    proof {
        assert(record@.properties =~= gateway(id@, site_name@, port).properties);
        reveal_strlit("feature");
        reveal_strlit("site_name");
        reveal_strlit("version");
        assert("feature"@[0] != "version"@[0]);
    }
    Ok(record)
}

/// The outcome is the service of the web gateway of a device, or the error where
/// it has no port or a property does not fit.
pub open spec fn is_gateway(
    id: Seq<char>,
    site_name: Seq<char>,
    port: u16,
    outcome: Result<mdns_sd::ServiceInfo, NetworkError>,
) -> bool {
    let record = gateway(id, site_name, port);
    match outcome {
        Ok(info) => port != 0 && fits(record.properties) && carries(
            info,
            record.service_type,
            record.instance,
            record.host,
            port,
            property_map(record.properties),
        ),
        Err(error) => if port == 0 {
            error@ == NetworkErrorView::Discovery("web gateway port cannot be zero"@)
        } else {
            !fits(record.properties) && error@ is Discovery
        },
    }
}

/// What a device reads from the TXT properties of another.
#[derive(Debug)]
pub struct ServiceFields {
    pub protocol: Option<String>,
    pub protocol_minor_min: Option<String>,
    pub protocol_minor_max: Option<String>,
    pub device_id: Option<String>,
    pub device_name: Option<String>,
    pub platform: Option<String>,
    pub model: Option<String>,
    pub public_key: Option<String>,
    pub port: Option<String>,
    pub certificate: Option<String>,
}

/// What [`ServiceFields`] say.
pub struct ServiceFieldsView {
    pub protocol: Option<Seq<char>>,
    pub protocol_minor_min: Option<Seq<char>>,
    pub protocol_minor_max: Option<Seq<char>>,
    pub device_id: Option<Seq<char>>,
    pub device_name: Option<Seq<char>>,
    pub platform: Option<Seq<char>>,
    pub model: Option<Seq<char>>,
    pub public_key: Option<Seq<char>>,
    pub port: Option<Seq<char>>,
    pub certificate: Option<Seq<char>>,
}

impl View for ServiceFields {
    type V = ServiceFieldsView;

    open spec fn view(&self) -> ServiceFieldsView {
        ServiceFieldsView {
            protocol: text_option(self.protocol),
            protocol_minor_min: text_option(self.protocol_minor_min),
            protocol_minor_max: text_option(self.protocol_minor_max),
            device_id: text_option(self.device_id),
            device_name: text_option(self.device_name),
            platform: text_option(self.platform),
            model: text_option(self.model),
            public_key: text_option(self.public_key),
            port: text_option(self.port),
            certificate: text_option(self.certificate),
        }
    }
}

/// The fields among TXT values.
pub open spec fn fields_of(values: Map<Seq<char>, Seq<char>>) -> ServiceFieldsView {
    ServiceFieldsView {
        protocol: lookup(values, "protocol"@),
        protocol_minor_min: lookup(values, "protocol_minor_min"@),
        protocol_minor_max: lookup(values, "protocol_minor_max"@),
        device_id: lookup(values, "device_id"@),
        device_name: lookup(values, "device_name"@),
        platform: lookup(values, "platform"@),
        model: lookup(values, "model"@),
        public_key: lookup(values, "public_key"@),
        port: lookup(values, "port"@),
        certificate: lookup(values, "certificate"@),
    }
}

/// Reads the fields of an announcement.
pub fn read_fields(properties: &mdns_sd::TxtProperties) -> (fields: ServiceFields)
    ensures
        fields@ == fields_of(txt_values(*properties)),
{
    proof {
        reveal_strlit("protocol");
        reveal_strlit("protocol_minor_min");
        reveal_strlit("protocol_minor_max");
        reveal_strlit("device_id");
        reveal_strlit("device_name");
        reveal_strlit("platform");
        reveal_strlit("model");
        reveal_strlit("public_key");
        reveal_strlit("port");
        reveal_strlit("certificate");
    }
    ServiceFields {
        protocol: property(properties, "protocol"),
        protocol_minor_min: property(properties, "protocol_minor_min"),
        protocol_minor_max: property(properties, "protocol_minor_max"),
        device_id: property(properties, "device_id"),
        device_name: property(properties, "device_name"),
        platform: property(properties, "platform"),
        model: property(properties, "model"),
        public_key: property(properties, "public_key"),
        port: property(properties, "port"),
        certificate: property(properties, "certificate"),
    }
}

/// The device id and the key bytes that an announcement claims.
pub open spec fn claimed(fields: ServiceFieldsView) -> Option<(Seq<char>, Seq<u8>)> {
    match (fields.device_id, fields.public_key) {
        (Some(id), Some(text)) => match base64_bytes(text) {
            Some(key) => Some((id, key)),
            None => None,
        },
        _ => None,
    }
}

/// The device id and the key bytes that an announcement claims. Whether they
/// belong together is not checked here.
pub fn advertised_identity(fields: &ServiceFields) -> (claim: Option<(String, Vec<u8>)>)
    ensures
        match claim {
            Some((id, key)) => claimed(fields@) == Some((id@, key@)),
            None => claimed(fields@) is None,
        },
{
    match (&fields.device_id, &fields.public_key) {
        (Some(id), Some(text)) => match decode_base64(text.as_str()) {
            Ok(key) => Some((id.clone(), key)),
            Err(_) => None,
        },
        _ => None,
    }
}

/// An address of a service, with the interface on which it was learned.
#[derive(Debug, Clone, Copy, PartialEq, Eq, Structural)]
pub enum ScopedAddress {
    V4(u32),
    V6 { ip: u128, scope: u32 },
}

impl ScopedAddress {
    /// The address without the interface.
    pub open spec fn plain(self) -> IpAddress {
        match self {
            ScopedAddress::V4(ip) => IpAddress::V4(ip),
            ScopedAddress::V6 { ip, scope } => IpAddress::V6(ip),
        }
    }

    /// The endpoint at a port.
    pub open spec fn at(self, port: u16) -> SocketAddress {
        match self {
            ScopedAddress::V4(ip) => SocketAddress::V4 { ip, port },
            ScopedAddress::V6 { ip, scope } => SocketAddress::V6 {
                ip,
                port,
                flow_info: 0,
                scope_id: scope,
            },
        }
    }

    /// Neither this host nor no host.
    pub open spec fn remote(self) -> bool {
        !self.plain().loopback() && !self.plain().unspecified()
    }
}

/// The addresses of another host.
pub open spec fn remote_addresses(addresses: Seq<ScopedAddress>) -> Seq<ScopedAddress> {
    addresses.filter(|address: ScopedAddress| address.remote())
}

/// A version number, zero where it is missing.
pub open spec fn minor_of(text: Option<Seq<char>>) -> Option<nat> {
    parsed_number(
        encode_utf8(
            match text {
                Some(text) => text,
                None => "0"@,
            },
        ),
        u32::MAX as nat,
    )
}

/// The announcement is of this protocol, in versions that meet those of `wire`.
pub open spec fn is_compatible(fields: ServiceFieldsView, wire: WireProtocol) -> bool {
    match (minor_of(fields.protocol_minor_min), minor_of(fields.protocol_minor_max)) {
        (Some(min), Some(max)) => fields.protocol == Some(wire.discovery_protocol@) && min <= max
            && max >= wire.min_minor && min <= wire.max_minor,
        _ => false,
    }
}

/// The port of an announcement: a number that is not zero.
pub open spec fn port_of(fields: ServiceFieldsView) -> Option<u16> {
    match fields.port {
        Some(text) => match parsed_number(encode_utf8(text), 65535) {
            Some(port) => if port == 0 {
                None
            } else {
                Some(port as u16)
            },
            None => None,
        },
        None => None,
    }
}

/// The certificate digest of an announcement: 32 bytes in hexadecimal.
pub open spec fn digest_of(fields: ServiceFieldsView) -> Option<Seq<u8>> {
    match fields.certificate {
        Some(text) => match unhexed(encode_utf8(text)) {
            Some(bytes) => if bytes.len() == 32 {
                Some(bytes)
            } else {
                None
            },
            None => None,
        },
        None => None,
    }
}

/// The text, or `other` where it is missing.
pub open spec fn text_or(text: Option<Seq<char>>, other: Seq<char>) -> Seq<char> {
    match text {
        Some(text) => text,
        None => other,
    }
}

/// The announcement is one of a device that can be dialed.
pub open spec fn is_acceptable(
    fields: ServiceFieldsView,
    identity: Option<(Seq<char>, Seq<u8>)>,
    addresses: Seq<ScopedAddress>,
    wire: WireProtocol,
) -> bool {
    is_compatible(fields, wire) && identity is Some && port_of(fields) is Some && digest_of(
        fields,
    ) is Some && remote_addresses(addresses).len() > 0
}

/// `peer` is what an acceptable announcement says.
pub open spec fn is_decoded(
    fields: ServiceFieldsView,
    identity: (Seq<char>, Seq<u8>),
    addresses: Seq<ScopedAddress>,
    now: i64,
    peer: PeerAdvertisementView,
) -> bool {
    let port = port_of(fields)->0;
    let remote = remote_addresses(addresses);
    &&& is_address_set(remote.map_values(|a: ScopedAddress| a.plain()), peer.addresses)
    &&& is_endpoint_set(remote.map_values(|a: ScopedAddress| a.at(port)), peer.connection_addresses)
    &&& peer == PeerAdvertisementView {
        device_id: identity.0,
        public_key: identity.1,
        metadata: DeviceMetadataView {
            name: text_or(fields.device_name, "ArcRelay Device"@),
            platform: text_or(fields.platform, "unknown"@),
            model: text_or(fields.model, "unknown"@),
        },
        addresses: peer.addresses,
        connection_addresses: peer.connection_addresses,
        port,
        certificate_sha256: digest_of(fields)->0,
        last_seen_at_ms: now,
    }
}

/// What an identity says.
pub open spec fn identity_view(identity: Option<(DeviceId, DevicePublicKey)>) -> Option<
    (Seq<char>, Seq<u8>),
> {
    match identity {
        Some(pair) => Some((pair.0@, pair.1@)),
        None => None,
    }
}

fn minor_number(text: &Option<String>) -> (number: Option<u32>)
    ensures
        match number {
            Some(value) => minor_of(text_option(*text)) == Some(value as nat),
            None => minor_of(text_option(*text)) is None,
        },
{
    match text {
        Some(text) => parse_number(text.as_str(), u32::MAX),
        None => parse_number("0", u32::MAX),
    }
}

fn owned_or(text: &Option<String>, other: &str) -> (result: String)
    ensures
        result@ == text_or(text_option(*text), other@),
{
    match text {
        Some(text) => text.clone(),
        None => other.to_owned(),
    }
}

fn compatible(fields: &ServiceFields, wire: &WireProtocol) -> (answer: bool)
    ensures
        answer == is_compatible(fields@, *wire),
{
    let speaks = match &fields.protocol {
        Some(protocol) => same_text(protocol.as_str(), wire.discovery_protocol.as_str()),
        None => false,
    };
    match (minor_number(&fields.protocol_minor_min), minor_number(&fields.protocol_minor_max)) {
        (Some(min), Some(max)) => speaks && min <= max && max >= wire.min_minor && min
            <= wire.max_minor,
        _ => false,
    }
}

fn port_number(fields: &ServiceFields) -> (port: Option<u16>)
    ensures
        port == port_of(fields@),
{
    match &fields.port {
        Some(text) => match parse_number(text.as_str(), 65535) {
            Some(port) => if port == 0 {
                None
            } else {
                Some(port as u16)
            },
            None => None,
        },
        None => None,
    }
}

fn digest_bytes(fields: &ServiceFields) -> (digest: Option<[u8; 32]>)
    ensures
        match digest {
            Some(digest) => digest_of(fields@) == Some(digest@),
            None => digest_of(fields@) is None,
        },
{
    match &fields.certificate {
        Some(text) => match unhex(text.as_str()) {
            Some(bytes) => {
                let digest = to_array32(bytes.as_slice());
                assert(digest matches Some(array) ==> array@.len() == 32);
                digest
            },
            None => None,
        },
        None => None,
    }
}

/// What the announcement of another device says, where it is one that this
/// device can use. `identity` is the claimed identity, once it has been checked
/// that the key belongs to the device id.
pub fn decode_service(
    fields: &ServiceFields,
    identity: Option<(DeviceId, DevicePublicKey)>,
    addresses: &Vec<ScopedAddress>,
    wire: &WireProtocol,
    now: i64,
) -> (peer: Option<PeerAdvertisement>)
    ensures
        peer is Some <==> is_acceptable(fields@, identity_view(identity), addresses@, *wire),
        peer matches Some(peer) ==> is_decoded(
            fields@,
            identity_view(identity)->0,
            addresses@,
            now,
            peer@,
        ),
{
    if !compatible(fields, wire) {
        return None;
    }
    let (device_id, public_key) = match identity {
        Some(pair) => pair,
        None => {
            return None;
        },
    };
    let port: u16 = match port_number(fields) {
        Some(port) => port,
        None => {
            return None;
        },
    };
    let certificate_sha256 = match digest_bytes(fields) {
        Some(digest) => digest,
        None => {
            return None;
        },
    };
    let mut ips: Vec<IpAddress> = Vec::new();
    let mut endpoints: Vec<SocketAddress> = Vec::new();
    let ghost remote = |address: ScopedAddress| address.remote();
    let ghost mut kept: Seq<ScopedAddress> = seq![];
    let mut i: usize = 0;
    proof {
        assert(addresses@.take(0).filter(remote) =~= seq![]) by {
            addresses@.take(0).lemma_filter_len(remote);
        }
        assert(ips@ =~= kept.map_values(|a: ScopedAddress| a.plain()));
        assert(endpoints@ =~= kept.map_values(|a: ScopedAddress| a.at(port)));
    }
    while i < addresses.len()
        invariant
            i <= addresses.len(),
            remote == (|address: ScopedAddress| address.remote()),
            kept == addresses@.take(i as int).filter(remote),
            ips@ == kept.map_values(|a: ScopedAddress| a.plain()),
            endpoints@ == kept.map_values(|a: ScopedAddress| a.at(port)),
        decreases addresses.len() - i,
    {
        let address = addresses[i];
        let (ip, endpoint) = match address {
            ScopedAddress::V4(ip) => (IpAddress::V4(ip), SocketAddress::V4 { ip, port }),
            ScopedAddress::V6 { ip, scope } => (
                IpAddress::V6(ip),
                SocketAddress::V6 { ip, port, flow_info: 0, scope_id: scope },
            ),
        };
        proof {
            assert(addresses@.take(i + 1) =~= addresses@.take(i as int).push(address));
            addresses@.take(i as int).lemma_filter_push(address, remote);
        }
        if !ip.is_loopback() && !ip.is_unspecified() {
            ips.push(ip);
            endpoints.push(endpoint);
            proof {
                kept = kept.push(address);
                assert(ips@ =~= kept.map_values(|a: ScopedAddress| a.plain()));
                assert(endpoints@ =~= kept.map_values(|a: ScopedAddress| a.at(port)));
            }
        }
        i += 1;
    }
    assert(addresses@.take(i as int) =~= addresses@);
    assert(kept == remote_addresses(addresses@));
    if ips.len() == 0 {
        return None;
    }
    Some(
        PeerAdvertisement {
            device_id,
            public_key,
            metadata: DeviceMetadata {
                name: owned_or(&fields.device_name, "ArcRelay Device"),
                platform: owned_or(&fields.platform, "unknown"),
                model: owned_or(&fields.model, "unknown"),
            },
            addresses: address_set(ips),
            connection_addresses: endpoint_set(endpoints),
            port,
            certificate_sha256,
            last_seen_at_ms: now,
        },
    )
}

/// A device reads from the announcement of another what that device put there,
/// and accepts it, where both speak the protocol and an address is known.
pub proof fn law_announcement_is_read_back(
    id: Seq<char>,
    key: Seq<u8>,
    key_text: Seq<char>,
    metadata: DeviceMetadataView,
    port: u16,
    certificate_sha256: Seq<u8>,
    addresses: Seq<ScopedAddress>,
    wire: WireProtocol,
)
    requires
        port != 0,
        certificate_sha256.len() == 32,
        wire.min_minor <= wire.max_minor,
        base64_bytes(key_text) == Some(key),
        remote_addresses(addresses).len() > 0,
    ensures
        ({
            let list = announced(id, key_text, metadata, port, certificate_sha256, wire);
            let fields = fields_of(property_map(list));
            &&& claimed(fields) == Some((id, key))
            &&& is_acceptable(fields, claimed(fields), addresses, wire)
            &&& port_of(fields) == Some(port)
            &&& digest_of(fields) == Some(certificate_sha256)
            &&& fields.device_name == Some(metadata.name)
            &&& fields.platform == Some(metadata.platform)
            &&& fields.model == Some(metadata.model)
        }),
{
    let list = announced(id, key_text, metadata, port, certificate_sha256, wire);
    lemma_announced_keys(id, key_text, metadata, port, certificate_sha256, wire);
    let values = property_map(list);
    assert forall|i: int| 0 <= i < list.len() implies values.contains_key((#[trigger] list[i]).0)
        && values[list[i].0] == list[i].1 by {
        lemma_property_found(list, i);
    }
    assert(list[0] == ("protocol"@, wire.discovery_protocol@));
    assert(list[1] == ("protocol_minor_min"@, decimal(wire.min_minor as nat)));
    assert(list[2] == ("protocol_minor_max"@, decimal(wire.max_minor as nat)));
    assert(list[3] == ("device_id"@, id));
    assert(list[4] == ("device_name"@, metadata.name));
    assert(list[5] == ("platform"@, metadata.platform));
    assert(list[6] == ("model"@, metadata.model));
    assert(list[7] == ("public_key"@, key_text));
    assert(list[8] == ("port"@, decimal(port as nat)));
    assert(list[9] == ("certificate"@, hex_text(certificate_sha256)));
    lemma_decimal_round_trip(wire.min_minor as nat, u32::MAX as nat);
    lemma_decimal_round_trip(wire.max_minor as nat, u32::MAX as nat);
    lemma_decimal_round_trip(port as nat, 65535);
    law_hex_round_trip(certificate_sha256);
}

/// With keys that differ, each property is found under its key.
proof fn lemma_property_found(list: Seq<(Seq<char>, Seq<char>)>, i: int)
    requires
        plain_keys(list),
        0 <= i < list.len(),
    ensures
        property_map(list).contains_key(list[i].0),
        property_map(list)[list[i].0] == list[i].1,
    decreases list.len(),
{
    if i < list.len() - 1 {
        let rest = list.drop_last();
        assert forall|a: int, b: int| 0 <= a < b < rest.len() implies (#[trigger] rest[a]).0 != (
        #[trigger] rest[b]).0 by {
            assert(list[a].0 != list[b].0);
        }
        assert forall|a: int| 0 <= a < rest.len() implies plain_key((#[trigger] rest[a]).0) by {
            assert(plain_key(list[a].0));
        }
        lemma_property_found(rest, i);
        assert(list[i].0 != list[list.len() - 1].0);
    }
}

/// The values of an announcement stand under the names of its fields, and each field
/// is read from its name.
pub proof fn law_fields_have_names(
    id: Seq<char>,
    key_text: Seq<char>,
    metadata: DeviceMetadataView,
    port: u16,
    certificate_sha256: Seq<u8>,
    wire: WireProtocol,
    values: Map<Seq<char>, Seq<char>>,
)
    ensures
        ({
            let map = property_map(
                announced(id, key_text, metadata, port, certificate_sha256, wire),
            );
            &&& map.contains_key("protocol"@) && map["protocol"@] == wire.discovery_protocol@
            &&& map.contains_key("protocol_minor_min"@) && map["protocol_minor_min"@] == decimal(
                wire.min_minor as nat,
            )
            &&& map.contains_key("protocol_minor_max"@) && map["protocol_minor_max"@] == decimal(
                wire.max_minor as nat,
            )
            &&& map.contains_key("device_id"@) && map["device_id"@] == id
            &&& map.contains_key("device_name"@) && map["device_name"@] == metadata.name
            &&& map.contains_key("platform"@) && map["platform"@] == metadata.platform
            &&& map.contains_key("model"@) && map["model"@] == metadata.model
            &&& map.contains_key("public_key"@) && map["public_key"@] == key_text
            &&& map.contains_key("port"@) && map["port"@] == decimal(port as nat)
            &&& map.contains_key("certificate"@) && map["certificate"@] == hex_text(
                certificate_sha256,
            )
        }),
        ({
            let fields = fields_of(values);
            &&& values.contains_key("device_name"@) ==> fields.device_name == Some(
                values["device_name"@],
            )
            &&& values.contains_key("platform"@) ==> fields.platform == Some(values["platform"@])
            &&& values.contains_key("model"@) ==> fields.model == Some(values["model"@])
            &&& values.contains_key("port"@) ==> fields.port == Some(values["port"@])
            &&& values.contains_key("certificate"@) ==> fields.certificate == Some(
                values["certificate"@],
            )
            &&& !values.contains_key("port"@) ==> fields.port is None
            &&& !values.contains_key("certificate"@) ==> fields.certificate is None
            &&& !values.contains_key("device_id"@) ==> fields.device_id is None
            &&& !values.contains_key("public_key"@) ==> fields.public_key is None
        }),
{
    let list = announced(id, key_text, metadata, port, certificate_sha256, wire);
    lemma_announced_keys(id, key_text, metadata, port, certificate_sha256, wire);
    let map = property_map(list);
    assert forall|i: int| 0 <= i < list.len() implies map.contains_key((#[trigger] list[i]).0)
        && map[list[i].0] == list[i].1 by {
        lemma_property_found(list, i);
    }
    assert(list[0] == ("protocol"@, wire.discovery_protocol@));
    assert(list[1] == ("protocol_minor_min"@, decimal(wire.min_minor as nat)));
    assert(list[2] == ("protocol_minor_max"@, decimal(wire.max_minor as nat)));
    assert(list[3] == ("device_id"@, id));
    assert(list[4] == ("device_name"@, metadata.name));
    assert(list[5] == ("platform"@, metadata.platform));
    assert(list[6] == ("model"@, metadata.model));
    assert(list[7] == ("public_key"@, key_text));
    assert(list[8] == ("port"@, decimal(port as nat)));
    assert(list[9] == ("certificate"@, hex_text(certificate_sha256)));
}

/// An announcement speaks to this device exactly where it names the protocol, and
/// its minor versions make a range that meets the own one. A version that it does
/// not name is zero.
pub proof fn law_announcement_that_is_understood(
    fields: ServiceFieldsView,
    min: u32,
    max: u32,
    wire: WireProtocol,
)
    requires
        fields.protocol_minor_min == Some(decimal(min as nat)) || (fields.protocol_minor_min is None
            && min == 0),
        fields.protocol_minor_max == Some(decimal(max as nat)) || (fields.protocol_minor_max is None
            && max == 0),
    ensures
        is_compatible(fields, wire) <==> fields.protocol == Some(wire.discovery_protocol@) && min
            <= max && wire.min_minor <= max && min <= wire.max_minor,
{
    lemma_decimal_round_trip(min as nat, u32::MAX as nat);
    lemma_decimal_round_trip(max as nat, u32::MAX as nat);
    reveal_strlit("0");
    assert(decimal(0) =~= "0"@);
}

/// The port of an announcement is the number that it says, where that is a port and
/// not zero, and the digest is the bytes that it says, where there are 32.
pub proof fn law_port_and_digest_are_what_is_said(
    fields: ServiceFieldsView,
    port: u32,
    bytes: Seq<u8>,
)
    ensures
        fields.port == Some(decimal(port as nat)) ==> port_of(fields) == if 1 <= port <= 65535 {
            Some(port as u16)
        } else {
            None
        },
        fields.port is None ==> port_of(fields) is None,
        fields.certificate == Some(hex_text(bytes)) ==> digest_of(fields) == if bytes.len() == 32 {
            Some(bytes)
        } else {
            None
        },
        fields.certificate is None ==> digest_of(fields) is None,
{
    lemma_decimal_round_trip(port as nat, u32::MAX as nat);
    if port <= 65535 {
        lemma_decimal_round_trip(port as nat, 65535);
    }
    law_hex_round_trip(bytes);
}

/// The remote ones of some addresses are those that can belong to another device.
proof fn lemma_remote_addresses(addresses: Seq<ScopedAddress>)
    ensures
        forall|address: ScopedAddress| #[trigger]
            remote_addresses(addresses).contains(address) <==> addresses.contains(address)
                && address.remote(),
{
    let keep = |address: ScopedAddress| address.remote();
    let kept = remote_addresses(addresses);
    assert forall|address: ScopedAddress| #[trigger]
        kept.contains(address) <==> addresses.contains(address) && address.remote() by {
        if kept.contains(address) {
            let i = choose|i: int| 0 <= i < kept.len() && kept[i] == address;
            addresses.lemma_filter_pred(keep, i);
            addresses.lemma_filter_contains_rev(keep, address);
        }
        if addresses.contains(address) && address.remote() {
            let i = choose|i: int| 0 <= i < addresses.len() && addresses[i] == address;
            addresses.lemma_filter_contains(keep, i);
        }
    }
}

/// An announced device is known at every address of the announcement that can belong
/// to another device, in the scope in which it was seen and under the announced
/// port.
pub proof fn law_every_announced_address_is_known(
    fields: ServiceFieldsView,
    identity: (Seq<char>, Seq<u8>),
    addresses: Seq<ScopedAddress>,
    now: i64,
    peer: PeerAdvertisementView,
    i: int,
)
    requires
        is_decoded(fields, identity, addresses, now, peer),
        0 <= i < addresses.len(),
    ensures
        addresses[i] matches ScopedAddress::V4(ip) ==> ip != 0 && ip / 0x100_0000 != 127 ==> {
            &&& peer.addresses.contains(IpAddress::V4(ip))
            &&& peer.connection_addresses.contains(SocketAddress::V4 { ip, port: peer.port })
        },
        addresses[i] matches ScopedAddress::V6 { ip, scope } ==> ip > 1 ==> {
            &&& peer.addresses.contains(IpAddress::V6(ip))
            &&& peer.connection_addresses.contains(
                SocketAddress::V6 { ip, port: peer.port, flow_info: 0, scope_id: scope },
            )
        },
{
    let remote = remote_addresses(addresses);
    let port = port_of(fields)->0;
    let ips = remote.map_values(|a: ScopedAddress| a.plain());
    let endpoints = remote.map_values(|a: ScopedAddress| a.at(port));
    law_address_set(ips, peer.addresses);
    law_endpoint_set(endpoints, peer.connection_addresses);
    lemma_remote_addresses(addresses);
    assert(addresses.contains(addresses[i]));
    if addresses[i].remote() {
        assert(remote.contains(addresses[i]));
        let k = choose|k: int| 0 <= k < remote.len() && remote[k] == addresses[i];
        assert(ips[k] == addresses[i].plain());
        assert(ips.contains(ips[k]));
        assert(endpoints[k] == addresses[i].at(port));
        assert(endpoints.contains(endpoints[k]));
    }
}

/// An announced device is known at no address that was not announced, and at none
/// that no other device can have: the address of this device for itself, or none.
pub proof fn law_no_other_address_is_known(
    fields: ServiceFieldsView,
    identity: (Seq<char>, Seq<u8>),
    addresses: Seq<ScopedAddress>,
    now: i64,
    peer: PeerAdvertisementView,
    k: int,
)
    requires
        is_decoded(fields, identity, addresses, now, peer),
    ensures
        0 <= k < peer.addresses.len() ==> match peer.addresses[k] {
            IpAddress::V4(ip) => ip != 0 && ip / 0x100_0000 != 127 && addresses.contains(
                ScopedAddress::V4(ip),
            ),
            IpAddress::V6(ip) => ip > 1 && exists|scope: u32| #[trigger]
                addresses.contains(ScopedAddress::V6 { ip, scope }),
        },
        0 <= k < peer.connection_addresses.len() ==> match peer.connection_addresses[k] {
            SocketAddress::V4 { ip, port } => port == peer.port && ip != 0 && ip / 0x100_0000 != 127
                && addresses.contains(ScopedAddress::V4(ip)),
            SocketAddress::V6 { ip, port, flow_info, scope_id } => port == peer.port && flow_info
                == 0 && ip > 1 && addresses.contains(ScopedAddress::V6 { ip, scope: scope_id }),
        },
{
    let remote = remote_addresses(addresses);
    let port = port_of(fields)->0;
    let ips = remote.map_values(|a: ScopedAddress| a.plain());
    let endpoints = remote.map_values(|a: ScopedAddress| a.at(port));
    law_address_set(ips, peer.addresses);
    law_endpoint_set(endpoints, peer.connection_addresses);
    lemma_remote_addresses(addresses);
    if 0 <= k < peer.addresses.len() {
        assert(peer.addresses.contains(peer.addresses[k]));
        let j = choose|j: int| 0 <= j < ips.len() && ips[j] == peer.addresses[k];
        assert(remote.contains(remote[j]));
        assert(addresses.contains(remote[j]));
        assert(ips[j] == remote[j].plain());
        match remote[j] {
            ScopedAddress::V4(ip) => {},
            ScopedAddress::V6 { ip, scope } => {
                assert(addresses.contains(ScopedAddress::V6 { ip, scope }));
            },
        }
    }
    if 0 <= k < peer.connection_addresses.len() {
        assert(peer.connection_addresses.contains(peer.connection_addresses[k]));
        let j = choose|j: int| 0 <= j < endpoints.len() && endpoints[j] == peer.connection_addresses[k];
        assert(remote.contains(remote[j]));
        assert(addresses.contains(remote[j]));
    }
}

/// An announced device is who it claims to be, and presents itself as it says. What
/// it does not say of itself is unknown.
pub proof fn law_announced_device_is_as_it_says(
    fields: ServiceFieldsView,
    identity: (Seq<char>, Seq<u8>),
    addresses: Seq<ScopedAddress>,
    now: i64,
    peer: PeerAdvertisementView,
)
    requires
        is_decoded(fields, identity, addresses, now, peer),
    ensures
        peer.device_id == identity.0,
        peer.public_key == identity.1,
        peer.last_seen_at_ms == now,
        port_of(fields) matches Some(port) ==> peer.port == port,
        digest_of(fields) matches Some(digest) ==> peer.certificate_sha256 == digest,
        fields.device_name matches Some(name) ==> peer.metadata.name == name,
        fields.platform matches Some(platform) ==> peer.metadata.platform == platform,
        fields.model matches Some(model) ==> peer.metadata.model == model,
        fields.device_name is None ==> peer.metadata.name == "ArcRelay Device"@,
        fields.platform is None ==> peer.metadata.platform == "unknown"@,
        fields.model is None ==> peer.metadata.model == "unknown"@,
{
}

/// An announcement is taken exactly where it is understood, its claim holds, it names
/// a port and a digest, and another device can have one of its addresses.
pub proof fn law_announcement_that_is_taken(
    fields: ServiceFieldsView,
    identity: Option<(Seq<char>, Seq<u8>)>,
    addresses: Seq<ScopedAddress>,
    wire: WireProtocol,
)
    ensures
        is_acceptable(fields, identity, addresses, wire) <==> {
            &&& is_compatible(fields, wire)
            &&& identity is Some
            &&& port_of(fields) is Some
            &&& digest_of(fields) is Some
            &&& exists|i: int|
                0 <= i < addresses.len() && match #[trigger] addresses[i] {
                    ScopedAddress::V4(ip) => ip != 0 && ip / 0x100_0000 != 127,
                    ScopedAddress::V6 { ip, scope } => ip > 1,
                }
        },
{
    let remote = remote_addresses(addresses);
    lemma_remote_addresses(addresses);
    if remote.len() > 0 {
        assert(remote.contains(remote[0]));
        assert(addresses.contains(remote[0]));
        let i = choose|i: int| 0 <= i < addresses.len() && addresses[i] == remote[0];
        assert(addresses[i].remote());
    }
    assert forall|i: int|
        0 <= i < addresses.len() && match #[trigger] addresses[i] {
            ScopedAddress::V4(ip) => ip != 0 && ip / 0x100_0000 != 127,
            ScopedAddress::V6 { ip, scope } => ip > 1,
        } implies remote.len() > 0 by {
        assert(addresses.contains(addresses[i]));
        assert(addresses[i].remote());
        assert(remote.contains(addresses[i]));
    }
}

/// An announcement claims an identity exactly where it names an id and a key that
/// can be read.
pub proof fn law_claim_of_an_announcement(fields: ServiceFieldsView)
    ensures
        claimed(fields) is Some <==> fields.device_id is Some && fields.public_key is Some
            && base64_bytes(fields.public_key->0) is Some,
        claimed(fields) matches Some((id, key)) ==> fields.device_id == Some(id) && base64_bytes(
            fields.public_key->0,
        ) == Some(key),
{
}

/// A device is announced under the beginning of its id: the first 20 digits in the
/// name of the service, and the first 32 in that of the host.
pub proof fn law_names_of_a_device(
    digits: Seq<char>,
    key_text: Seq<char>,
    metadata: DeviceMetadataView,
    port: u16,
    certificate_sha256: Seq<u8>,
    wire: WireProtocol,
    site_name: Seq<char>,
)
    requires
        is_ascii_chars(digits),
        digits.len() >= 32,
        !("arc-"@).is_prefix_of(digits),
    ensures
        ({
            let id = "arc-"@ + digits;
            let record = announcement(id, key_text, metadata, port, certificate_sha256, wire);
            let web = gateway(id, site_name, port);
            &&& record.instance == "arc-"@ + digits.take(20)
            &&& record.host == "arcrelay-"@ + digits.take(32) + ".local."@
            &&& record.port == port
            &&& record.service_type == wire.service_type@
            &&& hostname(id) == "arcrelay-"@ + digits.take(32) + ".local"@
            &&& web.instance == "arc-web-"@ + digits.take(20)
            &&& web.host == "arcrelay-"@ + digits.take(32) + ".local"@ + "."@
            &&& web.port == port
        }),
{
    let id = "arc-"@ + digits;
    reveal_strlit("arc-");
    assert(("arc-"@).is_prefix_of(id));
    assert(id.skip(4) =~= digits);
    reveal_with_fuel(stripped, 3);
    assert(id_suffix(id) == digits);
    is_ascii_chars_encode_utf8(digits);
    lemma_ascii_head(digits, 20);
    lemma_ascii_head(digits, 32);
}

/// The beginning of a text in ASCII is its first characters.
proof fn lemma_ascii_head(text: Seq<char>, count: int)
    requires
        is_ascii_chars(text),
        0 <= count <= text.len(),
    ensures
        head(text, count) == text.take(count),
{
    let part = text.take(count);
    assert(text =~= part + text.skip(count));
    lemma_encode_utf8_add(part, text.skip(count));
    is_ascii_chars_concat(text, part, text.skip(count));
    is_ascii_chars_encode_utf8(part);
    assert(encode_utf8(part) =~= encode_utf8(text).subrange(0, count));
    lemma_encode_utf8_injective(head(text, count), part);
}

} // verus!
