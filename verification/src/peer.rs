//! Devices, their keys, and what they may do: the plain values of the trust
//! model.
use vstd::prelude::*;
use vstd::string::*;

use crate::order::{
    has_key, is_sorted_distinct, is_strictly_sorted, lemma_text_key_injective, seq_before,
    sorted_distinct, text_before, text_key,
};
use crate::text::{same_bytes, same_text};

verus! {

/// The stable name of a device, derived from its public key.
#[derive(Debug, PartialEq, Eq, PartialOrd, Ord, Hash)]
pub struct DeviceId {
    text: String,
}

impl View for DeviceId {
    type V = Seq<char>;

    closed spec fn view(&self) -> Seq<char> {
        self.text@
    }
}

impl DeviceId {
    /// A device id with the text `text`, which has been checked to be one.
    pub fn from_text(text: String) -> (id: Self)
        ensures
            id@ == text@,
    {
        DeviceId { text }
    }

    /// The text of the id.
    pub fn as_str(&self) -> (text: &str)
        ensures
            text@ == self@,
    {
        self.text.as_str()
    }

    /// Whether two ids name the same device.
    pub fn same(&self, other: &DeviceId) -> (same: bool)
        ensures
            same == (self@ == other@),
    {
        self.text == other.text
    }

    /// Whether this id comes before `other` in byte order.
    pub fn is_before(&self, other: &DeviceId) -> (before: bool)
        ensures
            before == seq_before(text_key(self@), text_key(other@)),
    {
        text_before(self.text.as_str(), other.text.as_str())
    }
}

impl Clone for DeviceId {
    fn clone(&self) -> (copy: Self)
        ensures
            copy@ == self@,
    {
        DeviceId { text: self.text.clone() }
    }
}

/// The root public key of a device.
#[derive(Debug, PartialEq, Eq)]
pub struct DevicePublicKey {
    bytes: Vec<u8>,
}

impl View for DevicePublicKey {
    type V = Seq<u8>;

    closed spec fn view(&self) -> Seq<u8> {
        self.bytes@
    }
}

impl DevicePublicKey {
    /// A public key with the bytes `bytes`.
    pub fn from_bytes(bytes: Vec<u8>) -> (key: Self)
        ensures
            key@ == bytes@,
    {
        DevicePublicKey { bytes }
    }

    /// The bytes of the key.
    pub fn as_bytes(&self) -> (bytes: &[u8])
        ensures
            bytes@ == self@,
    {
        self.bytes.as_slice()
    }

    /// Whether two keys are equal.
    pub fn same(&self, other: &DevicePublicKey) -> (same: bool)
        ensures
            same == (self@ == other@),
    {
        same_bytes(self.bytes.as_slice(), other.bytes.as_slice())
    }
}

impl Clone for DevicePublicKey {
    fn clone(&self) -> (copy: Self)
        ensures
            copy@ == self@,
    {
        let bytes = self.bytes.clone();
        assert(bytes@ =~= self.bytes@);
        DevicePublicKey { bytes }
    }
}

/// A signature of a device's root key.
#[derive(Debug, PartialEq, Eq)]
pub struct DeviceSignature {
    bytes: Vec<u8>,
}

impl View for DeviceSignature {
    type V = Seq<u8>;

    closed spec fn view(&self) -> Seq<u8> {
        self.bytes@
    }
}

impl DeviceSignature {
    /// A signature with the bytes `bytes`.
    pub fn from_bytes(bytes: Vec<u8>) -> (signature: Self)
        ensures
            signature@ == bytes@,
    {
        DeviceSignature { bytes }
    }

    /// The bytes of the signature.
    pub fn as_bytes(&self) -> (bytes: &[u8])
        ensures
            bytes@ == self@,
    {
        self.bytes.as_slice()
    }
}

/// What a signature is made for. Each purpose has its own domain.
#[derive(Debug, Clone, Copy, PartialEq, Eq, Structural)]
pub enum SigningContext {
    /// Binds an endpoint certificate to the device.
    EndpointBinding,
    /// Authenticates one session.
    SessionAuthentication,
    /// Signs the payload of a feature.
    FeaturePayload,
}

/// What a capability allows, as far as the rules of this library tell
/// capabilities apart.
#[derive(Debug, Clone, Copy, PartialEq, Eq, Structural)]
pub enum CapabilityRole {
    /// Injecting input from another screen.
    CrossScreenInject,
    /// Reading shared files.
    RemoteFilesRead,
    /// Writing shared files.
    RemoteFilesWrite,
    /// Anything else.
    Other,
}

/// One capability of the product, known by its place in the product's list.
#[derive(Debug, Clone, Copy, PartialEq, Eq, Structural)]
pub struct CapabilityId {
    /// Place in the product's list of capabilities.
    pub order: u32,
    /// What the capability allows.
    pub role: CapabilityRole,
}

/// The side that a grant is for, seen from the device that stores it.
#[derive(Debug, Clone, Copy, PartialEq, Eq, Structural)]
pub enum GrantDirection {
    /// The peer may use the capability here.
    Inbound,
    /// This device may use the capability on the peer.
    Outbound,
}

/// Limits of a grant.
#[derive(Debug)]
pub enum GrantConstraints {
    /// No limits.
    Unlimited,
    /// Only these shares, and only in this way.
    RemoteFileShares { share_ids: Vec<String>, writable: bool },
}

/// What [`GrantConstraints`] say.
pub enum GrantConstraintsView {
    Unlimited,
    RemoteFileShares { share_ids: Seq<Seq<char>>, writable: bool },
}

/// The texts of a list.
pub open spec fn texts(list: Seq<String>) -> Seq<Seq<char>> {
    list.map_values(|text: String| text@)
}

impl View for GrantConstraints {
    type V = GrantConstraintsView;

    open spec fn view(&self) -> GrantConstraintsView {
        match self {
            GrantConstraints::Unlimited => GrantConstraintsView::Unlimited,
            GrantConstraints::RemoteFileShares { share_ids, writable } =>
                GrantConstraintsView::RemoteFileShares {
                share_ids: texts(share_ids@),
                writable: *writable,
            },
        }
    }
}

/// A copy of a list of texts.
pub fn copy_texts(list: &Vec<String>) -> (copy: Vec<String>)
    ensures
        texts(copy@) == texts(list@),
{
    let mut copy: Vec<String> = Vec::new();
    let mut i: usize = 0;
    while i < list.len()
        invariant
            i <= list.len(),
            copy.len() == i,
            forall|j: int| 0 <= j < i ==> copy@[j]@ == list@[j]@,
        decreases list.len() - i,
    {
        copy.push(list[i].clone());
        i += 1;
    }
    assert(texts(copy@) =~= texts(list@));
    copy
}

/// Whether two lists hold the same texts.
pub fn same_texts(a: &Vec<String>, b: &Vec<String>) -> (same: bool)
    ensures
        same == (texts(a@) == texts(b@)),
{
    if a.len() != b.len() {
        assert(texts(a@).len() != texts(b@).len());
        return false;
    }
    let mut i: usize = 0;
    while i < a.len()
        invariant
            i <= a.len(),
            a.len() == b.len(),
            forall|j: int| 0 <= j < i ==> a@[j]@ == b@[j]@,
        decreases a.len() - i,
    {
        if !same_text(a[i].as_str(), b[i].as_str()) {
            assert(texts(a@)[i as int] != texts(b@)[i as int]);
            return false;
        }
        i += 1;
    }
    assert(texts(a@) =~= texts(b@));
    true
}

impl GrantConstraints {
    /// Whether two constraints are equal.
    pub fn same(&self, other: &GrantConstraints) -> (same: bool)
        ensures
            same == (self@ == other@),
    {
        match (self, other) {
            (GrantConstraints::Unlimited, GrantConstraints::Unlimited) => true,
            (
                GrantConstraints::RemoteFileShares { share_ids, writable },
                GrantConstraints::RemoteFileShares { share_ids: other_ids, writable: other_writable },
            ) => *writable == *other_writable && same_texts(share_ids, other_ids),
            _ => false,
        }
    }
}

impl Clone for GrantConstraints {
    fn clone(&self) -> (copy: Self)
        ensures
            copy@ == self@,
    {
        match self {
            GrantConstraints::Unlimited => GrantConstraints::Unlimited,
            GrantConstraints::RemoteFileShares { share_ids, writable } =>
                GrantConstraints::RemoteFileShares {
                share_ids: copy_texts(share_ids),
                writable: *writable,
            },
        }
    }
}

/// Permission for one peer to use one capability in one direction.
#[derive(Debug)]
pub struct Grant {
    /// The peer.
    pub peer_id: DeviceId,
    /// The capability.
    pub capability: CapabilityId,
    /// The side that the grant is for.
    pub direction: GrantDirection,
    /// Limits of the grant.
    pub constraints: GrantConstraints,
    /// When the grant was made.
    pub granted_at_ms: i64,
}

/// What a [`Grant`] says.
pub struct GrantView {
    pub peer_id: Seq<char>,
    pub capability: CapabilityId,
    pub direction: GrantDirection,
    pub constraints: GrantConstraintsView,
    pub granted_at_ms: i64,
}

impl View for Grant {
    type V = GrantView;

    open spec fn view(&self) -> GrantView {
        GrantView {
            peer_id: self.peer_id@,
            capability: self.capability,
            direction: self.direction,
            constraints: self.constraints@,
            granted_at_ms: self.granted_at_ms,
        }
    }
}

impl Clone for Grant {
    fn clone(&self) -> (copy: Self)
        ensures
            copy@ == self@,
    {
        Grant {
            peer_id: self.peer_id.clone(),
            capability: self.capability,
            direction: self.direction,
            constraints: self.constraints.clone(),
            granted_at_ms: self.granted_at_ms,
        }
    }
}

/// The views of a list.
pub open spec fn views<T: View>(list: Seq<T>) -> Seq<T::V> {
    list.map_values(|item: T| item@)
}

/// Whether a stored peer is still trusted.
#[derive(Debug, Clone, Copy, PartialEq, Eq, Structural)]
pub enum TrustState {
    /// The peer is paired.
    Paired,
    /// Trust was withdrawn.
    Revoked,
}

/// What this device stores of a peer.
#[derive(Debug)]
pub struct PeerRecord {
    pub device_id: DeviceId,
    pub public_key: DevicePublicKey,
    pub display_name: String,
    pub platform: String,
    pub model: String,
    pub trust_state: TrustState,
    /// Whether background work may dial the peer.
    pub auto_connect: bool,
    pub paired_at_ms: i64,
    pub updated_at_ms: i64,
}

/// What a [`PeerRecord`] says.
pub struct PeerRecordView {
    pub device_id: Seq<char>,
    pub public_key: Seq<u8>,
    pub display_name: Seq<char>,
    pub platform: Seq<char>,
    pub model: Seq<char>,
    pub trust_state: TrustState,
    pub auto_connect: bool,
    pub paired_at_ms: i64,
    pub updated_at_ms: i64,
}

impl View for PeerRecord {
    type V = PeerRecordView;

    open spec fn view(&self) -> PeerRecordView {
        PeerRecordView {
            device_id: self.device_id@,
            public_key: self.public_key@,
            display_name: self.display_name@,
            platform: self.platform@,
            model: self.model@,
            trust_state: self.trust_state,
            auto_connect: self.auto_connect,
            paired_at_ms: self.paired_at_ms,
            updated_at_ms: self.updated_at_ms,
        }
    }
}

impl Clone for PeerRecord {
    fn clone(&self) -> (copy: Self)
        ensures
            copy@ == self@,
    {
        PeerRecord {
            device_id: self.device_id.clone(),
            public_key: self.public_key.clone(),
            display_name: self.display_name.clone(),
            platform: self.platform.clone(),
            model: self.model.clone(),
            trust_state: self.trust_state,
            auto_connect: self.auto_connect,
            paired_at_ms: self.paired_at_ms,
            updated_at_ms: self.updated_at_ms,
        }
    }
}

/// Place of a device id in byte order.
pub open spec fn id_key() -> spec_fn(Seq<char>) -> Seq<int> {
    |id: Seq<char>| text_key(id)
}

/// `kept` holds the ids of `items` once each, in order.
pub open spec fn is_id_set(items: Seq<Seq<char>>, kept: Seq<Seq<char>>) -> bool {
    &&& is_strictly_sorted(kept, id_key())
    &&& forall|id: Seq<char>| #[trigger] kept.contains(id) <==> items.contains(id)
}

/// The ids of `items` once each, in order.
pub fn id_set(items: Vec<DeviceId>) -> (kept: Vec<DeviceId>)
    ensures
        is_id_set(views(items@), views(kept@)),
{
    let ghost key = |id: DeviceId| text_key(id@);
    let ghost all = items@;
    let before = |a: &DeviceId, b: &DeviceId| -> (before: bool)
        ensures
            before == seq_before(text_key(a@), text_key(b@)),
    {
        a.is_before(b)
    };
    let kept = sorted_distinct(items, before, Ghost(key));
    proof {
        assert(is_sorted_distinct(all, kept@, key));
        let a = views(all);
        let b = views(kept@);
        assert forall|i: int, j: int| 0 <= i < j < b.len() implies seq_before(
            (id_key())(#[trigger] b[i]),
            (id_key())(#[trigger] b[j]),
        ) by {
            assert(seq_before(key(kept@[i]), key(kept@[j])));
        }
        assert forall|id: Seq<char>| #[trigger] b.contains(id) <==> a.contains(id) by {
            if b.contains(id) {
                let i = choose|i: int| 0 <= i < b.len() && b[i] == id;
                assert(all.contains(kept@[i]));
                let j = choose|j: int| 0 <= j < all.len() && all[j] == kept@[i];
                assert(a[j] == id);
            }
            if a.contains(id) {
                let i = choose|i: int| 0 <= i < a.len() && a[i] == id;
                assert(has_key(kept@, key, key(all[i])));
                let j = choose|j: int| 0 <= j < kept@.len() && key(#[trigger] kept@[j]) == key(all[i]);
                lemma_text_key_injective(kept@[j]@, all[i]@);
                assert(b[j] == id);
            }
        }
    }
    kept
}

} // verus!
