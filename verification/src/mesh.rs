//! The gossip of routes between nodes: who signs, what a packet holds, and which
//! of the routes in it are taken over.

use vstd::prelude::*;
use vstd::string::*;

use crate::codec::{hex_bytes, hex_encode, hex_text};
use crate::config::PeerConfig;
use crate::double::law_doubles_compare_by_value;
use crate::number::{decimal, decimal_text};
use crate::routes::{RouteEntry, RouteView};
use crate::signing::{
    accepts, ed25519_accepts, ed25519_is_key, ed25519_public_key, ed25519_signature, key_from,
    public_key_of, random_bytes, sign_with, signature_from,
};
use crate::text::{concat2, concat3, owned, views};
use crate::time::Timestamp;
use crate::validate::{is_peer_key, peer_key};

verus! {

/// The largest packet that is read.
pub const MAX_PACKET_SIZE: usize = 1_400;

/// How many bytes of a packet stand before its message.
pub const HEADER_SIZE: usize = 96;

/// How many routes are gossiped at a time.
pub const MAX_GOSSIP_ROUTES: i64 = 25;

/// Why a node or a packet is of no use.
#[derive(Debug, PartialEq, Eq)]
pub enum MeshError {
    /// A file or a socket failed.
    Io(String),
    /// A message cannot be written.
    Encode(String),
    /// A message cannot be read.
    Decode(String),
    /// A packet is shorter than its header.
    PacketTooShort(usize),
    /// A signature does not hold.
    InvalidSignature,
    /// A file is no key.
    InvalidKeyFileSize { got: usize },
}

impl MeshError {
    /// What the error says of itself.
    pub open spec fn text(self) -> Seq<char> {
        match self {
            MeshError::Io(e) => "io: "@ + e@,
            MeshError::Encode(e) => "msgpack: "@ + e@,
            MeshError::Decode(e) => "decode msgpack: "@ + e@,
            MeshError::PacketTooShort(n) => "packet too short: "@ + decimal(n as nat) + " bytes"@,
            MeshError::InvalidSignature => "invalid signature"@,
            MeshError::InvalidKeyFileSize { got } => "invalid key file size "@ + decimal(got as nat)
                + ", want 32 or 64 bytes"@,
        }
    }

    /// What the error says of itself.
    pub fn message(&self) -> (out: String)
        ensures
            out@ == self.text(),
    {
        match self {
            MeshError::Io(e) => concat2("io: ", e.as_str()),
            MeshError::Encode(e) => concat2("msgpack: ", e.as_str()),
            MeshError::Decode(e) => concat2("decode msgpack: ", e.as_str()),
            MeshError::PacketTooShort(n) => concat3(
                "packet too short: ",
                decimal_text(*n as u64).as_str(),
                " bytes",
            ),
            MeshError::InvalidSignature => owned("invalid signature"),
            MeshError::InvalidKeyFileSize { got } => concat3(
                "invalid key file size ",
                decimal_text(*got as u64).as_str(),
                ", want 32 or 64 bytes",
            ),
        }
    }
}

/// What a message is for.
#[derive(Debug, Clone, Copy, PartialEq, Eq, Structural)]
pub enum MsgType {
    /// It tells of routes.
    Announce,
}

/// What one node tells another.
pub struct Message {
    pub msg_type: MsgType,
    pub node_id: String,
    pub timestamp: i64,
    pub routes: Vec<RouteEntry>,
}

/// Whether a message brings routes to take over.
pub fn brings_routes(message: &Message) -> (yes: bool)
    ensures
        yes == (message.msg_type == MsgType::Announce && message.routes@.len() > 0),
{
    message.msg_type == MsgType::Announce && message.routes.len() > 0
}

// ---------------------------------------------------------------------------
// Nodes
// ---------------------------------------------------------------------------
/// Where the key of a node comes from.
pub enum KeySource {
    /// Nowhere: it lasts as long as the node.
    Ephemeral,
    /// A file that does not exist yet.
    Missing,
    /// A file that holds these bytes.
    Contents(Vec<u8>),
    /// A file that cannot be read, and why.
    Unreadable(String),
}

/// A node, by its secret key.
pub struct Node {
    secret: [u8; 32],
}

impl Node {
    /// The secret key.
    pub closed spec fn secret_key(self) -> Seq<u8> {
        self.secret@
    }

    /// A node with the key that `source` gives, or with a random one. A file holds
    /// the secret key, and may hold the public key behind it.
    pub fn new(source: KeySource) -> (out: Result<Node, MeshError>)
        ensures
            match source {
                KeySource::Ephemeral | KeySource::Missing => out is Ok,
                KeySource::Contents(data) => if data@.len() == 32 || data@.len() == 64 {
                    out matches Ok(node) && node.secret_key() == data@.take(32)
                } else {
                    out matches Err(MeshError::InvalidKeyFileSize { got }) && got == data@.len()
                },
                KeySource::Unreadable(e) => out matches Err(MeshError::Io(e2)) && e2@ == e@,
            },
            out matches Ok(node) ==> node.secret_key().len() == 32,
    {
        match source {
            KeySource::Ephemeral | KeySource::Missing => Ok(Node { secret: random_bytes() }),
            KeySource::Contents(data) => {
                if data.len() != 32 && data.len() != 64 {
                    return Err(MeshError::InvalidKeyFileSize { got: data.len() });
                }
                Ok(Node { secret: key_from(data.as_slice()) })
            },
            KeySource::Unreadable(e) => Err(MeshError::Io(e)),
        }
    }

    /// The bytes that are kept in a file, from which the same node comes back.
    pub fn key_bytes(&self) -> (out: [u8; 32])
        ensures
            out@ == self.secret_key(),
    {
        self.secret
    }

    /// The public key.
    pub fn public_key(&self) -> (out: [u8; 32])
        ensures
            out@ == ed25519_public_key(self.secret_key()),
    {
        public_key_of(&self.secret)
    }

    /// The name of the node: the first bytes of its public key.
    pub fn id(&self) -> (out: String)
        ensures
            out@ == hex_text(ed25519_public_key(self.secret_key()).take(8)),
    {
        let key: [u8; 32] = self.public_key();
        let mut head: Vec<u8> = Vec::new();
        let mut i: usize = 0;
        while i < 8
            invariant
                i <= 8,
                head@ =~= key@.take(i as int),
            decreases 8 - i,
        {
            head.push(key[i]);
            i = i + 1;
        }
        hex_encode(head.as_slice())
    }

    /// The public key in hexadecimal digits.
    pub fn public_key_hex(&self) -> (out: String)
        ensures
            out@ == hex_text(ed25519_public_key(self.secret_key())),
            out@.len() == 64,
    {
        let key: [u8; 32] = self.public_key();
        hex_encode(&key)
    }

    /// A message and its signature.
    pub fn sign(&self, body: &[u8]) -> (out: (Vec<u8>, Vec<u8>))
        ensures
            out.0@ == body@,
            out.1@ == ed25519_signature(self.secret_key(), body@),
            out.1@.len() == 64,
            holds(ed25519_public_key(self.secret_key()), body@, out.1@),
    {
        let key: [u8; 32] = public_key_of(&self.secret);
        let signature: [u8; 64] = sign_with(&self.secret, body);
        let mut copy: Vec<u8> = Vec::new();
        copy.extend_from_slice(body);
        let mut sig: Vec<u8> = Vec::new();
        sig.extend_from_slice(&signature);
        assert(copy@ =~= body@);
        assert(sig@ =~= signature@);
        assert(key@.len() == 32);
        assert(signature@.len() == 64);
        (copy, sig)
    }
}

// ---------------------------------------------------------------------------
// Packets
// ---------------------------------------------------------------------------
/// `signature` over `body` holds under `key`.
pub open spec fn holds(key: Seq<u8>, body: Seq<u8>, signature: Seq<u8>) -> bool {
    key.len() == 32 && signature.len() == 64 && ed25519_is_key(key) && ed25519_accepts(
        key,
        body,
        signature,
    )
}

/// Checks a signature.
pub fn verify(pubkey: &[u8], body: &[u8], sig: &[u8]) -> (out: Result<(), MeshError>)
    ensures
        match out {
            Ok(_) => holds(pubkey@, body@, sig@),
            Err(e) => e == MeshError::InvalidSignature && !holds(pubkey@, body@, sig@),
        },
{
    if pubkey.len() != 32 || sig.len() != 64 {
        return Err(MeshError::InvalidSignature);
    }
    let key: [u8; 32] = key_from(pubkey);
    let signature: [u8; 64] = signature_from(sig);
    assert(pubkey@.take(32) =~= pubkey@);
    assert(sig@.take(64) =~= sig@);
    if accepts(&key, body, &signature) {
        Ok(())
    } else {
        Err(MeshError::InvalidSignature)
    }
}

/// The parts of a packet: a key, a signature and a message.
pub open spec fn packet_parts(packet: Seq<u8>) -> Option<(Seq<u8>, Seq<u8>, Seq<u8>)> {
    if packet.len() < HEADER_SIZE {
        None
    } else {
        Some((packet.subrange(0, 32), packet.subrange(32, 96), packet.skip(96)))
    }
}

/// A packet with a message of `node`: its key, its signature over the message,
/// and the message.
pub fn encode_packet(node: &Node, body: &[u8]) -> (out: Vec<u8>)
    ensures
        ({
            let key = ed25519_public_key(node.secret_key());
            let signature = ed25519_signature(node.secret_key(), body@);
            &&& out@ == key + signature + body@
            &&& packet_parts(out@) == Some((key, signature, body@))
            &&& holds(key, body@, signature)
        }),
{
    let (message, signature): (Vec<u8>, Vec<u8>) = node.sign(body);
    let key: [u8; 32] = node.public_key();
    let mut out: Vec<u8> = Vec::new();
    out.extend_from_slice(&key);
    out.extend_from_slice(signature.as_slice());
    out.extend_from_slice(message.as_slice());
    assert(key@.len() == 32);
    assert(out@ =~= key@ + signature@ + body@);
    proof {
        law_packet_reads_back(key@, signature@, body@);
    }
    out
}

/// The parts of a packet.
pub fn decode_packet(packet: &[u8]) -> (out: Result<(&[u8], &[u8], &[u8]), MeshError>)
    ensures
        match out {
            Ok((key, signature, body)) => packet_parts(packet@) == Some(
                (key@, signature@, body@),
            ),
            Err(e) => packet_parts(packet@) is None && e == MeshError::PacketTooShort(
                packet@.len() as usize,
            ),
        },
{
    let n: usize = packet.len();
    if n < HEADER_SIZE {
        return Err(MeshError::PacketTooShort(n));
    }
    let body: &[u8] = vstd::slice::slice_subrange(packet, 96, n);
    assert(body@ =~= packet@.skip(96));
    Ok(
        (
            vstd::slice::slice_subrange(packet, 0, 32),
            vstd::slice::slice_subrange(packet, 32, 96),
            body,
        ),
    )
}

/// What a packet was made of can be read back from it.
pub proof fn law_packet_reads_back(key: Seq<u8>, signature: Seq<u8>, body: Seq<u8>)
    requires
        key.len() == 32,
        signature.len() == 64,
    ensures
        packet_parts(key + signature + body) == Some((key, signature, body)),
{
    let packet = key + signature + body;
    assert(packet.subrange(0, 32) =~= key);
    assert(packet.subrange(32, 96) =~= signature);
    assert(packet.skip(96) =~= body);
}

/// The keys of a list.
pub open spec fn key_views(keys: Seq<[u8; 32]>) -> Seq<Seq<u8>> {
    Seq::new(keys.len(), |i: int| keys[i]@)
}

/// Packets of `key` are read: it is one of `allowed`, or anyone's are.
pub open spec fn is_allowed(allowed: Seq<Seq<u8>>, key: Seq<u8>) -> bool {
    allowed.len() == 0 || allowed.contains(key)
}

/// Whether two byte strings are the same.
pub(crate) fn same_bytes(a: &[u8], b: &[u8]) -> (yes: bool)
    ensures
        yes == (a@ == b@),
{
    let n: usize = a.len();
    if n != b.len() {
        return false;
    }
    let mut i: usize = 0;
    while i < n
        invariant
            i <= n,
            n == a@.len(),
            n == b@.len(),
            forall|j: int| 0 <= j < i ==> a@[j] == b@[j],
        decreases n - i,
    {
        if a[i] != b[i] {
            return false;
        }
        i = i + 1;
    }
    assert(a@ =~= b@);
    true
}

/// Whether packets of `key` are read.
pub fn sender_allowed(allowed: &Vec<[u8; 32]>, key: &[u8]) -> (yes: bool)
    ensures
        yes == is_allowed(key_views(allowed@), key@),
{
    let n: usize = allowed.len();
    if n == 0 {
        return true;
    }
    let ghost all = key_views(allowed@);
    let mut i: usize = 0;
    while i < n
        invariant
            i <= n,
            n == allowed@.len(),
            all == key_views(allowed@),
            forall|j: int| 0 <= j < i ==> all[j] != key@,
        decreases n - i,
    {
        assert(all[i as int] == allowed@[i as int]@);
        if same_bytes(&allowed[i], key) {
            assert(all.contains(key@));
            return true;
        }
        i = i + 1;
    }
    false
}

/// Why a packet that has all its parts is not taken over.
#[derive(Debug, Clone, Copy, PartialEq, Eq, Structural)]
pub enum PacketRefusal {
    /// Its key is none of those that are allowed.
    UnknownSender,
    /// Its signature does not hold.
    InvalidSignature,
}

/// Checks who sent a message: its key has to be allowed, and its signature has to
/// hold.
pub fn check_sender(allowed: &Vec<[u8; 32]>, key: &[u8], body: &[u8], signature: &[u8]) -> (out:
    Result<(), PacketRefusal>)
    ensures
        out == if !is_allowed(key_views(allowed@), key@) {
            Err(PacketRefusal::UnknownSender)
        } else if !holds(key@, body@, signature@) {
            Err(PacketRefusal::InvalidSignature)
        } else {
            Ok(())
        },
{
    if !sender_allowed(allowed, key) {
        return Err(PacketRefusal::UnknownSender);
    }
    match verify(key, body, signature) {
        Ok(_) => Ok(()),
        Err(_) => Err(PacketRefusal::InvalidSignature),
    }
}

/// The keys of the peers that have one.
pub open spec fn peer_keys(peers: Seq<PeerConfig>) -> Seq<Seq<u8>>
    decreases peers.len(),
{
    if peers.len() == 0 {
        seq![]
    } else {
        let rest = peer_keys(peers.drop_last());
        if is_peer_key(peers.last().public_key@) {
            rest.push(hex_bytes(peers.last().public_key@))
        } else {
            rest
        }
    }
}

/// The keys whose packets are read: those of the peers that have one.
pub fn allowed_keys(peers: &Vec<PeerConfig>) -> (out: Vec<[u8; 32]>)
    ensures
        key_views(out@) == peer_keys(peers@),
{
    let mut out: Vec<[u8; 32]> = Vec::new();
    let n: usize = peers.len();
    let mut i: usize = 0;
    assert(peers@.take(0) =~= seq![]);
    assert(key_views(out@) =~= seq![]);
    while i < n
        invariant
            i <= n,
            n == peers@.len(),
            key_views(out@) == peer_keys(peers@.take(i as int)),
        decreases n - i,
    {
        let ghost said = key_views(out@);
        let ghost next = peers@.take(i + 1);
        assert(next.drop_last() =~= peers@.take(i as int));
        assert(next.last() == peers@[i as int]);
        if let Some(bytes) = peer_key(peers[i].public_key.as_str()) {
            assert(bytes@.len() == 32);
            let key: [u8; 32] = key_from(bytes.as_slice());
            assert(key@ =~= bytes@);
            out.push(key);
            assert(key_views(out@) =~= said.push(key@));
        }
        i = i + 1;
    }
    assert(peers@.take(n as int) =~= peers@);
    out
}

/// Where routes are gossiped to.
pub fn gossip_addresses(peers: &Vec<PeerConfig>) -> (out: Vec<String>)
    ensures
        views(out@) == Seq::new(peers@.len(), |i: int| peers@[i].addr@),
{
    let mut out: Vec<String> = Vec::new();
    let n: usize = peers.len();
    let mut i: usize = 0;
    while i < n
        invariant
            i <= n,
            n == peers@.len(),
            views(out@) =~= Seq::new(i as nat, |j: int| peers@[j].addr@),
        decreases n - i,
    {
        let ghost said = views(out@);
        out.push(peers[i].addr.clone());
        assert(views(out@) =~= said.push(peers@[i as int].addr@));
        i = i + 1;
    }
    out
}

// ---------------------------------------------------------------------------
// Merging
// ---------------------------------------------------------------------------
/// A route that a peer told of takes the place of `existing`: it has not expired,
/// and it is not slower, nor as fast and no newer.
pub open spec fn takes_over(incoming: RouteView, existing: Option<RouteView>, now: int) -> bool {
    now < incoming.ttl && match existing {
        Some(e) => !e.latency_ema.lt_spec(incoming.latency_ema) && !(incoming.latency_ema
            == e.latency_ema && incoming.last_verified <= e.last_verified),
        None => true,
    }
}

/// Whether a route that a peer told of takes the place of `existing`.
pub fn should_merge(incoming: &RouteEntry, existing: &Option<RouteEntry>, now: &Timestamp) -> (yes:
    bool)
    ensures
        yes == takes_over(
            incoming@,
            match *existing {
                Some(e) => Some(e@),
                None => None,
            },
            now@,
        ),
{
    if !incoming.is_valid(now) {
        return false;
    }
    match existing {
        Some(e) => {
            if e.latency_ema.less_than(&incoming.latency_ema) {
                return false;
            }
            !(incoming.latency_ema == e.latency_ema && !e.last_verified.before(
                &incoming.last_verified,
            ))
        },
        None => true,
    }
}

/// A route never gives way to a slower one.
pub proof fn law_merging_never_slows(incoming: RouteView, existing: RouteView, now: int)
    requires
        takes_over(incoming, Some(existing), now),
    ensures
        !existing.latency_ema.lt_spec(incoming.latency_ema),
{
}

/// A route that was taken over is not taken over again: hearing it twice changes
/// nothing.
pub proof fn law_gossip_settles(route: RouteView, now: int)
    ensures
        !takes_over(route, Some(route), now),
{
}

/// Two routes do not take each other's place in turn, as long as their latencies
/// are numbers and zero has one sign.
pub proof fn law_merging_has_no_cycle(a: RouteView, b: RouteView, now: int)
    requires
        !a.latency_ema.is_nan(),
        !b.latency_ema.is_nan(),
        a.latency_ema.rank() == b.latency_ema.rank() ==> a.latency_ema == b.latency_ema,
    ensures
        !(takes_over(a, Some(b), now) && takes_over(b, Some(a), now)),
{
}

/// A route that a peer told of is taken over while it has not expired, where no
/// route is known, where it is faster than the one that is known, and where it is
/// as fast and was verified later; in no other case. A latency is a number that
/// is not negative.
pub proof fn law_better_routes_are_taken_over(
    incoming: RouteView,
    existing: RouteView,
    now: int,
)
    requires
        incoming.latency_ema.bits <= 0x7FF0_0000_0000_0000,
        existing.latency_ema.bits <= 0x7FF0_0000_0000_0000,
    ensures
        takes_over(incoming, None, now) <==> now < incoming.ttl,
        takes_over(incoming, Some(existing), now) <==> now < incoming.ttl && {
            ||| incoming.latency_ema.bits < existing.latency_ema.bits
            ||| incoming.latency_ema.bits == existing.latency_ema.bits && existing.last_verified
                < incoming.last_verified
        },
{
    law_doubles_compare_by_value(existing.latency_ema, incoming.latency_ema);
}

/// A packet has parts where it is long enough for a key of 32 bytes and a
/// signature of 64, and then nothing of it is lost: the parts together are the
/// packet.
pub proof fn law_packets_are_divided(packet: Seq<u8>)
    ensures
        packet_parts(packet) is None <==> packet.len() < 96,
        packet_parts(packet) matches Some((key, signature, body)) ==> {
            &&& key.len() == 32
            &&& signature.len() == 64
            &&& key + signature + body == packet
        },
{
    if packet.len() >= 96 {
        let (key, signature, body) = packet_parts(packet)->0;
        assert(key + signature + body =~= packet);
    }
}

/// Where keys are configured only packets of these are read, and where none are
/// anyone's; the keys are those of the peers whose keys are 64 hexadecimal digits.
pub proof fn law_packets_of_peers_are_read(peers: Seq<PeerConfig>, key: Seq<u8>)
    ensures
        peer_keys(peers) == peers.filter(
            |peer: PeerConfig| is_peer_key(peer.public_key@),
        ).map_values(|peer: PeerConfig| hex_bytes(peer.public_key@)),
        peer_keys(peers).len() > 0 ==> (is_allowed(peer_keys(peers), key) <==> exists|i: int|
            0 <= i < peers.len() && is_peer_key((#[trigger] peers[i]).public_key@) && hex_bytes(
                peers[i].public_key@,
            ) == key),
        peer_keys(peers).len() == 0 ==> is_allowed(peer_keys(peers), key),
{
    lemma_peer_keys(peers);
    lemma_peer_key_members(peers, key);
}

proof fn lemma_peer_keys(peers: Seq<PeerConfig>)
    ensures
        peer_keys(peers) == peers.filter(
            |peer: PeerConfig| is_peer_key(peer.public_key@),
        ).map_values(|peer: PeerConfig| hex_bytes(peer.public_key@)),
    decreases peers.len(),
{
    reveal(Seq::filter);
    if peers.len() > 0 {
        lemma_peer_keys(peers.drop_last());
    }
    assert(peer_keys(peers) =~= peers.filter(
        |peer: PeerConfig| is_peer_key(peer.public_key@),
    ).map_values(|peer: PeerConfig| hex_bytes(peer.public_key@)));
}

proof fn lemma_peer_key_members(peers: Seq<PeerConfig>, key: Seq<u8>)
    ensures
        peer_keys(peers).contains(key) <==> exists|i: int|
            0 <= i < peers.len() && is_peer_key((#[trigger] peers[i]).public_key@) && hex_bytes(
                peers[i].public_key@,
            ) == key,
    decreases peers.len(),
{
    if peers.len() > 0 {
        let front = peers.drop_last();
        let rest = peer_keys(front);
        let out = peer_keys(peers);
        lemma_peer_key_members(front, key);
        if out.contains(key) {
            let k = choose|k: int| 0 <= k < out.len() && out[k] == key;
            if k < rest.len() {
                assert(rest[k] == key);
                let i = choose|i: int|
                    0 <= i < front.len() && is_peer_key((#[trigger] front[i]).public_key@)
                        && hex_bytes(front[i].public_key@) == key;
                assert(peers[i] == front[i]);
            } else {
                assert(peers[peers.len() - 1] == peers.last());
            }
        }
        if exists|i: int|
            0 <= i < peers.len() && is_peer_key((#[trigger] peers[i]).public_key@) && hex_bytes(
                peers[i].public_key@,
            ) == key {
            let i = choose|i: int|
                0 <= i < peers.len() && is_peer_key((#[trigger] peers[i]).public_key@) && hex_bytes(
                    peers[i].public_key@,
                ) == key;
            if i < front.len() {
                assert(front[i] == peers[i]);
                assert(rest.contains(key));
                let k = choose|k: int| 0 <= k < rest.len() && rest[k] == key;
                assert(out[k] == key);
            } else {
                assert(out[rest.len() as int] == key);
            }
        }
    }
}

/// A packet is taken over only where its signature is one of its own message by
/// its own key.
pub proof fn law_unsigned_packets_are_refused(key: Seq<u8>, body: Seq<u8>, signature: Seq<u8>)
    ensures
        !ed25519_accepts(key, body, signature) ==> !holds(key, body, signature),
        !ed25519_is_key(key) ==> !holds(key, body, signature),
        key.len() == 32 && signature.len() == 64 && ed25519_is_key(key) && ed25519_accepts(
            key,
            body,
            signature,
        ) ==> holds(key, body, signature),
{
}

} // verus!
