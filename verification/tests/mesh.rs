use base64::engine::general_purpose::STANDARD;
use base64::Engine;
use ed25519_dalek::{Signer, SigningKey};
use ncro::config::{PeerConfig, TrustConfig, TrustMode, UpstreamConfig};
use ncro::double::Double;
use ncro::mesh::{
    allowed_keys, brings_routes, check_sender, decode_packet, encode_packet, gossip_addresses,
    should_merge, verify, KeySource, MeshError, Message, MsgType, Node, PacketRefusal,
};
use ncro::narinfo::NarInfo;
use ncro::routes::{
    column_statement, eviction_due, excess_routes, negative_counts, negative_expiry,
    route_to_row, row_to_route, timestamp, DbError, RouteEntry,
};
use ncro::time::{Duration, Timestamp, FIRST_SECOND, LAST_SECOND};
use ncro::trust::{
    accept_relayed, batches, claimed_hash, claims_for, count_support, decide, judge, report, trusted_signers,
    TrustDecision, TrustGap,
};

const NOW: i64 = 1_700_000_000;

fn now() -> Timestamp {
    Timestamp::new(NOW, 500)
}

fn route(store_path: &str, latency_ema: f64, ttl_secs: i64) -> RouteEntry {
    RouteEntry {
        store_path: store_path.into(),
        upstream_url: "http://test.example.com".into(),
        latency_ms: Double { bits: latency_ema.to_bits() },
        latency_ema: Double { bits: latency_ema.to_bits() },
        last_verified: now(),
        query_count: 1,
        failure_count: 0,
        ttl: Timestamp::new(NOW + ttl_secs, 500),
        nar_hash: "sha256:aabbcc".into(),
        nar_size: 42,
        nar_url: "nar/test.nar".into(),
        upstream_nar_url: "nar/test.nar".into(),
        narinfo_bytes: None,
    }
}

#[test]
fn merge_routes_inserts_new_route() {
    assert!(should_merge(&route("abc123", 10.0, 3600), &None, &now()));
}

#[test]
fn merge_routes_skips_expired_route() {
    assert!(!should_merge(&route("abc123", 10.0, -1), &None, &now()));
}

#[test]
fn merge_routes_does_not_overwrite_lower_latency() {
    let existing = Some(route("abc123", 5.0, 3600));
    assert!(!should_merge(&route("abc123", 20.0, 3600), &existing, &now()));
}

#[test]
fn merge_routes_overwrites_higher_latency() {
    let existing = Some(route("abc123", 20.0, 3600));
    assert!(should_merge(&route("abc123", 5.0, 3600), &existing, &now()));
}

#[test]
fn merging_settles_ties_by_age() {
    let mut newer = route("abc123", 5.0, 3600);
    newer.last_verified = Timestamp::new(NOW + 1, 0);
    let older = route("abc123", 5.0, 3600);
    assert!(should_merge(&newer, &Some(older.clone()), &now()));
    assert!(!should_merge(&older, &Some(newer), &now()));
    assert!(!should_merge(&older, &Some(older.clone()), &now()));
}

#[test]
fn expired_route_is_not_valid() {
    let entry = route("abc", 1.0, -1);
    assert!(!entry.is_valid(&now()));
    let fresh = route("abc", 1.0, 3600);
    assert!(fresh.is_valid(&now()));
}

#[test]
fn narinfo_bytes_roundtrip() {
    let bytes = b"StorePath: /nix/store/abc\n".to_vec();
    let mut entry = route("abc", 1.0, 3600);
    entry.narinfo_bytes = Some(bytes.clone());
    let got = row_to_route(&route_to_row(&entry)).ok().unwrap();
    assert_eq!(got.narinfo_bytes, Some(bytes));
    assert_eq!(got.upstream_url, entry.upstream_url);
    assert_eq!(got.ttl.secs(), entry.ttl.secs());
    assert_eq!(got.ttl.subsec_nanos(), 0);
}

#[test]
fn rows_that_make_no_sense_are_refused() {
    let mut row = route_to_row(&route("abc", 1.0, 3600));
    row.query_count = -1;
    let err = row_to_route(&row).err().unwrap();
    assert!(matches!(err, DbError::InvalidData(_)));
    assert!(err.message().contains("query_count"), "{}", err.message());
    assert!(timestamp(i64::MAX, "ttl").is_err());
    for last in [FIRST_SECOND, LAST_SECOND] {
        assert_eq!(timestamp(last, "ttl").ok().unwrap().secs(), last);
    }
    assert!(timestamp(FIRST_SECOND - 1, "ttl").is_err());
    assert!(timestamp(LAST_SECOND + 1, "ttl").is_err());
    assert_eq!(timestamp(5, "ttl").ok().unwrap().secs(), 5);
    assert_eq!(DbError::Sqlx("x".to_string()).message(), "sqlite: x");
    assert_eq!(
        DbError::CreateDir("x".to_string()).message(),
        "create database directory: x"
    );
}

#[test]
fn routes_are_evicted_now_and_then() {
    let due: Vec<u64> = (0..250).filter(|n| eviction_due(*n)).collect();
    assert_eq!(due, vec![99, 199]);
    assert_eq!(excess_routes(100, 3), 97);
    assert_eq!(excess_routes(2, 3), 0);
}

#[test]
fn missing_paths_are_remembered_for_a_while() {
    let expires = negative_expiry(&now(), Duration::from_secs(60));
    assert_eq!(expires, NOW + 60);
    assert!(negative_counts(expires, &now()));
    assert!(!negative_counts(expires, &Timestamp::new(NOW + 60, 0)));
}

#[test]
fn columns_are_added_once() {
    let existing = vec!["store_path".to_string()];
    assert_eq!(
        column_statement(&existing, "routes", "narinfo_bytes", "BLOB").as_deref(),
        Some("ALTER TABLE routes ADD COLUMN narinfo_bytes BLOB")
    );
    assert_eq!(column_statement(&existing, "routes", "store_path", "TEXT"), None);
}

fn node(seed: u8) -> Node {
    Node::new(KeySource::Contents(vec![seed; 32])).ok().unwrap()
}

#[test]
fn a_node_is_known_by_its_key() {
    let signing = SigningKey::from_bytes(&[7; 32]);
    let node = node(7);
    assert_eq!(node.public_key(), signing.verifying_key().to_bytes());
    assert_eq!(node.key_bytes(), [7; 32]);
    assert_eq!(node.public_key_hex().len(), 64);
    assert_eq!(node.id(), node.public_key_hex()[..16].to_string());
    let again = Node::new(KeySource::Contents(node.key_bytes().to_vec())).ok().unwrap();
    assert_eq!(again.public_key_hex(), node.public_key_hex());
    let mut long = vec![7; 32];
    long.extend_from_slice(&node.public_key());
    let long = Node::new(KeySource::Contents(long)).ok().unwrap();
    assert_eq!(long.public_key(), node.public_key());
}

#[test]
fn a_node_without_a_file_has_a_random_key() {
    let a = Node::new(KeySource::Ephemeral).ok().unwrap();
    let b = Node::new(KeySource::Missing).ok().unwrap();
    assert_ne!(a.key_bytes(), b.key_bytes());
}

#[test]
fn bad_key_files_are_refused() {
    let err = Node::new(KeySource::Contents(vec![0; 31])).err().unwrap();
    assert_eq!(err, MeshError::InvalidKeyFileSize { got: 31 });
    assert_eq!(err.message(), "invalid key file size 31, want 32 or 64 bytes");
    let err = Node::new(KeySource::Unreadable("denied".to_string())).err().unwrap();
    assert_eq!(err.message(), "io: denied");
}

#[test]
fn packets_come_back_apart() {
    let node = node(1);
    let packet = encode_packet(&node, b"hello");
    let (key, sig, body) = decode_packet(&packet).ok().unwrap();
    assert_eq!(key, &node.public_key());
    assert_eq!(body, b"hello");
    assert!(verify(key, body, sig).is_ok());
    assert_eq!(sig, SigningKey::from_bytes(&[1; 32]).sign(b"hello").to_bytes().as_slice());
    assert!(verify(key, b"hullo", sig).is_err());
    assert!(verify(&key[1..], body, sig).is_err());
    let err = decode_packet(&packet[..95]).err().unwrap();
    assert_eq!(err.message(), "packet too short: 95 bytes");
    assert_eq!(MeshError::InvalidSignature.message(), "invalid signature");
    assert_eq!(MeshError::Encode("x".to_string()).message(), "msgpack: x");
    assert_eq!(MeshError::Decode("x".to_string()).message(), "decode msgpack: x");
}

#[test]
fn senders_have_to_be_allowed() {
    let node = node(2);
    let packet = encode_packet(&node, b"hello");
    let (key, sig, body) = decode_packet(&packet).ok().unwrap();
    let peers = vec![
        PeerConfig { addr: "a:1".to_string(), public_key: node.public_key_hex() },
        PeerConfig { addr: "b:2".to_string(), public_key: String::new() },
    ];
    let allowed = allowed_keys(&peers);
    assert_eq!(allowed, vec![node.public_key()]);
    assert_eq!(gossip_addresses(&peers), vec!["a:1".to_string(), "b:2".to_string()]);
    assert_eq!(check_sender(&allowed, key, body, sig), Ok(()));
    assert_eq!(check_sender(&vec![], key, body, sig), Ok(()));
    assert_eq!(
        check_sender(&vec![[9; 32]], key, body, sig),
        Err(PacketRefusal::UnknownSender)
    );
    assert_eq!(
        check_sender(&allowed, key, b"other", sig),
        Err(PacketRefusal::InvalidSignature)
    );
}

#[test]
fn only_announcements_with_routes_matter() {
    let mut message = Message {
        msg_type: MsgType::Announce,
        node_id: "n".to_string(),
        timestamp: 0,
        routes: vec![],
    };
    assert!(!brings_routes(&message));
    message.routes.push(route("abc", 1.0, 10));
    assert!(brings_routes(&message));
}

fn key_text(name: &str, signing: &SigningKey) -> String {
    format!("{name}:{}", STANDARD.encode(signing.verifying_key().to_bytes()))
}

/// A narinfo that `signers` have signed, as text.
fn signed(signers: &[(&str, &SigningKey)]) -> Vec<u8> {
    let mut text = "StorePath: /nix/store/abc-test\nURL: nar/abc.nar\nNarHash: sha256:abc\nNarSize: 12\nReferences: \n".to_string();
    let info = NarInfo::parse(text.as_bytes()).unwrap();
    for (name, signing) in signers {
        let sig = signing.sign(info.fingerprint().as_bytes());
        text.push_str(&format!("Sig: {name}:{}\n", STANDARD.encode(sig.to_bytes())));
    }
    text.into_bytes()
}

fn quorum_of(threshold: u32) -> TrustConfig {
    TrustConfig {
        mode: TrustMode::Quorum,
        threshold,
        require_distinct_signers: true,
        fail_closed: true,
        trusted_keys: vec![],
    }
}

#[test]
fn a_quorum_counts_signers_that_are_trusted() {
    let a = SigningKey::from_bytes(&[1; 32]);
    let b = SigningKey::from_bytes(&[2; 32]);
    let stranger = SigningKey::from_bytes(&[3; 32]);
    let body = signed(&[("a", &a), ("b", &b), ("s", &stranger)]);
    let info = NarInfo::parse(&body).unwrap();
    let keys = vec![key_text("a", &a), key_text("b", &b), key_text("s", &stranger)];
    let mut claims = claims_for(&info, &keys, "http://a", &body);
    assert_eq!(claims.len(), 3);
    assert_eq!(claims[0].signer_name, "a");
    claims.extend(claims_for(&info, &keys, "http://mirror", &body));

    let mut upstream = UpstreamConfig { url: "http://a".to_string(), ..Default::default() };
    upstream.public_key = key_text("a", &a);
    let upstreams = vec![upstream];
    let trusted = trusted_signers(&upstreams, &None, &vec![key_text("b", &b)]);
    assert_eq!(trusted.len(), 2);
    assert_eq!(count_support(&claims, &info, &trusted, true), 2);
    assert_eq!(count_support(&claims, &info, &trusted, false), 4);

    let own = vec![key_text("a", &a)];
    assert_eq!(judge(&quorum_of(2), &info, &own, &claims, &trusted), TrustDecision::Accept);
    assert_eq!(
        judge(&quorum_of(3), &info, &own, &claims, &trusted),
        TrustDecision::Reject(TrustGap::BelowQuorum)
    );
    let mut other = info.clone();
    other.nar_size = 13;
    assert_eq!(count_support(&claims, &other, &trusted, true), 0);

    let known = report(&quorum_of(2), &Some(body), &own, &claims, &trusted);
    assert_eq!((known.mode, known.threshold), ("quorum", 2));
    assert_eq!((known.count, known.trusted), (2, true));
    let unread = Some(b"StorePath".to_vec());
    for narinfo in [unread, None] {
        let unknown = report(&quorum_of(0), &narinfo, &own, &claims, &trusted);
        assert_eq!((unknown.count, unknown.trusted), (0, false));
    }
}

#[test]
fn trust_may_be_off_or_open() {
    let mut config = quorum_of(1);
    config.mode = TrustMode::Off;
    assert_eq!(decide(&config, false, 0), TrustDecision::Accept);
    config.mode = TrustMode::Signed;
    assert_eq!(decide(&config, true, 0), TrustDecision::Accept);
    assert_eq!(decide(&config, false, 9), TrustDecision::Reject(TrustGap::Unsigned));
    config.fail_closed = false;
    assert_eq!(decide(&config, false, 9), TrustDecision::Bypass(TrustGap::Unsigned));
    assert_eq!(TrustGap::Unsigned.label(), "unsigned");
    assert_eq!(TrustGap::BelowQuorum.label(), "below_quorum");
}

#[test]
fn a_relayed_claim_has_to_be_signed() {
    let a = SigningKey::from_bytes(&[1; 32]);
    let body = signed(&[("a", &a)]);
    let info = NarInfo::parse(&body).unwrap();
    let mut claim = claims_for(&info, &vec![key_text("a", &a)], "http://a", &body)
        .into_iter()
        .next()
        .unwrap();
    let trusted = vec![a.verifying_key().to_bytes()];
    claim.nar_hash = "sha256:forged".to_string();
    let accepted = accept_relayed(&claim, &trusted, "10.0.0.2:7946").unwrap();
    assert_eq!(accepted.nar_hash, "sha256:abc");
    assert_eq!(accepted.upstream_url, "mesh://10.0.0.2:7946");
    let hash = info.store_path.trim_start_matches("/nix/store/").split('-').next().unwrap();
    assert_eq!(claimed_hash(&accepted).as_deref(), Some(hash));
    claim.store_path = "plain".to_string();
    assert_eq!(claimed_hash(&claim), None);
    assert!(accept_relayed(&claim, &vec![[9; 32]], "x").is_none());
    claim.narinfo = signed(&[]);
    assert!(accept_relayed(&claim, &trusted, "x").is_none());
    claim.narinfo = b"nonsense".to_vec();
    assert!(accept_relayed(&claim, &trusted, "x").is_none());
}

#[test]
fn claims_are_batched_to_fit() {
    assert_eq!(batches(&vec![3, 4, 20, 5, 1], 8), vec![vec![0, 1], vec![3, 4]]);
    assert!(batches(&vec![9, 9], 8).is_empty());
}
