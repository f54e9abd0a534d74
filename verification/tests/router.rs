use base64::engine::general_purpose::STANDARD;
use base64::Engine;
use ed25519_dalek::{Signer, SigningKey};
use ncro::config::{TrustConfig, TrustMode, UpstreamConfig};
use ncro::cooldown::Cooldowns;
use ncro::double::Double;
use ncro::filter::{
    allows_narinfo, filter_rule_matches, store_path_name, wildcard_match, FilterAction,
    FilterField, FilterRule,
};
use ncro::health::Status;
use ncro::nar_url::{
    canonical_nar_url, nar_extension, relative_nar_url, store_hash_from_canonical_nar_url,
    NarUrlMode,
};
use ncro::narinfo::NarInfo;
use ncro::race::{
    group_by_priority, Attempt, GroupProgress, GroupRace, Race, RaceGroupError, RaceVerdict,
    Refusal,
};
use ncro::registry::{
    narinfo_verifies_any_key, normalized_public_keys, Router, UpstreamRegistrationError,
};
use ncro::resolve::{
    accept_response, accept_winner, cached_route_filter_check, commit_winner, fallback_result,
    next_resolve_step, race_error, refresh_result, refusal_of, remember_missing, start_race,
    stored_route_counts, upstream_to_ask_again, valid_cached_route, CachedFilterCheck,
    CachedOutcome, CommitOutcome, ResolveStep, RouterError, StepAnswer, Winner,
};
use ncro::rewrite::rewrite_narinfo_url;
use ncro::routes::{DbError, RouteEntry};
use ncro::s3::S3Error;
use ncro::time::{Duration, Instant, Timestamp};
use ncro::trust::{judge, TrustDecision, TrustGap};
use rand::RngExt;

const STORE_HASH: &str = "ad4slq98kiq9ypdd35yfg0bykdwj86ba";

fn at(secs: u64) -> Instant {
    Instant { since_start: Duration::from_secs(secs) }
}

fn double(x: f64) -> Double {
    Double { bits: x.to_bits() }
}

fn signed_narinfo(key_name: &str) -> (NarInfo, String) {
    let mut key_bytes = [0_u8; 32];
    rand::rng().fill(&mut key_bytes);
    let signing = SigningKey::from_bytes(&key_bytes);
    let mut narinfo = NarInfo {
        store_path: "/nix/store/abc123-test".to_string(),
        nar_hash: "sha256:abc".to_string(),
        nar_size: 12,
        references: vec![],
        ..Default::default()
    };
    let sig = signing.sign(narinfo.fingerprint().as_bytes());
    narinfo.sig = vec![format!("{key_name}:{}", STANDARD.encode(sig.to_bytes()))];
    let public_key =
        format!("{key_name}:{}", STANDARD.encode(signing.verifying_key().to_bytes()));
    (narinfo, public_key)
}

fn body(store_name: &str) -> Vec<u8> {
    format!(
        "StorePath: /nix/store/abc123-{store_name}\nURL: nar/test.nar.xz\nCompression: xz\nNarHash: sha256:abc\nNarSize: 1\nReferences: \n"
    )
    .into_bytes()
}

fn only_zedless() -> Vec<FilterRule> {
    vec![FilterRule {
        action: FilterAction::Allow,
        field: FilterField::Name,
        pattern: "zedless*".to_string(),
    }]
}

fn upstream(url: &str, priority: i32) -> UpstreamConfig {
    UpstreamConfig { url: url.to_string(), priority, ..Default::default() }
}

fn router_with(upstreams: &[UpstreamConfig]) -> Router {
    let mut router = Router::new();
    for upstream in upstreams {
        router.register_upstream(upstream).unwrap();
    }
    router
}

fn winner(url: &str) -> Winner {
    Winner { url: url.to_string(), latency_ms: double(5.0), blended: None }
}

fn now() -> Timestamp {
    Timestamp::new(1_700_000_000, 0)
}

/// What GET of a narinfo gives: a status and a body, or no answer.
enum Get {
    Answer(u16, Vec<u8>),
    Dropped,
}

/// Resolves with the machinery of the library, where every upstream answers HEAD
/// and `get` says what GET gives.
fn resolve(
    router: &Router,
    cooldowns: &mut Cooldowns,
    candidates: &[(&str, i32)],
    get: &dyn Fn(&str) -> Get,
) -> Result<(RouteEntry, String), RouterError> {
    let urls: Vec<String> = candidates.iter().map(|c| c.0.to_string()).collect();
    let priorities: Vec<i32> = candidates.iter().map(|c| c.1).collect();
    let mut race = start_race(&urls, &priorities, "abc123")?;
    while let Some(group) = race.current().cloned() {
        let mut heads = GroupRace::new(group.len());
        assert_eq!(heads.on_attempt(Attempt::Won), GroupProgress::Won);
        race.add_attempts(heads.attempts());
        let url = group[0].clone();
        let fetched = match get(&url) {
            Get::Answer(status, bytes) => {
                accept_response(router, &url, (200..300).contains(&status), &bytes)
                    .map(|info| (info, bytes))
            }
            Get::Dropped => Err(RouterError::FetchNarinfo("connection closed".to_string())),
        };
        let refusal = match fetched {
            Ok((info, bytes)) => {
                let outcome = commit_winner(
                    router,
                    &winner(&url),
                    "abc123",
                    &info,
                    &bytes,
                    &now(),
                    Duration::from_secs(3600),
                );
                match outcome {
                    CommitOutcome::Accepted(route, result) => return Ok((route, result.url)),
                    CommitOutcome::Rejected => Refusal::Rejected,
                }
            }
            Err(err) => match refusal_of(&err) {
                Some(refusal) => refusal,
                None => return Err(err),
            },
        };
        if race.on_refused(&url, refusal) {
            cooldowns.mark_cooldown(&url, at(10));
        }
    }
    Err(race_error(race.verdict()))
}

#[test]
fn extracts_store_path_name() {
    assert_eq!(store_path_name("/nix/store/abc123-zedless-0.1.0"), "zedless-0.1.0");
}

#[test]
fn wildcard_patterns_match_expected_values() {
    assert!(wildcard_match("zedless*", "zedless-0.1.0"));
    assert!(wildcard_match("*-source", "foo-source"));
    assert!(wildcard_match("*zed*", "my-zedless-package"));
    assert!(!wildcard_match("zedless", "zedless-0.1.0"));
}

#[test]
fn a_wildcard_stands_for_any_text() {
    assert!(wildcard_match("*", ""));
    assert!(wildcard_match("a*b*c", "axxbyyc"));
    assert!(wildcard_match("a*b*c", "abcbc"));
    assert!(!wildcard_match("a*b*c", "axxcyyb"));
    assert!(wildcard_match("*-source", "foo-source-source"));
    assert!(!wildcard_match("aa*aa", "aaa"));
    assert!(wildcard_match("aa**aa", "aaaa"));
    assert!(!wildcard_match("", "x"));
}

#[test]
fn narinfo_verification_accepts_any_configured_public_key() {
    let (narinfo, matching_key) = signed_narinfo("origin");
    let (_, other_key) = signed_narinfo("other");

    assert!(narinfo_verifies_any_key(&narinfo, &[other_key.clone(), matching_key]));
    assert!(!narinfo_verifies_any_key(&narinfo, &[other_key]));
}

#[test]
fn filter_rules_match_selected_fields() {
    let narinfo = NarInfo {
        store_path: "/nix/store/abc123-zedless-0.1.0".to_string(),
        references: vec!["dep-one".to_string()],
        deriver: "abc123-zedless.drv".to_string(),
        ..Default::default()
    };

    assert!(filter_rule_matches(
        &FilterRule {
            action: FilterAction::Allow,
            field: FilterField::Name,
            pattern: "zedless*".to_string(),
        },
        &narinfo,
    ));
    assert!(filter_rule_matches(
        &FilterRule {
            action: FilterAction::Deny,
            field: FilterField::Reference,
            pattern: "dep-*".to_string(),
        },
        &narinfo,
    ));
}

#[test]
fn a_matching_deny_always_rejects() {
    let narinfo = NarInfo {
        store_path: "/nix/store/abc123-zedless-source".to_string(),
        ..Default::default()
    };
    let deny = FilterRule {
        action: FilterAction::Deny,
        field: FilterField::Name,
        pattern: "*-source".to_string(),
    };
    let mut rules = only_zedless();
    assert!(allows_narinfo(&rules, &narinfo));
    rules.push(deny);
    assert!(!allows_narinfo(&rules, &narinfo));
    rules.reverse();
    assert!(!allows_narinfo(&rules, &narinfo));
    assert!(allows_narinfo(&vec![], &narinfo));
}

#[test]
fn narinfo_url_to_self_rewrites_to_canonical_path() {
    let body = b"StorePath: /nix/store/abc-hello\nURL: https://blobs.example/ad4slq98kiq9ypdd35yfg0bykdwj86ba-hello-1.0.nar.xz\nNarHash: sha256:abc\nNarSize: 1\n";

    let rewritten =
        rewrite_narinfo_url(body, "https://cache.example", STORE_HASH, NarUrlMode::ToSelf);

    let rewritten = String::from_utf8(rewritten).unwrap();
    assert!(rewritten.contains(&format!("URL: nar/{STORE_HASH}.nar.xz\n")));
}

#[test]
fn canonical_nar_url_round_trips() {
    let url = canonical_nar_url("https://blobs.example/x-foo.nar.zst", STORE_HASH);
    assert_eq!(url, format!("nar/{STORE_HASH}.nar.zst"));
    assert_eq!(store_hash_from_canonical_nar_url(&url), Some(STORE_HASH));

    assert_eq!(
        store_hash_from_canonical_nar_url(
            "nar/1bpq616dpxk1pn7f9w8pw1zjs9x2q3vv3f8kmc1a9k6ha2b4mmzz.nar.xz"
        ),
        None
    );
}

#[test]
fn addresses_are_taken_apart() {
    assert_eq!(nar_extension("nar/abc.nar.xz?hash=1"), ".nar.xz");
    assert_eq!(nar_extension("nar/abc"), "");
    assert_eq!(relative_nar_url("https://cache.example/nar/a.nar"), "nar/a.nar");
    assert_eq!(relative_nar_url("/nar/a.nar"), "nar/a.nar");
}

#[test]
fn narinfo_url_to_upstream_uses_selected_upstream() {
    let body = b"StorePath: /nix/store/abc-hello\nURL: /nar/abc.nar.xz\nNarHash: sha256:abc\nNarSize: 1\n";

    let rewritten = rewrite_narinfo_url(
        body,
        "https://cache.example/root/",
        STORE_HASH,
        NarUrlMode::ToUpstream,
    );

    let rewritten = String::from_utf8(rewritten).unwrap();
    assert!(rewritten.contains("URL: https://cache.example/root/nar/abc.nar.xz\n"));
}

#[test]
fn rewriting_leaves_the_rest_of_a_narinfo_alone() {
    let text = "StorePath: /nix/store/abc-hello\nURL: nar/abc.nar.xz\nNarHash: sha256:abc\nNarSize: 7\nSig: k:s=\n";
    let before = NarInfo::parse(text.as_bytes()).unwrap();
    let kept =
        rewrite_narinfo_url(text.as_bytes(), "https://c.example", STORE_HASH, NarUrlMode::Keep);
    assert_eq!(kept, text.as_bytes());
    let own =
        rewrite_narinfo_url(text.as_bytes(), "https://c.example", STORE_HASH, NarUrlMode::ToSelf);
    let after = NarInfo::parse(&own).unwrap();
    assert_eq!(after.url, format!("nar/{STORE_HASH}.nar.xz"));
    assert_eq!(after.fingerprint(), before.fingerprint());
    assert_eq!(after.sig, before.sig);
}

#[test]
fn resolve_retries_after_winner_get_returns_not_found() {
    let failing = "http://failing";
    let working = "http://working";
    let router = router_with(&[upstream(failing, 1), upstream(working, 2)]);
    let mut cooldowns = Cooldowns::new(Duration::from_secs(60));
    let get = |url: &str| {
        if url == failing {
            Get::Answer(500, vec![])
        } else {
            Get::Answer(200, body("zedless-0.1.0"))
        }
    };

    let (_, url) =
        resolve(&router, &mut cooldowns, &[(failing, 1), (working, 2)], &get).unwrap();

    assert_eq!(url, working);
    assert!(!cooldowns.in_cooldown(failing, at(10)));
}

#[test]
fn resolve_retries_after_winner_get_network_error() {
    let failing = "http://failing";
    let working = "http://working";
    let router = router_with(&[upstream(failing, 1), upstream(working, 2)]);
    let mut cooldowns = Cooldowns::new(Duration::from_secs(60));
    let get = |url: &str| {
        if url == failing {
            Get::Dropped
        } else {
            Get::Answer(200, body("zedless-0.1.0"))
        }
    };

    let (_, url) =
        resolve(&router, &mut cooldowns, &[(failing, 1), (working, 2)], &get).unwrap();

    assert_eq!(url, working);
    assert!(cooldowns.in_cooldown(failing, at(10)));
}

#[test]
fn resolve_retries_after_filter_rejects_winner() {
    let rejected = "http://rejected";
    let accepted = "http://accepted";
    let mut router = router_with(&[upstream(rejected, 1), upstream(accepted, 2)]);
    router.register_upstream_filters(rejected.to_string(), only_zedless());
    let mut cooldowns = Cooldowns::new(Duration::from_secs(60));
    let get = |url: &str| {
        if url == rejected {
            Get::Answer(200, body("unrelated-1.0"))
        } else {
            Get::Answer(200, body("zedless-0.1.0"))
        }
    };

    let (route, url) =
        resolve(&router, &mut cooldowns, &[(rejected, 1), (accepted, 2)], &get).unwrap();

    assert_eq!(url, accepted);
    assert_eq!(route.upstream_url, accepted);
    assert_eq!(route.nar_url, "nar/abc123.nar.xz");
    assert_eq!(route.upstream_nar_url, "/nar/test.nar.xz");
    assert_eq!(route.ttl.secs(), now().secs() + 3600);
}

#[test]
fn resolve_fails_where_nobody_has_the_path() {
    let router = router_with(&[upstream("http://a", 1), upstream("http://b", 1)]);
    let mut cooldowns = Cooldowns::new(Duration::from_secs(60));
    let missing = |_: &str| Get::Answer(404, vec![]);
    let err = resolve(&router, &mut cooldowns, &[("http://a", 1), ("http://b", 1)], &missing)
        .err()
        .unwrap();
    assert!(matches!(err, RouterError::NotFound));
    assert!(remember_missing(&err));

    let gone = |_: &str| Get::Dropped;
    let err = resolve(&router, &mut cooldowns, &[("http://a", 1), ("http://b", 1)], &gone)
        .err()
        .unwrap();
    assert!(matches!(err, RouterError::UpstreamUnavailable));
    assert!(!remember_missing(&err));
}

#[test]
fn a_candidate_with_a_bad_signature_is_passed_over() {
    let (_, key) = signed_narinfo("origin");
    let mut config = upstream("http://a", 1);
    config.public_key = key;
    let router = router_with(&[config, upstream("http://b", 2)]);
    let mut cooldowns = Cooldowns::new(Duration::from_secs(60));
    let get = |_: &str| Get::Answer(200, body("zedless"));
    let candidates = [("http://a", 1), ("http://b", 2)];
    let (route, url) = resolve(&router, &mut cooldowns, &candidates, &get).unwrap();
    assert_eq!(url, "http://b");
    assert_eq!(route.upstream_url, "http://b");
    assert!(!cooldowns.in_cooldown("http://a", at(11)));
    let err = resolve(&router, &mut cooldowns, &[("http://a", 1)], &get).err().unwrap();
    assert!(matches!(err, RouterError::NotFound));
    assert_eq!(refusal_of(&RouterError::SignatureVerificationFailed), Some(Refusal::Rejected));
    assert_eq!(refusal_of(&RouterError::UpstreamUnavailable), None);
}

#[test]
fn trust_decides_on_a_narinfo_without_a_signature() {
    let (_, key) = signed_narinfo("origin");
    let mut config = upstream("http://a", 1);
    config.public_key = key.clone();
    let router = router_with(&[config]);
    let bytes = body("zedless");
    let refused = accept_winner(&router, "http://a", true, &bytes, TrustMode::Off);
    assert_eq!(refused.err(), Some(RouterError::SignatureVerificationFailed));
    let info = accept_winner(&router, "http://a", true, &bytes, TrustMode::Signed).ok().unwrap();
    let mut trust = TrustConfig { mode: TrustMode::Signed, ..Default::default() };
    let keys = vec![key];
    assert_eq!(
        judge(&trust, &info, &keys, &vec![], &vec![]),
        TrustDecision::Reject(TrustGap::Unsigned)
    );
    trust.fail_closed = false;
    assert_eq!(
        judge(&trust, &info, &keys, &vec![], &vec![]),
        TrustDecision::Bypass(TrustGap::Unsigned)
    );
    let missing = accept_winner(&router, "http://a", false, &vec![], TrustMode::Quorum);
    assert_eq!(missing.err(), Some(RouterError::NotFound));
    let unread = accept_winner(&router, "http://a", true, &vec![b'x'], TrustMode::Quorum);
    assert!(matches!(unread.err(), Some(RouterError::ParseNarinfo(_))));
}

#[test]
fn a_race_needs_candidates() {
    let err = start_race(&vec![], &vec![], "abc123").err().unwrap();
    assert_eq!(err, RouterError::NoCandidates("abc123".to_string()));
    assert!(!remember_missing(&err));
    let urls = vec!["a".to_string(), "b".to_string()];
    let race = start_race(&urls, &vec![2, 1], "abc123").ok().unwrap();
    assert_eq!(race.current(), Some(&vec!["b".to_string()]));
}

#[test]
fn fallback_resolve_ignores_filters_and_does_not_persist_route() {
    let fallback = "http://fallback";
    let mut router = router_with(&[]);
    router.register_upstream_filters(fallback.to_string(), only_zedless());

    let bytes = body("unrelated-1.0");
    assert!(accept_response(&router, fallback, true, &bytes).is_ok());
    let result = fallback_result(&router, fallback, "abc123", &Some(bytes), double(5.0));

    assert_eq!(result.url, fallback);
    assert!(!result.cache_hit);
    assert!(result.narinfo_bytes.is_some());
}

#[test]
fn cached_route_is_revalidated_against_new_filters() {
    let previously_accepted = "http://previous";
    let accepted = "http://accepted";
    let mut router = router_with(&[upstream(previously_accepted, 1), upstream(accepted, 2)]);
    let mut cooldowns = Cooldowns::new(Duration::from_secs(60));
    let get = |url: &str| {
        if url == previously_accepted {
            Get::Answer(200, body("unrelated-1.0"))
        } else {
            Get::Answer(200, body("zedless-0.1.0"))
        }
    };

    let (route, url) =
        resolve(&router, &mut cooldowns, &[(previously_accepted, 1)], &get).unwrap();
    assert_eq!(url, previously_accepted);

    router.register_upstream_filters(previously_accepted.to_string(), only_zedless());

    let refetched = {
        let bytes = body("unrelated-1.0");
        let info = NarInfo::parse(&bytes).unwrap();
        Some((bytes, info))
    };
    let again = upstream_to_ask_again(&router, None, &Some(route.clone()), &now(), None);
    assert_eq!(again.as_deref(), Some(previously_accepted));
    assert!(matches!(
        valid_cached_route(&router, None, Some(route), &now(), None, "abc123", refetched),
        CachedOutcome::Miss
    ));
    let (_, url) = resolve(
        &router,
        &mut cooldowns,
        &[(previously_accepted, 1), (accepted, 2)],
        &get,
    )
    .unwrap();
    assert_eq!(url, accepted);
}

fn stored(upstream_url: &str) -> RouteEntry {
    RouteEntry {
        store_path: "abc123".to_string(),
        upstream_url: upstream_url.to_string(),
        latency_ms: double(5.0),
        latency_ema: double(5.0),
        last_verified: now(),
        query_count: 1,
        failure_count: 0,
        ttl: Timestamp::new(now().secs() + 3600, 0),
        nar_hash: "sha256:abc".to_string(),
        nar_size: 1,
        nar_url: "nar/test.nar.xz".to_string(),
        upstream_nar_url: "nar/test.nar.xz".to_string(),
        narinfo_bytes: None,
    }
}

#[test]
fn cached_route_without_narinfo_bytes_uses_cache_after_filter_check() {
    let url = "http://upstream";
    let mut router = router_with(&[upstream(url, 1)]);
    router.register_upstream_filters(url.to_string(), only_zedless());
    let route = stored(url);
    let again = upstream_to_ask_again(&router, None, &Some(route.clone()), &now(), None);
    assert_eq!(again.as_deref(), Some(url));

    let bytes = body("zedless-0.1.0");
    let info = NarInfo::parse(&bytes).unwrap();
    let refetched = Some((bytes.clone(), info));
    match valid_cached_route(&router, None, Some(route), &now(), None, "abc123", refetched) {
        CachedOutcome::Hit { result, remember, save } => {
            assert_eq!(result.url, url);
            assert!(result.cache_hit);
            assert!(result.narinfo_bytes.is_some());
            assert!(remember);
            assert_eq!(save.unwrap().narinfo_bytes, Some(bytes));
        }
        _ => panic!("the filter lets the path through"),
    }
}

#[test]
fn cached_route_filter_check_failure_falls_back_to_race() {
    let stale = "http://stale";
    let working = "http://working";
    let mut router = router_with(&[upstream(stale, 1), upstream(working, 2)]);
    router.register_upstream_filters(stale.to_string(), only_zedless());
    let route = stored(stale);

    assert!(matches!(
        cached_route_filter_check(&router, stale, &route.narinfo_bytes, None),
        CachedFilterCheck::Rejected
    ));
    assert!(matches!(
        valid_cached_route(&router, None, Some(route), &now(), None, "abc123", None),
        CachedOutcome::Miss
    ));
    let mut cooldowns = Cooldowns::new(Duration::from_secs(60));
    let get = |_: &str| Get::Answer(200, body("zedless-0.1.0"));
    let (_, url) = resolve(&router, &mut cooldowns, &[(working, 2)], &get).unwrap();
    assert_eq!(url, working);
}

#[test]
fn a_cached_route_has_to_count() {
    let url = "http://upstream";
    let router = router_with(&[upstream(url, 1)]);
    let late = Timestamp::new(now().secs() + 3600, 0);
    assert!(!stored_route_counts(&stored(url), &late, None));
    assert!(stored_route_counts(&stored(url), &now(), Some(Status::Degraded)));
    for (at, status) in [(late, None), (now(), Some(Status::Down))] {
        let route = Some(stored(url));
        assert_eq!(upstream_to_ask_again(&router, None, &route, &at, status), None);
        assert!(matches!(
            valid_cached_route(&router, None, route, &at, status, "abc123", None),
            CachedOutcome::Miss
        ));
    }
    assert!(matches!(
        valid_cached_route(&router, None, None, &now(), None, "abc123", None),
        CachedOutcome::Miss
    ));
}

#[test]
fn memory_goes_before_the_database() {
    let url = "http://upstream";
    let mut router = router_with(&[upstream(url, 1), upstream("http://other", 2)]);
    let bytes = Some(body("unrelated-1.0"));
    let memory = fallback_result(&router, url, "abc123", &bytes, double(1.0));
    let other = Some(stored("http://other"));
    match valid_cached_route(&router, Some(&memory), other, &now(), None, "abc123", None) {
        CachedOutcome::Hit { result, remember, save } => {
            assert_eq!(result.url, url);
            assert_eq!(result.narinfo_bytes, memory.narinfo_bytes);
            assert!(!memory.cache_hit);
            assert!(result.cache_hit);
            assert!(!remember);
            assert!(save.is_none());
        }
        _ => panic!("there is no filter"),
    }
    router.register_upstream_filters(url.to_string(), only_zedless());
    let other = Some(stored("http://other"));
    assert!(matches!(
        valid_cached_route(&router, Some(&memory), other, &now(), None, "abc123", None),
        CachedOutcome::Forget
    ));
}

#[test]
fn what_was_resolved_is_a_cache_hit_the_next_time() {
    let url = "http://upstream";
    let mut config = upstream(url, 1);
    config.filters = only_zedless();
    let router = router_with(&[config]);
    // A carriage return that ends no line is part of the address.
    let bytes = b"StorePath: /nix/store/abc123-zedless-0.1.0\nURL: nar/x.nar\r?h\nNarHash: \
                  sha256:abc\nNarSize: 1\n"
        .to_vec();
    let info = NarInfo::parse(&bytes).unwrap();
    let lifetime = Duration::from_secs(60);
    let outcome =
        commit_winner(&router, &winner(url), "abc123", &info, &bytes, &now(), lifetime);
    let (route, first) = match outcome {
        CommitOutcome::Accepted(route, result) => (route, result),
        CommitOutcome::Rejected => panic!("the filter lets the path through"),
    };
    assert!(!first.cache_hit);
    for memory in [Some(&first), None] {
        let stored = Some(route.clone());
        assert_eq!(upstream_to_ask_again(&router, memory, &stored, &now(), None), None);
        match valid_cached_route(&router, memory, stored, &now(), None, "abc123", None) {
            CachedOutcome::Hit { result, save, .. } => {
                assert!(result.cache_hit);
                assert_eq!(result.url, first.url);
                assert_eq!(result.narinfo_bytes, first.narinfo_bytes);
                assert!(save.is_none());
            }
            _ => panic!("nothing has changed"),
        }
    }
}

#[test]
fn memory_is_told_of_a_narinfo_that_it_lacks() {
    let router = router_with(&[upstream("http://a", 1)]);
    let cached = fallback_result(&router, "http://a", "abc123", &None, double(1.0));
    let (result, tell) = refresh_result(&router, &cached, "abc123", &Some(body("x")));
    assert!(tell);
    assert!(result.narinfo_bytes.is_some());
    let (again, tell) = refresh_result(&router, &result, "abc123", &None);
    assert!(!tell);
    assert_eq!(again.narinfo_bytes, result.narinfo_bytes);
}

#[test]
fn mark_cooldown_makes_upstream_unavailable() {
    let mut cooldowns = Cooldowns::new(Duration::from_secs(60));
    let url = "https://cache.example.com";
    assert!(!cooldowns.in_cooldown(url, at(0)));
    cooldowns.mark_cooldown(url, at(0));
    assert!(cooldowns.in_cooldown(url, at(0)));
    assert!(cooldowns.in_cooldown(url, at(59)));
    assert!(!cooldowns.in_cooldown(url, at(60)));
}

#[test]
fn cooldown_expires_with_zero_window() {
    let mut cooldowns = Cooldowns::new(Duration::from_secs(0));
    let url = "https://cache.example.com";
    cooldowns.mark_cooldown(url, at(3));
    assert!(!cooldowns.in_cooldown(url, at(3)));
}

#[test]
fn cooldown_filter_excludes_cooled_down_upstream() {
    let mut cooldowns = Cooldowns::new(Duration::from_secs(60));
    let hot = "https://hot.example.com".to_string();
    let cold = "https://cold.example.com".to_string();
    cooldowns.mark_cooldown(&cold, at(1));
    let candidates = vec![hot.clone(), cold.clone()];
    assert_eq!(cooldowns.cooldown_filtered_candidates(&candidates, at(1)), vec![hot.clone()]);
    cooldowns.mark_cooldown(&hot, at(1));
    assert_eq!(cooldowns.effective_candidates(&candidates, at(1)), candidates);
}

#[test]
fn cooldown_filter_passes_all_when_none_cooled() {
    let mut cooldowns = Cooldowns::new(Duration::from_secs(60));
    let candidates =
        vec!["https://a.example.com".to_string(), "https://b.example.com".to_string()];
    assert_eq!(cooldowns.cooldown_filtered_candidates(&candidates, at(5)), candidates);
}

#[test]
fn candidates_are_raced_by_priority() {
    let urls = vec!["a".to_string(), "b".to_string(), "c".to_string()];
    assert_eq!(
        group_by_priority(&urls, &vec![20, 10, 20]),
        vec![vec!["b".to_string()], vec!["a".to_string(), "c".to_string()]]
    );
}

#[test]
fn a_group_is_lost_when_nobody_has_the_path() {
    let mut group = GroupRace::new(2);
    assert_eq!(group.start(), GroupProgress::Running);
    assert_eq!(group.on_attempt(Attempt::NetworkError), GroupProgress::Running);
    assert_eq!(
        group.on_attempt(Attempt::NotFound),
        GroupProgress::Lost(RaceGroupError::NotFound)
    );
    assert_eq!(group.attempts(), 2);
    let mut group = GroupRace::new(1);
    assert_eq!(
        group.on_attempt(Attempt::Broken),
        GroupProgress::Lost(RaceGroupError::NetworkError)
    );
    assert_eq!(GroupRace::new(3).on_deadline(), RaceGroupError::Timeout);
}

#[test]
fn a_race_needs_evidence_that_a_path_is_missing() {
    let mut race = Race::new(vec![vec!["a".to_string()], vec!["b".to_string()]]);
    race.on_lost(RaceGroupError::Timeout);
    assert_eq!(race.current().unwrap(), &vec!["b".to_string()]);
    race.on_lost(RaceGroupError::NetworkError);
    assert!(race.current().is_none());
    assert_eq!(race.verdict(), RaceVerdict::Unavailable);
    let mut race = Race::new(vec![vec!["a".to_string()], vec!["b".to_string()]]);
    race.on_lost(RaceGroupError::NotFound);
    race.on_lost(RaceGroupError::Timeout);
    assert_eq!(race.verdict(), RaceVerdict::NotFound);
}

#[test]
fn configured_keys_are_sorted_and_unique() {
    let keys = normalized_public_keys(
        "b:2".to_string(),
        vec!["c:3".to_string(), "a:1".to_string(), "b:2".to_string()],
    );
    assert_eq!(keys, vec!["a:1".to_string(), "b:2".to_string(), "c:3".to_string()]);
}

#[test]
fn registering_an_upstream_replaces_what_was_known() {
    let (narinfo, key) = signed_narinfo("origin");
    let mut config = upstream("http://a", 1);
    config.public_key = key.clone();
    config.username = "alice".to_string();
    config.nar_url_mode = NarUrlMode::Keep;
    let mut router = router_with(&[config]);
    assert!(router.signature_accepted("http://a", &narinfo));
    assert!(!router.signature_accepted("http://a", &NarInfo::default()));
    assert_eq!(router.public_keys("http://a"), vec![key]);
    assert_eq!(router.login("http://a"), Some(("alice".to_string(), None)));
    assert_eq!(router.nar_url_mode("http://a"), NarUrlMode::Keep);
    router.register_upstream(&upstream("http://a", 1)).unwrap();
    assert!(router.signature_accepted("http://a", &NarInfo::default()));
    assert_eq!(router.login("http://a"), None);
    assert_eq!(router.nar_url_mode("http://a"), NarUrlMode::ToSelf);
}

#[test]
fn a_bad_key_is_not_registered() {
    let mut config = upstream("http://a", 1);
    config.public_keys = vec!["nonsense".to_string()];
    let mut router = Router::new();
    let err = router.register_upstream(&config).err().unwrap();
    assert!(matches!(err, UpstreamRegistrationError::PublicKey(_)));
    assert!(err.message().starts_with("invalid upstream public key: "));
    assert_eq!(
        UpstreamRegistrationError::HttpClient("no TLS".to_string()).message(),
        "build upstream HTTP client: no TLS"
    );
}

#[test]
fn router_errors_say_what_is_wrong() {
    assert_eq!(RouterError::NotFound.message(), "not found in any upstream");
    assert_eq!(RouterError::UpstreamUnavailable.message(), "all upstreams unavailable");
    assert_eq!(
        RouterError::NoCandidates("a\"b".to_string()).message(),
        "no candidates for \"a\\\"b\""
    );
    assert_eq!(
        RouterError::SignatureVerificationFailed.message(),
        "narinfo signature verification failed"
    );
    assert_eq!(RouterError::FetchNarinfo("x".to_string()).message(), "fetch narinfo: x");
    assert_eq!(
        RouterError::S3(S3Error::Body("x".to_string())).message(),
        "S3 request failed: read S3 object body: x"
    );
    assert_eq!(
        RouterError::Db(DbError::InvalidData("x".to_string())).message(),
        "invalid stored route data: x"
    );
}

#[test]
fn a_race_is_the_last_resort() {
    let mut step = ResolveStep::CheckMemory;
    for _ in 0..5 {
        step = next_resolve_step(step, StepAnswer::No);
    }
    assert_eq!(step, ResolveStep::Race);
    assert_eq!(
        next_resolve_step(ResolveStep::CheckMemory, StepAnswer::Yes),
        ResolveStep::Missing
    );
    assert_eq!(
        next_resolve_step(ResolveStep::CheckCached, StepAnswer::Yes),
        ResolveStep::Found
    );
    assert_eq!(
        next_resolve_step(ResolveStep::CheckNegative, StepAnswer::Error),
        ResolveStep::Failed
    );
}
