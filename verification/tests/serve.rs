use ncro::config::{NarHedgingConfig, UpstreamConfig};
use ncro::double::Double;
use ncro::headers::{
    forwarded_request_headers, forwarded_response_headers, s3_headers, Header,
};
use ncro::health::{Status, UpstreamHealth};
use ncro::hedge::{
    direct_candidates, hedge_allowed, hedge_candidates, hedge_order, AttemptEnd, HedgedNar,
    NarCandidate,
};
use ncro::nar::{
    fallback_answer, first_nar_step, has_archive, nar_fetch, nar_key, nar_timeout, nar_timeouts,
    narinfo_answer, next_nar_step, refusal_status, register_buckets, request_label,
    requested_hash, NarFetch, NarMethod, NarStep, NarinfoAnswer,
};
use ncro::resolve::{ResolveResult, RouterError};
use ncro::routes::RouteEntry;
use ncro::s3::{is_not_found, object_status, request_failure, S3ClientPool, S3Error, S3ObjectHead};
use ncro::serve::{
    cache_info_body, health_code, overall_status, status_page, upstream_auth,
    upstream_status_full, upstream_urls, with_provenance, CacheStatus, RouteKind,
};
use ncro::table::Table;
use ncro::time::{Duration, HumanDuration, Instant, Timestamp};

fn at(secs: u64) -> Instant {
    Instant { since_start: Duration::from_secs(secs) }
}

fn double(x: f64) -> Double {
    Double { bits: x.to_bits() }
}

fn upstream(url: &str) -> UpstreamConfig {
    UpstreamConfig { url: url.to_string(), ..Default::default() }
}

#[test]
fn cache_info_body_reflects_want_mass_query() {
    assert_eq!(
        cache_info_body(true, 30),
        "StoreDir: /nix/store\nWantMassQuery: 1\nPriority: 30\n"
    );
    assert_eq!(
        cache_info_body(false, 42),
        "StoreDir: /nix/store\nWantMassQuery: 0\nPriority: 42\n"
    );
}

#[test]
fn provenance_uses_hostname_and_preserves_response_headers() {
    let mut headers: Table<String> = Table::new();
    headers.insert("content-type".to_string(), "text/plain".to_string());
    with_provenance(
        &mut headers,
        "https://cache.example.test:8443/path?secret=ignored",
        RouteKind::Race,
    );

    assert_eq!(headers.get("content-type").unwrap(), "text/plain");
    assert_eq!(headers.get("x-ncro-upstream").unwrap(), "cache.example.test");
    assert_eq!(headers.get("x-ncro-route").unwrap(), "race");
}

#[test]
fn provenance_marks_hedge_winners() {
    let mut headers: Table<String> = Table::new();
    with_provenance(&mut headers, "https://cache.example.test", RouteKind::Hedge);
    assert_eq!(headers.get("x-ncro-route").unwrap(), "hedge");
}

#[test]
fn provenance_hides_invalid_upstream_values() {
    let mut headers: Table<String> = Table::new();
    with_provenance(&mut headers, "not a valid URL\r\nX-Injected: no", RouteKind::Fallback);
    assert_eq!(headers.get("x-ncro-upstream").unwrap(), "unknown");
    assert_eq!(headers.get("x-ncro-route").unwrap(), "fallback");
}

#[test]
fn routes_have_names() {
    assert_eq!(RouteKind::CacheHit.header_value(), "cache-hit");
    assert_eq!(RouteKind::Direct.header_value(), "direct");
}

fn health(url: &str, status: Status) -> UpstreamHealth {
    let mut h = UpstreamHealth::new(url.to_string(), 40);
    h.status = status;
    h
}

#[test]
fn overall_status_ok_when_all_active() {
    let all = [health("a", Status::Active), health("b", Status::Active)];
    assert_eq!(overall_status(&all), "ok");
}

#[test]
fn overall_status_degraded_when_any_down_or_degraded() {
    let mixed = [health("a", Status::Active), health("b", Status::Down)];
    assert_eq!(overall_status(&mixed), "degraded");
    let degraded = [health("a", Status::Degraded)];
    assert_eq!(overall_status(&degraded), "degraded");
    assert_eq!(health_code(&mixed), 200);
}

#[test]
fn overall_status_down_only_when_all_down() {
    let all = [health("a", Status::Down), health("b", Status::Down)];
    assert_eq!(overall_status(&all), "down");
    assert_eq!(health_code(&all), 503);
}

#[test]
fn overall_status_ok_when_empty() {
    assert_eq!(overall_status(&[]), "ok");
    assert_eq!(health_code(&[]), 200);
}

#[test]
fn upstream_status_full_never_probed_has_no_age() {
    let full = upstream_status_full(health("a", Status::Active), at(9), "http", false);
    assert_eq!(full.last_probe_secs_ago, None);
}

#[test]
fn upstream_status_full_computes_probe_age() {
    let now = at(100);
    let mut h = health("a", Status::Active);
    h.last_probe = Some(at(95));
    let full = upstream_status_full(h, now, "http", false);
    assert_eq!(full.last_probe_secs_ago, Some(5));
    assert_eq!(full.status, "ACTIVE");
    assert_eq!(full.kind, "http");
}

#[test]
fn the_status_page_shows_every_upstream() {
    let mut alice = upstream("http://a");
    alice.username = "alice".to_string();
    let fallback = Some(upstream("http://f"));
    let upstreams = vec![alice];
    let cache = CacheStatus {
        route_entries: 3,
        narinfo_hits: 1,
        narinfo_misses: 2,
        narinfo_negative_hits: 0,
        nar_requests: 4,
    };
    let page = status_page(
        vec![health("http://a", Status::Down), health("http://x", Status::Active)],
        None,
        at(70),
        at(10),
        cache,
        30,
        &S3ClientPool::new(),
        &upstreams,
        &fallback,
    );
    assert_eq!(page.uptime_secs, 60);
    assert_eq!(page.status, "degraded");
    assert_eq!(page.cache, cache);
    assert_eq!(page.upstreams.len(), 2);
    assert!(page.upstreams[0].authenticated);
    assert!(!page.upstreams[1].authenticated);
    assert_eq!(page.fallback.unwrap().url, "http://f");
    assert_eq!(
        upstream_auth(&upstreams, &fallback, "http://a"),
        Some(("alice".to_string(), None))
    );
}

#[test]
fn upstreams_that_are_down_are_asked_only_in_need() {
    let configured = vec![upstream("http://a"), upstream("http://b")];
    let some = vec![health("http://b", Status::Active), health("http://a", Status::Down)];
    assert_eq!(upstream_urls(&some, &configured), vec!["http://b".to_string()]);
    let none = vec![health("http://b", Status::Down)];
    assert_eq!(
        upstream_urls(&none, &configured),
        vec!["http://a".to_string(), "http://b".to_string()]
    );
}

fn header(name: &str, value: &str) -> Header {
    Header { name: name.to_string(), value: value.as_bytes().to_vec() }
}

fn names(headers: &[Header]) -> Vec<&str> {
    headers.iter().map(|h| h.name.as_str()).collect()
}

#[test]
fn only_listed_headers_are_passed_on() {
    let request = vec![
        header("range", "bytes=0-1"),
        header("cookie", "secret"),
        header("accept", "*/*"),
    ];
    assert_eq!(names(&forwarded_request_headers(&request)), vec!["accept", "range"]);
    let response = vec![
        header("set-cookie", "secret"),
        header("etag", "\"x\""),
        header("content-type", "text/plain"),
    ];
    assert_eq!(names(&forwarded_response_headers(&response)), vec!["content-type", "etag"]);
}

#[test]
fn what_a_bucket_says_becomes_headers() {
    let head = S3ObjectHead {
        content_type: Some("application/x-nix-nar".to_string()),
        content_length: Some(-7),
        accept_ranges: None,
        etag: Some("\"e\"".to_string()),
        last_modified: None,
    };
    assert_eq!(
        s3_headers(head, Some("bytes 0-1/2".to_string())),
        vec![
            ("content-type", "application/x-nix-nar".to_string()),
            ("content-length", "-7".to_string()),
            ("content-range", "bytes 0-1/2".to_string()),
            ("etag", "\"e\"".to_string()),
        ]
    );
}

#[test]
fn s3_failures_are_told_apart() {
    assert!(is_not_found("service error: NoSuchKey"));
    assert!(is_not_found("status code: 404"));
    assert!(is_not_found("NotFound"));
    assert!(!is_not_found("AccessDenied"));
    assert!(request_failure("NotFound").is_none());
    assert_eq!(
        request_failure("AccessDenied").unwrap().message(),
        "S3 request failed: AccessDenied"
    );
    assert_eq!(object_status(true), 206);
    assert_eq!(object_status(false), 200);
}

#[test]
fn buckets_are_registered() {
    let mut a = upstream("s3://bucket-a");
    a.resolve_s3().unwrap();
    let mut f = upstream("s3://bucket-f");
    f.resolve_s3().unwrap();
    let pool = register_buckets(&vec![a, upstream("http://b")], &Some(f));
    assert!(pool.contains("s3://bucket-a"));
    assert!(pool.contains("s3://bucket-f"));
    assert!(!pool.contains("http://b"));
    assert_eq!(pool.config("s3://bucket-f").ok().unwrap().bucket, "bucket-f");
    let err = pool.config("http://b").err().unwrap();
    assert!(matches!(err, S3Error::UnknownUpstream(_)));
    assert_eq!(err.message(), "unknown S3 upstream \"http://b\"");
}

#[test]
fn a_narinfo_is_requested_by_its_name() {
    assert_eq!(requested_hash("abc.narinfo"), Some("abc".to_string()));
    assert_eq!(requested_hash("abc.nar"), None);
}

fn resolved(bytes: Option<&str>, cache_hit: bool) -> ResolveResult {
    ResolveResult {
        url: "http://a".to_string(),
        latency_ms: double(1.0),
        cache_hit,
        narinfo_bytes: bytes.map(|b| b.as_bytes().to_vec()),
    }
}

#[test]
fn a_narinfo_is_answered_or_passed_on() {
    match narinfo_answer(Ok(resolved(Some("x"), true)), "/h.narinfo", true) {
        NarinfoAnswer::Body { upstream, bytes, route } => {
            assert_eq!(upstream, "http://a");
            assert_eq!(bytes, b"x");
            assert_eq!(route, RouteKind::CacheHit);
        }
        _ => panic!("there is a narinfo"),
    }
    match narinfo_answer(Ok(resolved(None, false)), "/h.narinfo", true) {
        NarinfoAnswer::Proxy { url, route, .. } => {
            assert_eq!(url, "http://a/h.narinfo");
            assert_eq!(route, RouteKind::Race);
        }
        _ => panic!("there is no narinfo"),
    }
    let missing = narinfo_answer(Err(RouterError::NotFound), "/h.narinfo", true);
    assert!(matches!(missing, NarinfoAnswer::NotFound));
    assert_eq!(request_label(&missing), "error");
    assert_eq!(refusal_status(&missing).unwrap().0, 404);
    assert!(matches!(
        narinfo_answer(Err(RouterError::UpstreamUnavailable), "/h.narinfo", true),
        NarinfoAnswer::AskFallback
    ));
    let down = narinfo_answer(Err(RouterError::UpstreamUnavailable), "/h.narinfo", false);
    assert_eq!(refusal_status(&down), Some((502, "upstream unavailable")));
    match fallback_answer(Ok(resolved(Some("x"), false)), "/h.narinfo") {
        NarinfoAnswer::Body { route, .. } => assert_eq!(route, RouteKind::Fallback),
        _ => panic!("there is a narinfo"),
    }
    assert!(matches!(
        fallback_answer(Err(RouterError::UpstreamUnavailable), "/h.narinfo"),
        NarinfoAnswer::BadGateway
    ));
}

fn route(ttl: i64, upstream_nar_url: &str) -> RouteEntry {
    RouteEntry {
        store_path: "abc".to_string(),
        upstream_url: "http://a".to_string(),
        latency_ms: double(1.0),
        latency_ema: double(1.0),
        last_verified: Timestamp::new(0, 0),
        query_count: 1,
        failure_count: 0,
        ttl: Timestamp::new(ttl, 0),
        nar_hash: "sha256:abc".to_string(),
        nar_size: 1,
        nar_url: "nar/abc.nar".to_string(),
        upstream_nar_url: upstream_nar_url.to_string(),
        narinfo_bytes: None,
    }
}

#[test]
fn an_archive_is_asked_of_its_route_first() {
    let now = Timestamp::new(100, 0);
    assert_eq!(nar_key("//nar/abc.nar"), "nar/abc.nar");
    let step = first_nar_step(&Some(route(200, "/nar/own.nar")), &now, "/nar/abc.nar?hash=h");
    match &step {
        NarStep::AskRouted(c) => {
            assert_eq!(c.upstream, "http://a");
            assert_eq!(c.path, "/nar/own.nar");
            assert_eq!(c.route, RouteKind::CacheHit);
        }
        _ => panic!("there is a route"),
    }
    assert!(matches!(next_nar_step(&step, true, true), NarStep::Answered));
    assert!(matches!(next_nar_step(&step, false, true), NarStep::AskFallback));
    assert!(matches!(next_nar_step(&step, false, false), NarStep::NotFound));
    match first_nar_step(&Some(route(200, "")), &now, "/nar/abc.nar?hash=h") {
        NarStep::AskRouted(c) => assert_eq!(c.path, "/nar/abc.nar?hash=h"),
        _ => panic!("there is a route"),
    }
    assert!(matches!(
        first_nar_step(&Some(route(100, "")), &now, "/nar/abc.nar"),
        NarStep::AskDirect
    ));
    assert!(matches!(first_nar_step(&None, &now, "/nar/abc.nar"), NarStep::AskDirect));
    assert!(matches!(
        next_nar_step(&NarStep::AskFallback, false, true),
        NarStep::NotFound
    ));
}

#[test]
fn an_archive_is_fetched_as_its_upstream_asks() {
    let mut pool = S3ClientPool::new();
    let mut bucket = upstream("s3://bucket");
    bucket.resolve_s3().unwrap();
    pool.register(bucket.url.clone(), bucket.s3.unwrap());
    match nar_fetch(&pool, "http://a", "/nar/x.nar", NarMethod::Get, None) {
        NarFetch::Http { url } => assert_eq!(url, "http://a/nar/x.nar"),
        _ => panic!("no bucket"),
    }
    match nar_fetch(&pool, "s3://bucket", "/nar/x.nar", NarMethod::Get, Some("r".to_string())) {
        NarFetch::S3Get { key, range } => {
            assert_eq!(key, "nar/x.nar");
            assert_eq!(range.as_deref(), Some("r"));
        }
        _ => panic!("a bucket"),
    }
    assert!(matches!(
        nar_fetch(&pool, "s3://bucket", "/nar/x.nar", NarMethod::Head, None),
        NarFetch::S3Head { .. }
    ));
    assert!(matches!(
        nar_fetch(&pool, "s3://bucket", "/nar/x.nar", NarMethod::Other, None),
        NarFetch::Refused
    ));
    assert!(has_archive(206));
    assert!(!has_archive(304));
}

#[test]
fn archives_may_stall_as_long_as_configured() {
    let mut slow = upstream("http://slow");
    slow.nar_timeout = Some(HumanDuration(Duration::from_secs(60)));
    let mut fallback = upstream("http://slow");
    fallback.nar_timeout = Some(HumanDuration(Duration::from_secs(1)));
    let read = Duration::from_secs(30);
    let limits = nar_timeouts(&vec![slow, upstream("http://b")], &Some(fallback), read);
    assert_eq!(nar_timeout(&limits, "http://slow", read), Duration::from_secs(60));
    assert_eq!(nar_timeout(&limits, "http://b", read), read);
    assert_eq!(nar_timeout(&limits, "http://unknown", Duration::from_secs(5)).as_secs(), 5);
}

fn candidate(upstream: &str) -> NarCandidate {
    NarCandidate {
        upstream: upstream.to_string(),
        path: "/nar/x.nar".to_string(),
        route: RouteKind::Hedge,
    }
}

#[test]
fn archives_are_asked_for_by_priority() {
    let mut opted_out = upstream("http://c");
    opted_out.allow_hedging = false;
    let upstreams = vec![opted_out];
    let mut late = health("http://a", Status::Active);
    late.priority = 50;
    let sorted = vec![
        late,
        health("http://b", Status::Active),
        health("http://c", Status::Active),
        health("http://d", Status::Down),
    ];
    assert!(!hedge_allowed(&upstreams, "http://c"));
    assert!(hedge_allowed(&upstreams, "http://unknown"));
    assert_eq!(
        hedge_order(&sorted, "", &upstreams, true),
        vec!["http://b".to_string(), "http://c".to_string(), "http://a".to_string()]
    );
    let order = hedge_order(&sorted, "http://b", &upstreams, false);
    assert_eq!(order, vec!["http://a".to_string()]);
    let both = vec!["http://b".to_string(), "http://a".to_string(), "http://c".to_string()];
    let paths = vec![Some("/1".to_string()), None, Some("/3".to_string())];
    let list = hedge_candidates(&both, &paths);
    assert_eq!(list.len(), 2);
    assert_eq!(list[1].upstream, "http://b");
    assert_eq!(list[0].path, "/3");
    let (first, others) = direct_candidates(list, &upstreams).unwrap();
    assert_eq!(first.upstream, "http://b");
    assert_eq!(first.route, RouteKind::Direct);
    assert!(others.is_empty());
    assert!(direct_candidates(vec![], &upstreams).is_none());
}

#[test]
fn another_archive_is_asked_for_after_a_failure() {
    let config = NarHedgingConfig::default();
    let (mut nar, started) =
        HedgedNar::new(candidate("a"), vec![candidate("c"), candidate("b")], false, &config);
    assert_eq!(started.len(), 1);
    assert!(!nar.timer_armed());
    assert_eq!(nar.on_attempt(AttemptEnd::Unavailable).unwrap().upstream, "b");
    assert_eq!(nar.on_attempt(AttemptEnd::Unavailable).unwrap().upstream, "c");
    assert!(!nar.exhausted());
    assert!(nar.on_attempt(AttemptEnd::Unavailable).is_none());
    assert!(nar.exhausted());
}

#[test]
fn archives_are_hedged_up_to_the_limit() {
    let config = NarHedgingConfig {
        enabled: true,
        delay: HumanDuration(Duration::from_millis(50)),
        max_inflight: 2,
    };
    let (mut nar, _) =
        HedgedNar::new(candidate("a"), vec![candidate("c"), candidate("b")], false, &config);
    assert!(nar.timer_armed());
    assert_eq!(nar.on_timer().upstream, "b");
    assert_eq!(nar.in_flight(), 2);
    assert!(!nar.timer_armed());
    assert!(nar.on_attempt(AttemptEnd::Answered).is_none());
    assert_eq!(nar.in_flight(), 1);
    assert!(!nar.is_stuck());
}

#[test]
fn heads_of_archives_are_asked_for_all_at_once() {
    let config = NarHedgingConfig {
        enabled: true,
        delay: HumanDuration(Duration::from_millis(50)),
        max_inflight: 2,
    };
    let (nar, started) =
        HedgedNar::new(candidate("a"), vec![candidate("c"), candidate("b")], true, &config);
    let order: Vec<&str> = started.iter().map(|c| c.upstream.as_str()).collect();
    assert_eq!(order, vec!["a", "b", "c"]);
    assert!(!nar.timer_armed());
    let broken = NarHedgingConfig::default();
    let (mut nar, _) = HedgedNar::new(candidate("a"), vec![candidate("b")], false, &broken);
    assert!(nar.on_attempt(AttemptEnd::Broken).is_none());
    assert!(nar.is_stuck());
    assert_eq!(nar.resume().upstream, "b");
    assert_eq!(nar.in_flight(), 1);
    assert!(!nar.is_stuck());
}
