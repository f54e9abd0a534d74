use ncro::config::{Config, UpstreamConfig};
use ncro::double::Double;
use ncro::health::{backoff_interval, compute_status, Prober, Status};
use ncro::narinfo::parse_public_key;
use ncro::probe::{check_tick, first_step, next_step, probe_succeeded, probe_url, ProbeStep};
use ncro::routes::{health_counts, HealthRow};
use ncro::startup::{fallback, start_prober, start_router, tuning};
use ncro::table::Table;
use ncro::time::{Duration, Instant};

fn at(secs: u64) -> Instant {
    Instant { since_start: Duration::from_secs(secs) }
}

fn double(x: f64) -> Double {
    Double { bits: x.to_bits() }
}

fn number(x: Double) -> f64 {
    f64::from_bits(x.bits)
}

/// Records a latency, averaged with what was known.
fn record(p: &mut Prober, url: &str, ms: f64) {
    let known = p.get_health(url).map_or(0.0, |h| number(h.ema_latency));
    let alpha = number(p.alpha());
    let blended = alpha * ms + (1.0 - alpha) * known;
    p.record_latency(url, double(ms), double(blended), at(0));
}

/// Which latencies lie within a tenth of which others.
fn closeness(p: &Prober) -> Vec<Vec<bool>> {
    let all: Vec<f64> = p.all_health().iter().map(|h| number(h.ema_latency)).collect();
    all.iter()
        .map(|a| {
            all.iter().map(|b| *b > 0.0 && ((a - b).abs() / b) < 0.10).collect()
        })
        .collect()
}

fn upstream(url: &str, priority: i32) -> UpstreamConfig {
    UpstreamConfig { url: url.into(), priority, ..Default::default() }
}

#[test]
fn ema_and_status_progression() {
    let mut p = Prober::new(double(0.3));
    p.add_upstream("https://example.com".into(), 1);
    record(&mut p, "https://example.com", 100.0);
    record(&mut p, "https://example.com", 50.0);
    let h = p.get_health("https://example.com").unwrap();
    assert!((84.0..=86.0).contains(&number(h.ema_latency)));
    for _ in 0..10 {
        p.record_failure("https://example.com");
    }
    assert_eq!(p.get_health("https://example.com").unwrap().status, Status::Down);
}

#[test]
fn backoff_thresholds_match_spec() {
    let base = Duration::from_secs(10);
    assert_eq!(backoff_interval(base, 0), base);
    assert_eq!(backoff_interval(base, 2), base);
    assert_eq!(backoff_interval(base, 3), Duration::from_secs(40));
    assert_eq!(backoff_interval(base, 9), Duration::from_secs(40));
    assert_eq!(backoff_interval(base, 10), Duration::from_secs(100));
    assert_eq!(backoff_interval(base, 100), Duration::from_secs(100));
}

#[test]
fn status_boundaries() {
    assert_eq!(compute_status(0), Status::Active);
    assert_eq!(compute_status(2), Status::Active);
    assert_eq!(compute_status(3), Status::Degraded);
    assert_eq!(compute_status(9), Status::Degraded);
    assert_eq!(compute_status(10), Status::Down);
    assert_eq!(compute_status(u32::MAX), Status::Down);
}

#[test]
fn statuses_have_names() {
    assert_eq!(Status::Active.as_str(), "ACTIVE");
    assert_eq!(Status::Degraded.as_str(), "DEGRADED");
    assert_eq!(Status::Down.as_str(), "DOWN");
}

#[test]
fn first_record_latency_sets_exact_ema() {
    let mut p = Prober::new(double(0.3));
    p.add_upstream("https://example.com".into(), 1);
    record(&mut p, "https://example.com", 42.0);
    let h = p.get_health("https://example.com").unwrap();
    assert!((number(h.ema_latency) - 42.0).abs() < f64::EPSILON);
    assert_eq!(h.total_queries, 1);
}

#[test]
fn record_latency_resets_consecutive_fails() {
    let mut p = Prober::new(double(0.3));
    p.add_upstream("https://example.com".into(), 1);
    for _ in 0..5 {
        p.record_failure("https://example.com");
    }
    assert_eq!(p.get_health("https://example.com").unwrap().status, Status::Degraded);
    record(&mut p, "https://example.com", 10.0);
    let h = p.get_health("https://example.com").unwrap();
    assert_eq!(h.consecutive_fails, 0);
    assert_eq!(h.status, Status::Active);
}

#[test]
fn sorted_by_latency_down_goes_last() {
    let mut p = Prober::new(double(0.3));
    p.init_upstreams(&vec![upstream("https://fast.com", 1), upstream("https://down.com", 1)]);
    p.seed("https://fast.com", double(10.0), 0, 5);
    p.seed("https://down.com", double(5.0), 10, 5);
    let sorted = p.sorted_by_latency(&closeness(&p));
    assert_eq!(sorted.last().unwrap().url, "https://down.com");
}

#[test]
fn sorted_by_latency_priority_within_10pct_window() {
    let mut p = Prober::new(double(0.3));
    p.init_upstreams(&vec![
        upstream("https://high-priority.com", 1),
        upstream("https://low-priority.com", 10),
    ]);
    p.seed("https://high-priority.com", double(100.0), 0, 10);
    p.seed("https://low-priority.com", double(103.0), 0, 10);
    let sorted = p.sorted_by_latency(&closeness(&p));
    assert_eq!(sorted[0].url, "https://high-priority.com");
    p.seed("https://high-priority.com", double(103.0), 0, 10);
    p.seed("https://low-priority.com", double(100.0), 0, 10);
    let sorted = p.sorted_by_latency(&closeness(&p));
    assert_eq!(sorted[0].url, "https://high-priority.com");
    p.seed("https://low-priority.com", double(50.0), 0, 10);
    let sorted = p.sorted_by_latency(&closeness(&p));
    assert_eq!(sorted[0].url, "https://low-priority.com");
}

#[test]
fn unknown_upstreams_stay_unknown() {
    let mut p = Prober::new(double(0.3));
    assert!(p.record_failure("https://a").is_none());
    assert!(p.record_latency("https://a", double(1.0), double(1.0), at(0)).is_none());
    p.seed("https://a", double(1.0), 0, 1);
    assert!(p.get_health("https://a").is_none());
    assert!(p.add_upstream("https://a".into(), 1));
    assert!(!p.add_upstream("https://a".into(), 1));
    p.remove_upstream("https://a");
    assert!(p.get_health("https://a").is_none());
}

#[test]
fn probes_wait_longer_for_what_fails() {
    let mut p = Prober::new(double(0.3));
    p.add_upstream("https://a".into(), 1);
    let mut probed: Table<Instant> = Table::new();
    let interval = Duration::from_secs(30);
    assert_eq!(p.due_probes(&mut probed, interval, at(100)), vec!["https://a".to_string()]);
    assert!(p.due_probes(&mut probed, interval, at(129)).is_empty());
    assert_eq!(p.due_probes(&mut probed, interval, at(130)).len(), 1);
    for _ in 0..3 {
        p.record_failure("https://a");
    }
    assert!(p.due_probes(&mut probed, interval, at(200)).is_empty());
    assert_eq!(p.due_probes(&mut probed, interval, at(250)).len(), 1);
}

#[test]
fn the_clock_of_probes_ticks_four_times_an_interval() {
    assert_eq!(check_tick(Duration::from_secs(40)), Duration::from_secs(10));
    assert_eq!(check_tick(Duration::from_secs(2)), Duration::from_secs(1));
}

#[test]
fn a_probe_asks_twice() {
    assert_eq!(first_step(false, false), ProbeStep::Skip);
    assert_eq!(first_step(true, true), ProbeStep::HeadObject);
    assert_eq!(first_step(true, false), ProbeStep::Head);
    assert_eq!(next_step(ProbeStep::Head, true), ProbeStep::RecordLatency);
    assert_eq!(next_step(ProbeStep::Head, false), ProbeStep::Get);
    assert_eq!(next_step(ProbeStep::Get, true), ProbeStep::RecordLatency);
    assert_eq!(next_step(ProbeStep::Get, false), ProbeStep::RecordFailure);
    assert!(probe_succeeded(Some(200)));
    assert!(!probe_succeeded(Some(404)));
    assert!(!probe_succeeded(None));
    assert_eq!(probe_url("https://a"), "https://a/nix-cache-info");
}

#[test]
fn what_the_database_knows_is_taken_over() {
    let mut config = Config::default();
    config.upstreams = vec![upstream("https://a", 1)];
    config.upstreams[0].username = "alice".to_string();
    let rows = vec![
        HealthRow {
            url: "https://a".to_string(),
            ema_latency: double(7.0),
            consecutive_fails: 4,
            total_queries: -1,
        },
        HealthRow {
            url: "https://gone".to_string(),
            ema_latency: double(1.0),
            consecutive_fails: 0,
            total_queries: 1,
        },
    ];
    let p = start_prober(&config, &rows);
    let h = p.get_health("https://a").unwrap();
    assert_eq!(number(h.ema_latency), 7.0);
    assert_eq!(h.status, Status::Degraded);
    assert_eq!(h.total_queries, 0);
    assert!(p.get_health("https://gone").is_none());
    assert_eq!(p.login("https://a"), Some(("alice".to_string(), None)));
    assert_eq!(health_counts(3, u64::MAX), (3, i64::MAX));
}

#[test]
fn the_router_starts_with_the_configured_upstreams() {
    let mut config = Config::default();
    config.upstreams = vec![upstream("https://a", 1)];
    config.fallback_cache.upstream.username = "bob".to_string();
    let router = start_router(&config).ok().unwrap();
    assert_eq!(router.login("https://cache.nixos.org"), None);
    assert!(fallback(&config).is_none());
    config.fallback_cache.enabled = true;
    let router = start_router(&config).ok().unwrap();
    assert_eq!(router.login("https://cache.nixos.org"), Some(("bob".to_string(), None)));
    assert_eq!(fallback(&config).unwrap().url, "https://cache.nixos.org");
    assert_eq!(tuning(&config).max_concurrent_races, 64);
    config.upstreams.push(upstream("https://b", 2));
    config.upstreams[1].public_key = "nonsense".to_string();
    config.fallback_cache.upstream.public_key = "worse:".to_string();
    let err = start_router(&config).err().unwrap();
    assert_eq!(
        err.message(),
        format!(
            "invalid upstream public key: {}",
            parse_public_key("nonsense").err().unwrap().message()
        )
    );
}

#[test]
fn numbers_are_compared_by_their_bits() {
    assert!(double(-1.0).less_than(&double(0.5)));
    assert!(!double(0.0).less_than(&double(-0.0)));
    assert!(double(0.0).same_as(&double(-0.0)));
    assert!(!double(f64::NAN).less_than(&double(1.0)));
    assert!(!double(f64::NAN).same_as(&double(f64::NAN)));
    assert!(double(0.3).in_unit_interval());
    assert!(!double(0.0).in_unit_interval());
    assert!(!double(1.0).in_unit_interval());
}
