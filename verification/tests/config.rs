use std::str::FromStr;

use ncro::config::{
    parse_s3_url, resolve_password_file, trim_password, Config, ConfigError, LatencyAlpha,
    PeerConfig, TrustMode, UpstreamConfig,
};
use ncro::double::Double;
use ncro::filter::{FilterAction, FilterField, FilterRule};
use ncro::level::find_level_error;
use ncro::load::Overrides;
use ncro::netrc::{apply_netrc, Netrc, NetrcEntry};
use ncro::time::{Duration, HumanDuration};
use ncro::validate::{validate_nix_public_key, validate_upstream};
use tracing_subscriber::EnvFilter;

/// The text under `key`.
fn text(table: &toml::Table, key: &str) -> Option<String> {
    table.get(key).and_then(|v| v.as_str()).map(str::to_string)
}

fn upstream_from(table: &toml::Table, mut out: UpstreamConfig) -> UpstreamConfig {
    if let Some(url) = text(table, "url") {
        out.url = url;
    }
    if let Some(priority) = table.get("priority").and_then(|v| v.as_integer()) {
        out.priority = i32::try_from(priority).unwrap();
    }
    if let Some(keys) = table.get("public_keys").and_then(|v| v.as_array()) {
        out.public_keys = keys.iter().map(|k| k.as_str().unwrap().to_string()).collect();
    }
    if let Some(username) = text(table, "username") {
        out.username = username;
    }
    out.password = text(table, "password");
    out.password_file = text(table, "password_file");
    if let Some(filters) = table.get("filters").and_then(|v| v.as_array()) {
        for filter in filters {
            let filter = filter.as_table().unwrap();
            out.filters.push(FilterRule {
                action: match text(filter, "action").unwrap().as_str() {
                    "allow" => FilterAction::Allow,
                    _ => FilterAction::Deny,
                },
                field: match text(filter, "field").unwrap().as_str() {
                    "name" => FilterField::Name,
                    "store_path" => FilterField::StorePath,
                    other => panic!("no such field: {other}"),
                },
                pattern: text(filter, "pattern").unwrap(),
            });
        }
    }
    out
}

/// The configuration that a TOML text gives, as far as these tests use it.
fn config_from(input: &str) -> Config {
    let table: toml::Table = toml::from_str(input).unwrap();
    let mut cfg = Config::default();
    if let Some(list) = table.get("upstreams").and_then(|v| v.as_array()) {
        cfg.upstreams = list
            .iter()
            .map(|u| upstream_from(u.as_table().unwrap(), UpstreamConfig::default()))
            .collect();
    }
    if let Some(fallback) = table.get("fallback_cache").and_then(|v| v.as_table()) {
        if let Some(enabled) = fallback.get("enabled").and_then(|v| v.as_bool()) {
            cfg.fallback_cache.enabled = enabled;
        }
        let upstream = std::mem::take(&mut cfg.fallback_cache.upstream);
        cfg.fallback_cache.upstream = upstream_from(fallback, upstream);
    }
    if let Some(server) = table.get("server").and_then(|v| v.as_table()) {
        if let Some(listen) = text(server, "listen") {
            cfg.server.listen = listen;
        }
    }
    if let Some(logging) = table.get("logging").and_then(|v| v.as_table()) {
        if let Some(level) = text(logging, "level") {
            cfg.logging.level = level;
        }
    }
    if let Some(limits) =
        table.get("cache").and_then(|v| v.get("mass_query")).and_then(|v| v.as_table())
    {
        if let Some(n) = limits.get("max_concurrent_races").and_then(|v| v.as_integer()) {
            cfg.cache.mass_query.max_concurrent_races = u32::try_from(n).unwrap();
        }
        if let Some(n) = limits.get("per_upstream_max_inflight").and_then(|v| v.as_integer()) {
            cfg.cache.mass_query.per_upstream_max_inflight = u32::try_from(n).unwrap();
        }
    }
    cfg
}

fn no_overrides() -> Overrides {
    Overrides { listen: None, db_path: None, log_level: None }
}

/// What reading no password file at all gives, for `upstreams` upstreams.
fn no_files(upstreams: usize) -> Vec<Result<String, String>> {
    vec![Err("not read".to_string()); upstreams + 1]
}

fn message(result: Result<(), ConfigError>) -> String {
    result.err().expect("expected validation failure").message()
}

#[test]
fn loads_defaults() {
    let (cfg, warnings) =
        Config::default().load(no_overrides(), &no_files(1), &None).ok().unwrap();
    assert_eq!(cfg.server.listen, ":8080");
    assert_eq!(cfg.cache.max_entries, 100_000);
    assert_eq!(cfg.cache.slow_statement_threshold.0, Duration::from_secs(1));
    assert_eq!(cfg.upstreams.len(), 1);
    assert!(!cfg.fallback_cache.enabled);
    assert_eq!(cfg.fallback_cache.upstream.url, "https://cache.nixos.org");
    assert!(warnings.is_empty());
    cfg.validate().unwrap();
}

#[test]
fn defaults_are_what_is_documented() {
    let cfg = Config::default();
    assert_eq!(cfg.server.cache_priority, 30);
    assert!(cfg.server.want_mass_query);
    assert_eq!(cfg.server.read_timeout.0, Duration::from_secs(30));
    assert_eq!(cfg.cache.db_path, "/var/lib/ncro/routes.db");
    assert_eq!(cfg.cache.ttl.0, Duration::from_secs(3600));
    assert_eq!(cfg.cache.negative_ttl.0, Duration::from_secs(600));
    assert_eq!(cfg.cache.latency_alpha.value.bits, 0.3_f64.to_bits());
    assert_eq!(cfg.cache.mass_query.max_concurrent_races, 64);
    assert_eq!(cfg.mesh.bind_addr, "0.0.0.0:7946");
    assert_eq!(cfg.discovery.service_name, "_nix-serve._tcp");
    assert_eq!(cfg.logging.level, "info");
    assert_eq!(cfg.trust.mode, TrustMode::Off);
    assert!(cfg.trust.fail_closed);
    assert!(!cfg.nar_hedging.enabled);
    assert_eq!(cfg.upstreams[0].url, "https://cache.nixos.org");
    assert_eq!(cfg.upstreams[0].priority, 10);
}

#[test]
fn parses_upstream_filters() {
    let cfg = config_from(
        "[[upstreams]]\nurl = \"https://cache.example\"\n\n[[upstreams.filters]]\naction = \"allow\"\nfield = \"name\"\npattern = \"zedless*\"\n\n[[upstreams.filters]]\naction = \"deny\"\nfield = \"store_path\"\npattern = \"*-source\"\n",
    );
    cfg.validate().unwrap();
    assert_eq!(cfg.upstreams[0].filters.len(), 2);
    assert_eq!(cfg.upstreams[0].filters[0].action, FilterAction::Allow);
    assert_eq!(cfg.upstreams[0].filters[0].field, FilterField::Name);
}

#[test]
fn validates_upstream_public_keys_entries() {
    let cfg = config_from(
        "[[upstreams]]\nurl = \"https://cache.example\"\npublic_keys = [\"missing-separator\"]\n",
    );
    assert!(message(cfg.validate()).contains("public_keys[0]"));
}

#[test]
fn logging_level_accepts_tracing_filter_directives() {
    let cfg = config_from("[logging]\nlevel = \"ncro=debug,tower_http=warn\"\n");
    cfg.validate().unwrap();
}

#[test]
fn logging_level_rejects_invalid_filter_directives() {
    let cfg = config_from("[logging]\nlevel = \"ncro==debug\"\n");
    assert!(message(cfg.validate()).contains("logging.level"));
}

#[test]
fn logging_level_rejects_empty_filter_directive() {
    let cfg = config_from("[logging]\nlevel = \"\"\n");
    assert!(message(cfg.validate()).contains("logging.level must not be empty"));
}

#[test]
fn a_level_is_refused_that_would_be_cut_inside_a_character() {
    for level in [
        " \u{e9}=debug",
        "info, \u{e9}=debug",
        "\u{3000}a=debug",
        "    [{a=\u{e9}}]=x",
        "==, \u{e9}=debug",
    ] {
        let mut cfg = Config::default();
        cfg.logging.level = level.to_string();
        assert_eq!(
            message(cfg.validate()),
            format!(
                "logging.level must be a valid tracing filter directive, got {level:?}: \
                 invalid filter directive"
            )
        );
    }
}

#[test]
fn a_level_that_is_cut_between_characters_is_parsed() {
    for level in [
        " \u{e9}",
        " \u{e9}}",
        "info, \u{e9}",
        "\u{e9}=debug",
        "\u{3000}\u{3000}",
        "info,\u{e9}=debug",
    ] {
        let parsed = EnvFilter::try_new(level).err().map(|e| e.to_string());
        let mut found = find_level_error(level);
        assert_eq!(found, parsed, "{level:?}");
        let mut cfg = Config::default();
        cfg.logging.level = level.to_string();
        if level.trim().is_empty() {
            found = Some("logging.level must not be empty".to_string());
        }
        assert_eq!(cfg.validate().is_err(), found.is_some(), "{level:?}");
    }
    let earlier = EnvFilter::try_new("a=loud").err().unwrap().to_string();
    assert_eq!(find_level_error("a=loud, \u{e9}=debug"), Some(earlier));
}

#[test]
fn logging_timestamps_default_to_enabled() {
    let cfg = config_from("[logging]\nlevel = \"info\"\n");
    assert!(cfg.logging.timestamps);
}

#[test]
fn s3_url_custom_endpoint_http() {
    assert_eq!(
        parse_s3_url(
            "s3://my-cache?profile=default&scheme=http&region=us-east-1&endpoint=minio.example.com",
        )
        .ok()
        .unwrap()
        .endpoint_url()
        .as_deref(),
        Some("http://minio.example.com")
    );
}

#[test]
fn s3_url_custom_endpoint_default_scheme() {
    assert_eq!(
        parse_s3_url("s3://my-cache?endpoint=minio.example.com")
            .ok()
            .unwrap()
            .endpoint_url()
            .as_deref(),
        Some("https://minio.example.com")
    );
}

#[test]
fn s3_url_custom_endpoint_virtual_addressing() {
    assert!(
        !parse_s3_url("s3://my-cache?endpoint=minio.example.com&addressing-style=virtual")
            .ok()
            .unwrap()
            .force_path_style()
    );
}

#[test]
fn s3_url_aws_path_addressing() {
    assert!(parse_s3_url("s3://my-cache?region=eu-west-1&addressing-style=path")
        .ok()
        .unwrap()
        .force_path_style());
}

#[test]
fn s3_url_aws_auto_uses_path_for_dotted_bucket() {
    assert!(parse_s3_url("s3://my.cache?region=eu-west-1").ok().unwrap().force_path_style());
    assert!(!parse_s3_url("s3://my-cache?region=eu-west-1").ok().unwrap().force_path_style());
}

#[test]
fn s3_url_rejects_unknown_addressing_style() {
    assert!(parse_s3_url("s3://my-cache?addressing-style=unsupported").is_err());
}

#[test]
fn s3_url_aws_with_region() {
    assert_eq!(parse_s3_url("s3://my-cache?region=eu-west-1").ok().unwrap().region, "eu-west-1");
}

#[test]
fn s3_url_aws_no_params() {
    let config = parse_s3_url("s3://my-cache").ok().unwrap();
    assert_eq!(config.region, "us-east-1");
    assert_eq!(config.bucket, "my-cache");
    assert_eq!(config.endpoint_url(), None);
}

#[test]
fn s3_url_missing_bucket_is_error() {
    assert!(parse_s3_url("s3://").is_err());
}

#[test]
fn load_parses_s3_upstream() {
    let input = r#"
[[upstreams]]
url = "s3://dcr-nix-cache?profile=default&scheme=http&region=us-east-1&endpoint=s3.example.com"
priority = 10
"#;
    let cfg = config_from(input);
    let s3 = parse_s3_url(&cfg.upstreams[0].url).ok().unwrap();
    assert_eq!(s3.endpoint_url().as_deref(), Some("http://s3.example.com"));
    let (cfg, _) = cfg.load(no_overrides(), &no_files(1), &None).ok().unwrap();
    assert_eq!(cfg.upstreams[0].s3.as_ref().unwrap().bucket, "dcr-nix-cache");
}

#[test]
fn load_parses_s3_fallback_cache() {
    let input = r#"
[[upstreams]]
url = "https://cache.example"

[fallback_cache]
enabled = true
url = "s3://fallback-cache?endpoint=s3.example.com"
"#;
    let cfg = config_from(input);
    let (cfg, _) = cfg.load(no_overrides(), &no_files(1), &None).ok().unwrap();
    assert!(cfg.fallback_cache.enabled);
    assert!(cfg.fallback_cache.upstream.s3.is_some());
    assert!(cfg.upstreams[0].s3.is_none());
}

#[test]
fn load_reports_the_first_bad_s3_url() {
    let cfg = config_from(
        "[[upstreams]]\nurl = \"s3://\"\n[[upstreams]]\nurl = \"s3://b?addressing-style=x\"\n",
    );
    let expected = parse_s3_url("s3://").err().unwrap().message();
    let err = cfg.load(no_overrides(), &no_files(2), &None).err().unwrap();
    assert_eq!(err.message(), expected);
}

#[test]
fn load_takes_overrides_from_the_environment() {
    let env = Overrides {
        listen: Some("127.0.0.1:9".to_string()),
        db_path: Some(String::new()),
        log_level: Some("debug".to_string()),
    };
    let (cfg, _) = Config::default().load(env, &no_files(1), &None).ok().unwrap();
    assert_eq!(cfg.server.listen, "127.0.0.1:9");
    assert_eq!(cfg.cache.db_path, "/var/lib/ncro/routes.db");
    assert_eq!(cfg.logging.level, "debug");
}

#[test]
fn empty_listen_passes_validation() {
    let input =
        "[[upstreams]]\nurl = \"https://cache.nixos.org\"\npriority = 1\n[server]\nlisten = \"\"\n";
    let cfg = config_from(input);
    assert!(cfg.validate().is_ok());
}

#[test]
fn validates_mass_query_limits() {
    let cfg = config_from(
        "[cache.mass_query]\nmax_concurrent_races = 0\nper_upstream_max_inflight = 1\nin_memory_negative_ttl = \"5s\"\nupstream_cooldown = \"10s\"\n",
    );
    assert!(message(cfg.validate())
        .contains("cache.mass_query.max_concurrent_races must be >= 1"));
}

#[test]
fn validation_names_what_is_wrong() {
    let mut cfg = Config::default();
    cfg.upstreams.clear();
    assert_eq!(message(cfg.validate()), "at least one upstream is required");

    let mut cfg = Config::default();
    cfg.upstreams[0].url = String::new();
    assert_eq!(message(cfg.validate()), "upstream[0]: URL is empty");

    let mut cfg = Config::default();
    cfg.upstreams[0].url = "not a url".to_string();
    assert!(message(cfg.validate()).starts_with("upstream[0]: invalid URL \"not a url\": "));

    let mut cfg = Config::default();
    cfg.upstreams[0].filters.push(FilterRule {
        action: FilterAction::Allow,
        field: FilterField::Name,
        pattern: String::new(),
    });
    assert_eq!(message(cfg.validate()), "upstream[0].filters[0]: pattern is empty");

    let mut cfg = Config::default();
    cfg.server.cache_priority = 0;
    assert_eq!(message(cfg.validate()), "server.cache_priority must be >= 1, got 0");

    let mut cfg = Config::default();
    cfg.server.read_timeout = HumanDuration(Duration::from_secs(0));
    assert_eq!(message(cfg.validate()), "server.read_timeout must be positive");

    let mut cfg = Config::default();
    cfg.cache.latency_alpha =
        LatencyAlpha { value: Double { bits: 1.0_f64.to_bits() }, text: "1".to_string() };
    assert_eq!(
        message(cfg.validate()),
        "cache.latency_alpha must be between 0 and 1 exclusive, got 1"
    );

    for bits in [f64::NAN.to_bits(), (-f64::NAN).to_bits(), 0, (-0.5_f64).to_bits()] {
        cfg.cache.latency_alpha = LatencyAlpha { value: Double { bits }, text: "x".to_string() };
        assert_eq!(
            message(cfg.validate()),
            "cache.latency_alpha must be between 0 and 1 exclusive, got x"
        );
    }

    let mut cfg = Config::default();
    cfg.cache.max_entries = 0;
    assert_eq!(message(cfg.validate()), "cache.max_entries must be positive");

    let mut cfg = Config::default();
    cfg.mesh.enabled = true;
    assert_eq!(message(cfg.validate()), "mesh.enabled is true but no peers configured");
    cfg.mesh.peers.push(PeerConfig { addr: String::new(), public_key: String::new() });
    assert_eq!(message(cfg.validate()), "mesh.peers[0]: addr is empty");
    cfg.mesh.peers[0].addr = "10.0.0.2:7946".to_string();
    cfg.mesh.peers[0].public_key = "zz".to_string();
    assert_eq!(
        message(cfg.validate()),
        "mesh.peers[0]: public_key must be a hex-encoded 32-byte ed25519 key"
    );
    cfg.mesh.peers[0].public_key = "ab".repeat(32);
    cfg.validate().unwrap();

    let mut cfg = Config::default();
    cfg.discovery.enabled = true;
    cfg.discovery.service_name = String::new();
    assert_eq!(
        message(cfg.validate()),
        "discovery.service_name is required when discovery is enabled"
    );
}

#[test]
fn only_an_enabled_fallback_is_validated() {
    let mut cfg = Config::default();
    cfg.fallback_cache.upstream.url = String::new();
    cfg.validate().unwrap();
    cfg.fallback_cache.enabled = true;
    assert_eq!(message(cfg.validate()), "fallback_cache: URL is empty");
}

#[test]
fn a_key_is_validated_by_itself() {
    assert!(validate_nix_public_key(
        "cache.nixos.org-1:6NCHdD59X431o0gWypbMrAURkbJ16ZPMQFGspcDShjY=",
        "key"
    )
    .is_ok());
    assert!(message(validate_nix_public_key("nonsense", "key")).starts_with("key"));
    assert!(validate_upstream(&upstream("https://a"), "a").is_ok());
}

/// What the entries of a netrc text say.
fn netrc(content: &str) -> Netrc {
    let parsed = netrc::Netrc::from_str(content).expect("valid netrc");
    Netrc {
        hosts: parsed
            .hosts
            .iter()
            .map(|(machine, auth)| NetrcEntry {
                machine: machine.clone(),
                login: auth.login.clone(),
                password: auth.password.clone(),
            })
            .collect(),
    }
}

fn upstream(url: &str) -> UpstreamConfig {
    UpstreamConfig { url: url.to_string(), ..Default::default() }
}

#[test]
fn netrc_fills_empty_credentials() {
    let nrc = netrc("machine cache.example.com login alice password secret\n");
    let mut up = upstream("https://cache.example.com");
    assert_eq!(apply_netrc(&mut up, &nrc), None);
    assert_eq!(up.username, "alice");
    assert_eq!(up.password.as_deref(), Some("secret"));
    apply_netrc(&mut up, &nrc);
    assert_eq!(up.username, "alice");
    assert_eq!(up.password.as_deref(), Some("secret"));
}

#[test]
fn netrc_does_not_override_config_credentials() {
    let nrc = netrc("machine cache.example.com login alice password secret\n");
    let mut up = upstream("https://cache.example.com");
    up.username = "bob".to_string();
    up.password = Some("configpw".to_string());
    apply_netrc(&mut up, &nrc);
    assert_eq!(up.username, "bob");
    assert_eq!(up.password.as_deref(), Some("configpw"));
}

#[test]
fn netrc_ignores_non_matching_host() {
    let nrc = netrc("machine other.example.com login alice password secret\n");
    let mut up = upstream("https://cache.example.com");
    apply_netrc(&mut up, &nrc);
    assert!(up.username.is_empty());
    assert!(up.password.is_none());
}

#[test]
fn netrc_skips_s3_upstreams() {
    let nrc = netrc("machine my-cache login alice password secret\n");
    let mut up = upstream("s3://my-cache?endpoint=s3.example.com");
    up.s3 = parse_s3_url(&up.url).ok();
    assert!(up.s3.is_some());
    apply_netrc(&mut up, &nrc);
    assert!(up.username.is_empty());
    assert!(up.password.is_none());
}

#[test]
fn netrc_empty_password_maps_to_none() {
    let nrc = netrc("machine cache.example.com login alice\n");
    let mut up = upstream("https://cache.example.com");
    apply_netrc(&mut up, &nrc);
    assert_eq!(up.username, "alice");
    assert!(up.password.is_none());
}

#[test]
fn netrc_default_entry_matches_any_host() {
    let nrc = netrc("default login alice password secret\n");
    let mut up = upstream("https://cache.example.com");
    apply_netrc(&mut up, &nrc);
    assert_eq!(up.username, "alice");
    assert_eq!(up.password.as_deref(), Some("secret"));
}

#[test]
fn netrc_explicit_machine_takes_precedence_over_default() {
    let nrc = netrc(
        "machine cache.example.com login alice password secret\ndefault login bob password fallback\n",
    );
    let mut up = upstream("https://cache.example.com");
    apply_netrc(&mut up, &nrc);
    assert_eq!(up.username, "alice");
    assert_eq!(up.password.as_deref(), Some("secret"));
}

#[test]
fn a_password_without_a_user_gives_way_to_netrc() {
    let nrc = netrc("machine cache.example.com login alice password secret\n");
    let mut cfg = Config::default();
    cfg.upstreams = vec![upstream("https://cache.example.com")];
    cfg.upstreams[0].password = Some("lonely".to_string());
    let (cfg, warnings) = cfg.load(no_overrides(), &no_files(1), &Some(nrc)).ok().unwrap();
    assert_eq!(cfg.upstreams[0].password.as_deref(), Some("secret"));
    assert_eq!(warnings.len(), 1);
    assert!(warnings[0].starts_with("upstream https://cache.example.com has a password"));
}

fn with_password_file() -> Config {
    config_from(
        "[[upstreams]]\nurl = \"https://cache.example.com\"\nusername = \"alice\"\npassword_file = \"/run/secrets/pw\"\n",
    )
}

#[test]
fn password_file_fills_upstream_password() {
    let files = vec![Ok("secret\n".to_string()), Err("not read".to_string())];
    let (cfg, _) = with_password_file().load(no_overrides(), &files, &None).ok().unwrap();
    assert_eq!(cfg.upstreams[0].password.as_deref(), Some("secret"));
}

#[test]
fn password_file_preserves_non_newline_whitespace() {
    let files = vec![Ok(" secret \n".to_string()), Err("not read".to_string())];
    let (cfg, _) = with_password_file().load(no_overrides(), &files, &None).ok().unwrap();
    assert_eq!(cfg.upstreams[0].password.as_deref(), Some(" secret "));
}

#[test]
fn one_line_end_is_taken_from_a_password() {
    assert_eq!(trim_password("secret\r\n"), "secret");
    assert_eq!(trim_password("secret\n\n"), "secret\n");
    assert_eq!(trim_password("secret\r"), "secret\r");
    assert_eq!(trim_password(""), "");
}

#[test]
fn a_password_file_that_cannot_be_read_is_an_error() {
    let err =
        with_password_file().load(no_overrides(), &no_files(1), &None).err().unwrap();
    assert!(matches!(err, ConfigError::PasswordFile { .. }));
    assert_eq!(err.message(), "read password_file \"/run/secrets/pw\": not read");
    let mut up = upstream("https://cache.example.com");
    up.password_file = Some("/p".to_string());
    assert!(resolve_password_file(&mut up, "x", Ok("pw".to_string())).is_ok());
    assert_eq!(up.password.as_deref(), Some("pw"));
}

#[test]
fn a_checked_configuration_may_have_a_password_file() {
    let files = vec![Ok("secret\n".to_string()), Err("not read".to_string())];
    let (cfg, _) =
        with_password_file().load_checked(no_overrides(), &files, &None).ok().unwrap();
    assert_eq!(cfg.upstreams[0].password.as_deref(), Some("secret"));
    let mut bad = with_password_file();
    bad.cache.max_entries = -1;
    let err = bad.load_checked(no_overrides(), &files, &None).err().unwrap();
    assert_eq!(err.message(), "cache.max_entries must be positive");
}

#[test]
fn password_and_password_file_are_mutually_exclusive() {
    let cfg = config_from(
        "[[upstreams]]\nurl = \"https://cache.example.com\"\nusername = \"alice\"\npassword = \"inline\"\npassword_file = \"/run/secrets/pw\"\n",
    );
    assert!(message(cfg.validate())
        .contains("password and password_file are mutually exclusive"));
}

#[test]
fn config_errors_say_what_is_wrong() {
    assert_eq!(ConfigError::Read("x".to_string()).message(), "read config: x");
    assert_eq!(ConfigError::Parse("x".to_string()).message(), "parse config: x");
    assert_eq!(ConfigError::Validation("x".to_string()).message(), "x");
}

#[test]
fn the_fallback_is_the_cache_of_nix_unless_another_is_given() {
    let mut fallback = config_from("").fallback_cache;
    fallback.enabled = true;
    fallback.upstream = upstream("");
    let filled = fallback.or_default();
    assert!(filled.enabled);
    assert_eq!(filled.upstream.url, "https://cache.nixos.org");
    assert_eq!(
        filled.upstream.public_key,
        "cache.nixos.org-1:6NCHdD59X431o0gWypbMrAURkbJ16ZPMQFGspcDShjY="
    );
    let mut fallback = config_from("").fallback_cache;
    fallback.upstream = upstream("https://other.example");
    let kept = fallback.or_default();
    assert_eq!(kept.upstream.url, "https://other.example");
    assert_eq!(kept.upstream.public_key, "");
}

#[test]
fn upstream_debug_redacts_password() {
    let mut upstream = upstream("https://cache.example.com");
    upstream.password = Some("secret".to_string());

    let debug = upstream.debug();

    assert!(debug.contains("<redacted>"));
    assert!(!debug.contains("secret"));
}

#[test]
fn an_upstream_is_shown_with_its_settings() {
    let mut up = upstream("https://cache.example.com");
    up.priority = -3;
    up.public_keys = vec!["a:\"x\"".to_string(), "b".to_string()];
    up.filters = vec![FilterRule {
        action: FilterAction::Deny,
        field: FilterField::StorePath,
        pattern: "*".to_string(),
    }];
    up.narinfo_timeout = Some(HumanDuration(Duration::new(2, 500_000_000)));
    assert_eq!(
        up.debug(),
        "UpstreamConfig { url: \"https://cache.example.com\", priority: -3, public_key: \"\", \
         public_keys: [\"a:\\\"x\\\"\", \"b\"], username: \"\", password: None, \
         password_file: None, filters: [FilterRule { action: Deny, field: StorePath, \
         pattern: \"*\" }], nar_url_mode: ToSelf, narinfo_timeout: \
         Some(HumanDuration(2.5s)), nar_timeout: None, s3: None }"
    );
    up.s3 = Some(parse_s3_url("s3://bucket?region=eu-west-1").unwrap());
    let s3 = format!("s3: {:?} }}", up.s3);
    assert!(up.debug().ends_with(&s3));
}
