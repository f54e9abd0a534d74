//! The configuration: its sections, their defaults, and what is made of them
//! before the program starts.

use vstd::prelude::*;
use vstd::string::*;

use crate::double::Double;
use crate::filter::FilterRule;
use crate::nar_url::NarUrlMode;
use crate::s3_config::{s3_config_from_url, s3_url_settings, S3Config, S3ConfigView};
use crate::text::{
    concat2, concat3, debug_text, has_prefix, owned, quoted, starts_with, strip_suffix, view_opt,
};
use crate::time::{Duration, HumanDuration};

verus! {

// ---------------------------------------------------------------------------
// Errors
// ---------------------------------------------------------------------------
/// Why a configuration cannot be used.
#[derive(Debug, PartialEq, Eq)]
pub enum ConfigError {
    /// The file cannot be read.
    Read(String),
    /// The file that holds a password cannot be read.
    PasswordFile { path: String, source: String },
    /// The file is no TOML of the right form.
    Parse(String),
    /// A value is not allowed.
    Validation(String),
}

/// The contents of an error.
pub enum ConfigErrorView {
    Read(Seq<char>),
    PasswordFile { path: Seq<char>, source: Seq<char> },
    Parse(Seq<char>),
    Validation(Seq<char>),
}

impl View for ConfigError {
    type V = ConfigErrorView;

    open spec fn view(&self) -> ConfigErrorView {
        match self {
            ConfigError::Read(s) => ConfigErrorView::Read(s@),
            ConfigError::PasswordFile { path, source } => ConfigErrorView::PasswordFile {
                path: path@,
                source: source@,
            },
            ConfigError::Parse(s) => ConfigErrorView::Parse(s@),
            ConfigError::Validation(s) => ConfigErrorView::Validation(s@),
        }
    }
}

impl ConfigErrorView {
    /// What the error says of itself.
    pub open spec fn text(self) -> Seq<char> {
        match self {
            ConfigErrorView::Read(s) => "read config: "@ + s,
            ConfigErrorView::PasswordFile { path, source } => "read password_file "@ + debug_text(
                path,
            ) + ": "@ + source,
            ConfigErrorView::Parse(s) => "parse config: "@ + s,
            ConfigErrorView::Validation(s) => s,
        }
    }
}

impl ConfigError {
    /// What the error says of itself.
    pub fn message(&self) -> (out: String)
        ensures
            out@ == self@.text(),
    {
        match self {
            ConfigError::Read(s) => concat2("read config: ", s.as_str()),
            ConfigError::PasswordFile { path, source } => {
                let mut out: String = concat3(
                    "read password_file ",
                    quoted(path.as_str()).as_str(),
                    ": ",
                );
                out.append(source.as_str());
                out
            },
            ConfigError::Parse(s) => concat2("parse config: ", s.as_str()),
            ConfigError::Validation(s) => s.clone(),
        }
    }
}

// ---------------------------------------------------------------------------
// Sections
// ---------------------------------------------------------------------------
/// An upstream: a cache that is asked for store paths.
#[derive(PartialEq, Eq)]
pub struct UpstreamConfig {
    /// The base URL, of HTTP(S) or `s3://`.
    pub url: String,
    /// Lower values are preferred among upstreams of like latency.
    pub priority: i32,
    /// A key that may sign the upstream's narinfos; empty for none.
    pub public_key: String,
    /// More keys that may sign them.
    pub public_keys: Vec<String>,
    /// The user of HTTP Basic Auth; empty for no authentication.
    pub username: String,
    /// The password of HTTP Basic Auth.
    pub password: Option<String>,
    /// The file that holds the password.
    pub password_file: Option<String>,
    /// Which store paths the upstream may serve.
    pub filters: Vec<FilterRule>,
    /// What becomes of the addresses in the upstream's narinfos.
    pub nar_url_mode: NarUrlMode,
    /// How long a narinfo may take.
    pub narinfo_timeout: Option<HumanDuration>,
    /// How long an archive may stall.
    pub nar_timeout: Option<HumanDuration>,
    /// Whether archives may be asked of this upstream beside another.
    pub allow_hedging: bool,
    /// The settings that an `s3://` URL gives.
    pub s3: Option<S3Config>,
}

impl Default for UpstreamConfig {
    fn default() -> (out: Self)
        ensures
            out.url@ == ""@,
            out.priority == 0,
            out.public_key@ == ""@,
            out.public_keys@.len() == 0,
            out.username@ == ""@,
            out.password is None,
            out.password_file is None,
            out.filters@.len() == 0,
            out.nar_url_mode == NarUrlMode::ToSelf,
            out.narinfo_timeout is None,
            out.nar_timeout is None,
            out.allow_hedging,
            out.s3 is None,
    {
        UpstreamConfig {
            url: owned(""),
            priority: 0,
            public_key: owned(""),
            public_keys: Vec::new(),
            username: owned(""),
            password: None,
            password_file: None,
            filters: Vec::new(),
            nar_url_mode: NarUrlMode::default(),
            narinfo_timeout: None,
            nar_timeout: None,
            allow_hedging: true,
            s3: None,
        }
    }
}

/// The cache that Nix itself falls back on.
pub const NIXOS_CACHE: &'static str = "https://cache.nixos.org";

/// The key that signs for it.
pub const NIXOS_KEY: &'static str =
    "cache.nixos.org-1:6NCHdD59X431o0gWypbMrAURkbJ16ZPMQFGspcDShjY=";

/// The cache of last resort.
#[derive(PartialEq, Eq)]
pub struct FallbackCacheConfig {
    pub enabled: bool,
    pub upstream: UpstreamConfig,
}

impl Default for FallbackCacheConfig {
    fn default() -> (out: Self)
        ensures
            !out.enabled,
            out.upstream.url@ == "https://cache.nixos.org"@,
            out.upstream.public_key@
                == "cache.nixos.org-1:6NCHdD59X431o0gWypbMrAURkbJ16ZPMQFGspcDShjY="@,
            out.upstream.username@ == ""@,
            out.upstream.password is None,
            out.upstream.password_file is None,
            out.upstream.public_keys@.len() == 0,
            out.upstream.filters@.len() == 0,
            out.upstream.priority == 0,
            out.upstream.nar_url_mode == NarUrlMode::ToSelf,
            out.upstream.narinfo_timeout is None,
            out.upstream.nar_timeout is None,
            out.upstream.allow_hedging,
            out.upstream.s3 is None,
    {
        let mut upstream = UpstreamConfig::default();
        upstream.url = owned(NIXOS_CACHE);
        upstream.public_key = owned(NIXOS_KEY);
        FallbackCacheConfig { enabled: false, upstream }
    }
}

impl FallbackCacheConfig {
    /// The cache of last resort, where one without a URL is the one that Nix
    /// itself falls back on, with its key unless others are given.
    pub fn or_default(self) -> (out: Self)
        ensures
            self.upstream.url@.len() > 0 ==> out == self,
            self.upstream.url@.len() == 0 ==> {
                &&& out.upstream.url@ == NIXOS_CACHE@
                &&& out.upstream.public_key@ == if self.upstream.public_key@.len() == 0
                    && self.upstream.public_keys@.len() == 0 {
                    NIXOS_KEY@
                } else {
                    self.upstream.public_key@
                }
                &&& out == (FallbackCacheConfig {
                    upstream: UpstreamConfig {
                        url: out.upstream.url,
                        public_key: out.upstream.public_key,
                        ..self.upstream
                    },
                    ..self
                })
            },
    {
        let mut out: FallbackCacheConfig = self;
        if out.upstream.url.as_str().unicode_len() == 0 {
            if out.upstream.public_key.as_str().unicode_len() == 0
                && out.upstream.public_keys.len() == 0 {
                out.upstream.public_key = owned(NIXOS_KEY);
            }
            out.upstream.url = owned(NIXOS_CACHE);
        }
        out
    }
}

/// The server that Nix talks to.
#[derive(Debug, PartialEq, Eq)]
pub struct ServerConfig {
    pub listen: String,
    pub cache_priority: i32,
    pub want_mass_query: bool,
    pub read_timeout: HumanDuration,
    pub write_timeout: HumanDuration,
}

impl Default for ServerConfig {
    fn default() -> (out: Self)
        ensures
            out.listen@ == ":8080"@,
            out.cache_priority == 30,
            out.want_mass_query,
            out.read_timeout.0@ == 30 * 1_000_000_000,
            out.write_timeout.0@ == 30 * 1_000_000_000,
    {
        ServerConfig {
            listen: owned(":8080"),
            cache_priority: 30,
            want_mass_query: true,
            read_timeout: HumanDuration(Duration::from_secs(30)),
            write_timeout: HumanDuration(Duration::from_secs(30)),
        }
    }
}

/// Archives asked of more than one upstream at a time.
#[derive(Debug, PartialEq, Eq)]
pub struct NarHedgingConfig {
    pub enabled: bool,
    /// How long an attempt has before another one starts beside it.
    pub delay: HumanDuration,
    /// How many attempts may run at a time.
    pub max_inflight: u32,
}

impl Default for NarHedgingConfig {
    fn default() -> (out: Self)
        ensures
            !out.enabled,
            out.delay.0@ == 0,
            out.max_inflight == 1,
    {
        NarHedgingConfig { enabled: false, delay: HumanDuration::default(), max_inflight: 1 }
    }
}

/// How much a new latency weighs, with the text that says it.
#[derive(Debug, PartialEq, Eq)]
pub struct LatencyAlpha {
    pub value: Double,
    pub text: String,
}

/// The limits of concurrent lookups.
#[derive(Debug, PartialEq, Eq)]
pub struct MassQueryConfig {
    pub max_concurrent_races: u32,
    pub per_upstream_max_inflight: u32,
    pub in_memory_negative_ttl: HumanDuration,
    pub upstream_cooldown: HumanDuration,
}

impl Default for MassQueryConfig {
    fn default() -> (out: Self)
        ensures
            out.max_concurrent_races == 64,
            out.per_upstream_max_inflight == 8,
            out.in_memory_negative_ttl.0@ == 5 * 1_000_000_000,
            out.upstream_cooldown.0@ == 15 * 1_000_000_000,
    {
        MassQueryConfig {
            max_concurrent_races: 64,
            per_upstream_max_inflight: 8,
            in_memory_negative_ttl: HumanDuration(Duration::from_secs(5)),
            upstream_cooldown: HumanDuration(Duration::from_secs(15)),
        }
    }
}

/// The store of routes.
#[derive(Debug, PartialEq, Eq)]
pub struct CacheConfig {
    pub db_path: String,
    pub max_entries: i64,
    pub ttl: HumanDuration,
    pub negative_ttl: HumanDuration,
    pub latency_alpha: LatencyAlpha,
    pub slow_statement_threshold: HumanDuration,
    pub mass_query: MassQueryConfig,
}

/// The bits of 0.3.
pub const DEFAULT_ALPHA: u64 = 0x3FD3_3333_3333_3333;

impl Default for CacheConfig {
    fn default() -> (out: Self)
        ensures
            out.db_path@ == "/var/lib/ncro/routes.db"@,
            out.max_entries == 100_000,
            out.ttl.0@ == 3600 * 1_000_000_000,
            out.negative_ttl.0@ == 600 * 1_000_000_000,
            out.latency_alpha.value.bits == DEFAULT_ALPHA,
            out.latency_alpha.text@ == "0.3"@,
            out.slow_statement_threshold.0@ == 1_000_000_000,
            out.mass_query.max_concurrent_races == 64,
            out.mass_query.per_upstream_max_inflight == 8,
            out.mass_query.in_memory_negative_ttl.0@ == 5 * 1_000_000_000,
            out.mass_query.upstream_cooldown.0@ == 15 * 1_000_000_000,
    {
        CacheConfig {
            db_path: owned("/var/lib/ncro/routes.db"),
            max_entries: 100_000,
            ttl: HumanDuration(Duration::from_secs(3600)),
            negative_ttl: HumanDuration(Duration::from_secs(600)),
            latency_alpha: LatencyAlpha {
                value: Double { bits: DEFAULT_ALPHA },
                text: owned("0.3"),
            },
            slow_statement_threshold: HumanDuration(Duration::from_secs(1)),
            mass_query: MassQueryConfig::default(),
        }
    }
}

/// A node that routes are gossiped with.
#[derive(Debug, PartialEq, Eq)]
pub struct PeerConfig {
    pub addr: String,
    pub public_key: String,
}

impl Default for PeerConfig {
    fn default() -> (out: Self)
        ensures
            out.addr@ == ""@,
            out.public_key@ == ""@,
    {
        PeerConfig { addr: owned(""), public_key: owned("") }
    }
}

/// The gossip of routes between nodes.
#[derive(Debug, PartialEq, Eq)]
pub struct MeshConfig {
    pub enabled: bool,
    pub bind_addr: String,
    pub peers: Vec<PeerConfig>,
    pub private_key_path: String,
    pub gossip_interval: HumanDuration,
    /// Whether trust claims are gossiped beside routes.
    pub gossip_trust_claims: bool,
}

impl Default for MeshConfig {
    fn default() -> (out: Self)
        ensures
            !out.enabled,
            out.bind_addr@ == "0.0.0.0:7946"@,
            out.peers@.len() == 0,
            out.private_key_path@ == ""@,
            out.gossip_interval.0@ == 30 * 1_000_000_000,
            !out.gossip_trust_claims,
    {
        MeshConfig {
            enabled: false,
            bind_addr: owned("0.0.0.0:7946"),
            peers: Vec::new(),
            private_key_path: owned(""),
            gossip_interval: HumanDuration(Duration::from_secs(30)),
            gossip_trust_claims: false,
        }
    }
}

/// Which addresses of a discovered cache are registered.
#[derive(Debug, Clone, Copy, PartialEq, Eq, Structural)]
pub enum AddressFamily {
    Any,
    Ipv4,
    Ipv6,
}

impl Default for AddressFamily {
    fn default() -> (out: Self)
        ensures
            out == AddressFamily::Any,
    {
        AddressFamily::Any
    }
}

/// The discovery of caches on the local network.
#[derive(Debug, PartialEq, Eq)]
pub struct DiscoveryConfig {
    pub enabled: bool,
    pub service_name: String,
    pub domain: String,
    pub discovery_time: HumanDuration,
    pub priority: i32,
    pub address_family: AddressFamily,
}

impl Default for DiscoveryConfig {
    fn default() -> (out: Self)
        ensures
            !out.enabled,
            out.service_name@ == "_nix-serve._tcp"@,
            out.domain@ == "local"@,
            out.discovery_time.0@ == 5 * 1_000_000_000,
            out.priority == 20,
            out.address_family == AddressFamily::Any,
    {
        DiscoveryConfig {
            enabled: false,
            service_name: owned("_nix-serve._tcp"),
            domain: owned("local"),
            discovery_time: HumanDuration(Duration::from_secs(5)),
            priority: 20,
            address_family: AddressFamily::default(),
        }
    }
}

/// The form of a log line.
#[derive(Debug, Clone, Copy, PartialEq, Eq, Structural)]
pub enum LogFormat {
    Json,
    Text,
}

impl Default for LogFormat {
    fn default() -> (out: Self)
        ensures
            out == LogFormat::Json,
    {
        LogFormat::Json
    }
}

/// The log.
#[derive(Debug, PartialEq, Eq)]
pub struct LoggingConfig {
    pub level: String,
    pub format: LogFormat,
    pub timestamps: bool,
}

impl Default for LoggingConfig {
    fn default() -> (out: Self)
        ensures
            out.level@ == "info"@,
            out.format == LogFormat::Json,
            out.timestamps,
    {
        LoggingConfig { level: owned("info"), format: LogFormat::default(), timestamps: true }
    }
}

/// What has to vouch for a narinfo before it is served.
#[derive(Debug, Clone, Copy, PartialEq, Eq, Structural)]
pub enum TrustMode {
    /// Nothing.
    Off,
    /// A signature by a key of its upstream.
    Signed,
    /// Such a signature, and enough signers that agree.
    Quorum,
}

impl Default for TrustMode {
    fn default() -> (out: Self)
        ensures
            out == TrustMode::Off,
    {
        TrustMode::Off
    }
}

/// Trust in what upstreams say.
#[derive(Debug, PartialEq, Eq)]
pub struct TrustConfig {
    pub mode: TrustMode,
    /// How much support a quorum needs.
    pub threshold: u32,
    /// Whether signers are counted, or claims.
    pub require_distinct_signers: bool,
    /// Whether what lacks trust is refused, or served and counted.
    pub fail_closed: bool,
    /// Keys that may vouch besides those of the upstreams.
    pub trusted_keys: Vec<String>,
}

impl Default for TrustConfig {
    fn default() -> (out: Self)
        ensures
            out.mode == TrustMode::Off,
            out.threshold == 2,
            out.require_distinct_signers,
            out.fail_closed,
            out.trusted_keys@.len() == 0,
    {
        TrustConfig {
            mode: TrustMode::default(),
            threshold: 2,
            require_distinct_signers: true,
            fail_closed: true,
            trusted_keys: Vec::new(),
        }
    }
}

/// The whole configuration.
#[derive(PartialEq, Eq)]
pub struct Config {
    pub server: ServerConfig,
    pub upstreams: Vec<UpstreamConfig>,
    pub fallback_cache: FallbackCacheConfig,
    pub nar_hedging: NarHedgingConfig,
    pub cache: CacheConfig,
    pub mesh: MeshConfig,
    pub trust: TrustConfig,
    pub discovery: DiscoveryConfig,
    pub logging: LoggingConfig,
}

impl Default for Config {
    fn default() -> (out: Self)
        ensures
            out.server.listen@ == ":8080"@,
            out.server.cache_priority == 30,
            out.server.want_mass_query,
            out.server.read_timeout.0@ == 30 * 1_000_000_000,
            out.server.write_timeout.0@ == 30 * 1_000_000_000,
            out.upstreams@.len() == 1,
            out.upstreams@[0].url@ == "https://cache.nixos.org"@,
            out.upstreams@[0].priority == 10,
            out.upstreams@[0].public_key@ == ""@,
            out.upstreams@[0].public_keys@.len() == 0,
            out.upstreams@[0].username@ == ""@,
            out.upstreams@[0].password is None,
            out.upstreams@[0].password_file is None,
            out.upstreams@[0].filters@.len() == 0,
            out.upstreams@[0].nar_url_mode == NarUrlMode::ToSelf,
            out.upstreams@[0].narinfo_timeout is None,
            out.upstreams@[0].nar_timeout is None,
            out.upstreams@[0].allow_hedging,
            out.upstreams@[0].s3 is None,
            !out.fallback_cache.enabled,
            out.fallback_cache.upstream.url@ == "https://cache.nixos.org"@,
            out.fallback_cache.upstream.public_key@
                == "cache.nixos.org-1:6NCHdD59X431o0gWypbMrAURkbJ16ZPMQFGspcDShjY="@,
            out.fallback_cache.upstream.username@ == ""@,
            out.fallback_cache.upstream.password is None,
            out.fallback_cache.upstream.password_file is None,
            out.fallback_cache.upstream.public_keys@.len() == 0,
            out.fallback_cache.upstream.filters@.len() == 0,
            out.fallback_cache.upstream.priority == 0,
            out.fallback_cache.upstream.nar_url_mode == NarUrlMode::ToSelf,
            out.fallback_cache.upstream.narinfo_timeout is None,
            out.fallback_cache.upstream.nar_timeout is None,
            out.fallback_cache.upstream.allow_hedging,
            out.fallback_cache.upstream.s3 is None,
            !out.nar_hedging.enabled,
            out.nar_hedging.delay.0@ == 0,
            out.nar_hedging.max_inflight == 1,
            out.cache.db_path@ == "/var/lib/ncro/routes.db"@,
            out.cache.max_entries == 100_000,
            out.cache.ttl.0@ == 3600 * 1_000_000_000,
            out.cache.negative_ttl.0@ == 600 * 1_000_000_000,
            out.cache.latency_alpha.value.bits == DEFAULT_ALPHA,
            out.cache.latency_alpha.text@ == "0.3"@,
            out.cache.slow_statement_threshold.0@ == 1_000_000_000,
            out.cache.mass_query.max_concurrent_races == 64,
            out.cache.mass_query.per_upstream_max_inflight == 8,
            out.cache.mass_query.in_memory_negative_ttl.0@ == 5 * 1_000_000_000,
            out.cache.mass_query.upstream_cooldown.0@ == 15 * 1_000_000_000,
            !out.mesh.enabled,
            out.mesh.bind_addr@ == "0.0.0.0:7946"@,
            out.mesh.peers@.len() == 0,
            out.mesh.private_key_path@ == ""@,
            out.mesh.gossip_interval.0@ == 30 * 1_000_000_000,
            !out.mesh.gossip_trust_claims,
            out.trust.mode == TrustMode::Off,
            out.trust.threshold == 2,
            out.trust.require_distinct_signers,
            out.trust.fail_closed,
            out.trust.trusted_keys@.len() == 0,
            !out.discovery.enabled,
            out.discovery.service_name@ == "_nix-serve._tcp"@,
            out.discovery.domain@ == "local"@,
            out.discovery.discovery_time.0@ == 5 * 1_000_000_000,
            out.discovery.priority == 20,
            out.discovery.address_family == AddressFamily::Any,
            out.logging.level@ == "info"@,
            out.logging.format == LogFormat::Json,
            out.logging.timestamps,
    {
        let mut upstream = UpstreamConfig::default();
        upstream.url = owned(NIXOS_CACHE);
        upstream.priority = 10;
        let mut upstreams: Vec<UpstreamConfig> = Vec::new();
        upstreams.push(upstream);
        Config {
            server: ServerConfig::default(),
            upstreams,
            fallback_cache: FallbackCacheConfig::default(),
            nar_hedging: NarHedgingConfig::default(),
            cache: CacheConfig::default(),
            mesh: MeshConfig::default(),
            trust: TrustConfig::default(),
            discovery: DiscoveryConfig::default(),
            logging: LoggingConfig::default(),
        }
    }
}

// ---------------------------------------------------------------------------
// S3 upstreams
// ---------------------------------------------------------------------------
/// The settings that a Nix-style `s3://bucket?...` URL gives.
pub fn parse_s3_url(raw: &str) -> (out: Result<S3Config, ConfigError>)
    ensures
        match out {
            Ok(config) => s3_url_settings(raw@) == Ok::<S3ConfigView, Seq<char>>(config@),
            Err(e) => s3_url_settings(raw@) is Err && e@ == ConfigErrorView::Validation(
                s3_url_settings(raw@)->Err_0,
            ),
        },
{
    match s3_config_from_url(raw) {
        Ok(config) => Ok(config),
        Err(e) => Err(ConfigError::Validation(e)),
    }
}

/// `b` is `a` but for its S3 settings.
pub open spec fn same_but_s3(a: UpstreamConfig, b: UpstreamConfig) -> bool {
    b == (UpstreamConfig { s3: b.s3, ..a })
}

/// What `resolve_s3` makes of an upstream.
pub open spec fn s3_resolved(before: UpstreamConfig, after: UpstreamConfig) -> bool {
    &&& same_but_s3(before, after)
    &&& if has_prefix(before.url@, "s3://"@) {
        after.s3 matches Some(config) && s3_url_settings(before.url@) == Ok::<
            S3ConfigView,
            Seq<char>,
        >(config@)
    } else {
        after.s3 == before.s3
    }
}

/// The URL of `upstream` is an `s3://` URL that gives no settings.
pub open spec fn bad_s3_url(upstream: UpstreamConfig) -> bool {
    has_prefix(upstream.url@, "s3://"@) && s3_url_settings(upstream.url@) is Err
}

impl UpstreamConfig {
    /// Derives the S3 settings from an `s3://` URL; any other upstream stays as it
    /// is.
    pub fn resolve_s3(&mut self) -> (out: Result<(), ConfigError>)
        ensures
            match out {
                Ok(_) => s3_resolved(*old(self), *final(self)),
                Err(e) => *final(self) == *old(self) && bad_s3_url(*old(self)) && e@
                    == ConfigErrorView::Validation(s3_url_settings(old(self).url@)->Err_0),
            },
            out is Err <==> bad_s3_url(*old(self)),
    {
        if starts_with(self.url.as_str(), "s3://") {
            match parse_s3_url(self.url.as_str()) {
                Ok(config) => {
                    self.s3 = Some(config);
                },
                Err(e) => return Err(e),
            }
        }
        Ok(())
    }
}

impl Config {
    /// Derives the S3 settings of every upstream and of the fallback cache. The
    /// first URL that gives none decides the error.
    pub fn resolve_s3(&mut self) -> (out: Result<(), ConfigError>)
        ensures
            out is Ok <==> (forall|i: int|
                0 <= i < old(self).upstreams@.len() ==> !bad_s3_url(
                    #[trigger] old(self).upstreams@[i],
                )) && !bad_s3_url(old(self).fallback_cache.upstream),
            out is Ok ==> {
                &&& final(self).upstreams@.len() == old(self).upstreams@.len()
                &&& forall|i: int|
                    0 <= i < old(self).upstreams@.len() ==> s3_resolved(
                        #[trigger] old(self).upstreams@[i],
                        final(self).upstreams@[i],
                    )
                &&& s3_resolved(
                    old(self).fallback_cache.upstream,
                    final(self).fallback_cache.upstream,
                )
                &&& *final(self) == (Config {
                    upstreams: final(self).upstreams,
                    fallback_cache: FallbackCacheConfig {
                        upstream: final(self).fallback_cache.upstream,
                        ..old(self).fallback_cache
                    },
                    ..*old(self)
                })
            },
            out matches Err(e) ==> {
                ||| exists|i: int|
                    0 <= i < old(self).upstreams@.len() && bad_s3_url(
                        #[trigger] old(self).upstreams@[i],
                    ) && e@ == ConfigErrorView::Validation(
                        s3_url_settings(old(self).upstreams@[i].url@)->Err_0,
                    ) && forall|j: int|
                        0 <= j < i ==> !bad_s3_url(#[trigger] old(self).upstreams@[j])
                ||| (forall|j: int|
                    0 <= j < old(self).upstreams@.len() ==> !bad_s3_url(
                        #[trigger] old(self).upstreams@[j],
                    )) && bad_s3_url(old(self).fallback_cache.upstream) && e@
                    == ConfigErrorView::Validation(
                    s3_url_settings(old(self).fallback_cache.upstream.url@)->Err_0,
                )
            },
    {
        let ghost before = *self;
        let n: usize = self.upstreams.len();
        let mut i: usize = 0;
        while i < n
            invariant
                i <= n,
                n == before.upstreams@.len(),
                self.upstreams@.len() == n,
                *self == (Config { upstreams: self.upstreams, ..before }),
                forall|j: int|
                    0 <= j < i ==> s3_resolved(
                        #[trigger] before.upstreams@[j],
                        self.upstreams@[j],
                    ) && !bad_s3_url(before.upstreams@[j]),
                forall|j: int| i <= j < n ==> #[trigger] before.upstreams@[j] == self.upstreams@[j],
                *old(self) == before,
            decreases n - i,
        {
            assert(before.upstreams@[i as int] == self.upstreams@[i as int]);
            match self.upstreams[i].resolve_s3() {
                Ok(_) => {},
                Err(e) => return Err(e),
            }
            i = i + 1;
        }
        self.fallback_cache.upstream.resolve_s3()
    }
}

// ---------------------------------------------------------------------------
// Overrides
// ---------------------------------------------------------------------------
/// `value` where it is there and says something, else `old`.
pub open spec fn overridden(old: Seq<char>, value: Option<Seq<char>>) -> Seq<char> {
    match value {
        Some(v) => if v.len() == 0 {
            old
        } else {
            v
        },
        None => old,
    }
}

fn override_with(target: &mut String, value: Option<String>)
    ensures
        final(target)@ == overridden(old(target)@, view_opt(value)),
{
    if let Some(v) = value {
        if v.as_str().unicode_len() > 0 {
            *target = v;
        }
    }
}

impl Config {
    /// Applies the environment's overrides: where to listen, where the routes
    /// are, what to log. An empty one changes nothing.
    pub fn apply_overrides(
        &mut self,
        listen: Option<String>,
        db_path: Option<String>,
        log_level: Option<String>,
    )
        ensures
            final(self).server.listen@ == overridden(old(self).server.listen@, view_opt(listen)),
            final(self).cache.db_path@ == overridden(old(self).cache.db_path@, view_opt(db_path)),
            final(self).logging.level@ == overridden(
                old(self).logging.level@,
                view_opt(log_level),
            ),
            *final(self) == (Config {
                server: ServerConfig { listen: final(self).server.listen, ..old(self).server },
                cache: CacheConfig { db_path: final(self).cache.db_path, ..old(self).cache },
                logging: LoggingConfig { level: final(self).logging.level, ..old(self).logging },
                ..*old(self)
            }),
    {
        override_with(&mut self.server.listen, listen);
        override_with(&mut self.cache.db_path, db_path);
        override_with(&mut self.logging.level, log_level);
    }
}

// ---------------------------------------------------------------------------
// Passwords
// ---------------------------------------------------------------------------
/// The password in a file: what it holds without the line end behind it.
pub open spec fn password_in(contents: Seq<char>) -> Seq<char> {
    if contents.len() > 0 && contents.last() == '\n' {
        crate::narinfo::without_cr(contents.drop_last())
    } else {
        contents
    }
}

/// The password in a file: what it holds without the line end behind it.
pub fn trim_password(contents: &str) -> (out: String)
    ensures
        out@ == password_in(contents@),
{
    let ghost s = contents@;
    proof {
        reveal_strlit("\n");
        assert("\n"@ =~= seq!['\n']);
        assert(s.len() > 0 ==> s.skip(s.len() - 1) =~= seq![s.last()]);
        reveal_strlit("\r");
        assert("\r"@ =~= seq!['\r']);
    }
    match strip_suffix(contents, "\n") {
        Some(rest) => {
            let ghost t = rest@;
            proof {
                assert(s.skip(s.len() - 1)[0] == '\n');
                assert(s.take(s.len() - 1) =~= s.drop_last());
                assert(t.len() > 0 ==> t.skip(t.len() - 1) =~= seq![t.last()]);
            }
            match strip_suffix(rest.as_str(), "\r") {
                Some(rest) => {
                    assert(t.skip(t.len() - 1)[0] == '\r');
                    assert(t.take(t.len() - 1) =~= t.drop_last());
                    rest
                },
                None => rest,
            }
        },
        None => owned(contents),
    }
}

/// Takes the password of `upstream` from its password file, of which `contents`
/// is what reading it gave. An upstream without such a file stays as it is.
pub fn resolve_password_file(
    upstream: &mut UpstreamConfig,
    label: &str,
    contents: Result<String, String>,
) -> (out: Result<(), ConfigError>)
    ensures
        match old(upstream).password_file {
            None => out is Ok && *final(upstream) == *old(upstream),
            Some(path) => if old(upstream).password is Some {
                *final(upstream) == *old(upstream) && (out matches Err(e) && e@
                    == ConfigErrorView::Validation(
                    label@ + ": password and password_file are mutually exclusive"@,
                ))
            } else {
                match contents {
                    Ok(text) => out is Ok && view_opt(final(upstream).password) == Some(
                        password_in(text@),
                    ) && *final(upstream) == (UpstreamConfig {
                        password: final(upstream).password,
                        ..*old(upstream)
                    }),
                    Err(source) => *final(upstream) == *old(upstream) && (out matches Err(e) && e@
                        == (ConfigErrorView::PasswordFile { path: path@, source: source@ })),
                }
            },
        },
{
    let path: String = match &upstream.password_file {
        Some(path) => path.clone(),
        None => return Ok(()),
    };
    if upstream.password.is_some() {
        return Err(
            ConfigError::Validation(
                concat2(label, ": password and password_file are mutually exclusive"),
            ),
        );
    }
    match contents {
        Ok(text) => {
            upstream.password = Some(trim_password(text.as_str()));
            Ok(())
        },
        Err(source) => Err(ConfigError::PasswordFile { path, source }),
    }
}

/// A password in a file is what the file holds without one line end behind it,
/// whichever way that is written; what else the file holds belongs to it, white
/// space and further line ends too.
pub proof fn law_passwords_lose_one_line_end(password: Seq<char>)
    ensures
        password_in(password + seq!['\r', '\n']) == password,
        password.len() == 0 || password.last() != '\r' ==> password_in(password + seq!['\n'])
            == password,
        password.len() == 0 || password.last() != '\n' ==> password_in(password) == password,
{
    let unix = password + seq!['\n'];
    let dos = password + seq!['\r', '\n'];
    assert(unix.drop_last() =~= password);
    assert(dos.drop_last() =~= password.push('\r'));
    assert(password.push('\r').drop_last() =~= password);
}

/// The environment has the last word where it says something, and none where it
/// says nothing.
pub proof fn law_environment_has_the_last_word(old_value: Seq<char>, value: Seq<char>)
    ensures
        value.len() > 0 ==> overridden(old_value, Some(value)) == value,
        overridden(old_value, Some(seq![])) == old_value,
        overridden(old_value, None) == old_value,
{
}

} // verus!
