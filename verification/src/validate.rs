//! What a configuration must satisfy, and what is said of one that does not.

use vstd::prelude::*;
use vstd::string::*;

use crate::address::{parse_url, url_parsed};
use crate::codec::{all_hex, hex_decode};
use crate::config::{
    CacheConfig, Config, ConfigError, ConfigErrorView, DiscoveryConfig, PeerConfig, ServerConfig,
    UpstreamConfig,
};
use crate::double::law_doubles_compare_by_value;
use crate::filter::FilterRule;
use crate::level::{find_level_error, level_error};
use crate::number::{decimal, decimal_text, push_decimal, signed_decimal, signed_text};
use crate::text::{
    all_white, blank, concat2, concat3, contains_char, debug_text, is_white, owned, quoted,
    view_opt,
};

verus! {

/// What is wrong, in words; nothing where all is well.
pub type Problem = Option<Seq<char>>;

/// `first`, or else `second`.
pub open spec fn or_else(first: Problem, second: Problem) -> Problem {
    match first {
        Some(_) => first,
        None => second,
    }
}

/// `text` where `wrong` holds.
pub open spec fn problem_if(wrong: bool, text: Seq<char>) -> Problem {
    if wrong {
        Some(text)
    } else {
        None
    }
}

/// `out` fails with the problem that there is, and succeeds where there is none.
pub open spec fn reports(out: Result<(), ConfigError>, problem: Problem) -> bool {
    match out {
        Ok(_) => problem is None,
        Err(e) => problem matches Some(text) && e@ == ConfigErrorView::Validation(text),
    }
}

/// Fails with `text` where `wrong` holds.
fn refuse_if(wrong: bool, text: &str) -> (out: Result<(), ConfigError>)
    ensures
        reports(out, problem_if(wrong, text@)),
{
    if wrong {
        Err(ConfigError::Validation(owned(text)))
    } else {
        Ok(())
    }
}

// ---------------------------------------------------------------------------
// Upstreams
// ---------------------------------------------------------------------------
/// A public key of Nix has a colon between its name and its bytes.
pub open spec fn key_problem(public_key: Seq<char>, label: Seq<char>) -> Problem {
    problem_if(
        !public_key.contains(':'),
        label + " must be in 'name:base64(key)' Nix format"@,
    )
}

/// Checks a public key.
pub fn validate_nix_public_key(public_key: &str, label: &str) -> (out: Result<(), ConfigError>)
    ensures
        reports(out, key_problem(public_key@, label@)),
{
    if public_key.unicode_len() == 0 || !contains_char(public_key, ':') {
        return Err(
            ConfigError::Validation(concat2(label, " must be in 'name:base64(key)' Nix format")),
        );
    }
    Ok(())
}

/// The label of the `i`th of the additional keys.
pub open spec fn key_label(label: Seq<char>, i: nat) -> Seq<char> {
    label + ": public_keys["@ + decimal(i) + "]"@
}

/// What is wrong with the first bad key of `keys` from the `from`th on.
pub open spec fn keys_problem(keys: Seq<String>, label: Seq<char>, from: nat) -> Problem
    decreases keys.len() - from,
{
    if from >= keys.len() {
        None
    } else {
        or_else(
            key_problem(keys[from as int]@, key_label(label, from)),
            keys_problem(keys, label, from + 1),
        )
    }
}

/// What is said of the `i`th filter, whose pattern is empty.
pub open spec fn pattern_text(label: Seq<char>, i: nat) -> Seq<char> {
    label + ".filters["@ + decimal(i) + "]: pattern is empty"@
}

/// What is wrong with the first bad filter of `filters` from the `from`th on.
pub open spec fn filters_problem(filters: Seq<FilterRule>, label: Seq<char>, from: nat) -> Problem
    decreases filters.len() - from,
{
    if from >= filters.len() {
        None
    } else {
        or_else(
            problem_if(filters[from as int].pattern@.len() == 0, pattern_text(label, from)),
            filters_problem(filters, label, from + 1),
        )
    }
}

/// What is wrong with an upstream whose URL does not parse for the reason
/// `url_error`, if any.
pub open spec fn parsed_upstream_problem(
    upstream: UpstreamConfig,
    label: Seq<char>,
    url_error: Option<Seq<char>>,
) -> Problem {
    or_else(
        problem_if(upstream.url@.len() == 0, label + ": URL is empty"@),
        or_else(
            match url_error {
                Some(e) => Some(
                    label + ": invalid URL "@ + debug_text(upstream.url@) + ": "@ + e,
                ),
                None => None,
            },
            or_else(
                if upstream.public_key@.len() == 0 {
                    None
                } else {
                    key_problem(upstream.public_key@, label + ": public_key"@)
                },
                or_else(
                    keys_problem(upstream.public_keys@, label, 0),
                    or_else(
                        problem_if(
                            upstream.password is Some && upstream.password_file is Some,
                            label + ": password and password_file are mutually exclusive"@,
                        ),
                        filters_problem(upstream.filters@, label, 0),
                    ),
                ),
            ),
        ),
    )
}

/// Why the URL `url` does not parse, if it does not.
pub open spec fn url_error(url: Seq<char>) -> Option<Seq<char>> {
    match url_parsed(url) {
        Ok(_) => None,
        Err(e) => Some(e),
    }
}

/// What is wrong with an upstream.
pub open spec fn upstream_problem(upstream: UpstreamConfig, label: Seq<char>) -> Problem {
    parsed_upstream_problem(upstream, label, url_error(upstream.url@))
}

fn validate_keys(keys: &Vec<String>, label: &str) -> (out: Result<(), ConfigError>)
    ensures
        reports(out, keys_problem(keys@, label@, 0)),
{
    let mut i: usize = 0;
    let n: usize = keys.len();
    while i < n
        invariant
            i <= n,
            n == keys@.len(),
            keys_problem(keys@, label@, 0) == keys_problem(keys@, label@, i as nat),
        decreases n - i,
    {
        let mut key_label: String = concat2(label, ": public_keys[");
        push_decimal(&mut key_label, i as u64);
        key_label.append("]");
        match validate_nix_public_key(keys[i].as_str(), key_label.as_str()) {
            Ok(_) => {},
            Err(e) => return Err(e),
        }
        i = i + 1;
    }
    Ok(())
}

fn validate_filters(filters: &Vec<FilterRule>, label: &str) -> (out: Result<(), ConfigError>)
    ensures
        reports(out, filters_problem(filters@, label@, 0)),
{
    let mut i: usize = 0;
    let n: usize = filters.len();
    while i < n
        invariant
            i <= n,
            n == filters@.len(),
            filters_problem(filters@, label@, 0) == filters_problem(filters@, label@, i as nat),
        decreases n - i,
    {
        if filters[i].pattern.as_str().unicode_len() == 0 {
            let mut text: String = concat2(label, ".filters[");
            push_decimal(&mut text, i as u64);
            text.append("]: pattern is empty");
            return Err(ConfigError::Validation(text));
        }
        i = i + 1;
    }
    Ok(())
}

/// Checks an upstream whose URL does not parse for the reason `url_error`, if
/// any.
pub fn validate_parsed_upstream(
    upstream: &UpstreamConfig,
    label: &str,
    url_error: Option<String>,
) -> (out: Result<(), ConfigError>)
    ensures
        reports(out, parsed_upstream_problem(*upstream, label@, view_opt(url_error))),
{
    if upstream.url.as_str().unicode_len() == 0 {
        return Err(ConfigError::Validation(concat2(label, ": URL is empty")));
    }
    if let Some(e) = url_error {
        let mut text: String = concat3(
            label,
            ": invalid URL ",
            quoted(upstream.url.as_str()).as_str(),
        );
        text.append(": ");
        text.append(e.as_str());
        return Err(ConfigError::Validation(text));
    }
    if upstream.public_key.as_str().unicode_len() > 0 {
        let key_label: String = concat2(label, ": public_key");
        match validate_nix_public_key(upstream.public_key.as_str(), key_label.as_str()) {
            Ok(_) => {},
            Err(e) => return Err(e),
        }
    }
    match validate_keys(&upstream.public_keys, label) {
        Ok(_) => {},
        Err(e) => return Err(e),
    }
    if upstream.password.is_some() && upstream.password_file.is_some() {
        return Err(
            ConfigError::Validation(
                concat2(label, ": password and password_file are mutually exclusive"),
            ),
        );
    }
    validate_filters(&upstream.filters, label)
}

/// Checks an upstream.
pub fn validate_upstream(upstream: &UpstreamConfig, label: &str) -> (out: Result<(), ConfigError>)
    ensures
        reports(out, upstream_problem(*upstream, label@)),
{
    let error: Option<String> = match parse_url(upstream.url.as_str()) {
        Ok(_) => None,
        Err(e) => Some(e),
    };
    validate_parsed_upstream(upstream, label, error)
}

/// The label of the `i`th upstream.
pub open spec fn upstream_label(i: nat) -> Seq<char> {
    "upstream["@ + decimal(i) + "]"@
}

/// The label of the `i`th upstream.
pub fn label_of_upstream(i: usize) -> (out: String)
    ensures
        out@ == upstream_label(i as nat),
{
    concat3("upstream[", decimal_text(i as u64).as_str(), "]")
}

/// What is wrong with the first bad upstream of `list` from the `from`th on.
pub open spec fn upstreams_problem(list: Seq<UpstreamConfig>, from: nat) -> Problem
    decreases list.len() - from,
{
    if from >= list.len() {
        None
    } else {
        or_else(
            upstream_problem(list[from as int], upstream_label(from)),
            upstreams_problem(list, from + 1),
        )
    }
}

fn validate_upstreams(list: &Vec<UpstreamConfig>) -> (out: Result<(), ConfigError>)
    ensures
        reports(out, upstreams_problem(list@, 0)),
{
    let mut i: usize = 0;
    let n: usize = list.len();
    while i < n
        invariant
            i <= n,
            n == list@.len(),
            upstreams_problem(list@, 0) == upstreams_problem(list@, i as nat),
        decreases n - i,
    {
        match validate_upstream(&list[i], label_of_upstream(i).as_str()) {
            Ok(_) => {},
            Err(e) => return Err(e),
        }
        i = i + 1;
    }
    Ok(())
}

// ---------------------------------------------------------------------------
// Server and cache
// ---------------------------------------------------------------------------
/// What is wrong with the server's settings.
pub open spec fn server_problem(server: ServerConfig) -> Problem {
    or_else(
        problem_if(
            server.cache_priority < 1,
            "server.cache_priority must be >= 1, got "@ + signed_decimal(
                server.cache_priority as int,
            ),
        ),
        or_else(
            problem_if(server.read_timeout.0@ == 0, "server.read_timeout must be positive"@),
            problem_if(server.write_timeout.0@ == 0, "server.write_timeout must be positive"@),
        ),
    )
}

fn validate_server(server: &ServerConfig) -> (out: Result<(), ConfigError>)
    ensures
        reports(out, server_problem(*server)),
{
    if server.cache_priority < 1 {
        return Err(
            ConfigError::Validation(
                concat2(
                    "server.cache_priority must be >= 1, got ",
                    signed_text(server.cache_priority as i64).as_str(),
                ),
            ),
        );
    }
    if server.read_timeout.0.is_zero() {
        return refuse_if(true, "server.read_timeout must be positive");
    }
    refuse_if(server.write_timeout.0.is_zero(), "server.write_timeout must be positive")
}

/// What is wrong with the settings of the route cache.
pub open spec fn cache_problem(cache: CacheConfig) -> Problem {
    or_else(
        problem_if(
            !cache.latency_alpha.value.inside_unit(),
            "cache.latency_alpha must be between 0 and 1 exclusive, got "@
                + cache.latency_alpha.text@,
        ),
        or_else(
            problem_if(cache.ttl.0@ == 0, "cache.ttl must be positive"@),
            or_else(
                problem_if(cache.negative_ttl.0@ == 0, "cache.negative_ttl must be positive"@),
                or_else(
                    problem_if(cache.max_entries <= 0, "cache.max_entries must be positive"@),
                    mass_query_problem(cache),
                ),
            ),
        ),
    )
}

/// What is wrong with the limits of concurrent lookups.
pub open spec fn mass_query_problem(cache: CacheConfig) -> Problem {
    or_else(
        problem_if(
            cache.mass_query.max_concurrent_races == 0,
            "cache.mass_query.max_concurrent_races must be >= 1"@,
        ),
        or_else(
            problem_if(
                cache.mass_query.per_upstream_max_inflight == 0,
                "cache.mass_query.per_upstream_max_inflight must be >= 1"@,
            ),
            or_else(
                problem_if(
                    cache.mass_query.in_memory_negative_ttl.0@ == 0,
                    "cache.mass_query.in_memory_negative_ttl must be positive"@,
                ),
                problem_if(
                    cache.mass_query.upstream_cooldown.0@ == 0,
                    "cache.mass_query.upstream_cooldown must be positive"@,
                ),
            ),
        ),
    )
}

fn validate_cache(cache: &CacheConfig) -> (out: Result<(), ConfigError>)
    ensures
        reports(out, cache_problem(*cache)),
{
    if !cache.latency_alpha.value.in_unit_interval() {
        return Err(
            ConfigError::Validation(
                concat2(
                    "cache.latency_alpha must be between 0 and 1 exclusive, got ",
                    cache.latency_alpha.text.as_str(),
                ),
            ),
        );
    }
    if cache.ttl.0.is_zero() {
        return refuse_if(true, "cache.ttl must be positive");
    }
    if cache.negative_ttl.0.is_zero() {
        return refuse_if(true, "cache.negative_ttl must be positive");
    }
    if cache.max_entries <= 0 {
        return refuse_if(true, "cache.max_entries must be positive");
    }
    if cache.mass_query.max_concurrent_races == 0 {
        return refuse_if(true, "cache.mass_query.max_concurrent_races must be >= 1");
    }
    if cache.mass_query.per_upstream_max_inflight == 0 {
        return refuse_if(true, "cache.mass_query.per_upstream_max_inflight must be >= 1");
    }
    if cache.mass_query.in_memory_negative_ttl.0.is_zero() {
        return refuse_if(true, "cache.mass_query.in_memory_negative_ttl must be positive");
    }
    refuse_if(
        cache.mass_query.upstream_cooldown.0.is_zero(),
        "cache.mass_query.upstream_cooldown must be positive",
    )
}

// ---------------------------------------------------------------------------
// Logging
// ---------------------------------------------------------------------------
/// What is wrong with a log level that is no filter directive for the reason
/// `error`, if any.
pub open spec fn level_problem(level: Seq<char>, error: Option<Seq<char>>) -> Problem {
    or_else(
        problem_if(all_white(level), "logging.level must not be empty"@),
        match error {
            Some(e) => Some(
                "logging.level must be a valid tracing filter directive, got "@ + debug_text(level)
                    + ": "@ + e,
            ),
            None => None,
        },
    )
}

/// Checks a log level that is no filter directive for the reason `error`, if any.
pub fn validate_level(level: &str, error: Option<String>) -> (out: Result<(), ConfigError>)
    ensures
        reports(out, level_problem(level@, view_opt(error))),
{
    if blank(level) {
        return refuse_if(true, "logging.level must not be empty");
    }
    if let Some(e) = error {
        let mut text: String = concat3(
            "logging.level must be a valid tracing filter directive, got ",
            quoted(level).as_str(),
            ": ",
        );
        text.append(e.as_str());
        return Err(ConfigError::Validation(text));
    }
    Ok(())
}

// ---------------------------------------------------------------------------
// Mesh and discovery
// ---------------------------------------------------------------------------
/// The label of the `i`th peer.
pub open spec fn peer_label(i: nat) -> Seq<char> {
    "mesh.peers["@ + decimal(i) + "]: "@
}

/// A peer's key is 64 hexadecimal digits.
pub open spec fn is_peer_key(key: Seq<char>) -> bool {
    key.len() == 64 && all_hex(key)
}

/// What is wrong with the `i`th peer.
pub open spec fn peer_problem(peer: PeerConfig, i: nat) -> Problem {
    or_else(
        problem_if(peer.addr@.len() == 0, peer_label(i) + "addr is empty"@),
        problem_if(
            peer.public_key@.len() > 0 && !is_peer_key(peer.public_key@),
            peer_label(i) + "public_key must be a hex-encoded 32-byte ed25519 key"@,
        ),
    )
}

/// What is wrong with the first bad peer of `peers` from the `from`th on.
pub open spec fn peers_problem(peers: Seq<PeerConfig>, from: nat) -> Problem
    decreases peers.len() - from,
{
    if from >= peers.len() {
        None
    } else {
        or_else(peer_problem(peers[from as int], from), peers_problem(peers, from + 1))
    }
}

/// The key that 64 hexadecimal digits write.
pub fn peer_key(digits: &str) -> (out: Option<Vec<u8>>)
    ensures
        match out {
            Some(bytes) => is_peer_key(digits@) && bytes@ == crate::codec::hex_bytes(digits@),
            None => !is_peer_key(digits@),
        },
{
    match hex_decode(digits) {
        Some(bytes) => if bytes.len() == 32 {
            Some(bytes)
        } else {
            None
        },
        None => None,
    }
}

fn validate_peers(peers: &Vec<PeerConfig>) -> (out: Result<(), ConfigError>)
    ensures
        reports(out, peers_problem(peers@, 0)),
{
    let mut i: usize = 0;
    let n: usize = peers.len();
    while i < n
        invariant
            i <= n,
            n == peers@.len(),
            peers_problem(peers@, 0) == peers_problem(peers@, i as nat),
        decreases n - i,
    {
        let peer: &PeerConfig = &peers[i];
        let label: String = concat3("mesh.peers[", decimal_text(i as u64).as_str(), "]: ");
        if peer.addr.as_str().unicode_len() == 0 {
            return Err(ConfigError::Validation(concat2(label.as_str(), "addr is empty")));
        }
        if peer.public_key.as_str().unicode_len() > 0 && peer_key(
            peer.public_key.as_str(),
        ).is_none() {
            return Err(
                ConfigError::Validation(
                    concat2(
                        label.as_str(),
                        "public_key must be a hex-encoded 32-byte ed25519 key",
                    ),
                ),
            );
        }
        i = i + 1;
    }
    Ok(())
}

/// What is wrong with the settings of discovery, which count where it is on.
pub open spec fn discovery_problem(discovery: DiscoveryConfig) -> Problem {
    if !discovery.enabled {
        None
    } else {
        or_else(
            problem_if(
                discovery.service_name@.len() == 0,
                "discovery.service_name is required when discovery is enabled"@,
            ),
            or_else(
                problem_if(
                    discovery.domain@.len() == 0,
                    "discovery.domain is required when discovery is enabled"@,
                ),
                problem_if(
                    discovery.discovery_time.0@ == 0,
                    "discovery.discovery_time must be positive"@,
                ),
            ),
        )
    }
}

fn validate_discovery(discovery: &DiscoveryConfig) -> (out: Result<(), ConfigError>)
    ensures
        reports(out, discovery_problem(*discovery)),
{
    if !discovery.enabled {
        return Ok(());
    }
    if discovery.service_name.as_str().unicode_len() == 0 {
        return refuse_if(true, "discovery.service_name is required when discovery is enabled");
    }
    if discovery.domain.as_str().unicode_len() == 0 {
        return refuse_if(true, "discovery.domain is required when discovery is enabled");
    }
    refuse_if(
        discovery.discovery_time.0.is_zero(),
        "discovery.discovery_time must be positive",
    )
}

// ---------------------------------------------------------------------------
// The whole
// ---------------------------------------------------------------------------
/// What is wrong with a configuration: the first problem in the order of the
/// upstreams, the fallback cache, the server, the route cache, the log, the mesh
/// and discovery.
pub open spec fn config_problem(config: Config) -> Problem {
    or_else(
        problem_if(config.upstreams@.len() == 0, "at least one upstream is required"@),
        or_else(
            upstreams_problem(config.upstreams@, 0),
            or_else(
                if config.fallback_cache.enabled {
                    upstream_problem(config.fallback_cache.upstream, "fallback_cache"@)
                } else {
                    None
                },
                or_else(
                    server_problem(config.server),
                    or_else(
                        cache_problem(config.cache),
                        or_else(
                            level_problem(config.logging.level@, level_error(config.logging.level@)),
                            or_else(
                                problem_if(
                                    config.mesh.enabled && config.mesh.peers@.len() == 0,
                                    "mesh.enabled is true but no peers configured"@,
                                ),
                                or_else(
                                    peers_problem(config.mesh.peers@, 0),
                                    discovery_problem(config.discovery),
                                ),
                            ),
                        ),
                    ),
                ),
            ),
        ),
    )
}

impl Config {
    /// Checks the configuration.
    pub fn validate(&self) -> (out: Result<(), ConfigError>)
        ensures
            reports(out, config_problem(*self)),
    {
        if self.upstreams.len() == 0 {
            return refuse_if(true, "at least one upstream is required");
        }
        match validate_upstreams(&self.upstreams) {
            Ok(_) => {},
            Err(e) => return Err(e),
        }
        if self.fallback_cache.enabled {
            match validate_upstream(&self.fallback_cache.upstream, "fallback_cache") {
                Ok(_) => {},
                Err(e) => return Err(e),
            }
        }
        match validate_server(&self.server) {
            Ok(_) => {},
            Err(e) => return Err(e),
        }
        match validate_cache(&self.cache) {
            Ok(_) => {},
            Err(e) => return Err(e),
        }
        let level: &str = self.logging.level.as_str();
        match validate_level(level, find_level_error(level)) {
            Ok(_) => {},
            Err(e) => return Err(e),
        }
        if self.mesh.enabled && self.mesh.peers.len() == 0 {
            return refuse_if(true, "mesh.enabled is true but no peers configured");
        }
        match validate_peers(&self.mesh.peers) {
            Ok(_) => {},
            Err(e) => return Err(e),
        }
        validate_discovery(&self.discovery)
    }
}

/// Where none of the upstreams from the `from`th on is bad, the `at`th is not.
pub proof fn lemma_upstream_is_fine(list: Seq<UpstreamConfig>, from: nat, at: int)
    requires
        upstreams_problem(list, from) is None,
        from <= at < list.len(),
    ensures
        upstream_problem(list[at], upstream_label(at as nat)) is None,
    decreases at - from,
{
    if from < at {
        lemma_upstream_is_fine(list, from + 1, at);
    }
}

/// A configuration that passes its checks has an upstream to ask, limits that let
/// something through, and times that are not zero.
pub proof fn law_valid_configuration_can_work(config: Config)
    requires
        config_problem(config) is None,
    ensures
        config.upstreams@.len() > 0,
        forall|i: int|
            0 <= i < config.upstreams@.len() ==> (#[trigger] config.upstreams@[i]).url@.len() > 0
                && url_parsed(config.upstreams@[i].url@) is Ok,
        config.server.cache_priority >= 1,
        config.server.read_timeout.0@ > 0,
        config.server.write_timeout.0@ > 0,
        config.cache.latency_alpha.value.inside_unit(),
        config.cache.ttl.0@ > 0,
        config.cache.negative_ttl.0@ > 0,
        config.cache.max_entries > 0,
        config.cache.mass_query.max_concurrent_races >= 1,
        config.cache.mass_query.per_upstream_max_inflight >= 1,
        config.cache.mass_query.in_memory_negative_ttl.0@ > 0,
        config.cache.mass_query.upstream_cooldown.0@ > 0,
        config.mesh.enabled ==> config.mesh.peers@.len() > 0,
{
    assert forall|i: int| 0 <= i < config.upstreams@.len() implies (
    #[trigger] config.upstreams@[i]).url@.len() > 0 && url_parsed(
        config.upstreams@[i].url@,
    ) is Ok by {
        lemma_upstream_is_fine(config.upstreams@, 0, i);
    }
}

proof fn lemma_keys_fine(keys: Seq<String>, label: Seq<char>, from: nat)
    ensures
        keys_problem(keys, label, from) is None <==> forall|i: int|
            from <= i < keys.len() ==> (#[trigger] keys[i])@.contains(':'),
    decreases keys.len() - from,
{
    if from < keys.len() {
        lemma_keys_fine(keys, label, from + 1);
        if keys_problem(keys, label, from) is None {
            assert forall|i: int| from <= i < keys.len() implies (#[trigger] keys[i])@.contains(
                ':',
            ) by {}
        }
        if forall|i: int| from <= i < keys.len() ==> (#[trigger] keys[i])@.contains(':') {
            assert(keys[from as int]@.contains(':'));
        }
    }
}

proof fn lemma_filters_fine(filters: Seq<FilterRule>, label: Seq<char>, from: nat)
    ensures
        filters_problem(filters, label, from) is None <==> forall|i: int|
            from <= i < filters.len() ==> (#[trigger] filters[i]).pattern@.len() > 0,
    decreases filters.len() - from,
{
    if from < filters.len() {
        lemma_filters_fine(filters, label, from + 1);
        if filters_problem(filters, label, from) is None {
            assert forall|i: int| from <= i < filters.len() implies (
            #[trigger] filters[i]).pattern@.len() > 0 by {}
        }
        if forall|i: int|
            from <= i < filters.len() ==> (#[trigger] filters[i]).pattern@.len() > 0 {
            assert(filters[from as int].pattern@.len() > 0);
        }
    }
}

proof fn lemma_peers_fine(peers: Seq<PeerConfig>, from: nat)
    ensures
        peers_problem(peers, from) is None <==> forall|i: int|
            from <= i < peers.len() ==> sound_peer(#[trigger] peers[i]),
    decreases peers.len() - from,
{
    if from < peers.len() {
        lemma_peers_fine(peers, from + 1);
        if peers_problem(peers, from) is None {
            assert forall|i: int| from <= i < peers.len() implies sound_peer(
                #[trigger] peers[i],
            ) by {}
        }
        if forall|i: int| from <= i < peers.len() ==> sound_peer(#[trigger] peers[i]) {
            assert(sound_peer(peers[from as int]));
        }
    }
}

/// A peer can be told of routes, and its key, where it has one, is 64 hexadecimal
/// digits.
pub open spec fn sound_peer(peer: PeerConfig) -> bool {
    peer.addr@.len() > 0 && (peer.public_key@.len() == 0 || (peer.public_key@.len() == 64
        && all_hex(peer.public_key@)))
}

/// An upstream can be asked: it has a URL that parses, its keys have names, its
/// password comes from one place, and its filters say something.
pub open spec fn sound_upstream(upstream: UpstreamConfig) -> bool {
    &&& upstream.url@.len() > 0
    &&& url_parsed(upstream.url@) is Ok
    &&& upstream.public_key@.len() > 0 ==> upstream.public_key@.contains(':')
    &&& forall|i: int|
        0 <= i < upstream.public_keys@.len() ==> (#[trigger] upstream.public_keys@[i])@.contains(
            ':',
        )
    &&& !(upstream.password is Some && upstream.password_file is Some)
    &&& forall|i: int|
        0 <= i < upstream.filters@.len() ==> (#[trigger] upstream.filters@[i]).pattern@.len() > 0
}

/// An upstream passes its check exactly where it can be asked, whatever it is
/// called in messages.
pub proof fn law_sound_upstreams_pass(upstream: UpstreamConfig, label: Seq<char>)
    ensures
        upstream_problem(upstream, label) is None <==> sound_upstream(upstream),
{
    lemma_keys_fine(upstream.public_keys@, label, 0);
    lemma_filters_fine(upstream.filters@, label, 0);
}

proof fn lemma_upstreams_fine(list: Seq<UpstreamConfig>, from: nat)
    ensures
        upstreams_problem(list, from) is None <==> forall|i: int|
            from <= i < list.len() ==> sound_upstream(#[trigger] list[i]),
    decreases list.len() - from,
{
    if from < list.len() {
        lemma_upstreams_fine(list, from + 1);
        law_sound_upstreams_pass(list[from as int], upstream_label(from));
        if upstreams_problem(list, from) is None {
            assert forall|i: int| from <= i < list.len() implies sound_upstream(
                #[trigger] list[i],
            ) by {}
        }
        if forall|i: int| from <= i < list.len() ==> sound_upstream(#[trigger] list[i]) {
            assert(sound_upstream(list[from as int]));
        }
    }
}

/// A configuration passes its checks exactly where it has upstreams, all of which
/// can be asked, as can the cache of last resort where it is enabled; where its
/// priority, times and limits are above zero and the weight of a latency lies
/// strictly between zero and one; where it says what to log; where its mesh, if
/// enabled, has peers, all of which are sound; and where its discovery, if enabled,
/// says what is looked for, where and for how long.
pub proof fn law_sound_configurations_pass(config: Config)
    ensures
        config_problem(config) is None <==> {
            &&& config.upstreams@.len() > 0
            &&& forall|i: int|
                0 <= i < config.upstreams@.len() ==> sound_upstream(#[trigger] config.upstreams@[i])
            &&& config.fallback_cache.enabled ==> sound_upstream(config.fallback_cache.upstream)
            &&& config.server.cache_priority > 0
            &&& config.server.read_timeout.0@ > 0
            &&& config.server.write_timeout.0@ > 0
            &&& 0 < config.cache.latency_alpha.value.bits < 0x3FF0_0000_0000_0000
            &&& config.cache.ttl.0@ > 0
            &&& config.cache.negative_ttl.0@ > 0
            &&& config.cache.max_entries > 0
            &&& config.cache.mass_query.max_concurrent_races > 0
            &&& config.cache.mass_query.per_upstream_max_inflight > 0
            &&& config.cache.mass_query.in_memory_negative_ttl.0@ > 0
            &&& config.cache.mass_query.upstream_cooldown.0@ > 0
            &&& !(forall|i: int|
                0 <= i < config.logging.level@.len() ==> is_white(
                    #[trigger] config.logging.level@[i],
                ))
            &&& level_error(config.logging.level@) is None
            &&& config.mesh.enabled ==> config.mesh.peers@.len() > 0
            &&& forall|i: int|
                0 <= i < config.mesh.peers@.len() ==> sound_peer(#[trigger] config.mesh.peers@[i])
            &&& config.discovery.enabled ==> config.discovery.service_name@.len() > 0
                && config.discovery.domain@.len() > 0 && config.discovery.discovery_time.0@ > 0
        },
{
    lemma_upstreams_fine(config.upstreams@, 0);
    law_sound_upstreams_pass(config.fallback_cache.upstream, "fallback_cache"@);
    lemma_peers_fine(config.mesh.peers@, 0);
    law_doubles_compare_by_value(
        config.cache.latency_alpha.value,
        config.cache.latency_alpha.value,
    );
}

} // verus!
