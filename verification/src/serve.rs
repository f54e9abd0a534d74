//! What Nix is answered: cache information, health, status and headers.

use axum::http::HeaderValue;
use vstd::prelude::*;
use vstd::string::*;

use crate::address::{parse_url, url_parsed, UrlParts};
use crate::config::UpstreamConfig;
use crate::double::Double;
use crate::health::{fresh_health, Status, UpstreamHealth};
use crate::number::{signed_decimal, signed_text};
use crate::s3::S3ClientPool;
use crate::table::Table;
use crate::text::{copy_opt, owned, same_text, view_opt, views};
use crate::time::Instant;

verus! {

// ---------------------------------------------------------------------------
// Provenance
// ---------------------------------------------------------------------------
/// How the upstream of an answer was chosen.
#[derive(Debug, Clone, Copy, PartialEq, Eq, Structural)]
pub enum RouteKind {
    CacheHit,
    Direct,
    Hedge,
    Fallback,
    Race,
}

impl RouteKind {
    /// The name of the kind in a header.
    pub open spec fn text(self) -> Seq<char> {
        match self {
            RouteKind::CacheHit => "cache-hit"@,
            RouteKind::Direct => "direct"@,
            RouteKind::Hedge => "hedge"@,
            RouteKind::Fallback => "fallback"@,
            RouteKind::Race => "race"@,
        }
    }

    /// The name of the kind in a header.
    pub fn header_value(self) -> (out: &'static str)
        ensures
            out@ == self.text(),
    {
        match self {
            RouteKind::CacheHit => "cache-hit",
            RouteKind::Direct => "direct",
            RouteKind::Hedge => "hedge",
            RouteKind::Fallback => "fallback",
            RouteKind::Race => "race",
        }
    }
}

/// `c` may stand in the value of a header.
pub open spec fn is_header_char(c: char) -> bool {
    (c >= ' ' && c != '\u{7f}') || c == '\t'
}

/// `s` may be the value of a header.
pub open spec fn is_header_value(s: Seq<char>) -> bool {
    forall|i: int| 0 <= i < s.len() ==> is_header_char(#[trigger] s[i])
}

/// `HeaderValue::from_str` of http takes a text without ASCII control characters
/// other than tabs.
#[verifier::external_body]
pub(crate) fn header_value_valid(s: &str) -> (yes: bool)
    ensures
        yes == is_header_value(s@),
{
    HeaderValue::from_str(s).is_ok()
}

/// What is said of an upstream whose host is `host`.
pub open spec fn source_of_host(host: Option<Seq<char>>) -> Seq<char> {
    match host {
        Some(h) => if is_header_value(h) {
            h
        } else {
            "unknown"@
        },
        None => "unknown"@,
    }
}

/// The host of a URL that parsed as `url`.
pub open spec fn host_of(url: Result<UrlParts, Seq<char>>) -> Option<Seq<char>> {
    match url {
        Ok((_, host, _)) => host,
        Err(_) => None,
    }
}

/// What is said of an upstream whose host is `host`: nothing but the host, and
/// only where it can be said.
pub fn source_name(host: Option<String>) -> (out: String)
    ensures
        out@ == source_of_host(view_opt(host)),
{
    match host {
        Some(h) => if header_value_valid(h.as_str()) {
            h
        } else {
            owned("unknown")
        },
        None => owned("unknown"),
    }
}

/// The header `name` is the same in `a` and `b`.
pub open spec fn same_header(
    a: Map<Seq<char>, String>,
    b: Map<Seq<char>, String>,
    name: Seq<char>,
) -> bool {
    (a.contains_key(name) <==> b.contains_key(name)) && (a.contains_key(name) ==> a[name]
        == b[name])
}

/// The headers that say where an answer comes from, added to `headers`.
pub fn with_provenance(headers: &mut Table<String>, upstream: &str, route: RouteKind)
    requires
        old(headers).wf(),
    ensures
        final(headers).wf(),
        final(headers).view().contains_key("x-ncro-upstream"@),
        final(headers).view()["x-ncro-upstream"@]@ == source_of_host(
            host_of(url_parsed(upstream@)),
        ),
        final(headers).view().contains_key("x-ncro-route"@),
        final(headers).view()["x-ncro-route"@]@ == route.text(),
        forall|name: Seq<char>|
            #![trigger final(headers).view().contains_key(name)]
            name != "x-ncro-upstream"@ && name != "x-ncro-route"@ ==> same_header(
                old(headers).view(),
                final(headers).view(),
                name,
            ),
{
    let host: Option<String> = match parse_url(upstream) {
        Ok(url) => url.host,
        Err(_) => None,
    };
    add_provenance(headers, host, route);
}

/// The headers that say that an answer comes from `host`, added to `headers`.
pub fn add_provenance(headers: &mut Table<String>, host: Option<String>, route: RouteKind)
    requires
        old(headers).wf(),
    ensures
        final(headers).wf(),
        final(headers).view().contains_key("x-ncro-upstream"@),
        final(headers).view()["x-ncro-upstream"@]@ == source_of_host(view_opt(host)),
        final(headers).view().contains_key("x-ncro-route"@),
        final(headers).view()["x-ncro-route"@]@ == route.text(),
        forall|name: Seq<char>|
            #![trigger final(headers).view().contains_key(name)]
            name != "x-ncro-upstream"@ && name != "x-ncro-route"@ ==> same_header(
                old(headers).view(),
                final(headers).view(),
                name,
            ),
{
    proof {
        reveal_strlit("x-ncro-upstream");
        reveal_strlit("x-ncro-route");
        assert("x-ncro-upstream"@.len() != "x-ncro-route"@.len());
    }
    headers.insert(owned("x-ncro-upstream"), source_name(host));
    headers.insert(owned("x-ncro-route"), owned(route.header_value()));
}

// ---------------------------------------------------------------------------
// Cache information and health
// ---------------------------------------------------------------------------
/// The body of `/nix-cache-info`.
pub open spec fn cache_info(want_mass_query: bool, cache_priority: i32) -> Seq<char> {
    "StoreDir: /nix/store\nWantMassQuery: "@ + (if want_mass_query {
        "1"@
    } else {
        "0"@
    }) + "\nPriority: "@ + signed_decimal(cache_priority as int) + "\n"@
}

/// The body of `/nix-cache-info`: whether many questions at once are welcome, and
/// the priority of this cache among those that Nix knows.
pub fn cache_info_body(want_mass_query: bool, cache_priority: i32) -> (out: String)
    ensures
        out@ == cache_info(want_mass_query, cache_priority),
{
    let mut out: String = owned("StoreDir: /nix/store\nWantMassQuery: ");
    out.append(
        if want_mass_query {
            "1"
        } else {
            "0"
        },
    );
    out.append("\nPriority: ");
    out.append(signed_text(cache_priority as i64).as_str());
    out.append("\n");
    out
}

/// Every upstream of `list` has the status `status`.
pub open spec fn all_have(list: Seq<UpstreamHealth>, status: Status) -> bool {
    forall|i: int| 0 <= i < list.len() ==> (#[trigger] list[i]).status == status
}

/// What is said of all upstreams together: `down` where there are some and all
/// are, `degraded` where some are not active, else `ok`.
pub open spec fn overall(list: Seq<UpstreamHealth>) -> Seq<char> {
    if list.len() > 0 && all_have(list, Status::Down) {
        "down"@
    } else if !all_have(list, Status::Active) {
        "degraded"@
    } else {
        "ok"@
    }
}

/// What is said of all upstreams together.
pub fn overall_status(health: &[UpstreamHealth]) -> (out: &'static str)
    ensures
        out@ == overall(health@),
{
    let mut all_down: bool = true;
    let mut all_active: bool = true;
    let n: usize = health.len();
    let mut i: usize = 0;
    while i < n
        invariant
            i <= n,
            n == health@.len(),
            all_down == all_have(health@.take(i as int), Status::Down),
            all_active == all_have(health@.take(i as int), Status::Active),
        decreases n - i,
    {
        let ghost seen = health@.take(i as int);
        let ghost next = health@.take(i + 1);
        proof {
            assert(next[i as int] == health@[i as int]);
            assert(forall|j: int| 0 <= j < i ==> next[j] == #[trigger] seen[j]);
            assert(all_have(next, Status::Down) ==> all_have(seen, Status::Down)) by {
                if all_have(next, Status::Down) {
                    assert forall|j: int| 0 <= j < seen.len() implies (#[trigger] seen[j]).status
                        == Status::Down by {
                        assert(next[j].status == Status::Down);
                    }
                }
            }
            assert(all_have(next, Status::Active) ==> all_have(seen, Status::Active)) by {
                if all_have(next, Status::Active) {
                    assert forall|j: int| 0 <= j < seen.len() implies (#[trigger] seen[j]).status
                        == Status::Active by {
                        assert(next[j].status == Status::Active);
                    }
                }
            }
            assert forall|status: Status|
                all_have(seen, status) && health@[i as int].status == status implies #[trigger]
            all_have(next, status) by {
                assert forall|j: int| 0 <= j < next.len() implies (#[trigger] next[j]).status
                    == status by {
                    if j < i {
                        assert(seen[j].status == status);
                    }
                }
            }
        }
        all_down = all_down && health[i].status == Status::Down;
        all_active = all_active && health[i].status == Status::Active;
        i = i + 1;
    }
    assert(health@.take(n as int) =~= health@);
    if n > 0 && all_down {
        "down"
    } else if !all_active {
        "degraded"
    } else {
        "ok"
    }
}

/// The status of the answer to a question for the health of this server: only
/// where every upstream is down can it serve nothing.
pub fn health_code(health: &[UpstreamHealth]) -> (out: u16)
    ensures
        out == if health@.len() > 0 && all_have(health@, Status::Down) {
            503u16
        } else {
            200u16
        },
{
    proof {
        reveal_strlit("down");
        reveal_strlit("degraded");
        reveal_strlit("ok");
        assert("down"@.len() == 4 && "degraded"@.len() == 8 && "ok"@.len() == 2);
    }
    if same_text(overall_status(health), "down") {
        503
    } else {
        200
    }
}

/// One upstream that is up is enough: the server is healthy.
pub proof fn law_one_upstream_is_enough(list: Seq<UpstreamHealth>, at: int)
    requires
        0 <= at < list.len(),
        list[at].status != Status::Down,
    ensures
        overall(list) != "down"@,
{
    reveal_strlit("down");
    reveal_strlit("degraded");
    reveal_strlit("ok");
    assert("down"@.len() == 4 && "degraded"@.len() == 8 && "ok"@.len() == 2);
}

// ---------------------------------------------------------------------------
// Status
// ---------------------------------------------------------------------------
/// What the status page says of an upstream.
pub struct UpstreamStatusFull {
    pub url: String,
    pub status: String,
    pub priority: i32,
    pub ema_latency_ms: Double,
    pub consecutive_fails: u32,
    pub total_queries: u64,
    pub last_probe_secs_ago: Option<u64>,
    pub kind: &'static str,
    pub authenticated: bool,
}

/// How many whole seconds ago `then` was.
pub open spec fn secs_ago(now: nat, then: nat) -> nat {
    if then <= now {
        ((now - then) / 1_000_000_000) as nat
    } else {
        0
    }
}

/// `out` says what is known of `health`.
pub open spec fn describes(
    out: UpstreamStatusFull,
    health: UpstreamHealth,
    now: Instant,
    kind: Seq<char>,
    authenticated: bool,
) -> bool {
    &&& out.url == health.url
    &&& out.status@ == health.status.text()
    &&& out.priority == health.priority
    &&& out.ema_latency_ms == health.ema_latency
    &&& out.consecutive_fails == health.consecutive_fails
    &&& out.total_queries == health.total_queries
    &&& match out.last_probe_secs_ago {
        Some(secs) => health.last_probe matches Some(t) && secs == secs_ago(now@, t@),
        None => health.last_probe is None,
    }
    &&& out.kind@ == kind
    &&& out.authenticated == authenticated
}

/// What the status page says of an upstream.
pub fn upstream_status_full(
    health: UpstreamHealth,
    now: Instant,
    kind: &'static str,
    authenticated: bool,
) -> (out: UpstreamStatusFull)
    ensures
        describes(out, health, now, kind@, authenticated),
{
    UpstreamStatusFull {
        last_probe_secs_ago: match health.last_probe {
            Some(t) => Some(now.saturating_duration_since(t).as_secs()),
            None => None,
        },
        status: owned(health.status.as_str()),
        url: health.url,
        priority: health.priority,
        ema_latency_ms: health.ema_latency,
        consecutive_fails: health.consecutive_fails,
        total_queries: health.total_queries,
        kind,
        authenticated,
    }
}

/// The upstream `url` of `list` that has a user, if there is one.
pub open spec fn login_in(list: Seq<UpstreamConfig>, url: Seq<char>) -> Option<
    (Seq<char>, Option<Seq<char>>),
>
    decreases list.len(),
{
    if list.len() == 0 {
        None
    } else if list[0].url@ == url && list[0].username@.len() > 0 {
        Some((list[0].username@, view_opt(list[0].password)))
    } else {
        login_in(list.skip(1), url)
    }
}

fn find_login(list: &Vec<UpstreamConfig>, url: &str) -> (out: Option<(String, Option<String>)>)
    ensures
        match out {
            Some((user, password)) => login_in(list@, url@) == Some((user@, view_opt(password))),
            None => login_in(list@, url@) is None,
        },
{
    let n: usize = list.len();
    let mut i: usize = 0;
    assert(list@.skip(0) =~= list@);
    while i < n
        invariant
            i <= n,
            n == list@.len(),
            login_in(list@, url@) == login_in(list@.skip(i as int), url@),
        decreases n - i,
    {
        let upstream: &UpstreamConfig = &list[i];
        assert(list@.skip(i as int)[0] == *upstream);
        assert(list@.skip(i as int).skip(1) =~= list@.skip(i + 1));
        if same_text(upstream.url.as_str(), url) && upstream.username.as_str().unicode_len() > 0 {
            return Some((upstream.username.clone(), copy_opt(&upstream.password)));
        }
        i = i + 1;
    }
    None
}

/// The login for `url`, among `upstreams` and then the fallback cache.
pub open spec fn auth_for(
    upstreams: Seq<UpstreamConfig>,
    fallback: Option<UpstreamConfig>,
    url: Seq<char>,
) -> Option<(Seq<char>, Option<Seq<char>>)> {
    match login_in(upstreams, url) {
        Some(login) => Some(login),
        None => match fallback {
            Some(f) => login_in(seq![f], url),
            None => None,
        },
    }
}

/// The login for `url`, among `upstreams` and then the fallback cache.
pub fn upstream_auth(
    upstreams: &Vec<UpstreamConfig>,
    fallback: &Option<UpstreamConfig>,
    url: &str,
) -> (out: Option<(String, Option<String>)>)
    ensures
        match out {
            Some((user, password)) => auth_for(upstreams@, *fallback, url@) == Some(
                (user@, view_opt(password)),
            ),
            None => auth_for(upstreams@, *fallback, url@) is None,
        },
{
    if let Some(login) = find_login(upstreams, url) {
        return Some(login);
    }
    match fallback {
        Some(f) => {
            let ghost one = seq![*f];
            assert(one.skip(1) =~= seq![]);
            assert(login_in(one.skip(1), url@) is None);
            if same_text(f.url.as_str(), url) && f.username.as_str().unicode_len() > 0 {
                Some((f.username.clone(), copy_opt(&f.password)))
            } else {
                None
            }
        },
        None => None,
    }
}

/// How an upstream is asked.
pub open spec fn kind_of(s3: Map<Seq<char>, crate::s3_config::S3ConfigView>, url: Seq<char>) -> Seq<
    char,
> {
    if s3.contains_key(url) {
        "s3"@
    } else {
        "http"@
    }
}

/// What the status page says of an upstream.
pub fn status_of_upstream(
    health: UpstreamHealth,
    now: Instant,
    s3: &S3ClientPool,
    upstreams: &Vec<UpstreamConfig>,
    fallback: &Option<UpstreamConfig>,
) -> (out: UpstreamStatusFull)
    ensures
        describes(
            out,
            health,
            now,
            kind_of(s3@, health.url@),
            auth_for(upstreams@, *fallback, health.url@) is Some,
        ),
{
    let kind: &'static str = if s3.contains(health.url.as_str()) {
        "s3"
    } else {
        "http"
    };
    let authenticated: bool = upstream_auth(upstreams, fallback, health.url.as_str()).is_some();
    upstream_status_full(health, now, kind, authenticated)
}

/// What has been counted since the start.
#[derive(Debug, Clone, Copy, PartialEq, Eq, Structural)]
pub struct CacheStatus {
    pub route_entries: i64,
    pub narinfo_hits: u64,
    pub narinfo_misses: u64,
    pub narinfo_negative_hits: u64,
    pub nar_requests: u64,
}

/// What is configured.
#[derive(Debug, Clone, Copy, PartialEq, Eq, Structural)]
pub struct ConfigStatus {
    pub cache_priority: i32,
    pub upstream_count: usize,
    pub fallback_configured: bool,
}

/// The status page.
pub struct StatusResponse {
    pub uptime_secs: u64,
    pub status: String,
    pub cache: CacheStatus,
    pub config: ConfigStatus,
    pub upstreams: Vec<UpstreamStatusFull>,
    pub fallback: Option<UpstreamStatusFull>,
}

/// What the status page says.
pub fn status_page(
    sorted: Vec<UpstreamHealth>,
    fallback_health: Option<UpstreamHealth>,
    now: Instant,
    started: Instant,
    cache: CacheStatus,
    cache_priority: i32,
    s3: &S3ClientPool,
    upstreams: &Vec<UpstreamConfig>,
    fallback: &Option<UpstreamConfig>,
) -> (out: StatusResponse)
    ensures
        out.uptime_secs == secs_ago(now@, started@),
        out.status@ == overall(sorted@),
        out.cache == cache,
        out.config == (ConfigStatus {
            cache_priority,
            upstream_count: upstreams.len(),
            fallback_configured: *fallback is Some,
        }),
        out.upstreams@.len() == sorted@.len(),
        forall|i: int|
            0 <= i < sorted@.len() ==> describes(
                #[trigger] out.upstreams@[i],
                sorted@[i],
                now,
                kind_of(s3@, sorted@[i].url@),
                auth_for(upstreams@, *fallback, sorted@[i].url@) is Some,
            ),
        match *fallback {
            None => out.fallback is None,
            Some(f) => out.fallback matches Some(shown) && {
                let health = match fallback_health {
                    Some(h) => h,
                    None => fresh_health(f.url, f.priority),
                };
                describes(
                    shown,
                    health,
                    now,
                    kind_of(s3@, health.url@),
                    auth_for(upstreams@, *fallback, health.url@) is Some,
                )
            },
        },
{
    let status: String = owned(overall_status(sorted.as_slice()));
    let mut shown: Vec<UpstreamStatusFull> = Vec::new();
    let n: usize = sorted.len();
    let mut i: usize = 0;
    while i < n
        invariant
            i <= n,
            n == sorted@.len(),
            shown@.len() == i,
            forall|j: int|
                0 <= j < i ==> describes(
                    #[trigger] shown@[j],
                    sorted@[j],
                    now,
                    kind_of(s3@, sorted@[j].url@),
                    auth_for(upstreams@, *fallback, sorted@[j].url@) is Some,
                ),
        decreases n - i,
    {
        shown.push(status_of_upstream(sorted[i].clone(), now, s3, upstreams, fallback));
        i = i + 1;
    }
    let fallback_shown: Option<UpstreamStatusFull> = match fallback {
        Some(f) => {
            let health: UpstreamHealth = match fallback_health {
                Some(h) => h,
                None => UpstreamHealth::new(f.url.clone(), f.priority),
            };
            Some(status_of_upstream(health, now, s3, upstreams, fallback))
        },
        None => None,
    };
    StatusResponse {
        uptime_secs: now.saturating_duration_since(started).as_secs(),
        status,
        cache,
        config: ConfigStatus {
            cache_priority,
            upstream_count: upstreams.len(),
            fallback_configured: fallback.is_some(),
        },
        upstreams: shown,
        fallback: fallback_shown,
    }
}

/// The URLs of `list` that are not down, in order.
pub open spec fn up_urls(list: Seq<UpstreamHealth>) -> Seq<Seq<char>>
    decreases list.len(),
{
    if list.len() == 0 {
        seq![]
    } else {
        let rest = up_urls(list.drop_last());
        if list.last().status == Status::Down {
            rest
        } else {
            rest.push(list.last().url@)
        }
    }
}

/// The URLs of the upstreams of `list`.
pub open spec fn config_urls(list: Seq<UpstreamConfig>) -> Seq<Seq<char>> {
    Seq::new(list.len(), |i: int| list[i].url@)
}

/// The upstreams that are asked for a narinfo: those that are not down, in order,
/// or all that are configured where every one is.
pub fn upstream_urls(sorted: &Vec<UpstreamHealth>, upstreams: &Vec<UpstreamConfig>) -> (out: Vec<
    String,
>)
    ensures
        views(out@) == if up_urls(sorted@).len() == 0 {
            config_urls(upstreams@)
        } else {
            up_urls(sorted@)
        },
{
    let mut out: Vec<String> = Vec::new();
    let n: usize = sorted.len();
    let mut i: usize = 0;
    assert(sorted@.take(0) =~= seq![]);
    while i < n
        invariant
            i <= n,
            n == sorted@.len(),
            views(out@) == up_urls(sorted@.take(i as int)),
        decreases n - i,
    {
        let ghost said = views(out@);
        let ghost next = sorted@.take(i + 1);
        assert(next.drop_last() =~= sorted@.take(i as int));
        assert(next.last() == sorted@[i as int]);
        if sorted[i].status != Status::Down {
            out.push(sorted[i].url.clone());
            assert(views(out@) =~= said.push(sorted@[i as int].url@));
        }
        i = i + 1;
    }
    assert(sorted@.take(n as int) =~= sorted@);
    if out.len() > 0 {
        assert(views(out@).len() > 0);
        return out;
    }
    assert(views(out@).len() == 0);
    let mut all: Vec<String> = Vec::new();
    let m: usize = upstreams.len();
    let mut j: usize = 0;
    while j < m
        invariant
            j <= m,
            m == upstreams@.len(),
            views(all@) == config_urls(upstreams@).take(j as int),
        decreases m - j,
    {
        let ghost said = views(all@);
        all.push(upstreams[j].url.clone());
        assert(views(all@) =~= said.push(upstreams@[j as int].url@));
        j = j + 1;
        assert(config_urls(upstreams@).take(j as int) =~= said.push(config_urls(upstreams@)[j - 1]));
    }
    assert(config_urls(upstreams@).take(m as int) =~= config_urls(upstreams@));
    all
}

// ---------------------------------------------------------------------------
// What is said of upstreams
// ---------------------------------------------------------------------------
/// A narinfo is asked of the upstreams that are active or degraded, all of them
/// and in the order in which they are given.
pub proof fn law_narinfos_are_asked_of_all_that_are_up(list: Seq<UpstreamHealth>)
    ensures
        up_urls(list) == list.filter(
            |h: UpstreamHealth| h.status == Status::Active || h.status == Status::Degraded,
        ).map_values(|h: UpstreamHealth| h.url@),
    decreases list.len(),
{
    reveal(Seq::filter);
    if list.len() > 0 {
        law_narinfos_are_asked_of_all_that_are_up(list.drop_last());
    }
    assert(up_urls(list) =~= list.filter(
        |h: UpstreamHealth| h.status == Status::Active || h.status == Status::Degraded,
    ).map_values(|h: UpstreamHealth| h.url@));
}

/// All is well where every upstream is active, also where there is none; all is
/// down where there are upstreams and none is active or degraded; and in every
/// other case the server is degraded.
pub proof fn law_health_is_that_of_the_upstreams(list: Seq<UpstreamHealth>)
    ensures
        overall(list) == "ok"@ <==> forall|i: int|
            0 <= i < list.len() ==> (#[trigger] list[i]).status == Status::Active,
        overall(list) == "down"@ <==> list.len() > 0 && forall|i: int|
            0 <= i < list.len() ==> (#[trigger] list[i]).status == Status::Down,
        overall(list) == "degraded"@ <==> overall(list) != "ok"@ && overall(list) != "down"@,
{
    reveal_strlit("down");
    reveal_strlit("degraded");
    reveal_strlit("ok");
    assert("down"@.len() == 4 && "degraded"@.len() == 8 && "ok"@.len() == 2);
    if all_have(list, Status::Active) && list.len() > 0 {
        assert(list[0].status == Status::Active);
    }
}

/// The age of a probe is given in whole seconds, rounded down; what lies in the
/// future has none.
pub proof fn law_ages_are_whole_seconds(now: nat, then: nat)
    ensures
        then <= now ==> secs_ago(now, then) * 1_000_000_000 <= now - then < (secs_ago(now, then)
            + 1) * 1_000_000_000,
        then > now ==> secs_ago(now, then) == 0,
{
}

/// The first of `list` under `url` that has a user is the one at `at`.
pub open spec fn first_with_user(list: Seq<UpstreamConfig>, url: Seq<char>, at: int) -> bool {
    &&& 0 <= at < list.len()
    &&& list[at].url@ == url
    &&& list[at].username@.len() > 0
    &&& forall|j: int| 0 <= j < at ==> (#[trigger] list[j]).url@ != url || list[j].username@.len()
        == 0
}

proof fn lemma_login_in(list: Seq<UpstreamConfig>, url: Seq<char>)
    ensures
        match login_in(list, url) {
            Some((user, password)) => exists|at: int| #[trigger]
                first_with_user(list, url, at) && user == list[at].username@ && password == view_opt(
                    list[at].password,
                ),
            None => forall|j: int|
                0 <= j < list.len() ==> (#[trigger] list[j]).url@ != url || list[j].username@.len()
                    == 0,
        },
    decreases list.len(),
{
    if list.len() > 0 {
        let rest = list.skip(1);
        if list[0].url@ == url && list[0].username@.len() > 0 {
            assert(first_with_user(list, url, 0));
        } else {
            lemma_login_in(rest, url);
            if login_in(rest, url) is Some {
                let (user, password) = login_in(rest, url)->0;
                let at = choose|at: int| #[trigger]
                    first_with_user(rest, url, at) && user == rest[at].username@ && password
                        == view_opt(rest[at].password);
                assert(list[at + 1] == rest[at]);
                assert forall|j: int| 0 <= j < at + 1 implies (#[trigger] list[j]).url@ != url
                    || list[j].username@.len() == 0 by {
                    if j > 0 {
                        assert(rest[j - 1] == list[j]);
                    }
                }
                assert(first_with_user(list, url, at + 1));
            } else {
                assert forall|j: int| 0 <= j < list.len() implies (#[trigger] list[j]).url@ != url
                    || list[j].username@.len() == 0 by {
                    if j > 0 {
                        assert(rest[j - 1] == list[j]);
                    }
                }
            }
        }
    }
}

/// An upstream is asked with the user and the password of the first configuration
/// under its URL that has a user; the cache of last resort counts after the
/// others. Where none has a user, it is asked without.
pub proof fn law_logins_are_the_configured_ones(
    upstreams: Seq<UpstreamConfig>,
    fallback: Option<UpstreamConfig>,
    url: Seq<char>,
    at: int,
)
    ensures
        first_with_user(upstreams, url, at) ==> auth_for(upstreams, fallback, url) == Some(
            (upstreams[at].username@, view_opt(upstreams[at].password)),
        ),
        (forall|j: int|
            0 <= j < upstreams.len() ==> (#[trigger] upstreams[j]).url@ != url
                || upstreams[j].username@.len() == 0) ==> auth_for(upstreams, fallback, url) == (
        match fallback {
            Some(f) => if f.url@ == url && f.username@.len() > 0 {
                Some((f.username@, view_opt(f.password)))
            } else {
                None
            },
            None => None,
        }),
{
    lemma_login_in(upstreams, url);
    if let Some(f) = fallback {
        let one = seq![f];
        assert(one.skip(1) =~= seq![]);
        assert(login_in(one.skip(1), url) is None);
    }
    if first_with_user(upstreams, url, at) {
        assert(upstreams[at].url@ == url);
        let (user, password) = login_in(upstreams, url)->0;
        let other = choose|other: int| #[trigger]
            first_with_user(upstreams, url, other) && user == upstreams[other].username@ && password
                == view_opt(upstreams[other].password);
        if other < at {
            assert(upstreams[other].url@ == url);
        } else if at < other {
            assert(upstreams[at].url@ == url);
        }
    }
    if forall|j: int|
        0 <= j < upstreams.len() ==> (#[trigger] upstreams[j]).url@ != url
            || upstreams[j].username@.len() == 0 {
        if login_in(upstreams, url) is Some {
            let (user, password) = login_in(upstreams, url)->0;
            let other = choose|other: int| #[trigger]
                first_with_user(upstreams, url, other) && user == upstreams[other].username@
                    && password == view_opt(upstreams[other].password);
            assert(upstreams[other].url@ == url);
        }
    }
}

/// What is said of the source of an answer can stand in a header: the host where
/// it can, and nothing else of the address.
pub proof fn law_sources_are_hosts(host: Option<Seq<char>>)
    ensures
        is_header_value(source_of_host(host)),
        host is Some && (forall|i: int|
            0 <= i < host->0.len() ==> ' ' <= #[trigger] host->0[i] && host->0[i] != '\u{7f}')
            ==> source_of_host(host) == host->0,
        host is None ==> source_of_host(host) == "unknown"@,
{
    reveal_strlit("unknown");
    assert forall|i: int| 0 <= i < "unknown"@.len() implies is_header_char(
        #[trigger] "unknown"@[i],
    ) by {}
}

/// The status page says of an upstream what is known of it and no more: whether it
/// is active, degraded or down, how often in a row it failed and how often it
/// answered, and how long ago it was probed.
pub proof fn law_status_page_says_what_is_known(
    out: UpstreamStatusFull,
    health: UpstreamHealth,
    now: Instant,
    kind: Seq<char>,
    authenticated: bool,
)
    requires
        describes(out, health, now, kind, authenticated),
    ensures
        health.status == Status::Active <==> out.status@ == "ACTIVE"@,
        health.status == Status::Degraded <==> out.status@ == "DEGRADED"@,
        health.status == Status::Down <==> out.status@ == "DOWN"@,
        out.url@ == health.url@ && out.priority == health.priority,
        out.consecutive_fails == health.consecutive_fails && out.total_queries
            == health.total_queries && out.ema_latency_ms == health.ema_latency,
        health.last_probe is None <==> out.last_probe_secs_ago is None,
        health.last_probe matches Some(then) && then@ <= now@ ==> out.last_probe_secs_ago->0
            * 1_000_000_000 <= now@ - health.last_probe->0@ < (out.last_probe_secs_ago->0 + 1)
            * 1_000_000_000,
        out.kind@ == kind && out.authenticated == authenticated,
{
    reveal_strlit("ACTIVE");
    reveal_strlit("DEGRADED");
    reveal_strlit("DOWN");
    assert("ACTIVE"@.len() == 6 && "DEGRADED"@.len() == 8 && "DOWN"@.len() == 4);
}

/// The value of a header is one line: no line end stands in it and no zero, while
/// tabs, spaces, what can be printed and what is not ASCII do.
pub proof fn law_header_values_are_one_line(s: Seq<char>)
    ensures
        is_header_value(s) ==> !s.contains('\n') && !s.contains('\r') && !s.contains('\0')
            && !s.contains('\u{7f}'),
        (forall|i: int|
            0 <= i < s.len() ==> #[trigger] s[i] == '\t' || ' ' <= s[i] <= '~' || s[i]
                >= '\u{80}') ==> is_header_value(s),
{
    if is_header_value(s) {
        assert forall|i: int| 0 <= i < s.len() implies s[i] != '\n' && s[i] != '\r' && s[i]
            != '\0' && s[i] != '\u{7f}' by {
            assert(is_header_char(s[i]));
        }
    }
}

/// Setting a header leaves every other as it is, and headers that are the same are
/// there in both or in neither, with one value.
pub proof fn law_other_headers_stay_the_same(
    headers: Map<Seq<char>, String>,
    others: Map<Seq<char>, String>,
    set_name: Seq<char>,
    value: String,
    name: Seq<char>,
)
    ensures
        name != set_name ==> same_header(headers, headers.insert(set_name, value), name),
        same_header(headers, others, name) && headers.contains_key(name) ==> others.contains_key(
            name,
        ) && others[name] == headers[name],
        same_header(headers, others, name) && !headers.contains_key(name) ==> !others.contains_key(
            name,
        ),
{
}

/// Nix is told where the store is, that many questions are welcome exactly where
/// they are, and the priority of this cache.
pub proof fn law_cache_info_says_what_is_wanted(cache_priority: i32)
    ensures
        cache_info(true, cache_priority) == "StoreDir: /nix/store\nWantMassQuery: "@ + "1"@
            + "\nPriority: "@ + signed_decimal(cache_priority as int) + "\n"@,
        cache_info(false, cache_priority) == "StoreDir: /nix/store\nWantMassQuery: "@ + "0"@
            + "\nPriority: "@ + signed_decimal(cache_priority as int) + "\n"@,
{
}

/// An upstream is shown as a bucket exactly where it is asked as one.
pub proof fn law_buckets_are_shown_as_such(
    s3: Map<Seq<char>, crate::s3_config::S3ConfigView>,
    url: Seq<char>,
)
    ensures
        s3.contains_key(url) <==> kind_of(s3, url) == "s3"@,
        !s3.contains_key(url) <==> kind_of(s3, url) == "http"@,
{
    reveal_strlit("s3");
    reveal_strlit("http");
    assert("s3"@.len() == 2 && "http"@.len() == 4);
}

} // verus!
