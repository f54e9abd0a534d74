//! Resolving: from a store hash to the upstream that serves it and the narinfo
//! that is answered.

use vstd::prelude::*;
use vstd::string::*;

use crate::config::TrustMode;
use crate::double::Double;
use crate::filter::{law_rules_look_at_their_fields_alone, rules_allow};
use crate::health::Status;
use crate::nar_url::{
    before_query, canonical_nar_url, canonical_path, law_relative_path_drops_the_host,
    relative_nar_url, relative_path, NarUrlMode,
};
use crate::narinfo::{parsed, NarInfo, NarInfoError, NarInfoErrorView, NarInfoView};
use crate::race::{
    are_levels, group_by_priority, group_views, grouped, says_missing, Race, RaceEvent, RaceVerdict,
    Refusal,
};
use crate::registry::{verified_by, view_bytes, Router};
use crate::rewrite::{fits_a_line, law_rewriting_keeps_every_other_field, rewritten_body};
use crate::routes::{
    copy_bytes, entry_counts, entry_end, in_whole_secs, whole_secs, DbError, RouteEntry, RouteView,
};
use crate::s3::S3Error;
use crate::text::{
    concat2, concat3, debug_text, owned, quoted, split_at_first, trim_start, trim_start_char,
    views,
};
use crate::time::{in_calendar, lifetime, Duration, Timestamp};

verus! {

// ---------------------------------------------------------------------------
// Errors
// ---------------------------------------------------------------------------
/// Why a store hash cannot be resolved.
#[derive(Debug, PartialEq, Eq)]
pub enum RouterError {
    /// No upstream has it.
    NotFound,
    /// No upstream could be asked.
    UpstreamUnavailable,
    /// There is no upstream to ask.
    NoCandidates(String),
    /// The narinfo is not signed by a key of the upstream.
    SignatureVerificationFailed,
    /// The narinfo could not be fetched.
    FetchNarinfo(String),
    /// S3 failed.
    S3(S3Error),
    /// What was fetched is no narinfo.
    ParseNarinfo(NarInfoError),
    /// The database failed.
    Db(DbError),
}

impl RouterError {
    /// What the error says of itself.
    pub open spec fn text(self) -> Seq<char> {
        match self {
            RouterError::NotFound => "not found in any upstream"@,
            RouterError::UpstreamUnavailable => "all upstreams unavailable"@,
            RouterError::NoCandidates(hash) => "no candidates for "@ + debug_text(hash@),
            RouterError::SignatureVerificationFailed => "narinfo signature verification failed"@,
            RouterError::FetchNarinfo(e) => "fetch narinfo: "@ + e@,
            RouterError::S3(e) => "S3 request failed: "@ + e.text(),
            RouterError::ParseNarinfo(e) => "parse narinfo: "@ + e@.text(),
            RouterError::Db(e) => e.text(),
        }
    }

    /// What the error says of itself.
    pub fn message(&self) -> (out: String)
        ensures
            out@ == self.text(),
    {
        match self {
            RouterError::NotFound => owned("not found in any upstream"),
            RouterError::UpstreamUnavailable => owned("all upstreams unavailable"),
            RouterError::NoCandidates(hash) => concat2(
                "no candidates for ",
                quoted(hash.as_str()).as_str(),
            ),
            RouterError::SignatureVerificationFailed => owned(
                "narinfo signature verification failed",
            ),
            RouterError::FetchNarinfo(e) => concat2("fetch narinfo: ", e.as_str()),
            RouterError::S3(e) => concat2("S3 request failed: ", e.message().as_str()),
            RouterError::ParseNarinfo(e) => concat2("parse narinfo: ", e.message().as_str()),
            RouterError::Db(e) => e.message(),
        }
    }
}

/// A winner that fails so is out of the race, which goes on without it.
pub open spec fn is_retryable(err: RouterError) -> bool {
    err is NotFound || err is SignatureVerificationFailed || is_network_like(err)
}

/// A winner that fails so could not be reached.
pub open spec fn is_network_like(err: RouterError) -> bool {
    err is FetchNarinfo || err is S3
}

/// Whether a race goes on after its winner failed so.
pub fn commit_error_is_retryable(err: &RouterError) -> (yes: bool)
    ensures
        yes == is_retryable(*err),
{
    match err {
        RouterError::NotFound | RouterError::SignatureVerificationFailed => true,
        _ => commit_error_is_network_like(err),
    }
}

/// Whether a winner that failed so could not be reached.
pub fn commit_error_is_network_like(err: &RouterError) -> (yes: bool)
    ensures
        yes == is_network_like(*err),
{
    match err {
        RouterError::FetchNarinfo(_) | RouterError::S3(_) => true,
        _ => false,
    }
}

/// Why a winner that failed with `err` is refused; none where the race is over
/// with that error. A narinfo that no key of its upstream signed is refused as one
/// that the filter does not let through.
pub open spec fn refusal_for(err: RouterError) -> Option<Refusal> {
    if !is_retryable(err) {
        None
    } else if is_network_like(err) {
        Some(Refusal::Network)
    } else if err is SignatureVerificationFailed {
        Some(Refusal::Rejected)
    } else {
        Some(Refusal::NotFound)
    }
}

/// Why a winner that failed with `err` is refused; none where the race is over
/// with that error.
pub fn refusal_of(err: &RouterError) -> (out: Option<Refusal>)
    ensures
        out == refusal_for(*err),
{
    if !commit_error_is_retryable(err) {
        return None;
    }
    if commit_error_is_network_like(err) {
        return Some(Refusal::Network);
    }
    match err {
        RouterError::SignatureVerificationFailed => Some(Refusal::Rejected),
        _ => Some(Refusal::NotFound),
    }
}

/// A race for `store_hash` among `candidates`, whose priorities are `priorities`.
/// Where there is nobody to ask, that is the error.
pub fn start_race(candidates: &Vec<String>, priorities: &Vec<i32>, store_hash: &str) -> (out:
    Result<Race, RouterError>)
    requires
        candidates@.len() == priorities@.len(),
    ensures
        match out {
            Ok(race) => {
                &&& candidates@.len() > 0
                &&& race.wf()
                &&& race.left().len() > 0
                &&& !race.found_missing()
                &&& race.attempts() == 0
                &&& exists|levels: Seq<i32>|
                    are_levels(levels, priorities@) && #[trigger] grouped(
                        race.left(),
                        levels,
                        views(candidates@),
                        priorities@,
                    )
            },
            Err(e) => candidates@.len() == 0 && (e matches RouterError::NoCandidates(hash) && hash@
                == store_hash@),
        },
{
    if candidates.len() == 0 {
        return Err(RouterError::NoCandidates(owned(store_hash)));
    }
    let groups: Vec<Vec<String>> = group_by_priority(candidates, priorities);
    proof {
        let levels = choose|levels: Seq<i32>|
            are_levels(levels, priorities@) && #[trigger] grouped(
                group_views(groups@),
                levels,
                views(candidates@),
                priorities@,
            );
        assert(priorities@.contains(priorities@[0]));
        assert(levels.contains(priorities@[0]));
    }
    Ok(Race::new(groups))
}

/// The error of a race that was lost.
pub fn race_error(verdict: RaceVerdict) -> (out: RouterError)
    ensures
        match verdict {
            RaceVerdict::NotFound => out is NotFound,
            RaceVerdict::Unavailable => out is UpstreamUnavailable,
        },
{
    match verdict {
        RaceVerdict::NotFound => RouterError::NotFound,
        RaceVerdict::Unavailable => RouterError::UpstreamUnavailable,
    }
}

/// No upstream has the store path.
pub open spec fn is_miss(err: RouterError) -> bool {
    err is NotFound
}

/// Whether a store path that could not be resolved is remembered as missing: only
/// where no upstream has it.
pub fn remember_missing(err: &RouterError) -> (yes: bool)
    ensures
        yes == is_miss(*err),
{
    match err {
        RouterError::NotFound => true,
        _ => false,
    }
}

// ---------------------------------------------------------------------------
// Fetching
// ---------------------------------------------------------------------------
/// Where the narinfo of `store_hash` is asked for over HTTP.
pub fn narinfo_url(upstream: &str, store_hash: &str) -> (out: String)
    ensures
        out@ == upstream@ + "/"@ + store_hash@ + ".narinfo"@,
{
    let mut out: String = concat3(upstream, "/", store_hash);
    out.append(".narinfo");
    out
}

/// The name of the narinfo of `store_hash` in a bucket.
pub fn narinfo_key(store_hash: &str) -> (out: String)
    ensures
        out@ == store_hash@ + ".narinfo"@,
{
    concat2(store_hash, ".narinfo")
}

/// What is made of a narinfo that `url` sent.
pub open spec fn fetched(router: Router, url: Seq<char>, body: Seq<u8>) -> Result<
    NarInfoView,
    Option<NarInfoErrorView>,
> {
    match parsed(body) {
        Ok(info) => if router.vouches(url, info) {
            Ok(info)
        } else {
            Err(None)
        },
        Err(e) => Err(Some(e)),
    }
}

/// What is made of what `url` sent: it has to be a narinfo, and signed by one of
/// the upstream's keys where it has any.
pub fn accept_narinfo(router: &Router, url: &str, body: &Vec<u8>) -> (out: Result<
    NarInfo,
    RouterError,
>)
    requires
        router.wf(),
    ensures
        match out {
            Ok(info) => fetched(*router, url@, body@) == Ok::<
                NarInfoView,
                Option<NarInfoErrorView>,
            >(info@),
            Err(RouterError::SignatureVerificationFailed) => fetched(*router, url@, body@) == Err::<
                NarInfoView,
                Option<NarInfoErrorView>,
            >(None),
            Err(RouterError::ParseNarinfo(e)) => fetched(*router, url@, body@) == Err::<
                NarInfoView,
                Option<NarInfoErrorView>,
            >(Some(e@)),
            Err(_) => false,
        },
{
    let info: NarInfo = match NarInfo::parse(body.as_slice()) {
        Ok(info) => info,
        Err(e) => return Err(RouterError::ParseNarinfo(e)),
    };
    if router.signature_accepted(url, &info) {
        Ok(info)
    } else {
        Err(RouterError::SignatureVerificationFailed)
    }
}

/// What is made of the answer to the question for a narinfo: `success` says that
/// there is one, `body` is what came with it.
pub fn accept_response(router: &Router, url: &str, success: bool, body: &Vec<u8>) -> (out: Result<
    NarInfo,
    RouterError,
>)
    requires
        router.wf(),
    ensures
        !success ==> (out matches Err(e) && e is NotFound),
        success ==> match out {
            Ok(info) => fetched(*router, url@, body@) == Ok::<
                NarInfoView,
                Option<NarInfoErrorView>,
            >(info@),
            Err(RouterError::SignatureVerificationFailed) => fetched(*router, url@, body@) == Err::<
                NarInfoView,
                Option<NarInfoErrorView>,
            >(None),
            Err(RouterError::ParseNarinfo(e)) => fetched(*router, url@, body@) == Err::<
                NarInfoView,
                Option<NarInfoErrorView>,
            >(Some(e@)),
            Err(_) => false,
        },
{
    if !success {
        return Err(RouterError::NotFound);
    }
    accept_narinfo(router, url, body)
}

/// What is made of a narinfo that the winner `url` of a race sent, under the trust
/// mode `mode`. Without one it has to be signed; with one it only has to be a
/// narinfo, and trust decides what becomes of it.
pub open spec fn won(router: Router, url: Seq<char>, body: Seq<u8>, mode: TrustMode) -> Result<
    NarInfoView,
    Option<NarInfoErrorView>,
> {
    if mode == TrustMode::Off {
        fetched(router, url, body)
    } else {
        match parsed(body) {
            Ok(info) => Ok(info),
            Err(e) => Err(Some(e)),
        }
    }
}

/// What is made of the answer of the winner of a race to the question for its
/// narinfo: `success` says that it has one, `body` is what came with it.
pub fn accept_winner(
    router: &Router,
    url: &str,
    success: bool,
    body: &Vec<u8>,
    mode: TrustMode,
) -> (out: Result<NarInfo, RouterError>)
    requires
        router.wf(),
    ensures
        !success ==> (out matches Err(e) && e is NotFound),
        success ==> match out {
            Ok(info) => won(*router, url@, body@, mode) == Ok::<
                NarInfoView,
                Option<NarInfoErrorView>,
            >(info@),
            Err(RouterError::SignatureVerificationFailed) => won(*router, url@, body@, mode)
                == Err::<NarInfoView, Option<NarInfoErrorView>>(None),
            Err(RouterError::ParseNarinfo(e)) => won(*router, url@, body@, mode) == Err::<
                NarInfoView,
                Option<NarInfoErrorView>,
            >(Some(e@)),
            Err(_) => false,
        },
{
    if mode == TrustMode::Off {
        return accept_response(router, url, success, body);
    }
    if !success {
        return Err(RouterError::NotFound);
    }
    match NarInfo::parse(body.as_slice()) {
        Ok(info) => Ok(info),
        Err(e) => Err(RouterError::ParseNarinfo(e)),
    }
}

/// Where `upstream` keeps the archive that its narinfo gives the address `url`.
pub open spec fn upstream_path(url: Seq<char>) -> Seq<char> {
    "/"@ + relative_path(url)
}

/// Where the upstream of `narinfo` keeps the archive.
pub fn upstream_nar_path(narinfo: &NarInfo) -> (out: String)
    ensures
        out@ == upstream_path(narinfo@.url),
{
    concat2("/", relative_nar_url(narinfo.url.as_str()))
}

/// A narinfo is accepted only where a key of its upstream signed it, or its
/// upstream has no keys.
pub proof fn law_only_signed_narinfos_are_accepted(
    router: Router,
    url: Seq<char>,
    body: Seq<u8>,
    keys: Seq<Seq<char>>,
)
    requires
        router.keys_of(url) == Some(keys),
        fetched(router, url, body) is Ok,
    ensures
        crate::registry::verified_by_any(fetched(router, url, body)->Ok_0, keys),
{
}

// ---------------------------------------------------------------------------
// Committing
// ---------------------------------------------------------------------------
/// What a store hash was resolved to.
pub struct ResolveResult {
    pub url: String,
    pub latency_ms: Double,
    pub cache_hit: bool,
    pub narinfo_bytes: Option<Vec<u8>>,
}

/// The contents of a result.
pub struct ResolveView {
    pub url: Seq<char>,
    pub latency_ms: Double,
    pub cache_hit: bool,
    pub narinfo_bytes: Option<Seq<u8>>,
}

impl View for ResolveResult {
    type V = ResolveView;

    open spec fn view(&self) -> ResolveView {
        ResolveView {
            url: self.url@,
            latency_ms: self.latency_ms,
            cache_hit: self.cache_hit,
            narinfo_bytes: view_bytes(self.narinfo_bytes),
        }
    }
}

impl Clone for ResolveResult {
    fn clone(&self) -> (out: Self)
        ensures
            out@ == self@,
    {
        ResolveResult {
            url: self.url.clone(),
            latency_ms: self.latency_ms,
            cache_hit: self.cache_hit,
            narinfo_bytes: copy_bytes(&self.narinfo_bytes),
        }
    }
}

/// The path under which the archive is asked for here, once a narinfo of
/// `upstream` that gives it the address `url` has been answered.
pub open spec fn lookup_key(url: Seq<char>, store_hash: Seq<char>, mode: NarUrlMode) -> Seq<char> {
    match mode {
        NarUrlMode::ToSelf => canonical_path(url, store_hash),
        NarUrlMode::Keep | NarUrlMode::ToUpstream => before_query(trim_start(url, '/')),
    }
}

/// The path under which the archive is asked for here. The query of an address
/// belongs to the fetch, not to the key.
pub fn nar_lookup_key(url: &str, store_hash: &str, mode: NarUrlMode) -> (out: String)
    ensures
        out@ == lookup_key(url@, store_hash@, mode),
{
    match mode {
        NarUrlMode::ToSelf => canonical_nar_url(url, store_hash),
        NarUrlMode::Keep | NarUrlMode::ToUpstream => {
            let path: String = trim_start_char(url, '/');
            match split_at_first(path.as_str(), "?") {
                Some((before, _)) => before,
                None => path,
            }
        },
    }
}

/// The winner of a race and what is known of its latency.
pub struct Winner {
    pub url: String,
    pub latency_ms: Double,
    /// The average of its latency with what was known; none where nothing was.
    pub blended: Option<Double>,
}

/// The route that a winner's narinfo makes.
pub open spec fn route_for(
    router: Router,
    winner: Winner,
    store_hash: Seq<char>,
    info: NarInfoView,
    body: Seq<u8>,
    now: int,
    route_ttl: nat,
) -> RouteView {
    RouteView {
        store_path: store_hash,
        upstream_url: winner.url@,
        latency_ms: winner.latency_ms,
        latency_ema: match winner.blended {
            Some(ema) => ema,
            None => winner.latency_ms,
        },
        last_verified: now,
        query_count: 1,
        failure_count: 0,
        ttl: now + lifetime(route_ttl),
        nar_hash: info.nar_hash,
        nar_size: info.nar_size as u64,
        nar_url: lookup_key(info.url, store_hash, router.mode_of(winner.url@)),
        upstream_nar_url: upstream_path(info.url),
        narinfo_bytes: Some(body),
    }
}

/// What a winner's narinfo is answered with.
pub open spec fn answer_of(
    router: Router,
    winner: Winner,
    store_hash: Seq<char>,
    body: Seq<u8>,
) -> ResolveView {
    ResolveView {
        url: winner.url@,
        latency_ms: winner.latency_ms,
        cache_hit: false,
        narinfo_bytes: router.answer(winner.url@, store_hash, Some(body)),
    }
}

/// What becomes of a winner.
pub enum CommitOutcome {
    /// It gets the route, and its narinfo is answered.
    Accepted(RouteEntry, ResolveResult),
    /// Its filter does not let the path through.
    Rejected,
}

/// Makes a winner's narinfo the route of `store_hash`, unless its filter does not
/// let it through.
pub fn commit_winner(
    router: &Router,
    winner: &Winner,
    store_hash: &str,
    narinfo: &NarInfo,
    body: &Vec<u8>,
    now: &Timestamp,
    route_ttl: Duration,
) -> (out: CommitOutcome)
    requires
        router.wf(),
        in_calendar(now@ + lifetime(route_ttl@)),
    ensures
        match out {
            CommitOutcome::Accepted(route, result) => {
                &&& router.allows(winner.url@, narinfo@)
                &&& route@ == route_for(
                    *router,
                    *winner,
                    store_hash@,
                    narinfo@,
                    body@,
                    now@,
                    route_ttl@,
                )
                &&& result@ == answer_of(*router, *winner, store_hash@, body@)
            },
            CommitOutcome::Rejected => !router.allows(winner.url@, narinfo@),
        },
{
    let url: &str = winner.url.as_str();
    if !router.upstream_allows_narinfo(url, narinfo) {
        return CommitOutcome::Rejected;
    }
    let mut kept: Vec<u8> = Vec::new();
    kept.extend_from_slice(body.as_slice());
    assert(kept@ =~= body@);
    let stored: Option<Vec<u8>> = Some(kept);
    let result = ResolveResult {
        url: winner.url.clone(),
        latency_ms: winner.latency_ms,
        cache_hit: false,
        narinfo_bytes: router.response_narinfo_bytes(url, store_hash, &stored),
    };
    let route = RouteEntry {
        store_path: owned(store_hash),
        upstream_url: winner.url.clone(),
        latency_ms: winner.latency_ms,
        latency_ema: match winner.blended {
            Some(ema) => ema,
            None => winner.latency_ms,
        },
        last_verified: *now,
        query_count: 1,
        failure_count: 0,
        ttl: now.expiry(route_ttl),
        nar_hash: narinfo.nar_hash.clone(),
        nar_size: narinfo.nar_size,
        nar_url: nar_lookup_key(narinfo.url.as_str(), store_hash, router.nar_url_mode(url)),
        upstream_nar_url: upstream_nar_path(narinfo),
        narinfo_bytes: stored,
    };
    CommitOutcome::Accepted(route, result)
}

/// What a store hash resolves to through the cache of last resort: neither its
/// filter nor the route cache has a say.
pub fn fallback_result(
    router: &Router,
    url: &str,
    store_hash: &str,
    body: &Option<Vec<u8>>,
    latency_ms: Double,
) -> (out: ResolveResult)
    requires
        router.wf(),
    ensures
        out@ == (ResolveView {
            url: url@,
            latency_ms,
            cache_hit: false,
            narinfo_bytes: router.answer(url@, store_hash@, view_bytes(*body)),
        }),
{
    ResolveResult {
        url: owned(url),
        latency_ms,
        cache_hit: false,
        narinfo_bytes: router.response_narinfo_bytes(url, store_hash, body),
    }
}

// ---------------------------------------------------------------------------
// Cached routes
// ---------------------------------------------------------------------------
/// The narinfo that a cached route holds passes the filter of its upstream.
pub open spec fn cached_passes(router: Router, url: Seq<char>, bytes: Option<Seq<u8>>) -> bool {
    router.rules_of(url) is None || (bytes matches Some(b) && match parsed(b) {
        Ok(info) => router.allows(url, info),
        Err(_) => false,
    })
}

/// Whether a cached route can be used as it is. Where not, its narinfo has to be
/// fetched and checked again.
pub fn cached_route_passes(router: &Router, url: &str, bytes: &Option<Vec<u8>>) -> (yes: bool)
    requires
        router.wf(),
    ensures
        yes == cached_passes(*router, url@, view_bytes(*bytes)),
{
    if !router.has_filter(url) {
        return true;
    }
    match bytes {
        Some(b) => match NarInfo::parse(b.as_slice()) {
            Ok(info) => router.upstream_allows_narinfo(url, &info),
            Err(_) => false,
        },
        None => false,
    }
}

/// What the check of a cached route comes to.
pub enum CachedFilterCheck {
    /// It may be used, with this narinfo.
    Accepted(Option<Vec<u8>>),
    /// It may not.
    Rejected,
}

/// Checks a cached route against the filter of its upstream: by the narinfo that
/// it holds, or else by `refetched`, which is what asking the upstream again gave,
/// if anything.
pub fn cached_route_filter_check(
    router: &Router,
    url: &str,
    bytes: &Option<Vec<u8>>,
    refetched: Option<(Vec<u8>, NarInfo)>,
) -> (out: CachedFilterCheck)
    requires
        router.wf(),
    ensures
        match out {
            CachedFilterCheck::Accepted(b) => if cached_passes(*router, url@, view_bytes(*bytes)) {
                view_bytes(b) == view_bytes(*bytes)
            } else {
                refetched matches Some((body, info)) && router.allows(url@, info@) && view_bytes(b)
                    == Some(body@)
            },
            CachedFilterCheck::Rejected => !cached_passes(*router, url@, view_bytes(*bytes)) && (
            refetched matches Some((body, info)) ==> !router.allows(url@, info@)),
        },
{
    if cached_route_passes(router, url, bytes) {
        return CachedFilterCheck::Accepted(copy_bytes(bytes));
    }
    match refetched {
        Some((body, info)) => if router.upstream_allows_narinfo(url, &info) {
            CachedFilterCheck::Accepted(Some(body))
        } else {
            CachedFilterCheck::Rejected
        },
        None => CachedFilterCheck::Rejected,
    }
}

/// A result in memory whose check gave `checked`: what it becomes, and whether
/// memory is to be told.
pub fn refresh_result(
    router: &Router,
    cached: &ResolveResult,
    store_hash: &str,
    checked: &Option<Vec<u8>>,
) -> (out: (ResolveResult, bool))
    requires
        router.wf(),
    ensures
        out.1 == (cached@.narinfo_bytes is None),
        out.0@ == (ResolveView {
            cache_hit: true,
            narinfo_bytes: if cached@.narinfo_bytes is Some {
                cached@.narinfo_bytes
            } else {
                router.answer(cached@.url, store_hash@, view_bytes(*checked))
            },
            ..cached@
        }),
{
    let mut result: ResolveResult = cached.clone();
    result.cache_hit = true;
    if result.narinfo_bytes.is_some() {
        return (result, false);
    }
    result.narinfo_bytes = router.response_narinfo_bytes(
        cached.url.as_str(),
        store_hash,
        checked,
    );
    (result, true)
}

/// A route of the database counts: it has not expired, and its upstream is not
/// known to be down.
pub open spec fn route_counts(ttl: int, now: int, status: Option<Status>) -> bool {
    now < ttl && status != Some(Status::Down)
}

/// Whether a route of the database counts.
pub fn stored_route_counts(route: &RouteEntry, now: &Timestamp, status: Option<Status>) -> (yes:
    bool)
    ensures
        yes == route_counts(route@.ttl, now@, status),
{
    route.is_valid(now) && match status {
        Some(status) => status != Status::Down,
        None => true,
    }
}

/// A route of the database whose check gave `checked`: what it resolves to, and
/// whether the database is to be told of the narinfo that it did not have.
pub fn use_stored_route(
    router: &Router,
    route: &mut RouteEntry,
    store_hash: &str,
    checked: Option<Vec<u8>>,
) -> (out: (ResolveResult, bool))
    requires
        router.wf(),
    ensures
        out.1 == (old(route)@.narinfo_bytes is None && checked is Some),
        final(route)@ == if out.1 {
            RouteView { narinfo_bytes: view_bytes(checked), ..old(route)@ }
        } else {
            old(route)@
        },
        out.0@ == (ResolveView {
            url: old(route)@.upstream_url,
            latency_ms: old(route)@.latency_ema,
            cache_hit: true,
            narinfo_bytes: router.answer(
                old(route)@.upstream_url,
                store_hash@,
                final(route)@.narinfo_bytes,
            ),
        }),
{
    let save: bool = route.narinfo_bytes.is_none() && checked.is_some();
    if save {
        route.narinfo_bytes = checked;
    }
    let result = ResolveResult {
        url: route.upstream_url.clone(),
        latency_ms: route.latency_ema,
        cache_hit: true,
        narinfo_bytes: router.response_narinfo_bytes(
            route.upstream_url.as_str(),
            store_hash,
            &route.narinfo_bytes,
        ),
    };
    (result, save)
}

/// What a refetched narinfo says, beside its text.
pub open spec fn refetched_view(refetched: Option<(Vec<u8>, NarInfo)>) -> Option<
    (Seq<u8>, NarInfoView),
> {
    match refetched {
        Some((body, info)) => Some((body@, info@)),
        None => None,
    }
}

/// The narinfo with which a cached route may be used, or none if it may not.
pub open spec fn checked_bytes(
    router: Router,
    url: Seq<char>,
    bytes: Option<Seq<u8>>,
    refetched: Option<(Seq<u8>, NarInfoView)>,
) -> Option<Option<Seq<u8>>> {
    if cached_passes(router, url, bytes) {
        Some(bytes)
    } else {
        match refetched {
            Some((body, info)) => if router.allows(url, info) {
                Some(Some(body))
            } else {
                None
            },
            None => None,
        }
    }
}

/// The upstream and the narinfo of the cached route that is looked at: memory goes
/// before the database, whose routes have to count.
pub open spec fn cached_candidate(
    memory: Option<ResolveView>,
    stored: Option<RouteView>,
    now: int,
    status: Option<Status>,
) -> Option<(Seq<char>, Option<Seq<u8>>)> {
    match memory {
        Some(m) => Some((m.url, m.narinfo_bytes)),
        None => match stored {
            Some(r) => if route_counts(r.ttl, now, status) {
                Some((r.upstream_url, r.narinfo_bytes))
            } else {
                None
            },
            None => None,
        },
    }
}

/// The upstream that has to be asked for its narinfo again before a cached route
/// can be used, if any.
pub fn upstream_to_ask_again(
    router: &Router,
    memory: Option<&ResolveResult>,
    stored: &Option<RouteEntry>,
    now: &Timestamp,
    status: Option<Status>,
) -> (out: Option<String>)
    requires
        router.wf(),
    ensures
        match cached_candidate(memory_view(memory), stored_view(*stored), now@, status) {
            Some((url, bytes)) => if cached_passes(*router, url, bytes) {
                out is None
            } else {
                out matches Some(u) && u@ == url
            },
            None => out is None,
        },
{
    match memory {
        Some(m) => if cached_route_passes(router, m.url.as_str(), &m.narinfo_bytes) {
            None
        } else {
            Some(owned(m.url.as_str()))
        },
        None => match stored {
            Some(r) => if !stored_route_counts(r, now, status) || cached_route_passes(
                router,
                r.upstream_url.as_str(),
                &r.narinfo_bytes,
            ) {
                None
            } else {
                Some(owned(r.upstream_url.as_str()))
            },
            None => None,
        },
    }
}

/// The contents of a result in memory.
pub open spec fn memory_view(memory: Option<&ResolveResult>) -> Option<ResolveView> {
    match memory {
        Some(m) => Some(m@),
        None => None,
    }
}

/// The contents of a route of the database.
pub open spec fn stored_view(stored: Option<RouteEntry>) -> Option<RouteView> {
    match stored {
        Some(r) => Some(r@),
        None => None,
    }
}

/// What a cached route comes to.
pub enum CachedOutcome {
    /// It is answered. `remember` says that memory is to be told, and `save` is
    /// what the database is to be told.
    Hit { result: ResolveResult, remember: bool, save: Option<RouteEntry> },
    /// Memory is to forget what it has, and there is no cached route.
    Forget,
    /// There is no cached route.
    Miss,
}

/// The contents of an outcome.
pub enum CachedOutcomeView {
    Hit { result: ResolveView, remember: bool, save: Option<RouteView> },
    Forget,
    Miss,
}

impl View for CachedOutcome {
    type V = CachedOutcomeView;

    open spec fn view(&self) -> CachedOutcomeView {
        match *self {
            CachedOutcome::Hit { result, remember, save } => CachedOutcomeView::Hit {
                result: result@,
                remember,
                save: stored_view(save),
            },
            CachedOutcome::Forget => CachedOutcomeView::Forget,
            CachedOutcome::Miss => CachedOutcomeView::Miss,
        }
    }
}

/// What the result `m` in memory comes to.
pub open spec fn outcome_in_memory(
    router: Router,
    m: ResolveView,
    store_hash: Seq<char>,
    refetched: Option<(Seq<u8>, NarInfoView)>,
) -> CachedOutcomeView {
    match checked_bytes(router, m.url, m.narinfo_bytes, refetched) {
        Some(bytes) => CachedOutcomeView::Hit {
            result: ResolveView {
                cache_hit: true,
                narinfo_bytes: if m.narinfo_bytes is Some {
                    m.narinfo_bytes
                } else {
                    router.answer(m.url, store_hash, bytes)
                },
                ..m
            },
            remember: m.narinfo_bytes is None,
            save: None,
        },
        None => CachedOutcomeView::Forget,
    }
}

/// What the route `r` of the database comes to.
pub open spec fn outcome_in_database(
    router: Router,
    r: RouteView,
    store_hash: Seq<char>,
    refetched: Option<(Seq<u8>, NarInfoView)>,
) -> CachedOutcomeView {
    match checked_bytes(router, r.upstream_url, r.narinfo_bytes, refetched) {
        Some(bytes) => CachedOutcomeView::Hit {
            result: ResolveView {
                url: r.upstream_url,
                latency_ms: r.latency_ema,
                cache_hit: true,
                narinfo_bytes: router.answer(
                    r.upstream_url,
                    store_hash,
                    if r.narinfo_bytes is Some {
                        r.narinfo_bytes
                    } else {
                        bytes
                    },
                ),
            },
            remember: true,
            save: if r.narinfo_bytes is None && bytes is Some {
                Some(RouteView { narinfo_bytes: bytes, ..r })
            } else {
                None
            },
        },
        None => CachedOutcomeView::Miss,
    }
}

/// What a cached route comes to: `memory` is what memory has, `stored` what the
/// database has, which counts where memory has nothing.
pub open spec fn cached_outcome(
    router: Router,
    memory: Option<ResolveView>,
    stored: Option<RouteView>,
    now: int,
    status: Option<Status>,
    store_hash: Seq<char>,
    refetched: Option<(Seq<u8>, NarInfoView)>,
) -> CachedOutcomeView {
    match memory {
        Some(m) => outcome_in_memory(router, m, store_hash, refetched),
        None => match stored {
            Some(r) => if route_counts(r.ttl, now, status) {
                outcome_in_database(router, r, store_hash, refetched)
            } else {
                CachedOutcomeView::Miss
            },
            None => CachedOutcomeView::Miss,
        },
    }
}

/// What the cached route of `store_hash` comes to: `memory` is what memory has,
/// `stored` what the database has, `status` what is known of the upstream of that,
/// and `refetched` what asking the upstream again gave, if anything. What memory
/// has and may not be used is not looked for in the database.
pub fn valid_cached_route(
    router: &Router,
    memory: Option<&ResolveResult>,
    stored: Option<RouteEntry>,
    now: &Timestamp,
    status: Option<Status>,
    store_hash: &str,
    refetched: Option<(Vec<u8>, NarInfo)>,
) -> (out: CachedOutcome)
    requires
        router.wf(),
    ensures
        out@ == cached_outcome(
            *router,
            memory_view(memory),
            stored_view(stored),
            now@,
            status,
            store_hash@,
            refetched_view(refetched),
        ),
{
    if let Some(m) = memory {
        return match cached_route_filter_check(
            router,
            m.url.as_str(),
            &m.narinfo_bytes,
            refetched,
        ) {
            CachedFilterCheck::Accepted(bytes) => {
                let (result, remember) = refresh_result(router, m, store_hash, &bytes);
                CachedOutcome::Hit { result, remember, save: None }
            },
            CachedFilterCheck::Rejected => CachedOutcome::Forget,
        };
    }
    match stored {
        Some(mut route) => {
            if !stored_route_counts(&route, now, status) {
                return CachedOutcome::Miss;
            }
            match cached_route_filter_check(
                router,
                route.upstream_url.as_str(),
                &route.narinfo_bytes,
                refetched,
            ) {
                CachedFilterCheck::Accepted(bytes) => {
                    let (result, save) = use_stored_route(router, &mut route, store_hash, bytes);
                    CachedOutcome::Hit {
                        result,
                        remember: true,
                        save: if save {
                            Some(route)
                        } else {
                            None
                        },
                    }
                },
                CachedFilterCheck::Rejected => CachedOutcome::Miss,
            }
        },
        None => CachedOutcome::Miss,
    }
}

/// A filter that came after a route was cached is obeyed: a cached route whose
/// narinfo it does not let through is used only where it lets the narinfo through
/// that the upstream has now.
pub proof fn law_new_filters_bind_cached_routes(
    router: Router,
    url: Seq<char>,
    body: Seq<u8>,
    info: NarInfoView,
    refetched: Option<(Seq<u8>, NarInfoView)>,
)
    requires
        parsed(body) == Ok::<NarInfoView, NarInfoErrorView>(info),
        !router.allows(url, info),
    ensures
        checked_bytes(router, url, Some(body), refetched) is Some ==> (refetched matches Some(
            (now, now_info),
        ) && router.allows(url, now_info)),
{
}

// ---------------------------------------------------------------------------
// The way to a result
// ---------------------------------------------------------------------------
/// Where a resolution stands.
#[derive(Debug, Clone, Copy, PartialEq, Eq, Structural)]
pub enum ResolveStep {
    /// Looks whether memory says that the path is missing.
    CheckMemory,
    /// Looks whether the database says so.
    CheckNegative,
    /// Looks for a cached route.
    CheckCached,
    /// Waits for its turn among the requests for the same path.
    TakeTurn,
    /// Looks for a cached route that came while waiting.
    CheckCachedAgain,
    /// Races the upstreams.
    Race,
    /// Over, with what was found.
    Found,
    /// Over: the path is missing.
    Missing,
    /// Over, with an error.
    Failed,
}

/// What a step found.
#[derive(Debug, Clone, Copy, PartialEq, Eq, Structural)]
pub enum StepAnswer {
    Yes,
    No,
    Error,
}

/// What follows `step`, which answered `answer`.
pub open spec fn resolve_after(step: ResolveStep, answer: StepAnswer) -> ResolveStep {
    match (step, answer) {
        (ResolveStep::CheckMemory, StepAnswer::Yes) => ResolveStep::Missing,
        (ResolveStep::CheckMemory, _) => ResolveStep::CheckNegative,
        (ResolveStep::CheckNegative, StepAnswer::Yes) => ResolveStep::Missing,
        (ResolveStep::CheckNegative, StepAnswer::No) => ResolveStep::CheckCached,
        (ResolveStep::CheckCached, StepAnswer::Yes) => ResolveStep::Found,
        (ResolveStep::CheckCached, StepAnswer::No) => ResolveStep::TakeTurn,
        (ResolveStep::TakeTurn, _) => ResolveStep::CheckCachedAgain,
        (ResolveStep::CheckCachedAgain, StepAnswer::Yes) => ResolveStep::Found,
        (ResolveStep::CheckCachedAgain, StepAnswer::No) => ResolveStep::Race,
        (ResolveStep::Race, StepAnswer::Yes) => ResolveStep::Found,
        (ResolveStep::Race, StepAnswer::No) => ResolveStep::Missing,
        (ResolveStep::Found, _) => ResolveStep::Found,
        (ResolveStep::Missing, _) => ResolveStep::Missing,
        (_, _) => ResolveStep::Failed,
    }
}

/// What follows `step`, which answered `answer`.
pub fn next_resolve_step(step: ResolveStep, answer: StepAnswer) -> (out: ResolveStep)
    ensures
        out == resolve_after(step, answer),
{
    match (step, answer) {
        (ResolveStep::CheckMemory, StepAnswer::Yes) => ResolveStep::Missing,
        (ResolveStep::CheckMemory, _) => ResolveStep::CheckNegative,
        (ResolveStep::CheckNegative, StepAnswer::Yes) => ResolveStep::Missing,
        (ResolveStep::CheckNegative, StepAnswer::No) => ResolveStep::CheckCached,
        (ResolveStep::CheckCached, StepAnswer::Yes) => ResolveStep::Found,
        (ResolveStep::CheckCached, StepAnswer::No) => ResolveStep::TakeTurn,
        (ResolveStep::TakeTurn, _) => ResolveStep::CheckCachedAgain,
        (ResolveStep::CheckCachedAgain, StepAnswer::Yes) => ResolveStep::Found,
        (ResolveStep::CheckCachedAgain, StepAnswer::No) => ResolveStep::Race,
        (ResolveStep::Race, StepAnswer::Yes) => ResolveStep::Found,
        (ResolveStep::Race, StepAnswer::No) => ResolveStep::Missing,
        (ResolveStep::Found, _) => ResolveStep::Found,
        (ResolveStep::Missing, _) => ResolveStep::Missing,
        (_, _) => ResolveStep::Failed,
    }
}

/// Where a resolution stands that began at `step` and whose steps found `answers`.
pub open spec fn resolve_after_all(step: ResolveStep, answers: Seq<StepAnswer>) -> ResolveStep
    decreases answers.len(),
{
    if answers.len() == 0 {
        step
    } else {
        resolve_after(resolve_after_all(step, answers.drop_last()), answers.last())
    }
}

/// Where the filter of its upstream lets a narinfo through, it lets the answer
/// through that is made of it.
proof fn lemma_answer_passes(
    router: Router,
    url: Seq<char>,
    store_hash: Seq<char>,
    body: Seq<u8>,
    info: NarInfoView,
)
    requires
        parsed(body) == Ok::<NarInfoView, NarInfoErrorView>(info),
        router.allows(url, info),
        router.rules_of(url) is Some ==> fits_a_line(url, store_hash, router.mode_of(url)),
    ensures
        cached_passes(router, url, router.answer(url, store_hash, Some(body))),
{
    if let Some(rules) = router.rules_of(url) {
        let mode = router.mode_of(url);
        law_rewriting_keeps_every_other_field(body, url, store_hash, mode);
        let answered = parsed(rewritten_body(body, url, store_hash, mode))->Ok_0;
        law_rules_look_at_their_fields_alone(rules, info, answered);
    }
}

/// What a race has resolved is answered again, as a cache hit, from the same
/// upstream and with the same narinfo: by what memory has of it, or else by the
/// route in the database, while that counts. The filter of the upstream is still
/// the one that let the narinfo through. No upstream is asked and none is raced.
pub proof fn law_second_answer_is_a_cache_hit(
    router: Router,
    winner: Winner,
    store_hash: Seq<char>,
    body: Seq<u8>,
    info: NarInfoView,
    then: int,
    route_ttl: nat,
    in_memory: bool,
    now: int,
    status: Option<Status>,
)
    requires
        parsed(body) == Ok::<NarInfoView, NarInfoErrorView>(info),
        router.allows(winner.url@, info),
        router.rules_of(winner.url@) is Some ==> fits_a_line(
            winner.url@,
            store_hash,
            router.mode_of(winner.url@),
        ),
        in_memory || route_counts(
            whole_secs(then + lifetime(route_ttl)) * 1_000_000_000,
            now,
            status,
        ),
    ensures
        ({
            let first = answer_of(router, winner, store_hash, body);
            let memory = if in_memory {
                Some(first)
            } else {
                None
            };
            let stored = Some(
                in_whole_secs(route_for(router, winner, store_hash, info, body, then, route_ttl)),
            );
            &&& cached_candidate(memory, stored, now, status) matches Some((url, bytes))
                && cached_passes(router, url, bytes)
            &&& cached_outcome(router, memory, stored, now, status, store_hash, None) matches
                CachedOutcomeView::Hit { result: second, remember: _, save } && second.cache_hit
                && second.url == first.url && second.narinfo_bytes == first.narinfo_bytes && save
                is None
            &&& resolve_after_all(
                ResolveStep::CheckMemory,
                seq![StepAnswer::No, StepAnswer::No, StepAnswer::Yes],
            ) == ResolveStep::Found
        }),
{
    lemma_answer_passes(router, winner.url@, store_hash, body, info);
    let answers = seq![StepAnswer::No, StepAnswer::No, StepAnswer::Yes];
    assert(answers.drop_last() =~= seq![StepAnswer::No, StepAnswer::No]);
    assert(answers.drop_last().drop_last() =~= seq![StepAnswer::No]);
    assert(answers.drop_last().drop_last().drop_last() =~= seq![]);
    reveal_with_fuel(resolve_after_all, 4);
}

/// Until when memory holds a store path for missing that a resolution at `now` has
/// failed to find for the reason `err`, where it was held for missing until
/// `before` and misses are remembered for `ttl`.
pub open spec fn missing_until(before: Option<int>, err: RouterError, now: int, ttl: nat) -> Option<
    int,
> {
    if is_miss(err) {
        Some(now + ttl)
    } else {
        before
    }
}

/// What memory answers at `now` when asked for a store path that it holds for
/// missing until `until`.
pub open spec fn memory_answer(until: Option<int>, now: int) -> StepAnswer {
    match until {
        Some(end) => if now < end {
            StepAnswer::Yes
        } else {
            StepAnswer::No
        },
        None => StepAnswer::No,
    }
}

proof fn lemma_missing_stays(answers: Seq<StepAnswer>)
    requires
        answers.len() > 0,
        answers[0] == StepAnswer::Yes,
    ensures
        resolve_after_all(ResolveStep::CheckMemory, answers) == ResolveStep::Missing,
    decreases answers.len(),
{
    if answers.len() == 1 {
        assert(resolve_after_all(ResolveStep::CheckMemory, answers.drop_last())
            == ResolveStep::CheckMemory);
    } else {
        lemma_missing_stays(answers.drop_last());
    }
}

/// A miss is remembered: within `ttl` of it a resolution ends with the path
/// missing at its first step, before any upstream could be asked, whatever the
/// later steps would find. No other failure is remembered.
pub proof fn law_misses_are_remembered(
    before: Option<int>,
    err: RouterError,
    now: int,
    ttl: nat,
    later: int,
    answers: Seq<StepAnswer>,
)
    requires
        answers.len() > 0,
        answers[0] == memory_answer(missing_until(before, err, now, ttl), later),
    ensures
        is_miss(err) && later < now + ttl ==> resolve_after_all(ResolveStep::CheckMemory, answers)
            == ResolveStep::Missing,
        !is_miss(err) ==> answers[0] == memory_answer(before, later),
{
    if is_miss(err) && later < now + ttl {
        lemma_missing_stays(answers);
    }
}

/// The database remembers a miss too, to the second: while its entry counts, a
/// resolution ends with the path missing before any upstream could be asked.
pub proof fn law_stored_misses_are_remembered(
    now: int,
    ttl: nat,
    later: int,
    memory: StepAnswer,
    negative: StepAnswer,
)
    requires
        later + 1_000_000_000 <= now + lifetime(ttl),
        negative == StepAnswer::Yes <==> entry_counts(entry_end(now, ttl), later),
    ensures
        resolve_after(resolve_after(ResolveStep::CheckMemory, memory), negative)
            == ResolveStep::Missing,
{
}

/// Upstreams are raced only for a path that neither memory nor the database calls
/// missing and that no cached route leads to, before and after the wait for its
/// turn.
pub proof fn law_race_is_the_last_resort(
    memory: StepAnswer,
    negative: StepAnswer,
    cached: StepAnswer,
    turn: StepAnswer,
    again: StepAnswer,
)
    ensures
        resolve_after(
            resolve_after(
                resolve_after(
                    resolve_after(resolve_after(ResolveStep::CheckMemory, memory), negative),
                    cached,
                ),
                turn,
            ),
            again,
        ) == ResolveStep::Race ==> memory != StepAnswer::Yes && negative == StepAnswer::No && cached
            == StepAnswer::No && again == StepAnswer::No,
{
}

// ---------------------------------------------------------------------------
// What resolutions keep to
// ---------------------------------------------------------------------------
/// A race goes on after its winner failed where the winner does not have the
/// narinfo, where no key of it signed it, and where it could not be reached; any
/// other failure ends the race. Only a winner that could not be reached leaves it
/// open whether the path exists.
pub proof fn law_a_failed_winner_is_out_of_the_race(err: RouterError, winner: Seq<char>)
    ensures
        is_retryable(err) <==> refusal_for(err) is Some,
        refusal_for(err) is None <==> (err is UpstreamUnavailable || err is NoCandidates
            || err is ParseNarinfo || err is Db),
        refusal_for(err) matches Some(refusal) ==> {
            &&& says_missing(RaceEvent::Refused(winner, refusal)) <==> err is NotFound
                || err is SignatureVerificationFailed
            &&& refusal == Refusal::Network <==> err is FetchNarinfo || err is S3
            &&& refusal == Refusal::Rejected <==> err is SignatureVerificationFailed
        },
        is_network_like(err) <==> err is FetchNarinfo || err is S3,
        is_miss(err) <==> err is NotFound,
{
}

/// A narinfo is taken as it was sent, and refused only for cause: what parses and
/// is signed by a key of its upstream, or comes from one without keys, is accepted
/// and nothing else is; what does not parse is refused with the parser's error.
/// Under a trust mode a winner's narinfo only has to parse.
pub proof fn law_narinfos_are_refused_for_cause_only(
    router: Router,
    url: Seq<char>,
    body: Seq<u8>,
    mode: TrustMode,
)
    ensures
        match parsed(body) {
            Ok(info) => {
                &&& fetched(router, url, body) == if router.keys_of(url) is None || exists|i: int|
                    0 <= i < router.keys_of(url)->0.len() && #[trigger] verified_by(
                        info,
                        router.keys_of(url)->0[i],
                    ) {
                    Ok::<NarInfoView, Option<NarInfoErrorView>>(info)
                } else {
                    Err::<NarInfoView, Option<NarInfoErrorView>>(None)
                }
                &&& mode != TrustMode::Off ==> won(router, url, body, mode) == Ok::<
                    NarInfoView,
                    Option<NarInfoErrorView>,
                >(info)
            },
            Err(e) => {
                &&& fetched(router, url, body) == Err::<NarInfoView, Option<NarInfoErrorView>>(
                    Some(e),
                )
                &&& won(router, url, body, mode) == Err::<NarInfoView, Option<NarInfoErrorView>>(
                    Some(e),
                )
            },
        },
        mode == TrustMode::Off ==> won(router, url, body, mode) == fetched(router, url, body),
{
}

/// An upstream is asked for its archive at the path that its narinfo gives, with
/// one slash before it, whichever host the narinfo names.
pub proof fn law_archives_are_asked_for_where_they_are(
    scheme: Seq<char>,
    host: Seq<char>,
    path: Seq<char>,
)
    requires
        !scheme.contains(':'),
        !host.contains('/'),
        path.len() > 0 && path[0] != '/' && !path.contains(':'),
    ensures
        upstream_path(scheme + "://"@ + host + "/"@ + path) == "/"@ + path,
        upstream_path("/"@ + path) == "/"@ + path,
        upstream_path(path) == "/"@ + path,
{
    law_relative_path_drops_the_host(scheme, host, path, path);
}

/// The route that a winner gets holds what its narinfo says of the archive and the
/// narinfo as it was sent; it counts until the lifetime of routes is over, however
/// the upstream then fares but down, and the answer comes from the winner.
pub proof fn law_a_winner_gets_the_route(
    router: Router,
    winner: Winner,
    store_hash: Seq<char>,
    info: NarInfoView,
    body: Seq<u8>,
    now: int,
    route_ttl: nat,
    later: int,
    status: Option<Status>,
)
    ensures
        ({
            let route = route_for(router, winner, store_hash, info, body, now, route_ttl);
            let answer = answer_of(router, winner, store_hash, body);
            &&& route.store_path == store_hash
            &&& route.upstream_url == winner.url@ && answer.url == winner.url@
            &&& route.nar_hash == info.nar_hash && route.nar_size == info.nar_size as u64
            &&& route.narinfo_bytes == Some(body)
            &&& route.last_verified == now
            &&& route.failure_count == 0 && route.query_count == 1
            &&& route.latency_ms == winner.latency_ms && answer.latency_ms == winner.latency_ms
            &&& winner.blended is None ==> route.latency_ema == winner.latency_ms
            &&& winner.blended matches Some(ema) ==> route.latency_ema == ema
            &&& !answer.cache_hit
            &&& answer.narinfo_bytes == router.answer(winner.url@, store_hash, route.narinfo_bytes)
            &&& route_counts(route.ttl, later, status) <==> later < now + lifetime(route_ttl)
                && status != Some(Status::Down)
        }),
{
}

/// Memory goes before the database: where memory has a result the database does
/// not matter. A cached answer is a cache hit from the upstream that the cache
/// names, and nothing is answered from the cache that the filter of that upstream
/// does not let through, neither as it was kept nor as the upstream has it now.
pub proof fn law_cached_answers_pass_the_filter(
    router: Router,
    memory: Option<ResolveView>,
    stored: Option<RouteView>,
    other: Option<RouteView>,
    now: int,
    status: Option<Status>,
    store_hash: Seq<char>,
    refetched: Option<(Seq<u8>, NarInfoView)>,
)
    ensures
        memory is Some ==> cached_outcome(
            router,
            memory,
            stored,
            now,
            status,
            store_hash,
            refetched,
        ) == cached_outcome(router, memory, other, now, status, store_hash, refetched),
        cached_outcome(router, memory, stored, now, status, store_hash, refetched) matches
            CachedOutcomeView::Hit { result, remember: _, save: _ } ==> {
            &&& result.cache_hit
            &&& memory matches Some(m) ==> result.url == m.url && result.latency_ms == m.latency_ms
            &&& memory is None ==> (stored matches Some(r) && result.url == r.upstream_url
                && result.latency_ms == r.latency_ema && now < r.ttl && status != Some(
                Status::Down,
            ))
            &&& router.rules_of(result.url) matches Some(rules) ==> ({
                ||| refetched matches Some((_, info)) && rules_allow(rules, info)
                ||| memory matches Some(m) && (m.narinfo_bytes matches Some(b) && (parsed(
                    b,
                ) matches Ok(info) && rules_allow(rules, info)))
                ||| memory is None && (stored matches Some(r) && (r.narinfo_bytes matches Some(b)
                    && (parsed(b) matches Ok(info) && rules_allow(rules, info))))
            })
        },
{
}

/// A cached route is not given up without reason: where its upstream has no
/// filter, or the filter lets the kept narinfo through, it is used, if it counts.
pub proof fn law_good_cached_routes_are_used(
    router: Router,
    memory: Option<ResolveView>,
    stored: Option<RouteView>,
    now: int,
    status: Option<Status>,
    store_hash: Seq<char>,
    refetched: Option<(Seq<u8>, NarInfoView)>,
)
    requires
        memory is Some || (stored matches Some(r) && now < r.ttl && status != Some(Status::Down)),
        ({
            let (url, bytes) = match memory {
                Some(m) => (m.url, m.narinfo_bytes),
                None => (stored->0.upstream_url, stored->0.narinfo_bytes),
            };
            router.rules_of(url) matches Some(rules) ==> (bytes matches Some(b) && (parsed(
                b,
            ) matches Ok(info) && rules_allow(rules, info)))
        }),
    ensures
        cached_outcome(router, memory, stored, now, status, store_hash, refetched) is Hit,
        cached_outcome(router, memory, stored, now, status, store_hash, refetched)
            == cached_outcome(router, memory, stored, now, status, store_hash, None),
{
}

/// A resolution is over once it has found the path, knows it to be missing or has
/// failed. Only an error fails it, and an error of memory does not. Where every
/// step says no the upstreams are raced, and the race decides.
pub proof fn law_resolutions_end(step: ResolveStep, answer: StepAnswer)
    ensures
        step == ResolveStep::Found || step == ResolveStep::Missing || step == ResolveStep::Failed
            ==> resolve_after(step, answer) == step,
        resolve_after(step, answer) == ResolveStep::Failed ==> step == ResolveStep::Failed || answer
            == StepAnswer::Error,
        resolve_after(step, StepAnswer::Error) == ResolveStep::Failed <==> step
            != ResolveStep::CheckMemory && step != ResolveStep::TakeTurn && step
            != ResolveStep::Found && step != ResolveStep::Missing,
        resolve_after(step, answer) == ResolveStep::Missing && step != ResolveStep::Missing ==> {
            ||| answer == StepAnswer::Yes && (step == ResolveStep::CheckMemory || step
                == ResolveStep::CheckNegative)
            ||| answer == StepAnswer::No && step == ResolveStep::Race
        },
        resolve_after(step, answer) == ResolveStep::Found && step != ResolveStep::Found ==> answer
            == StepAnswer::Yes && (step == ResolveStep::CheckCached || step
            == ResolveStep::CheckCachedAgain || step == ResolveStep::Race),
        resolve_after_all(
            ResolveStep::CheckMemory,
            seq![StepAnswer::No, StepAnswer::No, StepAnswer::No, answer, StepAnswer::No],
        ) == ResolveStep::Race,
        resolve_after(ResolveStep::Race, StepAnswer::Yes) == ResolveStep::Found,
        resolve_after(ResolveStep::Race, StepAnswer::No) == ResolveStep::Missing,
        resolve_after(ResolveStep::CheckCachedAgain, StepAnswer::Yes) == ResolveStep::Found,
{
    let answers = seq![StepAnswer::No, StepAnswer::No, StepAnswer::No, answer, StepAnswer::No];
    assert(answers.drop_last() =~= seq![StepAnswer::No, StepAnswer::No, StepAnswer::No, answer]);
    assert(answers.drop_last().drop_last() =~= seq![
        StepAnswer::No,
        StepAnswer::No,
        StepAnswer::No,
    ]);
    assert(answers.drop_last().drop_last().drop_last() =~= seq![StepAnswer::No, StepAnswer::No]);
    assert(answers.drop_last().drop_last().drop_last().drop_last() =~= seq![StepAnswer::No]);
    assert(answers.drop_last().drop_last().drop_last().drop_last().drop_last() =~= seq![]);
    reveal_with_fuel(resolve_after_all, 6);
}

/// What memory holds for missing it holds for so long and no longer.
pub proof fn law_misses_are_forgotten(before: Option<int>, err: RouterError, now: int, ttl: nat)
    ensures
        err is NotFound ==> forall|later: int|
            #![trigger memory_answer(missing_until(before, err, now, ttl), later)]
            memory_answer(missing_until(before, err, now, ttl), later) == (if later < now + ttl {
                StepAnswer::Yes
            } else {
                StepAnswer::No
            }),
        !(err is NotFound) ==> missing_until(before, err, now, ttl) == before,
{
}

/// An upstream is asked for its narinfo again only of the cached route that is
/// looked at: what memory has, or else the route of the database while it counts.
pub proof fn law_one_cached_route_is_looked_at(
    memory: ResolveView,
    stored: Option<RouteView>,
    route: RouteView,
    now: int,
    status: Option<Status>,
)
    ensures
        cached_candidate(Some(memory), stored, now, status) == Some(
            (memory.url, memory.narinfo_bytes),
        ),
        cached_candidate(None, Some(route), now, status) is Some <==> now < route.ttl && status
            != Some(Status::Down),
        cached_candidate(None, Some(route), now, status) matches Some((url, bytes)) ==> url
            == route.upstream_url && bytes == route.narinfo_bytes,
        cached_candidate(None, None, now, status) is None,
{
}

} // verus!
