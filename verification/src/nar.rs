//! Requests of Nix: what is done with one for a narinfo and with one for an
//! archive.

use vstd::prelude::*;
use vstd::string::*;

use crate::config::UpstreamConfig;
use crate::hedge::{CandidateView, NarCandidate};
use crate::nar_url::{
    before_query, canonical_path, extension_of, file_name, hash_in_path, is_store_hash,
    law_canonical_path_round_trips, relative_path, NarUrlMode,
};
use crate::resolve::{lookup_key, stored_view, ResolveResult, ResolveView, RouterError};
use crate::rewrite::rewritten_url;
use crate::routes::{RouteEntry, RouteView};
use crate::s3::S3ClientPool;
use crate::s3_config::S3ConfigView;
use crate::serve::RouteKind;
use crate::table::Table;
use crate::text::{
    concat2, find, has_suffix, lemma_find_from, lemma_find_from_is, lemma_rfind, occurs_at, owned,
    strip_suffix, trim_start, trim_start_char, view_opt,
};
use crate::time::{Duration, Timestamp};

verus! {

// ---------------------------------------------------------------------------
// Narinfos
// ---------------------------------------------------------------------------
/// The store hash that a request for `name` is about; none where `name` is not
/// the name of a narinfo.
pub fn requested_hash(name: &str) -> (out: Option<String>)
    ensures
        match out {
            Some(hash) => name@ == hash@ + ".narinfo"@,
            None => !has_suffix(name@, ".narinfo"@),
        },
{
    match strip_suffix(name, ".narinfo") {
        Some(hash) => {
            assert(name@ =~= hash@ + ".narinfo"@);
            Some(hash)
        },
        None => None,
    }
}

/// What is done with a request for a narinfo.
pub enum NarinfoAnswer {
    /// It is answered with the narinfo that `upstream` sent.
    Body { upstream: String, bytes: Vec<u8>, route: RouteKind },
    /// It is answered with what `upstream` answers at `url`.
    Proxy { upstream: String, url: String, route: RouteKind },
    /// The cache of last resort is asked.
    AskFallback,
    /// There is no such narinfo.
    NotFound,
    /// No upstream could say.
    BadGateway,
}

/// `out` answers a request for `path` with `result`, chosen by way of `route`.
pub open spec fn answers_with(
    out: NarinfoAnswer,
    result: ResolveView,
    path: Seq<char>,
    route: RouteKind,
) -> bool {
    match out {
        NarinfoAnswer::Body { upstream, bytes, route: r } => {
            &&& result.narinfo_bytes == Some(bytes@)
            &&& upstream@ == result.url
            &&& r == route
        },
        NarinfoAnswer::Proxy { upstream, url, route: r } => {
            &&& result.narinfo_bytes is None
            &&& upstream@ == result.url
            &&& url@ == result.url + path
            &&& r == route
        },
        _ => false,
    }
}

fn answer_with(result: ResolveResult, path: &str, route: RouteKind) -> (out: NarinfoAnswer)
    ensures
        answers_with(out, result@, path@, route),
{
    let url: String = concat2(result.url.as_str(), path);
    match result.narinfo_bytes {
        Some(bytes) => NarinfoAnswer::Body { upstream: result.url, bytes, route },
        None => NarinfoAnswer::Proxy { upstream: result.url, url, route },
    }
}

/// How the upstream of a result was chosen.
pub open spec fn resolved_route(cache_hit: bool) -> RouteKind {
    if cache_hit {
        RouteKind::CacheHit
    } else {
        RouteKind::Race
    }
}

/// What is done with a request for the narinfo at `path`, which resolved to
/// `result`; `fallback` says that the cache of last resort is still to be asked,
/// and `route` how the upstream of a result was chosen.
pub open spec fn answered_by(
    result: Result<ResolveView, RouterError>,
    path: Seq<char>,
    fallback: bool,
    route: RouteKind,
    out: NarinfoAnswer,
) -> bool {
    match result {
        Ok(r) => answers_with(out, r, path, route),
        Err(e) => if e is NotFound {
            out is NotFound
        } else if fallback && (e is UpstreamUnavailable || e is NoCandidates) {
            out is AskFallback
        } else {
            out is BadGateway
        },
    }
}

/// A narinfo is answered exactly where the path was resolved: with the bytes that
/// are known, or else with what the upstream answers at the same path. A path that
/// is missing is answered so, without the cache of last resort, which is asked only
/// where no upstream could be; any other failure is the gateway's.
pub proof fn law_requests_are_answered(
    result: Result<ResolveView, RouterError>,
    path: Seq<char>,
    fallback: bool,
    route: RouteKind,
    out: NarinfoAnswer,
)
    requires
        answered_by(result, path, fallback, route, out),
    ensures
        is_success(out) <==> result is Ok,
        out matches NarinfoAnswer::Body { upstream, bytes, route: r } ==> r == route && upstream@
            == result->Ok_0.url && result->Ok_0.narinfo_bytes == Some(bytes@),
        out matches NarinfoAnswer::Proxy { upstream, url, route: r } ==> r == route && upstream@
            == result->Ok_0.url && url@ == result->Ok_0.url + path
            && result->Ok_0.narinfo_bytes is None,
        out is NotFound <==> (result matches Err(e) && e is NotFound),
        out is AskFallback <==> fallback && (result matches Err(e) && (e is UpstreamUnavailable
            || e is NoCandidates)),
        resolved_route(true) == RouteKind::CacheHit,
        resolved_route(false) == RouteKind::Race,
{
}

/// The contents of a result.
pub open spec fn result_view(result: Result<ResolveResult, RouterError>) -> Result<
    ResolveView,
    RouterError,
> {
    match result {
        Ok(r) => Ok(r@),
        Err(e) => Err(e),
    }
}

/// What is done with a request for the narinfo at `path`, which resolved to
/// `result`.
pub fn narinfo_answer(
    result: Result<ResolveResult, RouterError>,
    path: &str,
    has_fallback: bool,
) -> (out: NarinfoAnswer)
    ensures
        match result {
            Ok(r) => answers_with(out, r@, path@, resolved_route(r@.cache_hit)),
            Err(RouterError::NotFound) => out is NotFound,
            Err(RouterError::UpstreamUnavailable) | Err(RouterError::NoCandidates(_)) => if has_fallback {
                out is AskFallback
            } else {
                out is BadGateway
            },
            Err(_) => out is BadGateway,
        },
        answered_by(
            result_view(result),
            path@,
            has_fallback,
            resolved_route(result matches Ok(r) && r@.cache_hit),
            out,
        ),
{
    match result {
        Ok(r) => {
            let route: RouteKind = if r.cache_hit {
                RouteKind::CacheHit
            } else {
                RouteKind::Race
            };
            answer_with(r, path, route)
        },
        Err(RouterError::NotFound) => NarinfoAnswer::NotFound,
        Err(RouterError::UpstreamUnavailable) | Err(RouterError::NoCandidates(_)) => if has_fallback {
            NarinfoAnswer::AskFallback
        } else {
            NarinfoAnswer::BadGateway
        },
        Err(_) => NarinfoAnswer::BadGateway,
    }
}

/// What is done with a request for the narinfo at `path`, which resolved to
/// `result` through the cache of last resort.
pub fn fallback_answer(result: Result<ResolveResult, RouterError>, path: &str) -> (out:
    NarinfoAnswer)
    ensures
        match result {
            Ok(r) => answers_with(out, r@, path@, RouteKind::Fallback),
            Err(RouterError::NotFound) => out is NotFound,
            Err(_) => out is BadGateway,
        },
        answered_by(result_view(result), path@, false, RouteKind::Fallback, out),
{
    match result {
        Ok(r) => answer_with(r, path, RouteKind::Fallback),
        Err(RouterError::NotFound) => NarinfoAnswer::NotFound,
        Err(_) => NarinfoAnswer::BadGateway,
    }
}

/// A request is answered.
pub open spec fn is_success(answer: NarinfoAnswer) -> bool {
    answer is Body || answer is Proxy
}

/// Under which label a request that is answered so is counted.
pub fn request_label(answer: &NarinfoAnswer) -> (out: &'static str)
    ensures
        out@ == if is_success(*answer) {
            "200"@
        } else {
            "error"@
        },
{
    match answer {
        NarinfoAnswer::Body { .. } | NarinfoAnswer::Proxy { .. } => "200",
        _ => "error",
    }
}

/// The status and the text of an answer without a narinfo.
pub fn refusal_status(answer: &NarinfoAnswer) -> (out: Option<(u16, &'static str)>)
    ensures
        match out {
            Some((code, text)) => match *answer {
                NarinfoAnswer::NotFound => code == 404 && text@ == ""@,
                NarinfoAnswer::BadGateway => code == 502 && text@ == "upstream unavailable"@,
                _ => false,
            },
            None => is_success(*answer) || *answer is AskFallback,
        },
{
    match answer {
        NarinfoAnswer::NotFound => Some((404, "")),
        NarinfoAnswer::BadGateway => Some((502, "upstream unavailable")),
        _ => None,
    }
}

// ---------------------------------------------------------------------------
// Archives
// ---------------------------------------------------------------------------
/// The key of the archive at `path`, under which its route is kept.
pub fn nar_key(path: &str) -> (out: String)
    ensures
        out@ == trim_start(path@, '/'),
{
    trim_start_char(path, '/')
}

/// The path at which an upstream is asked, which its route may know better than
/// the request.
pub open spec fn routed_path(known: Seq<char>, requested: Seq<char>) -> Seq<char> {
    if known.len() == 0 {
        requested
    } else {
        known
    }
}

/// What is done with a request for an archive.
pub enum NarStep {
    /// The upstream of its route is asked first, then others.
    AskRouted(NarCandidate),
    /// The upstreams are asked in order.
    AskDirect,
    /// The cache of last resort is asked.
    AskFallback,
    /// One of them has answered.
    Answered,
    /// None has it.
    NotFound,
}

/// What is done first with a request for an archive at `requested`, whose route is
/// `entry`.
pub open spec fn begins_with(
    entry: Option<RouteView>,
    now: int,
    requested: Seq<char>,
    out: NarStep,
) -> bool {
    match entry {
        Some(e) if now < e.ttl => out matches NarStep::AskRouted(c) && c@ == (CandidateView {
            upstream: e.upstream_url,
            path: routed_path(e.upstream_nar_url, requested),
            route: RouteKind::CacheHit,
        }),
        _ => out is AskDirect,
    }
}

/// What is done after `step`, in which an upstream has answered or none has.
pub open spec fn continues_with(
    step: NarStep,
    answered: bool,
    has_fallback: bool,
    out: NarStep,
) -> bool {
    match step {
        NarStep::Answered => out is Answered,
        NarStep::NotFound => out is NotFound,
        _ => if answered {
            out is Answered
        } else if has_fallback && !(step is AskFallback) {
            out is AskFallback
        } else {
            out is NotFound
        },
    }
}

/// A route that has not expired decides who is asked first for an archive, and at
/// the path that it knows; a route that has expired and none at all leave it to the
/// upstreams in order. An answer ends the search. Without one the cache of last
/// resort is asked once, where there is one, and then the archive is missing.
pub proof fn law_archives_are_looked_for_in_turn(
    entry: Option<RouteView>,
    now: int,
    requested: Seq<char>,
    first: NarStep,
    answered: bool,
    has_fallback: bool,
    second: NarStep,
    third: NarStep,
)
    requires
        begins_with(entry, now, requested, first),
        continues_with(first, answered, has_fallback, second),
        continues_with(second, false, has_fallback, third),
    ensures
        first is AskRouted <==> (entry matches Some(e) && now < e.ttl),
        first is AskDirect <==> !(first is AskRouted),
        first matches NarStep::AskRouted(c) ==> {
            &&& c@.upstream == entry->0.upstream_url
            &&& entry->0.upstream_nar_url.len() > 0 ==> c@.path == entry->0.upstream_nar_url
            &&& entry->0.upstream_nar_url.len() == 0 ==> c@.path == requested
            &&& c@.route == RouteKind::CacheHit
        },
        answered ==> second is Answered && third is Answered,
        !answered && has_fallback ==> second is AskFallback && third is NotFound,
        !answered && !has_fallback ==> second is NotFound && third is NotFound,
{
}

/// The first step: `entry` is the route of the archive, and `path_and_query` what
/// was requested.
pub fn first_nar_step(entry: &Option<RouteEntry>, now: &Timestamp, path_and_query: &str) -> (out:
    NarStep)
    ensures
        match out {
            NarStep::AskRouted(c) => entry matches Some(e) && now@ < e@.ttl && c@ == (
            CandidateView {
                upstream: e@.upstream_url,
                path: routed_path(e@.upstream_nar_url, path_and_query@),
                route: RouteKind::CacheHit,
            }),
            NarStep::AskDirect => entry matches Some(e) ==> now@ >= e@.ttl,
            _ => false,
        },
        begins_with(stored_view(*entry), now@, path_and_query@, out),
{
    match entry {
        Some(e) => if e.is_valid(now) {
            let path: String = if e.upstream_nar_url.as_str().unicode_len() == 0 {
                owned(path_and_query)
            } else {
                e.upstream_nar_url.clone()
            };
            NarStep::AskRouted(
                NarCandidate { upstream: e.upstream_url.clone(), path, route: RouteKind::CacheHit },
            )
        } else {
            NarStep::AskDirect
        },
        None => NarStep::AskDirect,
    }
}

/// The step after `step`, in which an upstream has answered or none has.
pub fn next_nar_step(step: &NarStep, answered: bool, has_fallback: bool) -> (out: NarStep)
    ensures
        match *step {
            NarStep::Answered => out is Answered,
            NarStep::NotFound => out is NotFound,
            NarStep::AskFallback => if answered {
                out is Answered
            } else {
                out is NotFound
            },
            NarStep::AskRouted(_) | NarStep::AskDirect => if answered {
                out is Answered
            } else if has_fallback {
                out is AskFallback
            } else {
                out is NotFound
            },
        },
        continues_with(*step, answered, has_fallback, out),
{
    match step {
        NarStep::Answered => NarStep::Answered,
        NarStep::NotFound => NarStep::NotFound,
        NarStep::AskFallback => if answered {
            NarStep::Answered
        } else {
            NarStep::NotFound
        },
        NarStep::AskRouted(_) | NarStep::AskDirect => if answered {
            NarStep::Answered
        } else if has_fallback {
            NarStep::AskFallback
        } else {
            NarStep::NotFound
        },
    }
}

/// How an archive is asked for.
#[derive(Debug, Clone, Copy, PartialEq, Eq, Structural)]
pub enum NarMethod {
    Get,
    Head,
    Other,
}

/// How an upstream is asked for an archive.
pub enum NarFetch {
    /// A bucket, for what it says of the object.
    S3Head { key: String },
    /// A bucket, for the object, or the part of it that `range` gives.
    S3Get { key: String, range: Option<String> },
    /// A server, at `url`.
    Http { url: String },
    /// Not at all: a bucket has no other methods.
    Refused,
}

/// How `upstream` is asked for the archive that it has at `path`.
pub fn nar_fetch(
    s3: &S3ClientPool,
    upstream: &str,
    path: &str,
    method: NarMethod,
    range: Option<String>,
) -> (out: NarFetch)
    ensures
        match out {
            NarFetch::S3Head { key } => {
                &&& s3@.contains_key(upstream@)
                &&& method == NarMethod::Head
                &&& key@ == trim_start(path@, '/')
            },
            NarFetch::S3Get { key, range: r } => {
                &&& s3@.contains_key(upstream@)
                &&& method == NarMethod::Get
                &&& key@ == trim_start(path@, '/')
                &&& view_opt(r) == view_opt(range)
            },
            NarFetch::Http { url } => !s3@.contains_key(upstream@) && url@ == upstream@ + path@,
            NarFetch::Refused => s3@.contains_key(upstream@) && method == NarMethod::Other,
        },
{
    if !s3.contains(upstream) {
        return NarFetch::Http { url: concat2(upstream, path) };
    }
    let key: String = trim_start_char(path, '/');
    match method {
        NarMethod::Head => NarFetch::S3Head { key },
        NarMethod::Get => NarFetch::S3Get { key, range },
        NarMethod::Other => NarFetch::Refused,
    }
}

/// Whether the status of an answer says that the archive comes with it.
pub fn has_archive(status: u16) -> (yes: bool)
    ensures
        yes == (200 <= status < 300),
{
    200 <= status && status < 300
}

/// What stands before the query has no question mark, and a text without one has
/// no query.
proof fn lemma_before_query(s: Seq<char>)
    ensures
        !before_query(s).contains('?'),
        !s.contains('?') ==> before_query(s) == s,
{
    reveal_strlit("?");
    lemma_find_from(s, "?"@, 0);
    let path = before_query(s);
    if path.contains('?') {
        let j = choose|j: int| 0 <= j < path.len() && path[j] == '?';
        assert(s[j] == '?');
        assert(s.subrange(j, j + 1) =~= "?"@);
        assert(occurs_at(s, "?"@, j));
    }
    if !s.contains('?') {
        if let Some(i) = find(s, "?"@) {
            assert(s.subrange(i as int, i as int + 1)[0] == '?');
            assert(s[i as int] == '?');
        }
    }
}

/// Leading slashes and the query can be dropped in either order.
proof fn lemma_slashes_and_query(s: Seq<char>)
    ensures
        before_query(trim_start(s, '/')) == trim_start(before_query(s), '/'),
    decreases s.len(),
{
    if s.len() > 0 && s[0] == '/' {
        let rest = s.skip(1);
        lemma_slashes_and_query(rest);
        reveal_strlit("?");
        lemma_find_from(rest, "?"@, 0);
        lemma_find_from(s, "?"@, 0);
        assert forall|j: int| 0 <= j implies occurs_at(rest, "?"@, j) == occurs_at(
            s,
            "?"@,
            j + 1,
        ) by {
            if j + 1 <= rest.len() {
                assert(rest.subrange(j, j + 1) =~= s.subrange(j + 1, j + 2));
            }
        }
        assert(!occurs_at(s, "?"@, 0)) by {
            assert(s.subrange(0, 1)[0] == '/');
        }
        match find(rest, "?"@) {
            Some(i) => {
                assert(occurs_at(s, "?"@, i as int + 1));
                assert forall|j: int| 0 <= j < i + 1 implies !occurs_at(s, "?"@, j) by {
                    if j > 0 {
                        assert(!occurs_at(rest, "?"@, j - 1));
                    }
                }
                lemma_find_from_is(s, "?"@, 0, i + 1);
                assert(before_query(s).skip(1) =~= before_query(rest));
            },
            None => {
                if let Some(i) = find(s, "?"@) {
                    assert(i > 0);
                    assert(occurs_at(rest, "?"@, i - 1));
                }
            },
        }
        assert(before_query(s).skip(1) =~= before_query(rest));
        assert(before_query(s)[0] == '/');
    } else {
        lemma_find_from(s, "?"@, 0);
        if before_query(s).len() > 0 {
            assert(before_query(s)[0] == s[0]);
        }
    }
}

/// An archive is found under the address that was answered for it: the key of a
/// request for that address is the key of the route, and where Nix asked by a
/// store hash the key tells it.
pub proof fn law_answered_archive_is_found(
    url: Seq<char>,
    upstream: Seq<char>,
    store_hash: Seq<char>,
)
    requires
        !store_hash.contains('?'),
    ensures
        ({
            let address = "/"@ + rewritten_url(url, upstream, store_hash, NarUrlMode::ToSelf);
            let key = trim_start(before_query(address), '/');
            &&& key == lookup_key(url, store_hash, NarUrlMode::ToSelf)
            &&& is_store_hash(store_hash) ==> hash_in_path(key) == Some(store_hash)
        }),
{
    let path = canonical_path(url, store_hash);
    let address = "/"@ + path;
    let extension = extension_of(url);
    reveal_strlit("/");
    reveal_strlit("nar/");
    lemma_before_query(relative_path(url));
    let whole = before_query(relative_path(url));
    let file = file_name(whole);
    lemma_rfind(whole, "/"@, whole.len() as int);
    lemma_rfind(file, ".nar"@, file.len() as int);
    if extension.contains('?') {
        let j = choose|j: int| 0 <= j < extension.len() && extension[j] == '?';
        let k = file.len() - extension.len() + j;
        assert(file[k] == '?');
        assert(whole[whole.len() - file.len() + k] == '?');
    }
    if path.contains('?') {
        let j = choose|j: int| 0 <= j < path.len() && path[j] == '?';
        if j < 4 {
            assert(path[j] == "nar/"@[j]);
        } else if j < 4 + store_hash.len() {
            assert(store_hash[j - 4] == '?');
        } else {
            assert(extension[j - 4 - store_hash.len()] == '?');
        }
    }
    if address.contains('?') {
        let j = choose|j: int| 0 <= j < address.len() && address[j] == '?';
        assert(path[j - 1] == '?');
    }
    lemma_before_query(address);
    assert(address.skip(1) =~= path);
    assert(path[0] == 'n');
    assert(trim_start(path, '/') == path);
    assert(trim_start(address, '/') == trim_start(address.skip(1), '/'));
    if is_store_hash(store_hash) {
        law_canonical_path_round_trips(url, store_hash);
    }
}

/// An archive whose address is kept is found as well, wherever the upstream puts
/// it: a request for the address here has the key of the route.
pub proof fn law_kept_archive_is_found(url: Seq<char>, store_hash: Seq<char>)
    ensures
        trim_start(before_query("/"@ + url), '/') == lookup_key(url, store_hash, NarUrlMode::Keep),
{
    reveal_strlit("/");
    let address = "/"@ + url;
    lemma_slashes_and_query(address);
    assert(address.skip(1) =~= url);
    assert(trim_start(address, '/') == trim_start(url, '/'));
}

// ---------------------------------------------------------------------------
// Upstreams
// ---------------------------------------------------------------------------
/// How long an archive of `upstream` may stall.
pub open spec fn stall_limit(upstream: UpstreamConfig, read_timeout: Duration) -> Duration {
    match upstream.nar_timeout {
        Some(limit) => limit.0,
        None => read_timeout,
    }
}

/// How long an archive of each of `upstreams` may stall. Of two with one URL the
/// later counts.
pub open spec fn stall_limits(upstreams: Seq<UpstreamConfig>, read_timeout: Duration) -> Map<
    Seq<char>,
    Duration,
>
    decreases upstreams.len(),
{
    if upstreams.len() == 0 {
        Map::empty()
    } else {
        stall_limits(upstreams.drop_last(), read_timeout).insert(
            upstreams.last().url@,
            stall_limit(upstreams.last(), read_timeout),
        )
    }
}

/// How long an archive of each of `upstreams`, and of the cache of last resort
/// where it is none of them, may stall.
pub open spec fn all_stall_limits(
    upstreams: Seq<UpstreamConfig>,
    fallback: Option<UpstreamConfig>,
    read_timeout: Duration,
) -> Map<Seq<char>, Duration> {
    let limits = stall_limits(upstreams, read_timeout);
    match fallback {
        Some(f) => if limits.contains_key(f.url@) {
            limits
        } else {
            limits.insert(f.url@, stall_limit(f, read_timeout))
        },
        None => limits,
    }
}

fn limit_of(upstream: &UpstreamConfig, read_timeout: Duration) -> (out: Duration)
    ensures
        out == stall_limit(*upstream, read_timeout),
{
    match upstream.nar_timeout {
        Some(limit) => limit.0,
        None => read_timeout,
    }
}

/// How long an archive of each upstream may stall.
pub fn nar_timeouts(
    upstreams: &Vec<UpstreamConfig>,
    fallback: &Option<UpstreamConfig>,
    read_timeout: Duration,
) -> (out: Table<Duration>)
    ensures
        out.wf(),
        out.view() == all_stall_limits(upstreams@, *fallback, read_timeout),
{
    let mut out: Table<Duration> = Table::new();
    let n: usize = upstreams.len();
    let mut i: usize = 0;
    assert(upstreams@.take(0) =~= seq![]);
    while i < n
        invariant
            i <= n,
            n == upstreams@.len(),
            out.wf(),
            out.view() == stall_limits(upstreams@.take(i as int), read_timeout),
        decreases n - i,
    {
        let upstream: &UpstreamConfig = &upstreams[i];
        let ghost next = upstreams@.take(i + 1);
        assert(next.drop_last() =~= upstreams@.take(i as int));
        assert(next.last() == *upstream);
        out.insert(upstream.url.clone(), limit_of(upstream, read_timeout));
        i = i + 1;
    }
    assert(upstreams@.take(n as int) =~= upstreams@);
    if let Some(f) = fallback {
        if !out.contains(f.url.as_str()) {
            out.insert(f.url.clone(), limit_of(f, read_timeout));
        }
    }
    out
}

/// How long an archive of `url` may stall: an upstream that is not known has
/// `read_timeout`.
pub fn nar_timeout(limits: &Table<Duration>, url: &str, read_timeout: Duration) -> (out: Duration)
    requires
        limits.wf(),
    ensures
        out == if limits.view().contains_key(url@) {
            limits.view()[url@]
        } else {
            read_timeout
        },
{
    match limits.get(url) {
        Some(limit) => *limit,
        None => read_timeout,
    }
}

/// The buckets among `upstreams`, added to `known`.
pub open spec fn with_buckets(
    known: Map<Seq<char>, S3ConfigView>,
    upstreams: Seq<UpstreamConfig>,
) -> Map<Seq<char>, S3ConfigView>
    decreases upstreams.len(),
{
    if upstreams.len() == 0 {
        known
    } else {
        let rest = with_buckets(known, upstreams.drop_last());
        match upstreams.last().s3 {
            Some(config) => rest.insert(upstreams.last().url@, config@),
            None => rest,
        }
    }
}

/// The buckets among `upstreams` and the cache of last resort.
pub open spec fn buckets(upstreams: Seq<UpstreamConfig>, fallback: Option<UpstreamConfig>) -> Map<
    Seq<char>,
    S3ConfigView,
> {
    let known = with_buckets(Map::empty(), upstreams);
    match fallback {
        Some(f) => with_buckets(known, seq![f]),
        None => known,
    }
}

/// Registers the buckets among `upstreams` and the cache of last resort.
pub fn register_buckets(upstreams: &Vec<UpstreamConfig>, fallback: &Option<UpstreamConfig>) -> (out:
    S3ClientPool)
    ensures
        out@ == buckets(upstreams@, *fallback),
{
    let mut out: S3ClientPool = S3ClientPool::new();
    let n: usize = upstreams.len();
    let mut i: usize = 0;
    assert(upstreams@.take(0) =~= seq![]);
    while i < n
        invariant
            i <= n,
            n == upstreams@.len(),
            out@ == with_buckets(Map::empty(), upstreams@.take(i as int)),
        decreases n - i,
    {
        let upstream: &UpstreamConfig = &upstreams[i];
        let ghost next = upstreams@.take(i + 1);
        assert(next.drop_last() =~= upstreams@.take(i as int));
        assert(next.last() == *upstream);
        if let Some(config) = &upstream.s3 {
            out.register(upstream.url.clone(), config.clone());
        }
        i = i + 1;
    }
    assert(upstreams@.take(n as int) =~= upstreams@);
    if let Some(f) = fallback {
        let ghost one = seq![*f];
        assert(one.drop_last() =~= seq![]);
        assert(one.last() == *f);
        assert(with_buckets(out@, one.drop_last()) == out@);
        if let Some(config) = &f.s3 {
            out.register(f.url.clone(), config.clone());
        }
    }
    out
}

// ---------------------------------------------------------------------------
// What is known of upstreams
// ---------------------------------------------------------------------------
/// The last of `upstreams` under `url` is the one at `at`.
pub open spec fn is_last_under(upstreams: Seq<UpstreamConfig>, url: Seq<char>, at: int) -> bool {
    &&& 0 <= at < upstreams.len()
    &&& upstreams[at].url@ == url
    &&& forall|j: int| at < j < upstreams.len() ==> (#[trigger] upstreams[j]).url@ != url
}

/// None of `upstreams` is under `url`.
pub open spec fn none_under(upstreams: Seq<UpstreamConfig>, url: Seq<char>) -> bool {
    forall|j: int| 0 <= j < upstreams.len() ==> (#[trigger] upstreams[j]).url@ != url
}

proof fn lemma_stall_limits(upstreams: Seq<UpstreamConfig>, read_timeout: Duration, url: Seq<char>)
    ensures
        none_under(upstreams, url) <==> !stall_limits(upstreams, read_timeout).contains_key(url),
        forall|at: int| #[trigger]
            is_last_under(upstreams, url, at) ==> stall_limits(upstreams, read_timeout)[url]
                == stall_limit(upstreams[at], read_timeout),
    decreases upstreams.len(),
{
    if upstreams.len() > 0 {
        let front = upstreams.drop_last();
        lemma_stall_limits(front, read_timeout, url);
        if none_under(upstreams, url) {
            assert forall|j: int| 0 <= j < front.len() implies (#[trigger] front[j]).url@ != url by {
                assert(upstreams[j] == front[j]);
            }
            assert(upstreams[upstreams.len() - 1].url@ != url);
        }
        if none_under(front, url) && upstreams.last().url@ != url {
            assert forall|j: int| 0 <= j < upstreams.len() implies (#[trigger] upstreams[j]).url@
                != url by {
                if j < front.len() {
                    assert(front[j] == upstreams[j]);
                }
            }
        }
        assert forall|at: int| #[trigger] is_last_under(upstreams, url, at) implies stall_limits(
            upstreams,
            read_timeout,
        )[url] == stall_limit(upstreams[at], read_timeout) by {
            if at < front.len() {
                assert(upstreams[upstreams.len() - 1].url@ != url);
                assert(front[at] == upstreams[at]);
                assert forall|j: int| at < j < front.len() implies (#[trigger] front[j]).url@
                    != url by {
                    assert(front[j] == upstreams[j]);
                }
                assert(is_last_under(front, url, at));
            }
        }
    }
}

/// An archive may stall for as long as its upstream is configured to allow, or
/// else for the common limit; of two upstreams under one URL the later counts, and
/// the cache of last resort only where its URL is none of theirs.
pub proof fn law_upstreams_have_their_own_stall_limits(
    upstreams: Seq<UpstreamConfig>,
    fallback: Option<UpstreamConfig>,
    read_timeout: Duration,
    url: Seq<char>,
)
    ensures
        ({
            let limits = all_stall_limits(upstreams, fallback, read_timeout);
            &&& forall|at: int| #[trigger]
                is_last_under(upstreams, url, at) ==> limits.contains_key(url) && (
                upstreams[at].nar_timeout matches Some(own) ==> limits[url] == own.0) && (
                upstreams[at].nar_timeout is None ==> limits[url] == read_timeout)
            &&& none_under(upstreams, url) ==> match fallback {
                Some(f) => if f.url@ == url {
                    limits.contains_key(url) && (f.nar_timeout matches Some(own) ==> limits[url]
                        == own.0) && (f.nar_timeout is None ==> limits[url] == read_timeout)
                } else {
                    !limits.contains_key(url)
                },
                None => !limits.contains_key(url),
            }
        }),
{
    lemma_stall_limits(upstreams, read_timeout, url);
    let limits = all_stall_limits(upstreams, fallback, read_timeout);
    assert forall|at: int| #[trigger] is_last_under(upstreams, url, at) implies limits.contains_key(
        url,
    ) && limits[url] == stall_limit(upstreams[at], read_timeout) by {
        assert(upstreams[at].url@ == url);
        assert(!none_under(upstreams, url));
    }
}

proof fn lemma_buckets(
    known: Map<Seq<char>, S3ConfigView>,
    upstreams: Seq<UpstreamConfig>,
    url: Seq<char>,
)
    ensures
        ({
            let found = with_buckets(known, upstreams);
            &&& (forall|j: int|
                0 <= j < upstreams.len() && (#[trigger] upstreams[j]).url@ == url
                    ==> upstreams[j].s3 is None) ==> {
                &&& found.contains_key(url) <==> known.contains_key(url)
                &&& known.contains_key(url) ==> found[url] == known[url]
            }
            &&& forall|at: int|
                is_last_under(upstreams, url, at) && (#[trigger] upstreams[at]).s3 is Some
                    ==> found.contains_key(url) && found[url] == upstreams[at].s3->0@
        }),
    decreases upstreams.len(),
{
    if upstreams.len() > 0 {
        let front = upstreams.drop_last();
        let found = with_buckets(known, upstreams);
        lemma_buckets(known, front, url);
        if forall|j: int|
            0 <= j < upstreams.len() && (#[trigger] upstreams[j]).url@ == url
                ==> upstreams[j].s3 is None {
            assert forall|j: int|
                0 <= j < front.len() && (#[trigger] front[j]).url@ == url implies front[j].s3
                is None by {
                assert(upstreams[j] == front[j]);
            }
            assert(upstreams[upstreams.len() - 1].url@ == url ==> upstreams.last().s3 is None);
        }
        assert forall|at: int|
            is_last_under(upstreams, url, at) && (#[trigger] upstreams[at]).s3 is Some implies
            found.contains_key(url) && found[url] == upstreams[at].s3->0@ by {
            if at < front.len() {
                assert(upstreams[upstreams.len() - 1].url@ != url);
                assert(front[at] == upstreams[at]);
                assert forall|j: int| at < j < front.len() implies (#[trigger] front[j]).url@
                    != url by {
                    assert(front[j] == upstreams[j]);
                }
                assert(is_last_under(front, url, at));
            }
        }
    }
}

/// An upstream is asked as a bucket where it, or the cache of last resort under
/// its URL, is configured as one, with the settings that are configured for it.
pub proof fn law_buckets_are_the_configured_ones(
    upstreams: Seq<UpstreamConfig>,
    fallback: Option<UpstreamConfig>,
    url: Seq<char>,
)
    ensures
        ({
            let found = buckets(upstreams, fallback);
            let by_fallback = fallback matches Some(f) && f.url@ == url && f.s3 is Some;
            &&& by_fallback ==> found.contains_key(url) && found[url] == fallback->0.s3->0@
            &&& !by_fallback && (forall|j: int|
                0 <= j < upstreams.len() && (#[trigger] upstreams[j]).url@ == url
                    ==> upstreams[j].s3 is None) ==> !found.contains_key(url)
            &&& !by_fallback ==> forall|at: int|
                is_last_under(upstreams, url, at) && (#[trigger] upstreams[at]).s3 is Some
                    ==> found.contains_key(url) && found[url] == upstreams[at].s3->0@
        }),
{
    lemma_buckets(Map::empty(), upstreams, url);
    let known = with_buckets(Map::empty(), upstreams);
    if let Some(f) = fallback {
        let one = seq![f];
        lemma_buckets(known, one, url);
        assert(one[0] == f);
        if f.url@ == url {
            assert(is_last_under(one, url, 0));
        }
    }
}

/// An archive whose address leads to the upstream has the same key here as one
/// whose address is kept; that of an archive that is served here does not depend
/// on where the upstream has it.
pub proof fn law_keys_of_archives(
    url: Seq<char>,
    other: Seq<char>,
    store_hash: Seq<char>,
)
    ensures
        lookup_key(url, store_hash, NarUrlMode::ToUpstream) == lookup_key(
            url,
            store_hash,
            NarUrlMode::Keep,
        ),
        extension_of(url) == extension_of(other) ==> lookup_key(url, store_hash, NarUrlMode::ToSelf)
            == lookup_key(other, store_hash, NarUrlMode::ToSelf),
{
}

} // verus!
