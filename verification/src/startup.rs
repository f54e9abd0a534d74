//! The start: what is known before the first request.

use vstd::prelude::*;

use crate::config::{Config, UpstreamConfig};
use crate::filter::{law_what_is_allowed_passes, rule_views, rules_allow};
use crate::health::{
    seeded, status_after, with_logins, with_upstreams, Prober, UpstreamHealth,
};
use crate::nar::{buckets, is_last_under, none_under, with_buckets};
use crate::nar_url::NarUrlMode;
use crate::narinfo::{NarInfoErrorView, NarInfoView};
use crate::registry::{
    are_normalized, configured_keys_read, is_configured_key, is_key_error,
    law_key_order_is_irrelevant, login_of, unless_empty, verified_by, Router, RouterTuning,
    UpstreamRegistrationError,
};
use crate::routes::HealthRow;
use crate::text::{view_opt, views};

verus! {

/// The cache of last resort, where it is enabled.
pub open spec fn fallback_of(config: Config) -> Option<UpstreamConfig> {
    if config.fallback_cache.enabled {
        Some(config.fallback_cache.upstream)
    } else {
        None
    }
}

/// The cache of last resort, where it is enabled.
pub fn fallback(config: &Config) -> (out: Option<&UpstreamConfig>)
    ensures
        match out {
            Some(upstream) => fallback_of(*config) == Some(*upstream),
            None => fallback_of(*config) is None,
        },
{
    if config.fallback_cache.enabled {
        Some(&config.fallback_cache.upstream)
    } else {
        None
    }
}

/// The limits that a configuration sets for races.
pub fn tuning(config: &Config) -> (out: RouterTuning)
    ensures
        out.max_concurrent_races == config.cache.mass_query.max_concurrent_races,
        out.per_upstream_max_inflight == config.cache.mass_query.per_upstream_max_inflight,
        out.in_memory_negative_ttl == config.cache.mass_query.in_memory_negative_ttl.0,
        out.upstream_cooldown == config.cache.mass_query.upstream_cooldown.0,
{
    RouterTuning {
        max_concurrent_races: config.cache.mass_query.max_concurrent_races,
        per_upstream_max_inflight: config.cache.mass_query.per_upstream_max_inflight,
        in_memory_negative_ttl: config.cache.mass_query.in_memory_negative_ttl.0,
        upstream_cooldown: config.cache.mass_query.upstream_cooldown.0,
    }
}

/// `records` with what the database knows of them.
pub open spec fn with_rows(records: Map<Seq<char>, UpstreamHealth>, rows: Seq<HealthRow>) -> Map<
    Seq<char>,
    UpstreamHealth,
>
    decreases rows.len(),
{
    if rows.len() == 0 {
        records
    } else {
        let rest = with_rows(records, rows.drop_last());
        let row = rows.last();
        if rest.contains_key(row.url@) {
            rest.insert(
                row.url@,
                seeded(rest[row.url@], row.ema_latency, row.consecutive_fails, row.total_queries),
            )
        } else {
            rest
        }
    }
}

/// A prober of the configured upstreams that remembers what the database knows of
/// them.
pub fn start_prober(config: &Config, rows: &Vec<HealthRow>) -> (out: Prober)
    ensures
        out.wf(),
        out.weight() == config.cache.latency_alpha.value,
        out.records() == with_rows(with_upstreams(Map::empty(), config.upstreams@), rows@),
        out.logins() == with_logins(Map::empty(), config.upstreams@),
{
    let mut out: Prober = Prober::new(config.cache.latency_alpha.value);
    out.init_upstreams(&config.upstreams);
    let ghost known = out.records();
    let ghost logins = out.logins();
    let n: usize = rows.len();
    let mut i: usize = 0;
    assert(rows@.take(0) =~= seq![]);
    while i < n
        invariant
            i <= n,
            n == rows@.len(),
            out.wf(),
            out.weight() == config.cache.latency_alpha.value,
            out.logins() == logins,
            out.records() == with_rows(known, rows@.take(i as int)),
        decreases n - i,
    {
        let row: &HealthRow = &rows[i];
        let ghost next = rows@.take(i + 1);
        assert(next.drop_last() =~= rows@.take(i as int));
        assert(next.last() == *row);
        out.seed(row.url.as_str(), row.ema_latency, row.consecutive_fails, row.total_queries);
        i = i + 1;
    }
    assert(rows@.take(n as int) =~= rows@);
    out
}

/// Which of `list` was registered last under `url`.
pub open spec fn last_under(list: Seq<UpstreamConfig>, url: Seq<char>) -> Option<UpstreamConfig>
    decreases list.len(),
{
    if list.len() == 0 {
        None
    } else if list.last().url@ == url {
        Some(list.last())
    } else {
        last_under(list.drop_last(), url)
    }
}

/// `router` knows of `url` what `config` says, or nothing.
pub open spec fn knows(router: Router, url: Seq<char>, config: Option<UpstreamConfig>) -> bool {
    match config {
        Some(c) => {
            &&& exists|keys: Seq<Seq<char>>| #[trigger]
                are_normalized(keys, c.public_key@, views(c.public_keys@)) && router.keys_of(url)
                    == unless_empty(keys)
            &&& router.login_of(url) == login_of(c)
            &&& router.rules_of(url) == unless_empty(rule_views(c.filters@))
            &&& router.mode_of(url) == c.nar_url_mode
            &&& router.timeout_of(url) == match c.narinfo_timeout {
                Some(t) => Some(t.0),
                None => None,
            }
        },
        None => {
            &&& router.keys_of(url) is None
            &&& router.login_of(url) is None
            &&& router.rules_of(url) is None
            &&& router.mode_of(url) == NarUrlMode::ToSelf
            &&& router.timeout_of(url) is None
        },
    }
}

/// The upstreams that are registered: the configured ones, and the cache of last
/// resort where it is enabled.
pub open spec fn registered(config: Config) -> Seq<UpstreamConfig> {
    if config.fallback_cache.enabled {
        config.upstreams@.push(config.fallback_cache.upstream)
    } else {
        config.upstreams@
    }
}

/// `router` knows what `list` says, registered in order.
pub open spec fn knows_all(router: Router, list: Seq<UpstreamConfig>) -> bool {
    forall|url: Seq<char>| #[trigger] knows(router, url, last_under(list, url))
}

proof fn lemma_one_more_bucket(list: Seq<UpstreamConfig>, upstream: UpstreamConfig)
    ensures
        with_buckets(Map::empty(), list.push(upstream)) == with_buckets(
            with_buckets(Map::empty(), list),
            seq![upstream],
        ),
{
    let known = with_buckets(Map::empty(), list);
    let one = seq![upstream];
    assert(list.push(upstream).drop_last() =~= list);
    assert(one.drop_last() =~= seq![]);
    assert(with_buckets(known, one.drop_last()) == known);
}

fn register(router: &mut Router, upstream: &UpstreamConfig, Ghost(list): Ghost<
    Seq<UpstreamConfig>,
>) -> (out: Result<(), UpstreamRegistrationError>)
    requires
        old(router).wf(),
        knows_all(*old(router), list),
    ensures
        out is Ok <==> configured_keys_read(*upstream),
        out is Ok ==> final(router).wf() && knows_all(*final(router), list.push(*upstream)),
        out matches Err(e) ==> (e matches UpstreamRegistrationError::PublicKey(ne) && is_key_error(
            *upstream,
            ne@,
        )),
        final(router).s3_settings() == with_buckets(old(router).s3_settings(), seq![*upstream]),
{
    proof {
        let one = seq![*upstream];
        assert(one.drop_last() =~= seq![]);
        assert(with_buckets(router.s3_settings(), one.drop_last()) == router.s3_settings());
    }
    let ghost was = *router;
    match router.register_upstream(upstream) {
        Ok(_) => {
            proof {
                let all = list.push(*upstream);
                assert(all.drop_last() =~= list);
                assert forall|url: Seq<char>| #[trigger]
                    knows(*router, url, last_under(all, url)) by {
                    if url != upstream.url@ {
                        assert(knows(was, url, last_under(list, url)));
                        assert(router.keys_of(url) == was.keys_of(url));
                        assert(router.agrees_on(was, url));
                    }
                }
            }
            Ok(())
        },
        Err(e) => Err(e),
    }
}

/// `error` is what is wrong with the first key that does not read as one, of the
/// first of `list` that has such a key.
pub open spec fn is_first_key_error(list: Seq<UpstreamConfig>, error: NarInfoErrorView) -> bool {
    exists|k: int|
        0 <= k < list.len() && #[trigger] is_key_error(list[k], error) && forall|j: int|
            0 <= j < k ==> configured_keys_read(#[trigger] list[j])
}

/// A router that knows the configured upstreams, and the cache of last resort
/// where it is enabled. A key that is no key is the error.
pub fn start_router(config: &Config) -> (out: Result<Router, UpstreamRegistrationError>)
    ensures
        out is Ok <==> (forall|i: int|
            0 <= i < registered(*config).len() ==> configured_keys_read(
                #[trigger] registered(*config)[i],
            )),
        out matches Ok(router) ==> router.wf() && knows_all(router, registered(*config))
            && router.s3_settings() == buckets(config.upstreams@, fallback_of(*config)),
        out matches Err(e) ==> (e matches UpstreamRegistrationError::PublicKey(ne)
            && is_first_key_error(registered(*config), ne@)),
{
    let mut router: Router = Router::new();
    let n: usize = config.upstreams.len();
    let mut i: usize = 0;
    let ghost all = registered(*config);
    assert(config.upstreams@.take(0) =~= seq![]);
    assert(knows_all(router, seq![])) by {
        assert forall|url: Seq<char>| #[trigger]
            knows(router, url, last_under(Seq::<UpstreamConfig>::empty(), url)) by {
            assert(router.keys_of(url) is None);
            assert(router.login_of(url) is None);
            assert(router.rules_of(url) is None);
            assert(router.mode_of(url) == NarUrlMode::ToSelf);
            assert(router.timeout_of(url) is None);
        }
    }
    while i < n
        invariant
            i <= n,
            n == config.upstreams@.len(),
            all == registered(*config),
            router.wf(),
            knows_all(router, config.upstreams@.take(i as int)),
            router.s3_settings() == with_buckets(Map::empty(), config.upstreams@.take(i as int)),
            forall|j: int| 0 <= j < i ==> configured_keys_read(#[trigger] all[j]),
        decreases n - i,
    {
        let ghost done = config.upstreams@.take(i as int);
        assert(config.upstreams@.take(i + 1) =~= done.push(config.upstreams@[i as int]));
        assert(all[i as int] == config.upstreams@[i as int]);
        proof {
            lemma_one_more_bucket(done, config.upstreams@[i as int]);
        }
        match register(&mut router, &config.upstreams[i], Ghost(done)) {
            Ok(_) => {},
            Err(e) => return Err(e),
        }
        i = i + 1;
    }
    assert(config.upstreams@.take(n as int) =~= config.upstreams@);
    if config.fallback_cache.enabled {
        assert(all[n as int] == config.fallback_cache.upstream);
        match register(&mut router, &config.fallback_cache.upstream, Ghost(config.upstreams@)) {
            Ok(_) => {},
            Err(e) => return Err(e),
        }
    }
    Ok(router)
}

/// What the database knows of an upstream is taken over where the upstream is
/// configured, and of two rows the later counts; an upstream that is not configured
/// stays unknown, and one without a row stays as it is.
pub proof fn law_stored_health_is_taken_over(
    records: Map<Seq<char>, UpstreamHealth>,
    rows: Seq<HealthRow>,
    url: Seq<char>,
    at: int,
)
    ensures
        with_rows(records, rows).contains_key(url) <==> records.contains_key(url),
        records.contains_key(url) ==> with_rows(records, rows)[url].url == records[url].url
            && with_rows(records, rows)[url].priority == records[url].priority,
        records.contains_key(url) && (forall|j: int|
            0 <= j < rows.len() ==> (#[trigger] rows[j]).url@ != url) ==> with_rows(records, rows)[url]
            == records[url],
        records.contains_key(url) && 0 <= at < rows.len() && rows[at].url@ == url && (forall|j: int|
            at < j < rows.len() ==> (#[trigger] rows[j]).url@ != url) ==> {
            let health = with_rows(records, rows)[url];
            &&& health.ema_latency == rows[at].ema_latency
            &&& 0 <= rows[at].consecutive_fails <= u32::MAX ==> health.consecutive_fails
                == rows[at].consecutive_fails && health.status == status_after(
                rows[at].consecutive_fails as u32,
            )
            &&& 0 <= rows[at].total_queries ==> health.total_queries == rows[at].total_queries
        },
    decreases rows.len(),
{
    if rows.len() > 0 {
        let front = rows.drop_last();
        law_stored_health_is_taken_over(records, front, url, at);
        assert(rows[rows.len() - 1] == rows.last());
        if forall|j: int| 0 <= j < rows.len() ==> (#[trigger] rows[j]).url@ != url {
            assert forall|j: int| 0 <= j < front.len() implies (#[trigger] front[j]).url@ != url by {
                assert(front[j] == rows[j]);
            }
            assert(rows[rows.len() - 1].url@ != url);
        }
        if 0 <= at < front.len() && rows[at].url@ == url && (forall|j: int|
            at < j < rows.len() ==> (#[trigger] rows[j]).url@ != url) {
            assert(front[at] == rows[at]);
            assert forall|j: int| at < j < front.len() implies (#[trigger] front[j]).url@ != url by {
                assert(front[j] == rows[j]);
            }
            assert(rows[rows.len() - 1].url@ != url);
        }
    }
}

/// Of two upstreams under one URL the one that was registered later counts; the
/// cache of last resort is registered behind the others, where it is enabled.
pub proof fn law_later_registrations_count(
    list: Seq<UpstreamConfig>,
    url: Seq<char>,
    at: int,
    config: Config,
)
    ensures
        is_last_under(list, url, at) ==> last_under(list, url) == Some(list[at]),
        none_under(list, url) ==> last_under(list, url) is None,
        config.fallback_cache.enabled ==> registered(config).drop_last() == config.upstreams@
            && registered(config).last() == config.fallback_cache.upstream && fallback_of(config)
            == Some(config.fallback_cache.upstream),
        !config.fallback_cache.enabled ==> registered(config) == config.upstreams@ && fallback_of(
            config,
        ) is None,
    decreases list.len(),
{
    if config.fallback_cache.enabled {
        assert(registered(config).drop_last() =~= config.upstreams@);
    }
    if list.len() > 0 {
        let front = list.drop_last();
        law_later_registrations_count(front, url, at, config);
        assert(list[list.len() - 1] == list.last());
        if is_last_under(list, url, at) && at < front.len() {
            assert(list[list.len() - 1].url@ != url);
            assert(front[at] == list[at]);
            assert forall|j: int| at < j < front.len() implies (#[trigger] front[j]).url@ != url by {
                assert(front[j] == list[j]);
            }
        }
        if none_under(list, url) {
            assert(list[list.len() - 1].url@ != url);
            assert forall|j: int| 0 <= j < front.len() implies (#[trigger] front[j]).url@ != url by {
                assert(front[j] == list[j]);
            }
        }
    }
}

/// What an upstream is configured with decides what its narinfos need: one with
/// keys needs a signature by one of them, whether it has one key or a list; one
/// without takes any. Its filters decide what it may serve, and without any it may
/// serve everything.
pub proof fn law_upstreams_are_held_to_their_configuration(
    router: Router,
    config: UpstreamConfig,
    info: NarInfoView,
)
    requires
        knows(router, config.url@, Some(config)),
    ensures
        router.vouches(config.url@, info) <==> {
            ||| config.public_key@.len() == 0 && config.public_keys@.len() == 0
            ||| config.public_key@.len() > 0 && verified_by(info, config.public_key@)
            ||| exists|i: int|
                0 <= i < config.public_keys@.len() && verified_by(
                    info,
                    (#[trigger] config.public_keys@[i])@,
                )
        },
        router.allows(config.url@, info) <==> rules_allow(rule_views(config.filters@), info),
        config.username@.len() == 0 ==> router.login_of(config.url@) is None,
        config.username@.len() > 0 ==> router.login_of(config.url@) == Some(
            (config.username@, view_opt(config.password)),
        ),
{
    let url = config.url@;
    let listed = views(config.public_keys@);
    let own = config.public_key@;
    let keys = choose|keys: Seq<Seq<char>>| #[trigger]
        are_normalized(keys, own, listed) && router.keys_of(url) == unless_empty(keys);
    law_key_order_is_irrelevant(info, keys, own, listed);
    assert forall|key: Seq<char>| listed.contains(key) implies exists|i: int|
        0 <= i < config.public_keys@.len() && key == (#[trigger] config.public_keys@[i])@ by {
        let i = choose|i: int| 0 <= i < listed.len() && listed[i] == key;
        assert(key == config.public_keys@[i]@);
    }
    if keys.len() == 0 {
        if own.len() > 0 {
            assert(keys.contains(own) <==> is_configured_key(own, listed, own));
        }
        if listed.len() > 0 {
            assert(listed.contains(listed[0]));
            assert(keys.contains(listed[0]) <==> is_configured_key(own, listed, listed[0]));
        }
    } else {
        assert(keys.contains(keys[0]));
        assert(is_configured_key(own, listed, keys[0]));
        if listed.contains(keys[0]) {
            assert(listed.len() > 0);
        }
        if router.vouches(url, info) {
            let key = choose|key: Seq<char>|
                is_configured_key(own, listed, key) && #[trigger] verified_by(info, key);
            if listed.contains(key) {
                let i = choose|i: int|
                    0 <= i < config.public_keys@.len() && key == (
                    #[trigger] config.public_keys@[i])@;
                assert(verified_by(info, config.public_keys@[i]@));
            }
        }
        if own.len() > 0 && verified_by(info, own) {
            assert(is_configured_key(own, listed, own));
        }
        if exists|i: int|
            0 <= i < config.public_keys@.len() && verified_by(
                info,
                (#[trigger] config.public_keys@[i])@,
            ) {
            let i = choose|i: int|
                0 <= i < config.public_keys@.len() && verified_by(
                    info,
                    (#[trigger] config.public_keys@[i])@,
                );
            assert(listed[i] == config.public_keys@[i]@);
            assert(listed.contains(listed[i]));
            assert(is_configured_key(own, listed, listed[i]));
        }
    }
    if config.filters@.len() == 0 {
        law_what_is_allowed_passes(rule_views(config.filters@), info);
    }
}

} // verus!
