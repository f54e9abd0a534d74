//! Probes: when one is due, what it asks and what its answer means.

use vstd::prelude::*;

use crate::health::{
    backoff_interval, backoff_nanos, law_failures_decide_the_status, Prober, UpstreamHealth,
};
use crate::table::Table;
use crate::text::{concat2, views};
use crate::time::{max_nanos, Duration, Instant};

verus! {

// ---------------------------------------------------------------------------
// The schedule
// ---------------------------------------------------------------------------
/// How often it is looked whether probes are due: a quarter of the interval
/// between probes, but no more than once a second.
pub fn check_tick(interval: Duration) -> (out: Duration)
    ensures
        out@ == if interval@ / 4 <= 1_000_000_000 {
            1_000_000_000
        } else {
            interval@ / 4
        },
{
    interval.quarter().max_with(Duration::from_secs(1))
}

/// A probe is due of an upstream that was never probed, or whose last probe lies
/// long enough back.
pub open spec fn probe_due(last: Option<nat>, now: nat, interval: nat, fails: u32) -> bool {
    match last {
        None => true,
        Some(last) => (if last <= now {
            now - last
        } else {
            0
        }) >= backoff_nanos(interval, fails),
    }
}

/// When `url` was last probed.
pub open spec fn last_probe_of(last: Map<Seq<char>, Instant>, url: Seq<char>) -> Option<nat> {
    if last.contains_key(url) {
        Some(last[url]@)
    } else {
        None
    }
}

/// The URLs of `list` whose probes are due, in order.
pub open spec fn due_urls(
    list: Seq<UpstreamHealth>,
    last: Map<Seq<char>, Instant>,
    now: nat,
    interval: nat,
) -> Seq<Seq<char>>
    decreases list.len(),
{
    if list.len() == 0 {
        seq![]
    } else {
        let rest = due_urls(list.drop_last(), last, now, interval);
        let health = list.last();
        if probe_due(last_probe_of(last, health.url@), now, interval, health.consecutive_fails) {
            rest.push(health.url@)
        } else {
            rest
        }
    }
}

/// `last` with `now` for each of `urls`.
pub open spec fn probed_now(
    last: Map<Seq<char>, Instant>,
    urls: Seq<Seq<char>>,
    now: Instant,
) -> Map<Seq<char>, Instant> {
    Map::new(
        |url: Seq<char>| last.contains_key(url) || urls.contains(url),
        |url: Seq<char>|
            if urls.contains(url) {
                now
            } else {
                last[url]
            },
    )
}

proof fn lemma_due_urls_listed(
    list: Seq<UpstreamHealth>,
    last: Map<Seq<char>, Instant>,
    now: nat,
    interval: nat,
    url: Seq<char>,
)
    requires
        due_urls(list, last, now, interval).contains(url),
    ensures
        exists|i: int| 0 <= i < list.len() && (#[trigger] list[i]).url@ == url,
    decreases list.len(),
{
    if list.len() > 0 {
        let urls = due_urls(list, last, now, interval);
        let rest = due_urls(list.drop_last(), last, now, interval);
        let k = choose|k: int| 0 <= k < urls.len() && urls[k] == url;
        if k < rest.len() {
            assert(rest[k] == url);
            lemma_due_urls_listed(list.drop_last(), last, now, interval, url);
            let i = choose|i: int|
                0 <= i < list.drop_last().len() && (#[trigger] list.drop_last()[i]).url@ == url;
            assert(list[i].url@ == url);
        } else {
            assert(list[list.len() - 1].url@ == url);
        }
    }
}

impl Prober {
    /// The upstreams whose probes are due, which `last_probed` then says were
    /// probed now.
    pub fn due_probes(
        &self,
        last_probed: &mut Table<Instant>,
        interval: Duration,
        now: Instant,
    ) -> (out: Vec<String>)
        requires
            self.wf(),
            old(last_probed).wf(),
        ensures
            final(last_probed).wf(),
            views(out@) == due_urls(self.list(), old(last_probed).view(), now@, interval@),
            final(last_probed).view() == probed_now(old(last_probed).view(), views(out@), now),
    {
        let list: Vec<UpstreamHealth> = self.all_health();
        let ghost before = last_probed.view();
        proof {
            self.lemma_listed();
        }
        let mut out: Vec<String> = Vec::new();
        let n: usize = list.len();
        let mut i: usize = 0;
        assert(last_probed.view() =~= probed_now(before, views(out@), now));
        while i < n
            invariant
                i <= n,
                n == list@.len(),
                last_probed.wf(),
                views(out@) == due_urls(list@.take(i as int), before, now@, interval@),
                last_probed.view() == probed_now(before, views(out@), now),
                forall|i: int, j: int|
                    0 <= i < list@.len() && 0 <= j < list@.len() && i != j ==> (
                    #[trigger] list@[i]).url@ != (#[trigger] list@[j]).url@,
            decreases n - i,
        {
            let health: &UpstreamHealth = &list[i];
            let ghost next = list@.take(i + 1);
            let ghost seen = views(out@);
            assert(next.drop_last() =~= list@.take(i as int));
            assert(next.last() == *health);
            proof {
                if seen.contains(health.url@) {
                    lemma_due_urls_listed(
                        list@.take(i as int),
                        before,
                        now@,
                        interval@,
                        health.url@,
                    );
                    let j = choose|j: int|
                        0 <= j < list@.take(i as int).len() && (#[trigger] list@.take(
                            i as int,
                        )[j]).url@ == health.url@;
                    assert(list@[j].url@ == list@[i as int].url@);
                }
            }
            let wait: Duration = backoff_interval(interval, health.consecutive_fails);
            let due: bool = match last_probed.get(health.url.as_str()) {
                None => true,
                Some(last) => wait.at_most(&now.saturating_duration_since(*last)),
            };
            if due {
                let url: String = health.url.clone();
                last_probed.insert(health.url.clone(), now);
                out.push(url);
                assert(views(out@) =~= seen.push(health.url@));
                assert forall|u: Seq<char>|
                    views(out@).contains(u) == (seen.contains(u) || u == health.url@) by {
                    if seen.contains(u) {
                        let k = choose|k: int| 0 <= k < seen.len() && seen[k] == u;
                        assert(views(out@)[k] == u);
                    }
                    if u == health.url@ {
                        assert(views(out@)[seen.len() as int] == u);
                    }
                    if views(out@).contains(u) {
                        let k = choose|k: int| 0 <= k < views(out@).len() && views(out@)[k] == u;
                        if k < seen.len() {
                            assert(seen[k] == u);
                        }
                    }
                }
                assert(last_probed.view() =~= probed_now(before, views(out@), now));
            }
            i = i + 1;
        }
        assert(list@.take(n as int) =~= list@);
        out
    }
}

/// An upstream that was just probed is not due again at once, unless probes have
/// no time between them.
pub proof fn law_no_probe_at_once(now: nat, interval: nat, fails: u32)
    requires
        interval > 0,
    ensures
        !probe_due(Some(now), now, interval, fails),
{
    let factor = crate::health::backoff_factor(crate::health::status_after(fails)) as nat;
    assert(interval * factor > 0) by (nonlinear_arith)
        requires
            interval > 0,
            factor > 0,
    ;
}

// ---------------------------------------------------------------------------
// The probe
// ---------------------------------------------------------------------------
/// What a probe does next.
#[derive(Debug, Clone, Copy, PartialEq, Eq, Structural)]
pub enum ProbeStep {
    /// Nothing: the upstream is not known.
    Skip,
    /// Asks the bucket whether it has `nix-cache-info`.
    HeadObject,
    /// Asks for the head of `nix-cache-info`.
    Head,
    /// Asks for `nix-cache-info`.
    Get,
    /// Records how long the answer took.
    RecordLatency,
    /// Records a failure.
    RecordFailure,
}

/// What a probe of an upstream begins with.
pub fn first_step(known: bool, is_s3: bool) -> (out: ProbeStep)
    ensures
        out == if !known {
            ProbeStep::Skip
        } else if is_s3 {
            ProbeStep::HeadObject
        } else {
            ProbeStep::Head
        },
{
    if !known {
        ProbeStep::Skip
    } else if is_s3 {
        ProbeStep::HeadObject
    } else {
        ProbeStep::Head
    }
}

/// What follows `step`, whose answer was a success or not. An upstream that
/// refuses to give the head of `nix-cache-info` is asked for all of it.
pub open spec fn step_after(step: ProbeStep, success: bool) -> ProbeStep {
    match step {
        ProbeStep::HeadObject | ProbeStep::Get => if success {
            ProbeStep::RecordLatency
        } else {
            ProbeStep::RecordFailure
        },
        ProbeStep::Head => if success {
            ProbeStep::RecordLatency
        } else {
            ProbeStep::Get
        },
        _ => step,
    }
}

/// What follows `step`, whose answer was a success or not.
pub fn next_step(step: ProbeStep, success: bool) -> (out: ProbeStep)
    ensures
        out == step_after(step, success),
{
    match step {
        ProbeStep::HeadObject | ProbeStep::Get => if success {
            ProbeStep::RecordLatency
        } else {
            ProbeStep::RecordFailure
        },
        ProbeStep::Head => if success {
            ProbeStep::RecordLatency
        } else {
            ProbeStep::Get
        },
        _ => step,
    }
}

/// Whether the status of an answer is that of a probe that succeeded.
pub fn probe_succeeded(status: Option<u16>) -> (yes: bool)
    ensures
        yes == (status == Some(200u16)),
{
    match status {
        Some(code) => code == 200,
        None => false,
    }
}

/// Where the probe of an upstream asks.
pub fn probe_url(url: &str) -> (out: String)
    ensures
        out@ == url@ + "/nix-cache-info"@,
{
    concat2(url, "/nix-cache-info")
}

/// A probe ends after at most two answers, and records a failure only where no
/// answer was a success.
pub proof fn law_probe_ends(first: ProbeStep, a: bool, b: bool)
    requires
        first == ProbeStep::HeadObject || first == ProbeStep::Head,
    ensures
        ({
            let end = step_after(step_after(first, a), b);
            (end == ProbeStep::RecordLatency || end == ProbeStep::RecordFailure) && (end
                == ProbeStep::RecordFailure ==> !a)
        }),
{
}

/// A probe of an upstream is due where it was never probed, and else when the
/// interval between probes has passed: once for an upstream that is active, four
/// times for one that is degraded, ten times for one that is down.
pub proof fn law_probes_are_due_in_time(last: nat, now: nat, interval: nat, fails: u32)
    requires
        last <= now,
        10 * interval <= max_nanos(),
    ensures
        probe_due(None, now, interval, fails),
        fails <= 2 ==> (probe_due(Some(last), now, interval, fails) <==> now >= last + interval),
        3 <= fails <= 9 ==> (probe_due(Some(last), now, interval, fails) <==> now >= last + 4
            * interval),
        10 <= fails ==> (probe_due(Some(last), now, interval, fails) <==> now >= last + 10
            * interval),
{
    law_failures_decide_the_status(fails, interval);
}

/// `health` is due a probe.
spec fn is_due(last: Map<Seq<char>, Instant>, now: nat, interval: nat) -> spec_fn(
    UpstreamHealth,
) -> bool {
    |health: UpstreamHealth|
        probe_due(
            if last.contains_key(health.url@) {
                Some(last[health.url@]@)
            } else {
                None
            },
            now,
            interval,
            health.consecutive_fails,
        )
}

proof fn lemma_due_urls(
    list: Seq<UpstreamHealth>,
    last: Map<Seq<char>, Instant>,
    now: nat,
    interval: nat,
)
    ensures
        due_urls(list, last, now, interval) == list.filter(
            is_due(last, now, interval),
        ).map_values(|health: UpstreamHealth| health.url@),
    decreases list.len(),
{
    reveal(Seq::filter);
    if list.len() > 0 {
        lemma_due_urls(list.drop_last(), last, now, interval);
    }
    assert(due_urls(list, last, now, interval) =~= list.filter(
        is_due(last, now, interval),
    ).map_values(|health: UpstreamHealth| health.url@));
}

/// Every upstream whose probe is due is probed, and no other; what is probed was
/// then probed now, and the others when they were.
pub proof fn law_all_due_upstreams_are_probed(
    list: Seq<UpstreamHealth>,
    last: Map<Seq<char>, Instant>,
    now: Instant,
    interval: nat,
    url: Seq<char>,
)
    ensures
        ({
            let urls = due_urls(list, last, now@, interval);
            let after = probed_now(last, urls, now);
            &&& urls.contains(url) <==> exists|i: int|
                0 <= i < list.len() && (#[trigger] list[i]).url@ == url && probe_due(
                    if last.contains_key(url) {
                        Some(last[url]@)
                    } else {
                        None
                    },
                    now@,
                    interval,
                    list[i].consecutive_fails,
                )
            &&& urls.contains(url) ==> after.contains_key(url) && after[url] == now
            &&& !urls.contains(url) ==> {
                &&& after.contains_key(url) <==> last.contains_key(url)
                &&& last.contains_key(url) ==> after[url] == last[url]
            }
        }),
{
    let keep = is_due(last, now@, interval);
    let urls = due_urls(list, last, now@, interval);
    let due = list.filter(keep);
    lemma_due_urls(list, last, now@, interval);
    if urls.contains(url) {
        let k = choose|k: int| 0 <= k < urls.len() && urls[k] == url;
        list.lemma_filter_pred(keep, k);
        assert(due.contains(due[k]));
        list.lemma_filter_contains_rev(keep, due[k]);
        let i = choose|i: int| 0 <= i < list.len() && list[i] == due[k];
        assert(list[i].url@ == url);
    }
    if exists|i: int|
        0 <= i < list.len() && (#[trigger] list[i]).url@ == url && probe_due(
            if last.contains_key(url) {
                Some(last[url]@)
            } else {
                None
            },
            now@,
            interval,
            list[i].consecutive_fails,
        ) {
        let i = choose|i: int|
            0 <= i < list.len() && (#[trigger] list[i]).url@ == url && probe_due(
                if last.contains_key(url) {
                    Some(last[url]@)
                } else {
                    None
                },
                now@,
                interval,
                list[i].consecutive_fails,
            );
        assert(keep(list[i]));
        list.lemma_filter_contains(keep, i);
        let k = choose|k: int| 0 <= k < due.len() && due[k] == list[i];
        assert(urls[k] == url);
    }
}

/// A probe records a latency where one of its questions was answered with
/// success, and a failure where none was. A bucket is asked once, any other
/// upstream a second time where it refuses the head, and one that is not known is
/// not asked at all.
pub proof fn law_probes_record_what_they_found(a: bool, b: bool)
    ensures
        step_after(ProbeStep::Head, a) == ProbeStep::Get <==> !a,
        step_after(step_after(ProbeStep::Head, a), b) == ProbeStep::RecordLatency <==> a || b,
        step_after(step_after(ProbeStep::Head, a), b) == ProbeStep::RecordFailure <==> !a && !b,
        step_after(ProbeStep::HeadObject, a) == ProbeStep::RecordLatency <==> a,
        step_after(ProbeStep::HeadObject, a) == ProbeStep::RecordFailure <==> !a,
        step_after(ProbeStep::Skip, a) == ProbeStep::Skip,
        step_after(ProbeStep::RecordLatency, a) == ProbeStep::RecordLatency,
        step_after(ProbeStep::RecordFailure, a) == ProbeStep::RecordFailure,
{
}

} // verus!
