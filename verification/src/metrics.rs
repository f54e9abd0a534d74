//! What is counted.

use vstd::prelude::*;
use vstd::string::*;

verus! {

/// How a metric counts.
#[derive(Debug, Clone, Copy, PartialEq, Eq, Structural)]
pub enum MetricKind {
    Counter,
    Gauge,
    Histogram,
}

/// A metric: its name, what it means, and by which labels it is told apart.
pub struct Metric {
    pub name: &'static str,
    pub help: &'static str,
    pub labels: Vec<&'static str>,
    pub kind: MetricKind,
}

/// The contents of a metric.
pub struct MetricView {
    pub name: Seq<char>,
    pub help: Seq<char>,
    pub labels: Seq<Seq<char>>,
    pub kind: MetricKind,
}

impl View for Metric {
    type V = MetricView;

    open spec fn view(&self) -> MetricView {
        MetricView {
            name: self.name@,
            help: self.help@,
            labels: Seq::new(self.labels@.len(), |i: int| self.labels@[i]@),
            kind: self.kind,
        }
    }
}

/// A metric without labels.
pub open spec fn plain(name: Seq<char>, help: Seq<char>, kind: MetricKind) -> MetricView {
    MetricView { name, help, labels: seq![], kind }
}

/// A metric with one label.
pub open spec fn labelled(
    name: Seq<char>,
    help: Seq<char>,
    label: Seq<char>,
    kind: MetricKind,
) -> MetricView {
    MetricView { name, help, labels: seq![label], kind }
}

/// What is counted.
pub open spec fn metrics() -> Seq<MetricView> {
    seq![
        plain(
            "ncro_narinfo_cache_hits_total"@,
            "Narinfo requests served from route cache."@,
            MetricKind::Counter,
        ),
        plain(
            "ncro_narinfo_cache_misses_total"@,
            "Narinfo requests requiring upstream race."@,
            MetricKind::Counter,
        ),
        plain(
            "ncro_narinfo_memory_negative_hits_total"@,
            "Narinfo requests denied by short-lived in-memory negative cache."@,
            MetricKind::Counter,
        ),
        plain(
            "ncro_narinfo_singleflight_waiters_total"@,
            "Narinfo requests that waited on an in-flight same-hash lookup."@,
            MetricKind::Counter,
        ),
        labelled(
            "ncro_narinfo_requests_total"@,
            "Narinfo requests by status."@,
            "status"@,
            MetricKind::Counter,
        ),
        plain("ncro_nar_requests_total"@, "NAR streaming requests."@, MetricKind::Counter),
        MetricView {
            name: "ncro_nar_hedges_total"@,
            help: "NAR hedge events."@,
            labels: seq!["event"@, "upstream"@],
            kind: MetricKind::Counter,
        },
        MetricView {
            name: "ncro_nar_hedge_failures_total"@,
            help: "Failed NAR hedge attempts."@,
            labels: seq!["kind"@, "upstream"@],
            kind: MetricKind::Counter,
        },
        plain(
            "ncro_narinfo_upstream_attempts_total"@,
            "Total upstream narinfo attempts made during races."@,
            MetricKind::Counter,
        ),
        labelled(
            "ncro_narinfo_upstream_attempts_per_resolve"@,
            "Upstream attempts per narinfo resolution."@,
            "result"@,
            MetricKind::Histogram,
        ),
        labelled(
            "ncro_narinfo_race_wait_seconds"@,
            "Time spent waiting for race concurrency permit."@,
            "kind"@,
            MetricKind::Histogram,
        ),
        labelled(
            "ncro_upstream_race_wins_total"@,
            "Times each upstream won the narinfo race."@,
            "upstream"@,
            MetricKind::Counter,
        ),
        plain(
            "ncro_route_entries"@,
            "Current number of route entries in SQLite."@,
            MetricKind::Gauge,
        ),
        labelled(
            "ncro_upstream_latency_seconds"@,
            "Upstream narinfo race latency."@,
            "upstream"@,
            MetricKind::Histogram,
        ),
        labelled(
            "ncro_trust_bypass_total"@,
            "Narinfos served without the trust that is asked for."@,
            "reason"@,
            MetricKind::Counter,
        ),
    ]
}

fn unlabelled(name: &'static str, help: &'static str, kind: MetricKind) -> (out: Metric)
    ensures
        out@ == plain(name@, help@, kind),
{
    let out = Metric { name, help, labels: Vec::new(), kind };
    assert(out@.labels =~= seq![]);
    out
}

fn by_label(
    name: &'static str,
    help: &'static str,
    label: &'static str,
    kind: MetricKind,
) -> (out: Metric)
    ensures
        out@ == labelled(name@, help@, label@, kind),
{
    let out = Metric { name, help, labels: vec![label], kind };
    assert(out@.labels =~= seq![label@]);
    out
}

fn by_upstream(name: &'static str, help: &'static str, label: &'static str) -> (out: Metric)
    ensures
        out@ == (MetricView {
            name: name@,
            help: help@,
            labels: seq![label@, "upstream"@],
            kind: MetricKind::Counter,
        }),
{
    let out = Metric { name, help, labels: vec![label, "upstream"], kind: MetricKind::Counter };
    assert(out@.labels =~= seq![label@, "upstream"@]);
    out
}

/// What is counted.
pub fn catalog() -> (out: Vec<Metric>)
    ensures
        Seq::new(out@.len(), |i: int| out@[i]@) == metrics(),
{
    let out: Vec<Metric> = vec![
        unlabelled(
            "ncro_narinfo_cache_hits_total",
            "Narinfo requests served from route cache.",
            MetricKind::Counter,
        ),
        unlabelled(
            "ncro_narinfo_cache_misses_total",
            "Narinfo requests requiring upstream race.",
            MetricKind::Counter,
        ),
        unlabelled(
            "ncro_narinfo_memory_negative_hits_total",
            "Narinfo requests denied by short-lived in-memory negative cache.",
            MetricKind::Counter,
        ),
        unlabelled(
            "ncro_narinfo_singleflight_waiters_total",
            "Narinfo requests that waited on an in-flight same-hash lookup.",
            MetricKind::Counter,
        ),
        by_label(
            "ncro_narinfo_requests_total",
            "Narinfo requests by status.",
            "status",
            MetricKind::Counter,
        ),
        unlabelled("ncro_nar_requests_total", "NAR streaming requests.", MetricKind::Counter),
        by_upstream("ncro_nar_hedges_total", "NAR hedge events.", "event"),
        by_upstream("ncro_nar_hedge_failures_total", "Failed NAR hedge attempts.", "kind"),
        unlabelled(
            "ncro_narinfo_upstream_attempts_total",
            "Total upstream narinfo attempts made during races.",
            MetricKind::Counter,
        ),
        by_label(
            "ncro_narinfo_upstream_attempts_per_resolve",
            "Upstream attempts per narinfo resolution.",
            "result",
            MetricKind::Histogram,
        ),
        by_label(
            "ncro_narinfo_race_wait_seconds",
            "Time spent waiting for race concurrency permit.",
            "kind",
            MetricKind::Histogram,
        ),
        by_label(
            "ncro_upstream_race_wins_total",
            "Times each upstream won the narinfo race.",
            "upstream",
            MetricKind::Counter,
        ),
        unlabelled(
            "ncro_route_entries",
            "Current number of route entries in SQLite.",
            MetricKind::Gauge,
        ),
        by_label(
            "ncro_upstream_latency_seconds",
            "Upstream narinfo race latency.",
            "upstream",
            MetricKind::Histogram,
        ),
        by_label(
            "ncro_trust_bypass_total",
            "Narinfos served without the trust that is asked for.",
            "reason",
            MetricKind::Counter,
        ),
    ];
    assert(Seq::new(out@.len(), |i: int| out@[i]@) =~= metrics());
    out
}

/// No two metrics have the same name, so that all can be registered together.
pub proof fn law_metric_names_differ(i: int, j: int)
    requires
        0 <= i < j < metrics().len(),
    ensures
        metrics()[i].name != metrics()[j].name,
{
    reveal_strlit("ncro_narinfo_cache_hits_total");
    reveal_strlit("ncro_narinfo_cache_misses_total");
    reveal_strlit("ncro_narinfo_memory_negative_hits_total");
    reveal_strlit("ncro_narinfo_singleflight_waiters_total");
    reveal_strlit("ncro_narinfo_requests_total");
    reveal_strlit("ncro_nar_requests_total");
    reveal_strlit("ncro_nar_hedges_total");
    reveal_strlit("ncro_nar_hedge_failures_total");
    reveal_strlit("ncro_narinfo_upstream_attempts_total");
    reveal_strlit("ncro_narinfo_upstream_attempts_per_resolve");
    reveal_strlit("ncro_narinfo_race_wait_seconds");
    reveal_strlit("ncro_upstream_race_wins_total");
    reveal_strlit("ncro_route_entries");
    reveal_strlit("ncro_upstream_latency_seconds");
    reveal_strlit("ncro_trust_bypass_total");
    let a = metrics()[i].name;
    let b = metrics()[j].name;
    assert(a.len() != b.len() || a[5] != b[5] || a[8] != b[8] || a[13] != b[13] || a[14] != b[14]);
}

} // verus!
