//! The health of upstreams: what probes have found, when the next probe is due
//! and in which order upstreams are asked.

use vstd::prelude::*;
use vstd::string::*;

use crate::config::UpstreamConfig;
use crate::double::Double;
use crate::table::Table;
use crate::text::copy_opt;
use crate::time::{max_nanos, Duration, Instant};

verus! {

/// How an upstream is doing.
#[derive(Debug, Clone, Copy, PartialEq, Eq, Structural)]
pub enum Status {
    Active,
    Degraded,
    Down,
}

impl Status {
    /// The name of the status.
    pub open spec fn text(self) -> Seq<char> {
        match self {
            Status::Active => "ACTIVE"@,
            Status::Degraded => "DEGRADED"@,
            Status::Down => "DOWN"@,
        }
    }

    /// The name of the status.
    pub fn as_str(self) -> (out: &'static str)
        ensures
            out@ == self.text(),
    {
        match self {
            Status::Active => "ACTIVE",
            Status::Degraded => "DEGRADED",
            Status::Down => "DOWN",
        }
    }
}

/// The status of an upstream that has failed `consecutive_fails` times in a row.
pub open spec fn status_after(consecutive_fails: u32) -> Status {
    if consecutive_fails >= 10 {
        Status::Down
    } else if consecutive_fails >= 3 {
        Status::Degraded
    } else {
        Status::Active
    }
}

/// The status of an upstream that has failed `consecutive_fails` times in a row.
pub fn compute_status(consecutive_fails: u32) -> (out: Status)
    ensures
        out == status_after(consecutive_fails),
{
    if consecutive_fails >= 10 {
        Status::Down
    } else if consecutive_fails >= 3 {
        Status::Degraded
    } else {
        Status::Active
    }
}

/// How many times as long as usual the next probe of an upstream waits.
pub open spec fn backoff_factor(status: Status) -> u32 {
    match status {
        Status::Active => 1,
        Status::Degraded => 4,
        Status::Down => 10,
    }
}

/// How many nanoseconds lie between two probes of an upstream.
pub open spec fn backoff_nanos(base: nat, consecutive_fails: u32) -> nat {
    let span = base * backoff_factor(status_after(consecutive_fails)) as nat;
    if span <= max_nanos() {
        span
    } else {
        max_nanos()
    }
}

/// The time between two probes of an upstream: `base` for a healthy one, more for
/// one that fails, so that dead hosts are asked less often.
pub fn backoff_interval(base: Duration, consecutive_fails: u32) -> (out: Duration)
    ensures
        out@ == backoff_nanos(base@, consecutive_fails),
{
    let factor: u32 = if consecutive_fails >= 10 {
        10
    } else if consecutive_fails >= 3 {
        4
    } else {
        1
    };
    base.saturating_mul(factor)
}

/// More failures never make probes more frequent, nor the status better.
pub proof fn law_failures_back_off(base: nat, fewer: u32, more: u32)
    requires
        fewer <= more,
    ensures
        backoff_nanos(base, fewer) <= backoff_nanos(base, more),
        status_after(fewer) == Status::Down ==> status_after(more) == Status::Down,
        status_after(more) == Status::Active ==> status_after(fewer) == Status::Active,
{
    let a = backoff_factor(status_after(fewer)) as nat;
    let b = backoff_factor(status_after(more)) as nat;
    assert(a <= b);
    assert(base * a <= base * b) by (nonlinear_arith)
        requires
            a <= b,
    ;
}

// ---------------------------------------------------------------------------
// Records
// ---------------------------------------------------------------------------
/// What is known of an upstream.
#[derive(Debug)]
pub struct UpstreamHealth {
    pub url: String,
    pub priority: i32,
    /// The moving average of its latency, in milliseconds.
    pub ema_latency: Double,
    pub last_probe: Option<Instant>,
    pub consecutive_fails: u32,
    pub total_queries: u64,
    pub status: Status,
}

impl Clone for UpstreamHealth {
    fn clone(&self) -> (out: Self)
        ensures
            out == *self,
    {
        UpstreamHealth {
            url: self.url.clone(),
            priority: self.priority,
            ema_latency: self.ema_latency,
            last_probe: self.last_probe,
            consecutive_fails: self.consecutive_fails,
            total_queries: self.total_queries,
            status: self.status,
        }
    }
}

/// The record of an upstream that has not been probed yet.
pub open spec fn fresh_health(url: String, priority: i32) -> UpstreamHealth {
    UpstreamHealth {
        url,
        priority,
        ema_latency: Double { bits: 0 },
        last_probe: None,
        consecutive_fails: 0,
        total_queries: 0,
        status: Status::Active,
    }
}

impl UpstreamHealth {
    /// The record of an upstream that has not been probed yet.
    pub fn new(url: String, priority: i32) -> (out: Self)
        ensures
            out == fresh_health(url, priority),
    {
        UpstreamHealth {
            url,
            priority,
            ema_latency: Double::zero(),
            last_probe: None,
            consecutive_fails: 0,
            total_queries: 0,
            status: Status::Active,
        }
    }
}

/// What is kept of a record across restarts: the URL, the average latency, the
/// failures in a row and the number of answers.
pub struct HealthSnapshot {
    pub url: String,
    pub ema_latency: Double,
    pub consecutive_fails: u32,
    pub total_queries: u64,
}

/// What is kept of `health`.
pub open spec fn snapshot_of(health: UpstreamHealth) -> HealthSnapshot {
    HealthSnapshot {
        url: health.url,
        ema_latency: health.ema_latency,
        consecutive_fails: health.consecutive_fails,
        total_queries: health.total_queries,
    }
}

fn snapshot(health: &UpstreamHealth) -> (out: HealthSnapshot)
    ensures
        out == snapshot_of(*health),
{
    HealthSnapshot {
        url: health.url.clone(),
        ema_latency: health.ema_latency,
        consecutive_fails: health.consecutive_fails,
        total_queries: health.total_queries,
    }
}

/// `health` after an answer that took `exact`, which averages to `blended`. The
/// first answer counts in full.
pub open spec fn after_answer(
    health: UpstreamHealth,
    exact: Double,
    blended: Double,
    now: Instant,
) -> UpstreamHealth {
    UpstreamHealth {
        ema_latency: if health.total_queries == 0 {
            exact
        } else {
            blended
        },
        consecutive_fails: 0,
        total_queries: (health.total_queries + 1) as u64,
        status: Status::Active,
        last_probe: Some(now),
        ..health
    }
}

/// `health` after one more failure.
pub open spec fn after_failure(health: UpstreamHealth) -> UpstreamHealth {
    let fails = (health.consecutive_fails + 1) as u32;
    UpstreamHealth { consecutive_fails: fails, status: status_after(fails), ..health }
}

/// A count from the database, where negative counts are none and what is too
/// large is the largest.
pub open spec fn stored_count(value: i64, max: int) -> int {
    if value < 0 {
        0
    } else if value > max {
        max
    } else {
        value as int
    }
}

/// `health` with what the database knows of the upstream.
pub open spec fn seeded(
    health: UpstreamHealth,
    ema_latency: Double,
    consecutive_fails: i64,
    total_queries: i64,
) -> UpstreamHealth {
    let fails = stored_count(consecutive_fails, u32::MAX as int) as u32;
    UpstreamHealth {
        ema_latency,
        total_queries: stored_count(total_queries, u64::MAX as int) as u64,
        consecutive_fails: fails,
        status: status_after(fails),
        ..health
    }
}

// ---------------------------------------------------------------------------
// The prober
// ---------------------------------------------------------------------------
/// What is known of all upstreams, and how they are authenticated with.
pub struct Prober {
    alpha: Double,
    table: Table<UpstreamHealth>,
    auth: Table<(String, Option<String>)>,
}

/// The records after those of `list` were added that had none yet.
pub open spec fn with_upstreams(
    records: Map<Seq<char>, UpstreamHealth>,
    list: Seq<UpstreamConfig>,
) -> Map<Seq<char>, UpstreamHealth>
    decreases list.len(),
{
    if list.len() == 0 {
        records
    } else {
        let before = with_upstreams(records, list.drop_last());
        let upstream = list.last();
        if before.contains_key(upstream.url@) {
            before
        } else {
            before.insert(upstream.url@, fresh_health(upstream.url, upstream.priority))
        }
    }
}

/// The credentials after those of `list` were added that had none yet.
pub open spec fn with_logins(
    logins: Map<Seq<char>, (String, Option<String>)>,
    list: Seq<UpstreamConfig>,
) -> Map<Seq<char>, (String, Option<String>)>
    decreases list.len(),
{
    if list.len() == 0 {
        logins
    } else {
        let before = with_logins(logins, list.drop_last());
        let upstream = list.last();
        if before.contains_key(upstream.url@) || upstream.username@.len() == 0 {
            before
        } else {
            before.insert(upstream.url@, (upstream.username, upstream.password))
        }
    }
}

impl Prober {
    /// The records, by URL.
    pub closed spec fn records(self) -> Map<Seq<char>, UpstreamHealth> {
        self.table.view()
    }

    /// The credentials, by URL.
    pub closed spec fn logins(self) -> Map<Seq<char>, (String, Option<String>)> {
        self.auth.view()
    }

    /// The records in the order in which their upstreams came.
    pub closed spec fn list(self) -> Seq<UpstreamHealth> {
        self.table.values()
    }

    /// The weight of a new latency.
    pub closed spec fn weight(self) -> Double {
        self.alpha
    }

    /// Every record stands under its own URL.
    pub closed spec fn wf(self) -> bool {
        &&& self.table.wf()
        &&& self.auth.wf()
        &&& forall|i: int|
            0 <= i < self.table.values().len() ==> (#[trigger] self.table.values()[i]).url@
                == self.table.names()[i]
    }

    /// What the list and the records say is the same.
    pub proof fn lemma_listed(self)
        requires
            self.wf(),
        ensures
            forall|i: int|
                0 <= i < self.list().len() ==> self.records().contains_key(
                    (#[trigger] self.list()[i]).url@,
                ) && self.records()[self.list()[i].url@] == self.list()[i],
            forall|url: Seq<char>| #[trigger]
                self.records().contains_key(url) ==> self.records()[url].url@ == url && exists|i: int|
                    0 <= i < self.list().len() && #[trigger] self.list()[i] == self.records()[url],
            forall|i: int, j: int|
                0 <= i < self.list().len() && 0 <= j < self.list().len() && i != j ==> (
                #[trigger] self.list()[i]).url@ != (#[trigger] self.list()[j]).url@,
    {
        assert forall|i: int| 0 <= i < self.list().len() implies self.records().contains_key(
            (#[trigger] self.list()[i]).url@,
        ) && self.records()[self.list()[i].url@] == self.list()[i] by {
            self.table.lemma_at(i);
        }
        assert forall|url: Seq<char>| #[trigger] self.records().contains_key(url) implies {
            &&& self.records()[url].url@ == url
            &&& exists|i: int|
                0 <= i < self.list().len() && #[trigger] self.list()[i] == self.records()[url]
        } by {
            let i = self.table.names().index_of(url);
            assert(self.table.names()[i] == url);
            self.table.lemma_at(i);
            assert(self.list()[i] == self.records()[url]);
        }
        assert forall|i: int, j: int|
            0 <= i < self.list().len() && 0 <= j < self.list().len() && i != j implies (
        #[trigger] self.list()[i]).url@ != (#[trigger] self.list()[j]).url@ by {
            assert(self.table.names()[i] != self.table.names()[j]);
        }
    }

    /// A prober that knows no upstream and gives a new latency the weight
    /// `alpha`.
    pub fn new(alpha: Double) -> (out: Self)
        ensures
            out.wf(),
            out.weight() == alpha,
            out.records() == Map::<Seq<char>, UpstreamHealth>::empty(),
            out.logins() == Map::<Seq<char>, (String, Option<String>)>::empty(),
            out.list().len() == 0,
    {
        Prober { alpha, table: Table::new(), auth: Table::new() }
    }

    /// The weight of a new latency.
    pub fn alpha(&self) -> (out: Double)
        ensures
            out == self.weight(),
    {
        self.alpha
    }

    /// Gives `health` to its URL.
    fn put(&mut self, health: UpstreamHealth) -> (new: bool)
        requires
            old(self).wf(),
        ensures
            final(self).wf(),
            final(self).records() == old(self).records().insert(health.url@, health),
            final(self).logins() == old(self).logins(),
            final(self).weight() == old(self).weight(),
            new == !old(self).records().contains_key(health.url@),
    {
        let ghost before = self.table;
        let url: String = health.url.clone();
        let new: bool = self.table.insert(url, health);
        proof {
            if !new {
                let at = before.names().index_of(health.url@);
                assert(before.names()[at] == health.url@);
            }
        }
        new
    }

    /// Adds the upstreams of `upstreams` that are not known yet, and the
    /// credentials of those that have none yet.
    pub fn init_upstreams(&mut self, upstreams: &Vec<UpstreamConfig>)
        requires
            old(self).wf(),
        ensures
            final(self).wf(),
            final(self).records() == with_upstreams(old(self).records(), upstreams@),
            final(self).logins() == with_logins(old(self).logins(), upstreams@),
            final(self).weight() == old(self).weight(),
    {
        let ghost before = *self;
        let n: usize = upstreams.len();
        let mut i: usize = 0;
        while i < n
            invariant
                i <= n,
                n == upstreams@.len(),
                self.wf(),
                self.weight() == before.weight(),
                self.records() == with_upstreams(before.records(), upstreams@.take(i as int)),
                self.logins() == with_logins(before.logins(), upstreams@.take(i as int)),
            decreases n - i,
        {
            let upstream: &UpstreamConfig = &upstreams[i];
            let ghost next = upstreams@.take(i + 1);
            assert(next.drop_last() =~= upstreams@.take(i as int));
            assert(next.last() == *upstream);
            if !self.table.contains(upstream.url.as_str()) {
                self.put(UpstreamHealth::new(upstream.url.clone(), upstream.priority));
            }
            if upstream.username.as_str().unicode_len() > 0 && !self.auth.contains(
                upstream.url.as_str(),
            ) {
                self.auth.insert(
                    upstream.url.clone(),
                    (upstream.username.clone(), copy_opt(&upstream.password)),
                );
            }
            i = i + 1;
        }
        assert(upstreams@.take(n as int) =~= upstreams@);
    }

    /// The credentials of an upstream.
    pub fn login(&self, url: &str) -> (out: Option<(String, Option<String>)>)
        requires
            self.wf(),
        ensures
            match out {
                Some(login) => self.logins().contains_key(url@) && login == self.logins()[url@],
                None => !self.logins().contains_key(url@),
            },
    {
        match self.auth.get(url) {
            Some(login) => Some((login.0.clone(), copy_opt(&login.1))),
            None => None,
        }
    }

    /// Takes over what the database knows of an upstream. An unknown one stays
    /// unknown.
    pub fn seed(
        &mut self,
        url: &str,
        ema_latency: Double,
        consecutive_fails: i64,
        total_queries: i64,
    )
        requires
            old(self).wf(),
        ensures
            final(self).wf(),
            final(self).records() == if old(self).records().contains_key(url@) {
                old(self).records().insert(
                    url@,
                    seeded(
                        old(self).records()[url@],
                        ema_latency,
                        consecutive_fails,
                        total_queries,
                    ),
                )
            } else {
                old(self).records()
            },
            final(self).logins() == old(self).logins(),
            final(self).weight() == old(self).weight(),
    {
        proof {
            self.lemma_listed();
        }
        let mut health: UpstreamHealth = match self.table.get(url) {
            Some(health) => health.clone(),
            None => return,
        };
        health.ema_latency = ema_latency;
        health.total_queries = if total_queries < 0 {
            0
        } else {
            total_queries as u64
        };
        health.consecutive_fails = if consecutive_fails < 0 {
            0
        } else if consecutive_fails > u32::MAX as i64 {
            u32::MAX
        } else {
            consecutive_fails as u32
        };
        health.status = compute_status(health.consecutive_fails);
        self.put(health);
    }

    /// Records an answer that took `exact`, which averages to `blended` with what
    /// was known, and gives what is to be kept of it. An unknown upstream stays
    /// unknown.
    pub fn record_latency(
        &mut self,
        url: &str,
        exact: Double,
        blended: Double,
        now: Instant,
    ) -> (kept: Option<HealthSnapshot>)
        requires
            old(self).wf(),
            old(self).records().contains_key(url@) ==> old(self).records()[url@].total_queries
                < u64::MAX,
        ensures
            final(self).wf(),
            match kept {
                Some(s) => {
                    let after = after_answer(old(self).records()[url@], exact, blended, now);
                    &&& old(self).records().contains_key(url@)
                    &&& final(self).records() == old(self).records().insert(url@, after)
                    &&& s == snapshot_of(after)
                },
                None => !old(self).records().contains_key(url@) && final(self).records() == old(
                    self,
                ).records(),
            },
            final(self).logins() == old(self).logins(),
            final(self).weight() == old(self).weight(),
    {
        proof {
            self.lemma_listed();
        }
        let mut health: UpstreamHealth = match self.table.get(url) {
            Some(health) => health.clone(),
            None => return None,
        };
        health.ema_latency = if health.total_queries == 0 {
            exact
        } else {
            blended
        };
        health.consecutive_fails = 0;
        health.total_queries = health.total_queries + 1;
        health.status = Status::Active;
        health.last_probe = Some(now);
        let kept: HealthSnapshot = snapshot(&health);
        self.put(health);
        Some(kept)
    }

    /// Records a failure and gives what is to be kept of it. An unknown upstream
    /// stays unknown.
    pub fn record_failure(&mut self, url: &str) -> (kept: Option<HealthSnapshot>)
        requires
            old(self).wf(),
            old(self).records().contains_key(url@) ==> old(self).records()[url@].consecutive_fails
                < u32::MAX,
        ensures
            final(self).wf(),
            match kept {
                Some(s) => {
                    let after = after_failure(old(self).records()[url@]);
                    &&& old(self).records().contains_key(url@)
                    &&& final(self).records() == old(self).records().insert(url@, after)
                    &&& s == snapshot_of(after)
                },
                None => !old(self).records().contains_key(url@) && final(self).records() == old(
                    self,
                ).records(),
            },
            final(self).logins() == old(self).logins(),
            final(self).weight() == old(self).weight(),
    {
        proof {
            self.lemma_listed();
        }
        let mut health: UpstreamHealth = match self.table.get(url) {
            Some(health) => health.clone(),
            None => return None,
        };
        health.consecutive_fails = health.consecutive_fails + 1;
        health.status = compute_status(health.consecutive_fails);
        let kept: HealthSnapshot = snapshot(&health);
        self.put(health);
        Some(kept)
    }

    /// What is known of an upstream.
    pub fn get_health(&self, url: &str) -> (out: Option<UpstreamHealth>)
        requires
            self.wf(),
        ensures
            match out {
                Some(health) => self.records().contains_key(url@) && health == self.records()[url@],
                None => !self.records().contains_key(url@),
            },
    {
        match self.table.get(url) {
            Some(health) => Some(health.clone()),
            None => None,
        }
    }

    /// All that is known, in the order in which the upstreams came.
    pub fn all_health(&self) -> (out: Vec<UpstreamHealth>)
        requires
            self.wf(),
        ensures
            out@ == self.list(),
    {
        let mut out: Vec<UpstreamHealth> = Vec::new();
        let n: usize = self.table.len();
        let mut i: usize = 0;
        while i < n
            invariant
                i <= n,
                n == self.list().len(),
                out@ == self.list().take(i as int),
            decreases n - i,
        {
            out.push(self.table.value_at(i).clone());
            i = i + 1;
            assert(self.list().take(i as int) =~= self.list().take(i - 1).push(self.list()[i - 1]));
        }
        assert(self.list().take(i as int) =~= self.list());
        out
    }

    /// Adds an upstream with a fresh record, which replaces what was known of it.
    /// Says whether it is new, and so to be probed at once.
    pub fn add_upstream(&mut self, url: String, priority: i32) -> (new: bool)
        requires
            old(self).wf(),
        ensures
            final(self).wf(),
            final(self).records() == old(self).records().insert(url@, fresh_health(url, priority)),
            new == !old(self).records().contains_key(url@),
            final(self).logins() == old(self).logins(),
            final(self).weight() == old(self).weight(),
    {
        self.put(UpstreamHealth::new(url, priority))
    }

    /// Forgets an upstream.
    pub fn remove_upstream(&mut self, url: &str)
        requires
            old(self).wf(),
        ensures
            final(self).wf(),
            final(self).records() == old(self).records().remove(url@),
            final(self).logins() == old(self).logins(),
            final(self).weight() == old(self).weight(),
    {
        let ghost before = self.table;
        let had: bool = self.table.remove(url);
        proof {
            if had {
                let at = before.names().index_of(url@);
                assert(before.names()[at] == url@);
            }
        }
    }
}

// ---------------------------------------------------------------------------
// What records say
// ---------------------------------------------------------------------------
/// An upstream is active up to two failures in a row, degraded from the third and
/// down from the tenth. Its next probe then waits once, four times and ten times as
/// long as usual, unless that is longer than a time can be.
pub proof fn law_failures_decide_the_status(fails: u32, base: nat)
    ensures
        status_after(fails) == Status::Active <==> fails <= 2,
        status_after(fails) == Status::Degraded <==> 3 <= fails <= 9,
        status_after(fails) == Status::Down <==> 10 <= fails,
        10 * base <= max_nanos() ==> {
            &&& fails <= 2 ==> backoff_nanos(base, fails) == base
            &&& 3 <= fails <= 9 ==> backoff_nanos(base, fails) == 4 * base
            &&& 10 <= fails ==> backoff_nanos(base, fails) == 10 * base
        },
        backoff_nanos(base, fails) <= max_nanos(),
{
    assert(base * 1 == base && base * 4 == 4 * base && base * 10 == 10 * base)
        by (nonlinear_arith);
}

/// `health` after `n` more failures in a row.
pub open spec fn after_failures(health: UpstreamHealth, n: nat) -> UpstreamHealth
    decreases n,
{
    if n == 0 {
        health
    } else {
        after_failure(after_failures(health, (n - 1) as nat))
    }
}

/// Failures add up: whatever an upstream answered before, after an answer and `n`
/// failures in a row its status is that of `n` failures. Nothing but its failures
/// and its status changes by them, so that its latency is still known.
pub proof fn law_failures_in_a_row_add_up(
    health: UpstreamHealth,
    exact: Double,
    blended: Double,
    now: Instant,
    n: u32,
)
    requires
        health.total_queries < u64::MAX,
    ensures
        ({
            let answered = after_answer(health, exact, blended, now);
            let after = after_failures(answered, n as nat);
            &&& answered.status == Status::Active && answered.consecutive_fails == 0
            &&& answered.total_queries == health.total_queries + 1
            &&& answered.last_probe == Some(now)
            &&& answered.ema_latency == if health.total_queries == 0 {
                exact
            } else {
                blended
            }
            &&& answered.url == health.url && answered.priority == health.priority
            &&& after.consecutive_fails == n
            &&& n < 3 <==> after.status == Status::Active
            &&& n >= 10 <==> after.status == Status::Down
            &&& after.ema_latency == answered.ema_latency
            &&& after.total_queries == answered.total_queries
            &&& after.last_probe == answered.last_probe
            &&& after.url == health.url && after.priority == health.priority
        }),
    decreases n,
{
    if n > 0 {
        law_failures_in_a_row_add_up(health, exact, blended, now, (n - 1) as u32);
    }
}

/// What is kept of an upstream across a restart is all that decides how it is
/// asked: its record comes back as it was, but for the time of its last probe.
/// Counts that cannot be are taken for the nearest that can.
pub proof fn law_health_survives_a_restart(health: UpstreamHealth)
    requires
        health.status == status_after(health.consecutive_fails),
        health.total_queries <= i64::MAX,
    ensures
        ({
            let kept = snapshot_of(health);
            let again = seeded(
                fresh_health(kept.url, health.priority),
                kept.ema_latency,
                kept.consecutive_fails as i64,
                kept.total_queries as i64,
            );
            again == (UpstreamHealth { last_probe: None, ..health })
        }),
        forall|ema: Double, fails: i64, total: i64|
            #![trigger seeded(health, ema, fails, total)]
            {
                let out = seeded(health, ema, fails, total);
                &&& fails < 0 ==> out.consecutive_fails == 0
                &&& fails > u32::MAX ==> out.consecutive_fails == u32::MAX
                &&& total < 0 ==> out.total_queries == 0
                &&& out.url == health.url && out.priority == health.priority
            },
{
}

/// An upstream that is known keeps its record when upstreams are added; one that
/// is not known gets a fresh one with the priority of its first configuration, and
/// nothing else is added.
pub proof fn law_known_upstreams_keep_their_record(
    records: Map<Seq<char>, UpstreamHealth>,
    list: Seq<UpstreamConfig>,
    url: Seq<char>,
)
    ensures
        ({
            let after = with_upstreams(records, list);
            &&& records.contains_key(url) ==> after.contains_key(url) && after[url] == records[url]
            &&& !records.contains_key(url) ==> {
                &&& after.contains_key(url) <==> exists|i: int|
                    0 <= i < list.len() && (#[trigger] list[i]).url@ == url
                &&& forall|i: int|
                    0 <= i < list.len() && (#[trigger] list[i]).url@ == url && (forall|j: int|
                        0 <= j < i ==> (#[trigger] list[j]).url@ != url) ==> after[url]
                        == fresh_health(list[i].url, list[i].priority)
            }
        }),
    decreases list.len(),
{
    let after = with_upstreams(records, list);
    if list.len() > 0 {
        let front = list.drop_last();
        let before = with_upstreams(records, front);
        law_known_upstreams_keep_their_record(records, front, url);
        if !records.contains_key(url) {
            if exists|i: int| 0 <= i < front.len() && (#[trigger] front[i]).url@ == url {
                let i = choose|i: int| 0 <= i < front.len() && (#[trigger] front[i]).url@ == url;
                assert(list[i].url@ == url);
            }
            if exists|i: int| 0 <= i < list.len() && (#[trigger] list[i]).url@ == url {
                let i = choose|i: int| 0 <= i < list.len() && (#[trigger] list[i]).url@ == url;
                if i < front.len() {
                    assert(front[i].url@ == url);
                } else {
                    assert(list.last().url@ == url);
                }
            }
            assert(list[list.len() - 1] == list.last());
            assert forall|i: int|
                0 <= i < list.len() && (#[trigger] list[i]).url@ == url && (forall|j: int|
                    0 <= j < i ==> (#[trigger] list[j]).url@ != url) implies after[url]
                == fresh_health(list[i].url, list[i].priority) by {
                if i < front.len() {
                    assert(front[i] == list[i]);
                    assert forall|j: int| 0 <= j < i implies (#[trigger] front[j]).url@ != url by {
                        assert(front[j] == list[j]);
                    }
                    assert(before.contains_key(url));
                } else {
                    if before.contains_key(url) {
                        let k = choose|k: int|
                            0 <= k < front.len() && (#[trigger] front[k]).url@ == url;
                        assert(list[k].url@ == url);
                    }
                }
            }
        }
    }
}

/// A login that is known stays; an upstream without one gets that of its first
/// configuration that has a user, and one whose configurations have none gets none.
pub proof fn law_known_logins_stay(
    logins: Map<Seq<char>, (String, Option<String>)>,
    list: Seq<UpstreamConfig>,
    url: Seq<char>,
)
    ensures
        ({
            let after = with_logins(logins, list);
            &&& logins.contains_key(url) ==> after.contains_key(url) && after[url] == logins[url]
            &&& !logins.contains_key(url) ==> {
                &&& after.contains_key(url) <==> exists|i: int|
                    0 <= i < list.len() && (#[trigger] list[i]).url@ == url && list[i].username@.len()
                        > 0
                &&& forall|i: int|
                    0 <= i < list.len() && (#[trigger] list[i]).url@ == url && list[i].username@.len()
                        > 0 && (forall|j: int|
                        0 <= j < i ==> (#[trigger] list[j]).url@ != url || list[j].username@.len()
                            == 0) ==> after[url] == (list[i].username, list[i].password)
            }
        }),
    decreases list.len(),
{
    let after = with_logins(logins, list);
    if list.len() > 0 {
        let front = list.drop_last();
        let before = with_logins(logins, front);
        law_known_logins_stay(logins, front, url);
        if !logins.contains_key(url) {
            if exists|i: int|
                0 <= i < front.len() && (#[trigger] front[i]).url@ == url && front[i].username@.len()
                    > 0 {
                let i = choose|i: int|
                    0 <= i < front.len() && (#[trigger] front[i]).url@ == url
                        && front[i].username@.len() > 0;
                assert(list[i].url@ == url);
            }
            if exists|i: int|
                0 <= i < list.len() && (#[trigger] list[i]).url@ == url && list[i].username@.len()
                    > 0 {
                let i = choose|i: int|
                    0 <= i < list.len() && (#[trigger] list[i]).url@ == url
                        && list[i].username@.len() > 0;
                if i < front.len() {
                    assert(front[i].url@ == url);
                } else {
                    assert(list.last().url@ == url);
                }
            }
            assert(list[list.len() - 1] == list.last());
            assert forall|i: int|
                0 <= i < list.len() && (#[trigger] list[i]).url@ == url && list[i].username@.len()
                    > 0 && (forall|j: int|
                    0 <= j < i ==> (#[trigger] list[j]).url@ != url || list[j].username@.len()
                        == 0) implies after[url] == (list[i].username, list[i].password) by {
                if i < front.len() {
                    assert(front[i] == list[i]);
                    assert forall|j: int| 0 <= j < i implies (#[trigger] front[j]).url@ != url
                        || front[j].username@.len() == 0 by {
                        assert(front[j] == list[j]);
                    }
                    assert(before.contains_key(url));
                } else {
                    if before.contains_key(url) {
                        let k = choose|k: int|
                            0 <= k < front.len() && (#[trigger] front[k]).url@ == url
                                && front[k].username@.len() > 0;
                        assert(list[k].url@ == url);
                    }
                }
            }
        }
    }
}

/// An upstream of which nothing is known is taken for active; it has no latency
/// and no failures, and was never probed.
pub proof fn law_unknown_upstreams_are_taken_for_active(url: String, priority: i32)
    ensures
        ({
            let health = fresh_health(url, priority);
            &&& health.url == url && health.priority == priority
            &&& health.status == Status::Active && health.status == status_after(
                health.consecutive_fails,
            )
            &&& health.consecutive_fails == 0 && health.total_queries == 0
            &&& health.ema_latency.bits == 0
            &&& health.last_probe is None
        }),
{
}

} // verus!
