//! Archives: which upstreams are asked for one, in which order, and when another
//! is asked beside those that have not answered.

use vstd::prelude::*;
use vstd::string::*;

use crate::config::{NarHedgingConfig, UpstreamConfig};
use crate::health::{Status, UpstreamHealth};
use crate::race::{
    are_levels, at_priority, group_by_priority, group_views, grouped, law_groups_are_by_priority,
};
use crate::select::{
    chosen, lemma_chosen_last, lemma_chosen_same, lemma_kept_places, lemma_kept_same, places,
};
use crate::serve::RouteKind;
use crate::text::{same_text, view_opt, views};

verus! {

// ---------------------------------------------------------------------------
// Candidates
// ---------------------------------------------------------------------------
/// An upstream to ask for an archive: where, and how it was chosen.
pub struct NarCandidate {
    pub upstream: String,
    pub path: String,
    pub route: RouteKind,
}

/// The contents of a candidate.
pub struct CandidateView {
    pub upstream: Seq<char>,
    pub path: Seq<char>,
    pub route: RouteKind,
}

impl View for NarCandidate {
    type V = CandidateView;

    open spec fn view(&self) -> CandidateView {
        CandidateView { upstream: self.upstream@, path: self.path@, route: self.route }
    }
}

/// The contents of the candidates of a list.
pub open spec fn candidate_views(list: Seq<NarCandidate>) -> Seq<CandidateView> {
    Seq::new(list.len(), |i: int| list[i]@)
}

/// Archives may be asked of `url` beside another upstream. What is not configured
/// may be.
pub open spec fn may_hedge(upstreams: Seq<UpstreamConfig>, url: Seq<char>) -> bool
    decreases upstreams.len(),
{
    if upstreams.len() == 0 {
        true
    } else if upstreams[0].url@ == url {
        upstreams[0].allow_hedging
    } else {
        may_hedge(upstreams.skip(1), url)
    }
}

/// Whether archives may be asked of `url` beside another upstream.
pub fn hedge_allowed(upstreams: &Vec<UpstreamConfig>, url: &str) -> (yes: bool)
    ensures
        yes == may_hedge(upstreams@, url@),
{
    let n: usize = upstreams.len();
    let mut i: usize = 0;
    assert(upstreams@.skip(0) =~= upstreams@);
    while i < n
        invariant
            i <= n,
            n == upstreams@.len(),
            may_hedge(upstreams@, url@) == may_hedge(upstreams@.skip(i as int), url@),
        decreases n - i,
    {
        assert(upstreams@.skip(i as int)[0] == upstreams@[i as int]);
        assert(upstreams@.skip(i as int).skip(1) =~= upstreams@.skip(i + 1));
        if same_text(upstreams[i].url.as_str(), url) {
            return upstreams[i].allow_hedging;
        }
        i = i + 1;
    }
    true
}

/// `health` is a candidate: it is not down, not `skip`, and may be hedged with
/// unless that does not matter.
pub open spec fn is_candidate(
    health: UpstreamHealth,
    skip: Seq<char>,
    upstreams: Seq<UpstreamConfig>,
    include_opt_outs: bool,
) -> bool {
    health.status != Status::Down && health.url@ != skip && (include_opt_outs || may_hedge(
        upstreams,
        health.url@,
    ))
}

/// The URLs of the candidates in `sorted`, in order.
pub open spec fn candidate_urls(
    sorted: Seq<UpstreamHealth>,
    skip: Seq<char>,
    upstreams: Seq<UpstreamConfig>,
    include_opt_outs: bool,
) -> Seq<Seq<char>>
    decreases sorted.len(),
{
    if sorted.len() == 0 {
        seq![]
    } else {
        let rest = candidate_urls(sorted.drop_last(), skip, upstreams, include_opt_outs);
        if is_candidate(sorted.last(), skip, upstreams, include_opt_outs) {
            rest.push(sorted.last().url@)
        } else {
            rest
        }
    }
}

/// The priorities of the candidates in `sorted`, in order.
pub open spec fn candidate_priorities(
    sorted: Seq<UpstreamHealth>,
    skip: Seq<char>,
    upstreams: Seq<UpstreamConfig>,
    include_opt_outs: bool,
) -> Seq<i32>
    decreases sorted.len(),
{
    if sorted.len() == 0 {
        seq![]
    } else {
        let rest = candidate_priorities(sorted.drop_last(), skip, upstreams, include_opt_outs);
        if is_candidate(sorted.last(), skip, upstreams, include_opt_outs) {
            rest.push(sorted.last().priority)
        } else {
            rest
        }
    }
}

/// The groups one behind the other.
pub open spec fn flattened(groups: Seq<Seq<Seq<char>>>) -> Seq<Seq<char>>
    decreases groups.len(),
{
    if groups.len() == 0 {
        seq![]
    } else {
        flattened(groups.drop_last()) + groups.last()
    }
}

/// `order` is `urls` by priority, lower numbers first.
pub open spec fn in_priority_order(
    order: Seq<Seq<char>>,
    urls: Seq<Seq<char>>,
    priorities: Seq<i32>,
) -> bool {
    exists|levels: Seq<i32>, groups: Seq<Seq<Seq<char>>>|
        are_levels(levels, priorities) && #[trigger] grouped(groups, levels, urls, priorities)
            && order == flattened(groups)
}

fn flatten(groups: &Vec<Vec<String>>) -> (out: Vec<String>)
    ensures
        views(out@) == flattened(group_views(groups@)),
{
    let ghost all = group_views(groups@);
    let mut out: Vec<String> = Vec::new();
    let n: usize = groups.len();
    let mut i: usize = 0;
    assert(all.take(0) =~= seq![]);
    while i < n
        invariant
            i <= n,
            n == groups@.len(),
            all == group_views(groups@),
            views(out@) == flattened(all.take(i as int)),
        decreases n - i,
    {
        let ghost before = views(out@);
        let ghost group = views(groups@[i as int]@);
        let ghost next = all.take(i + 1);
        assert(next.drop_last() =~= all.take(i as int));
        assert(next.last() == group);
        let m: usize = groups[i].len();
        let mut j: usize = 0;
        assert(before + group.take(0) =~= before);
        while j < m
            invariant
                i < n,
                n == groups@.len(),
                j <= m,
                m == groups@[i as int]@.len(),
                group == views(groups@[i as int]@),
                views(out@) == before + group.take(j as int),
            decreases m - j,
        {
            let ghost said = views(out@);
            out.push(groups[i][j].clone());
            assert(views(out@) =~= said.push(group[j as int]));
            j = j + 1;
            assert(before + group.take(j as int) =~= said.push(group[j - 1]));
        }
        assert(group.take(m as int) =~= group);
        i = i + 1;
    }
    assert(all.take(n as int) =~= all);
    out
}

/// The upstreams that are asked for an archive, in order: by priority, and within
/// a priority by latency. `sorted` is by latency.
pub fn hedge_order(
    sorted: &Vec<UpstreamHealth>,
    skip: &str,
    upstreams: &Vec<UpstreamConfig>,
    include_opt_outs: bool,
) -> (out: Vec<String>)
    ensures
        in_priority_order(
            views(out@),
            candidate_urls(sorted@, skip@, upstreams@, include_opt_outs),
            candidate_priorities(sorted@, skip@, upstreams@, include_opt_outs),
        ),
{
    let mut urls: Vec<String> = Vec::new();
    let mut priorities: Vec<i32> = Vec::new();
    let n: usize = sorted.len();
    let mut i: usize = 0;
    assert(sorted@.take(0) =~= seq![]);
    while i < n
        invariant
            i <= n,
            n == sorted@.len(),
            urls@.len() == priorities@.len(),
            views(urls@) == candidate_urls(
                sorted@.take(i as int),
                skip@,
                upstreams@,
                include_opt_outs,
            ),
            priorities@ == candidate_priorities(
                sorted@.take(i as int),
                skip@,
                upstreams@,
                include_opt_outs,
            ),
        decreases n - i,
    {
        let health: &UpstreamHealth = &sorted[i];
        let ghost said = views(urls@);
        let ghost next = sorted@.take(i + 1);
        assert(next.drop_last() =~= sorted@.take(i as int));
        assert(next.last() == *health);
        let url: &str = health.url.as_str();
        if health.status != Status::Down && !same_text(url, skip) && (include_opt_outs
            || hedge_allowed(upstreams, url)) {
            urls.push(health.url.clone());
            priorities.push(health.priority);
            assert(views(urls@) =~= said.push(health.url@));
        }
        i = i + 1;
    }
    assert(sorted@.take(n as int) =~= sorted@);
    let groups: Vec<Vec<String>> = group_by_priority(&urls, &priorities);
    flatten(&groups)
}

/// The candidates that `urls` make with the paths that they gave, the last one
/// first. An upstream that gave no path makes none.
pub open spec fn reversed_candidates(urls: Seq<Seq<char>>, paths: Seq<Option<Seq<char>>>) -> Seq<
    CandidateView,
>
    decreases urls.len(),
{
    if urls.len() == 0 || paths.len() == 0 {
        seq![]
    } else {
        let rest = reversed_candidates(urls.drop_last(), paths.drop_last());
        match paths.last() {
            Some(path) => seq![
                CandidateView { upstream: urls.last(), path, route: RouteKind::Hedge },
            ] + rest,
            None => rest,
        }
    }
}

/// The contents of optional texts.
pub open spec fn path_views(paths: Seq<Option<String>>) -> Seq<Option<Seq<char>>> {
    Seq::new(paths.len(), |i: int| view_opt(paths[i]))
}

/// The candidates that `urls` make with the paths that they gave, the last one
/// first, so that the next to ask stands at the end.
pub fn hedge_candidates(urls: &Vec<String>, paths: &Vec<Option<String>>) -> (out: Vec<NarCandidate>)
    requires
        urls@.len() == paths@.len(),
    ensures
        candidate_views(out@) == reversed_candidates(views(urls@), path_views(paths@)),
{
    let ghost us = views(urls@);
    let ghost ps = path_views(paths@);
    let mut out: Vec<NarCandidate> = Vec::new();
    let n: usize = urls.len();
    let mut i: usize = n;
    assert(us.take(n as int) =~= us);
    assert(ps.take(n as int) =~= ps);
    assert(candidate_views(out@) + reversed_candidates(us, ps) =~= reversed_candidates(us, ps));
    while i > 0
        invariant
            i <= n,
            n == urls@.len(),
            n == paths@.len(),
            us == views(urls@),
            ps == path_views(paths@),
            candidate_views(out@) + reversed_candidates(us.take(i as int), ps.take(i as int))
                == reversed_candidates(us, ps),
        decreases i,
    {
        let ghost said = candidate_views(out@);
        let ghost u = us.take(i as int);
        let ghost p = ps.take(i as int);
        assert(u.drop_last() =~= us.take(i - 1));
        assert(p.drop_last() =~= ps.take(i - 1));
        assert(u.last() == urls@[i - 1]@);
        assert(p.last() == view_opt(paths@[i - 1]));
        if let Some(path) = &paths[i - 1] {
            let candidate = NarCandidate {
                upstream: urls[i - 1].clone(),
                path: path.clone(),
                route: RouteKind::Hedge,
            };
            let ghost c = candidate@;
            out.push(candidate);
            assert(candidate_views(out@) =~= said.push(c));
        }
        i = i - 1;
        assert(candidate_views(out@) + reversed_candidates(us.take(i as int), ps.take(i as int))
            =~= said + reversed_candidates(u, p));
    }
    assert(candidate_views(out@) =~= reversed_candidates(us, ps)) by {
        assert(reversed_candidates(us.take(0), ps.take(0)) =~= seq![]);
    }
    out
}

/// Those of `list` whose upstreams may be hedged with, in order.
pub open spec fn hedgeable(list: Seq<CandidateView>, upstreams: Seq<UpstreamConfig>) -> Seq<
    CandidateView,
>
    decreases list.len(),
{
    if list.len() == 0 {
        seq![]
    } else {
        let rest = hedgeable(list.drop_last(), upstreams);
        if may_hedge(upstreams, list.last().upstream) {
            rest.push(list.last())
        } else {
            rest
        }
    }
}

/// Splits off the candidate that is asked first, whoever it is, and keeps of the
/// others those that may be hedged with.
pub fn direct_candidates(list: Vec<NarCandidate>, upstreams: &Vec<UpstreamConfig>) -> (out: Option<
    (NarCandidate, Vec<NarCandidate>),
>)
    ensures
        match out {
            None => list@.len() == 0,
            Some((first, others)) => {
                let all = candidate_views(list@);
                &&& list@.len() > 0
                &&& first@ == (CandidateView { route: RouteKind::Direct, ..all.last() })
                &&& candidate_views(others@) == hedgeable(all.drop_last(), upstreams@)
            },
        },
{
    let ghost all = candidate_views(list@);
    let mut list = list;
    let mut first: NarCandidate = match list.pop() {
        Some(first) => first,
        None => return None,
    };
    first.route = RouteKind::Direct;
    let mut others: Vec<NarCandidate> = Vec::new();
    let n: usize = list.len();
    let mut i: usize = 0;
    let ghost rest = candidate_views(list@);
    assert(rest =~= all.drop_last());
    assert(rest.take(0) =~= seq![]);
    while i < n
        invariant
            i <= n,
            n == list@.len(),
            rest == candidate_views(list@),
            candidate_views(others@) == hedgeable(rest.take(i as int), upstreams@),
        decreases n - i,
    {
        let candidate: &NarCandidate = &list[i];
        let ghost said = candidate_views(others@);
        let ghost next = rest.take(i + 1);
        assert(next.drop_last() =~= rest.take(i as int));
        assert(next.last() == candidate@);
        if hedge_allowed(upstreams, candidate.upstream.as_str()) {
            others.push(
                NarCandidate {
                    upstream: candidate.upstream.clone(),
                    path: candidate.path.clone(),
                    route: candidate.route,
                },
            );
            assert(candidate_views(others@) =~= said.push(candidate@));
        }
        i = i + 1;
    }
    assert(rest.take(n as int) =~= rest);
    Some((first, others))
}

// ---------------------------------------------------------------------------
// Attempts
// ---------------------------------------------------------------------------
/// The attempts at one archive: those that are running, and the candidates that
/// are still to be asked, the next of which stands at the end.
pub struct HedgedNar {
    waiting: Vec<NarCandidate>,
    inflight: usize,
    hedging: bool,
    head: bool,
    max_inflight: usize,
}

/// What an attempt came to.
#[derive(Debug, Clone, Copy, PartialEq, Eq, Structural)]
pub enum AttemptEnd {
    /// It has the first bytes of the archive.
    Answered,
    /// Its upstream does not have it.
    Unavailable,
    /// It broke off.
    Broken,
}

impl HedgedNar {
    /// The candidates that are still to be asked.
    pub closed spec fn left(self) -> Seq<CandidateView> {
        candidate_views(self.waiting@)
    }

    /// How many attempts are running.
    pub closed spec fn running(self) -> nat {
        self.inflight as nat
    }

    /// How many attempts may run at a time.
    pub closed spec fn limit(self) -> nat {
        self.max_inflight as nat
    }

    /// Another attempt is to be started when the others take too long.
    pub closed spec fn armed(self) -> bool {
        !self.head && self.hedging && self.inflight < self.max_inflight && self.waiting@.len() > 0
    }

    /// Only the head of the archive is asked for, of all candidates at once.
    pub closed spec fn head_only(self) -> bool {
        self.head && self.hedging
    }

    /// The counts fit.
    pub closed spec fn wf(self) -> bool {
        self.inflight + self.waiting@.len() <= usize::MAX && (self.head && self.hedging
            ==> self.waiting@.len() == 0)
    }

    /// The attempts as a state, of which `asked` have been made so far.
    pub open spec fn state(self, asked: Seq<CandidateView>) -> HedgeState {
        HedgeState { running: self.running(), left: self.left(), asked }
    }

    /// There is nothing to wait for: no attempt is running and none will be
    /// started, though candidates are left.
    pub open spec fn stuck(self) -> bool {
        self.running() == 0 && self.left().len() > 0 && !self.armed()
    }

    /// The attempts at an archive, the first of which is at `initial`; and those
    /// that are started at once. For the head of an archive all are.
    pub fn new(
        initial: NarCandidate,
        candidates: Vec<NarCandidate>,
        head: bool,
        config: &NarHedgingConfig,
    ) -> (out: (Self, Vec<NarCandidate>))
        requires
            candidates@.len() < usize::MAX,
        ensures
            out.0.wf(),
            out.0.limit() == if config.enabled {
                config.max_inflight as nat
            } else {
                1
            },
            out.0.running() == out.1@.len(),
            out.1@.len() > 0,
            candidate_views(out.1@)[0] == initial@,
            if head && config.enabled {
                out.0.left().len() == 0 && candidate_views(out.1@).skip(1) == candidate_views(
                    candidates@,
                ).reverse()
            } else {
                out.0.left() == candidate_views(candidates@) && out.1@.len() == 1
            },
            out.0.armed() == (!head && config.enabled && 1 < config.max_inflight
                && candidates@.len() > 0),
            out.0.head_only() == (head && config.enabled),
    {
        let max_inflight: usize = if config.enabled {
            config.max_inflight as usize
        } else {
            1
        };
        let ghost first = initial@;
        let ghost given = candidate_views(candidates@);
        let total: usize = candidates.len();
        let mut waiting: Vec<NarCandidate> = candidates;
        let mut started: Vec<NarCandidate> = Vec::new();
        started.push(initial);
        assert(candidate_views(started@) =~= seq![first]);
        if head && config.enabled {
            assert(given.take(total as int) =~= given);
            assert(candidate_views(started@) =~= seq![first] + given.skip(total as int).reverse());
            while waiting.len() > 0
                invariant
                    candidate_views(waiting@) == given.take(waiting@.len() as int),
                    waiting@.len() <= given.len(),
                    given.len() == total,
                    total < usize::MAX,
                    candidate_views(started@) == seq![first] + given.skip(
                        waiting@.len() as int,
                    ).reverse(),
                    started@.len() + waiting@.len() == total + 1,
                decreases waiting@.len(),
            {
                let ghost said = candidate_views(started@);
                let k: usize = waiting.len() - 1;
                assert(given.take(k as int + 1)[k as int] == candidate_views(waiting@)[k as int]);
                let candidate: NarCandidate = waiting.remove(k);
                let ghost c = candidate@;
                started.push(candidate);
                assert(candidate_views(started@) =~= said.push(c));
                assert(given.skip(k as int).reverse() =~= given.skip(k as int + 1).reverse().push(
                    c,
                ));
                assert(candidate_views(waiting@) =~= given.take(k as int));
                assert(candidate_views(started@) =~= seq![first] + given.skip(k as int).reverse());
            }
            assert(given.skip(0) =~= given);
            assert(candidate_views(started@).skip(1) =~= given.reverse());
        }
        let inflight: usize = started.len();
        (
            HedgedNar { waiting, inflight, hedging: config.enabled, head, max_inflight },
            started,
        )
    }

    /// Whether no attempt is running and no candidate is left.
    pub fn exhausted(&self) -> (yes: bool)
        ensures
            yes == (self.running() == 0 && self.left().len() == 0),
    {
        self.inflight == 0 && self.waiting.len() == 0
    }

    /// Whether another attempt is to be started when the others take too long.
    pub fn timer_armed(&self) -> (yes: bool)
        ensures
            yes == self.armed(),
    {
        !self.head && self.hedging && self.inflight < self.max_inflight && self.waiting.len() > 0
    }

    /// How many attempts are running.
    pub fn in_flight(&self) -> (out: usize)
        ensures
            out == self.running(),
    {
        self.inflight
    }

    /// Whether there is nothing to wait for.
    pub fn is_stuck(&self) -> (yes: bool)
        ensures
            yes == self.stuck(),
    {
        self.inflight == 0 && self.waiting.len() > 0 && !self.timer_armed()
    }

    /// An attempt has ended. Where its upstream does not have the archive, the
    /// next candidate takes its place.
    pub fn on_attempt(&mut self, end: AttemptEnd) -> (next: Option<NarCandidate>)
        requires
            old(self).wf(),
            old(self).running() > 0,
        ensures
            final(self).wf(),
            final(self).limit() == old(self).limit(),
            final(self).head_only() == old(self).head_only(),
            match next {
                Some(c) => {
                    &&& end == AttemptEnd::Unavailable
                    &&& old(self).left().len() > 0
                    &&& c@ == old(self).left().last()
                    &&& final(self).left() == old(self).left().drop_last()
                    &&& final(self).running() == old(self).running()
                },
                None => {
                    &&& end != AttemptEnd::Unavailable || old(self).left().len() == 0
                    &&& final(self).left() == old(self).left()
                    &&& final(self).running() == old(self).running() - 1
                },
            },
            forall|asked: Seq<CandidateView>|
                #[trigger] old(self).state(asked).after(HedgeEvent::Ended(end)) == final(self).state(
                    match next {
                        Some(c) => asked.push(c@),
                        None => asked,
                    },
                ),
    {
        let ghost before = self.left();
        self.inflight = self.inflight - 1;
        if end == AttemptEnd::Unavailable {
            let next: Option<NarCandidate> = self.waiting.pop();
            if next.is_some() {
                self.inflight = self.inflight + 1;
                assert(self.left() =~= before.drop_last());
            }
            return next;
        }
        None
    }

    /// There is nothing to wait for: the next candidate is asked.
    pub fn resume(&mut self) -> (next: NarCandidate)
        requires
            old(self).wf(),
            old(self).stuck(),
        ensures
            final(self).wf(),
            final(self).limit() == old(self).limit(),
            final(self).head_only() == old(self).head_only(),
            next@ == old(self).left().last(),
            final(self).left() == old(self).left().drop_last(),
            final(self).running() == 1,
            forall|asked: Seq<CandidateView>|
                #[trigger] old(self).state(asked).after(HedgeEvent::Resumed) == final(self).state(
                    asked.push(next@),
                ),
    {
        let ghost before = self.left();
        let n: usize = self.waiting.len();
        let next: NarCandidate = self.waiting.remove(n - 1);
        assert(self.left() =~= before.drop_last());
        self.inflight = 1;
        next
    }

    /// The attempts that are running take too long: another one starts beside
    /// them.
    pub fn on_timer(&mut self) -> (next: NarCandidate)
        requires
            old(self).wf(),
            old(self).armed(),
        ensures
            final(self).wf(),
            final(self).limit() == old(self).limit(),
            final(self).head_only() == old(self).head_only(),
            old(self).left().len() > 0,
            next@ == old(self).left().last(),
            final(self).left() == old(self).left().drop_last(),
            final(self).running() == old(self).running() + 1,
            final(self).running() <= final(self).limit(),
            forall|asked: Seq<CandidateView>|
                #[trigger] old(self).state(asked).after(HedgeEvent::Timer) == final(self).state(
                    asked.push(next@),
                ),
    {
        let ghost before = self.left();
        let n: usize = self.waiting.len();
        let next: NarCandidate = self.waiting.remove(n - 1);
        assert(self.left() =~= before.drop_last());
        self.inflight = self.inflight + 1;
        next
    }
}

/// What happens to the attempts at an archive.
pub enum HedgeEvent {
    /// An attempt has ended.
    Ended(AttemptEnd),
    /// The attempts that are running take too long.
    Timer,
    /// No attempt was running.
    Resumed,
}

/// The attempts at an archive: how many run, which candidates are left, and which
/// have been asked so far.
pub struct HedgeState {
    pub running: nat,
    pub left: Seq<CandidateView>,
    pub asked: Seq<CandidateView>,
}

impl HedgeState {
    /// `event` can happen, with at most `limit` attempts at a time.
    pub open spec fn allows(self, limit: nat, event: HedgeEvent) -> bool {
        match event {
            HedgeEvent::Ended(_) => self.running > 0,
            HedgeEvent::Timer => self.running < limit && self.left.len() > 0,
            HedgeEvent::Resumed => self.running == 0 && self.left.len() > 0,
        }
    }

    /// The attempts after `event`.
    pub open spec fn after(self, event: HedgeEvent) -> HedgeState {
        let one_more = HedgeState {
            running: self.running,
            left: self.left.drop_last(),
            asked: self.asked.push(self.left.last()),
        };
        match event {
            HedgeEvent::Ended(AttemptEnd::Unavailable) if self.left.len() > 0 => one_more,
            HedgeEvent::Ended(_) => HedgeState { running: (self.running - 1) as nat, ..self },
            HedgeEvent::Timer | HedgeEvent::Resumed => HedgeState {
                running: self.running + 1,
                ..one_more
            },
        }
    }

    /// The attempts after all of `events`.
    pub open spec fn after_all(self, events: Seq<HedgeEvent>) -> HedgeState
        decreases events.len(),
    {
        if events.len() == 0 {
            self
        } else {
            self.after_all(events.drop_last()).after(events.last())
        }
    }

    /// All of `events` can happen in turn.
    pub open spec fn allows_all(self, limit: nat, events: Seq<HedgeEvent>) -> bool
        decreases events.len(),
    {
        events.len() == 0 || (self.allows_all(limit, events.drop_last()) && self.after_all(
            events.drop_last(),
        ).allows(limit, events.last()))
    }
}

/// However the attempts go, no more of them run at a time than are allowed, where
/// one is, and no
/// candidate is asked twice: what was asked and what is left are together what was
/// there to ask, in the order of asking.
pub proof fn law_hedging_is_bounded(start: HedgeState, limit: nat, events: Seq<HedgeEvent>)
    requires
        start.running <= limit,
        limit > 0,
        start.allows_all(limit, events),
    ensures
        start.after_all(events).running <= limit,
        start.after_all(events).asked + start.after_all(events).left.reverse() == start.asked
            + start.left.reverse(),
    decreases events.len(),
{
    if events.len() > 0 {
        law_hedging_is_bounded(start, limit, events.drop_last());
        let before = start.after_all(events.drop_last());
        let after = start.after_all(events);
        if before.left.len() > 0 {
            assert(before.left.reverse() =~= seq![before.left.last()]
                + before.left.drop_last().reverse());
        }
        assert(after.asked + after.left.reverse() =~= before.asked + before.left.reverse());
    }
}

/// The attempts come to an end: only so many events can happen.
pub proof fn law_hedging_ends(start: HedgeState, limit: nat, events: Seq<HedgeEvent>)
    requires
        start.allows_all(limit, events),
    ensures
        events.len() + start.after_all(events).running + 2 * start.after_all(events).left.len()
            <= start.running + 2 * start.left.len(),
    decreases events.len(),
{
    if events.len() > 0 {
        law_hedging_ends(start, limit, events.drop_last());
    }
}

// ---------------------------------------------------------------------------
// Who is asked
// ---------------------------------------------------------------------------
/// The first upstream that is configured under `url` is the one at `k`, and it
/// opts out of hedging.
pub open spec fn opts_out_at(upstreams: Seq<UpstreamConfig>, url: Seq<char>, k: int) -> bool {
    &&& 0 <= k < upstreams.len()
    &&& upstreams[k].url@ == url
    &&& !upstreams[k].allow_hedging
    &&& forall|j: int| 0 <= j < k ==> (#[trigger] upstreams[j]).url@ != url
}

/// Archives are not to be asked of `url` beside another upstream: the first
/// upstream that is configured under it says so.
pub open spec fn opted_out(upstreams: Seq<UpstreamConfig>, url: Seq<char>) -> bool {
    exists|k: int| #[trigger] opts_out_at(upstreams, url, k)
}

/// An upstream may be hedged with unless its configuration opts out; of two
/// configurations under one URL the first counts, and what is not configured may
/// be hedged with.
pub proof fn law_hedging_is_opted_out_of(upstreams: Seq<UpstreamConfig>, url: Seq<char>)
    ensures
        may_hedge(upstreams, url) <==> !opted_out(upstreams, url),
    decreases upstreams.len(),
{
    if upstreams.len() > 0 {
        let rest = upstreams.skip(1);
        if upstreams[0].url@ == url {
            if !upstreams[0].allow_hedging {
                assert(opts_out_at(upstreams, url, 0));
            }
            if opted_out(upstreams, url) {
                let k = choose|k: int| #[trigger] opts_out_at(upstreams, url, k);
                if k > 0 {
                    assert(upstreams[0].url@ != url);
                }
            }
        } else {
            law_hedging_is_opted_out_of(rest, url);
            if opted_out(rest, url) {
                let k = choose|k: int| #[trigger] opts_out_at(rest, url, k);
                assert(upstreams[k + 1] == rest[k]);
                assert forall|j: int| 0 <= j < k + 1 implies (#[trigger] upstreams[j]).url@
                    != url by {
                    if j > 0 {
                        assert(rest[j - 1] == upstreams[j]);
                    }
                }
                assert(opts_out_at(upstreams, url, k + 1));
            }
            if opted_out(upstreams, url) {
                let k = choose|k: int| #[trigger] opts_out_at(upstreams, url, k);
                assert(rest[k - 1] == upstreams[k]);
                assert forall|j: int| 0 <= j < k - 1 implies (#[trigger] rest[j]).url@ != url by {
                    assert(rest[j] == upstreams[j + 1]);
                }
                assert(opts_out_at(rest, url, k - 1));
            }
        }
    }
}

/// The upstream at place `i` of `sorted` can be asked for an archive: it is active
/// or degraded, it is not `skip`, and it has not opted out of hedging unless that
/// does not matter.
pub open spec fn can_be_asked(
    sorted: Seq<UpstreamHealth>,
    skip: Seq<char>,
    upstreams: Seq<UpstreamConfig>,
    include_opt_outs: bool,
) -> spec_fn(int) -> bool {
    |i: int|
        {
            &&& sorted[i].status == Status::Active || sorted[i].status == Status::Degraded
            &&& sorted[i].url@ != skip
            &&& include_opt_outs || !opted_out(upstreams, sorted[i].url@)
        }
}

proof fn lemma_candidates_chosen(
    sorted: Seq<UpstreamHealth>,
    skip: Seq<char>,
    upstreams: Seq<UpstreamConfig>,
    include_opt_outs: bool,
)
    ensures
        ({
            let asked = chosen(sorted, can_be_asked(sorted, skip, upstreams, include_opt_outs));
            &&& candidate_urls(sorted, skip, upstreams, include_opt_outs) == asked.map_values(
                |h: UpstreamHealth| h.url@,
            )
            &&& candidate_priorities(sorted, skip, upstreams, include_opt_outs) == asked.map_values(
                |h: UpstreamHealth| h.priority,
            )
        }),
    decreases sorted.len(),
{
    let keep = can_be_asked(sorted, skip, upstreams, include_opt_outs);
    let asked = chosen(sorted, keep);
    if sorted.len() == 0 {
        reveal(Seq::filter);
        assert(asked =~= seq![]);
    } else {
        let front = sorted.drop_last();
        lemma_candidates_chosen(front, skip, upstreams, include_opt_outs);
        lemma_chosen_last(sorted, keep);
        let before = can_be_asked(front, skip, upstreams, include_opt_outs);
        assert forall|i: int| 0 <= i < front.len() implies #[trigger] keep(i) == before(i) by {
            assert(sorted[i] == front[i]);
        }
        lemma_chosen_same(front, keep, before);
        law_hedging_is_opted_out_of(upstreams, sorted.last().url@);
    }
    assert(candidate_urls(sorted, skip, upstreams, include_opt_outs) =~= asked.map_values(
        |h: UpstreamHealth| h.url@,
    ));
    assert(candidate_priorities(sorted, skip, upstreams, include_opt_outs) =~= asked.map_values(
        |h: UpstreamHealth| h.priority,
    ));
}

/// The places of `priorities` level by level.
spec fn level_places(priorities: Seq<i32>, levels: Seq<i32>) -> Seq<int>
    decreases levels.len(),
{
    if levels.len() == 0 {
        seq![]
    } else {
        level_places(priorities, levels.drop_last()) + places(priorities.len()).filter(
            at_priority(priorities, levels.last()),
        )
    }
}

/// `from` are places of a list whose priorities are `priorities`, lower numbers
/// first, and those of one priority as they stand.
pub open spec fn by_priority(from: Seq<int>, priorities: Seq<i32>) -> bool {
    &&& forall|k: int| 0 <= k < from.len() ==> 0 <= #[trigger] from[k] < priorities.len()
    &&& forall|k: int, l: int| 0 <= k < l < from.len() ==> {
        ||| priorities[#[trigger] from[k]] < priorities[#[trigger] from[l]]
        ||| priorities[from[k]] == priorities[from[l]] && from[k] < from[l]
    }
}

proof fn lemma_level_places(priorities: Seq<i32>, levels: Seq<i32>)
    requires
        forall|i: int, j: int| 0 <= i < j < levels.len() ==> levels[i] < levels[j],
    ensures
        by_priority(level_places(priorities, levels), priorities),
        forall|i: int| #[trigger]
            level_places(priorities, levels).contains(i) <==> 0 <= i < priorities.len()
                && levels.contains(priorities[i]),
    decreases levels.len(),
{
    let out = level_places(priorities, levels);
    if levels.len() > 0 {
        let front = levels.drop_last();
        let level = levels.last();
        let keep = at_priority(priorities, level);
        let rest = level_places(priorities, front);
        let group = places(priorities.len()).filter(keep);
        lemma_level_places(priorities, front);
        lemma_kept_places(priorities.len(), keep);
        assert forall|i: int| #[trigger] out.contains(i) <==> 0 <= i < priorities.len()
            && levels.contains(priorities[i]) by {
            assert(rest.contains(i) <==> 0 <= i < priorities.len() && front.contains(
                priorities[i],
            ));
            assert(group.contains(i) <==> 0 <= i < priorities.len() && keep(i));
            if out.contains(i) {
                let k = choose|k: int| 0 <= k < out.len() && out[k] == i;
                if k < rest.len() {
                    assert(rest[k] == i);
                    let j = choose|j: int| 0 <= j < front.len() && front[j] == priorities[i];
                    assert(levels[j] == priorities[i]);
                } else {
                    assert(group[k - rest.len()] == i);
                    assert(levels[levels.len() - 1] == priorities[i]);
                }
            }
            if 0 <= i < priorities.len() && levels.contains(priorities[i]) {
                let j = choose|j: int| 0 <= j < levels.len() && levels[j] == priorities[i];
                if j < front.len() {
                    assert(front[j] == priorities[i]);
                    let k = choose|k: int| 0 <= k < rest.len() && rest[k] == i;
                    assert(out[k] == i);
                } else {
                    assert(keep(i));
                    let k = choose|k: int| 0 <= k < group.len() && group[k] == i;
                    assert(out[rest.len() + k] == i);
                }
            }
        }
        assert forall|k: int| 0 <= k < out.len() implies 0 <= #[trigger] out[k]
            < priorities.len() by {
            assert(out.contains(out[k]));
        }
        assert forall|k: int, l: int| 0 <= k < l < out.len() implies {
            ||| priorities[#[trigger] out[k]] < priorities[#[trigger] out[l]]
            ||| priorities[out[k]] == priorities[out[l]] && out[k] < out[l]
        } by {
            if l < rest.len() {
                assert(out[k] == rest[k] && out[l] == rest[l]);
            } else {
                assert(out[l] == group[l - rest.len()]);
                assert(keep(out[l]));
                if k < rest.len() {
                    assert(out[k] == rest[k]);
                    assert(rest.contains(rest[k]));
                    let j = choose|j: int| 0 <= j < front.len() && front[j] == priorities[out[k]];
                    assert(levels[j] < levels[levels.len() - 1]);
                } else {
                    assert(out[k] == group[k - rest.len()]);
                    assert(keep(out[k]));
                }
            }
        }
    }
}

proof fn lemma_flattened_places(
    groups: Seq<Seq<Seq<char>>>,
    levels: Seq<i32>,
    urls: Seq<Seq<char>>,
    priorities: Seq<i32>,
)
    requires
        urls.len() == priorities.len(),
        groups.len() == levels.len(),
        forall|k: int|
            0 <= k < groups.len() ==> #[trigger] groups[k] == chosen(
                urls,
                at_priority(priorities, levels[k]),
            ),
    ensures
        flattened(groups) == level_places(priorities, levels).map_values(|i: int| urls[i]),
    decreases groups.len(),
{
    let out = level_places(priorities, levels).map_values(|i: int| urls[i]);
    if groups.len() > 0 {
        let front = groups.drop_last();
        let below = levels.drop_last();
        assert forall|k: int| 0 <= k < front.len() implies #[trigger] front[k] == chosen(
            urls,
            at_priority(priorities, below[k]),
        ) by {
            assert(groups[k] == front[k] && levels[k] == below[k]);
        }
        lemma_flattened_places(front, below, urls, priorities);
        assert(groups[groups.len() - 1] == groups.last());
        assert(flattened(groups) =~= out);
    } else {
        assert(flattened(groups) =~= out);
    }
}

/// Nothing is lost when candidates are put in the order of their priorities, and
/// nothing comes twice: lower numbers come first, and candidates of one priority
/// stay in the order in which they were given.
pub proof fn law_priority_order_is_stable(
    order: Seq<Seq<char>>,
    urls: Seq<Seq<char>>,
    priorities: Seq<i32>,
) -> (from: Seq<int>)
    requires
        urls.len() == priorities.len(),
        in_priority_order(order, urls, priorities),
    ensures
        order == from.map_values(|i: int| urls[i]),
        by_priority(from, priorities),
        forall|i: int| #[trigger] from.contains(i) <==> 0 <= i < urls.len(),
{
    let (levels, groups) = choose|levels: Seq<i32>, groups: Seq<Seq<Seq<char>>>|
        are_levels(levels, priorities) && #[trigger] grouped(groups, levels, urls, priorities)
            && order == flattened(groups);
    law_groups_are_by_priority(groups, levels, urls, priorities);
    lemma_flattened_places(groups, levels, urls, priorities);
    lemma_level_places(priorities, levels);
    let from = level_places(priorities, levels);
    assert forall|i: int| #[trigger] from.contains(i) <==> 0 <= i < urls.len() by {
        if 0 <= i < urls.len() {
            assert(levels.contains(priorities[i]));
        }
    }
    from
}

/// An archive is asked of an upstream where, and only where, the upstream is
/// active or degraded, is not the one to skip, and has not opted out of hedging,
/// which does not matter where opt-outs are included. Each is asked once, lower
/// priority numbers first, and those of one priority in the order in which they
/// were given.
pub proof fn law_archives_are_asked_of_all_that_can_answer(
    order: Seq<Seq<char>>,
    sorted: Seq<UpstreamHealth>,
    skip: Seq<char>,
    upstreams: Seq<UpstreamConfig>,
    include_opt_outs: bool,
) -> (from: Seq<int>)
    requires
        in_priority_order(
            order,
            candidate_urls(sorted, skip, upstreams, include_opt_outs),
            candidate_priorities(sorted, skip, upstreams, include_opt_outs),
        ),
    ensures
        order == from.map_values(|i: int| sorted[i].url@),
        forall|i: int| #[trigger]
            from.contains(i) <==> {
                &&& 0 <= i < sorted.len()
                &&& sorted[i].status == Status::Active || sorted[i].status == Status::Degraded
                &&& sorted[i].url@ != skip
                &&& include_opt_outs || !opted_out(upstreams, sorted[i].url@)
            },
        by_priority(from, Seq::new(sorted.len(), |i: int| sorted[i].priority)),
        forall|url: Seq<char>| #[trigger]
            order.contains(url) <==> exists|i: int| #![trigger sorted[i]]
                {
                    &&& 0 <= i < sorted.len()
                    &&& sorted[i].url@ == url
                    &&& sorted[i].status == Status::Active || sorted[i].status == Status::Degraded
                    &&& url != skip
                    &&& include_opt_outs || !opted_out(upstreams, url)
                },
{
    let keep = can_be_asked(sorted, skip, upstreams, include_opt_outs);
    let urls = candidate_urls(sorted, skip, upstreams, include_opt_outs);
    let ranks = candidate_priorities(sorted, skip, upstreams, include_opt_outs);
    let all = Seq::new(sorted.len(), |i: int| sorted[i].priority);
    let kept = places(sorted.len()).filter(keep);
    lemma_candidates_chosen(sorted, skip, upstreams, include_opt_outs);
    lemma_kept_places(sorted.len(), keep);
    let within = law_priority_order_is_stable(order, urls, ranks);
    let from = within.map_values(|j: int| kept[j]);
    assert forall|j: int| 0 <= j < urls.len() implies #[trigger] urls[j] == sorted[kept[j]].url@
        && ranks[j] == sorted[kept[j]].priority by {}
    assert(order =~= from.map_values(|i: int| sorted[i].url@));
    assert forall|i: int| #[trigger] from.contains(i) <==> 0 <= i < sorted.len() && keep(i) by {
        if from.contains(i) {
            let k = choose|k: int| 0 <= k < from.len() && from[k] == i;
            assert(within.contains(within[k]));
            assert(kept.contains(kept[within[k]]));
        }
        if 0 <= i < sorted.len() && keep(i) {
            assert(kept.contains(i));
            let j = choose|j: int| 0 <= j < kept.len() && kept[j] == i;
            assert(within.contains(j));
            let k = choose|k: int| 0 <= k < within.len() && within[k] == j;
            assert(from[k] == i);
        }
    }
    assert(by_priority(from, all)) by {
        assert forall|k: int| 0 <= k < from.len() implies 0 <= #[trigger] from[k] < all.len() by {
            assert(from.contains(from[k]));
        }
        assert forall|k: int, l: int| 0 <= k < l < from.len() implies {
            ||| all[#[trigger] from[k]] < all[#[trigger] from[l]]
            ||| all[from[k]] == all[from[l]] && from[k] < from[l]
        } by {
            assert(within.contains(within[k]) && within.contains(within[l]));
            assert(urls[within[k]] == sorted[kept[within[k]]].url@);
            assert(urls[within[l]] == sorted[kept[within[l]]].url@);
        }
    }
    assert forall|url: Seq<char>| #[trigger] order.contains(url) <==> exists|i: int|
        #![trigger sorted[i]]
        {
            &&& 0 <= i < sorted.len()
            &&& sorted[i].url@ == url
            &&& sorted[i].status == Status::Active || sorted[i].status == Status::Degraded
            &&& url != skip
            &&& include_opt_outs || !opted_out(upstreams, url)
        } by {
        if order.contains(url) {
            let k = choose|k: int| 0 <= k < order.len() && order[k] == url;
            let i = from[k];
            assert(from.contains(i));
            assert(sorted[i].url@ == url && keep(i));
        }
        if exists|i: int| #![trigger sorted[i]]
            {
                &&& 0 <= i < sorted.len()
                &&& sorted[i].url@ == url
                &&& sorted[i].status == Status::Active || sorted[i].status == Status::Degraded
                &&& url != skip
                &&& include_opt_outs || !opted_out(upstreams, url)
            } {
            let i = choose|i: int| #![trigger sorted[i]]
                {
                    &&& 0 <= i < sorted.len()
                    &&& sorted[i].url@ == url
                    &&& sorted[i].status == Status::Active || sorted[i].status == Status::Degraded
                    &&& url != skip
                    &&& include_opt_outs || !opted_out(upstreams, url)
                };
            assert(keep(i));
            assert(from.contains(i));
            let k = choose|k: int| 0 <= k < from.len() && from[k] == i;
            assert(order[k] == url);
        }
    }
    from
}

/// Behind the candidate that is asked first stand those, and only those, whose
/// upstreams have not opted out of hedging, in the order in which they stood.
pub proof fn law_opt_outs_are_not_asked_beside_others(
    list: Seq<CandidateView>,
    upstreams: Seq<UpstreamConfig>,
)
    ensures
        hedgeable(list, upstreams) == list.filter(
            |c: CandidateView| !opted_out(upstreams, c.upstream),
        ),
    decreases list.len(),
{
    reveal(Seq::filter);
    if list.len() > 0 {
        law_opt_outs_are_not_asked_beside_others(list.drop_last(), upstreams);
        law_hedging_is_opted_out_of(upstreams, list.last().upstream);
    }
    assert(hedgeable(list, upstreams) =~= list.filter(
        |c: CandidateView| !opted_out(upstreams, c.upstream),
    ));
}

/// The places at which a path was given.
pub open spec fn with_path(paths: Seq<Option<Seq<char>>>) -> spec_fn(int) -> bool {
    |i: int| paths[i] is Some
}

/// Taken from the end, the candidates are the upstreams that gave a path, in the
/// order in which they were given, each with the path that it gave.
pub proof fn law_candidates_are_taken_in_order(
    urls: Seq<Seq<char>>,
    paths: Seq<Option<Seq<char>>>,
)
    requires
        urls.len() == paths.len(),
    ensures
        reversed_candidates(urls, paths).reverse() == places(urls.len()).filter(
            with_path(paths),
        ).map_values(
            |i: int|
                CandidateView { upstream: urls[i], path: paths[i]->0, route: RouteKind::Hedge },
        ),
    decreases urls.len(),
{
    reveal(Seq::filter);
    let keep = with_path(paths);
    let taken = reversed_candidates(urls, paths).reverse();
    let out = places(urls.len()).filter(keep).map_values(
        |i: int| CandidateView { upstream: urls[i], path: paths[i]->0, route: RouteKind::Hedge },
    );
    if urls.len() > 0 {
        let m: nat = (urls.len() - 1) as nat;
        let us = urls.drop_last();
        let ps = paths.drop_last();
        law_candidates_are_taken_in_order(us, ps);
        assert(places(urls.len()).drop_last() =~= places(m));
        let kept = places(m).filter(keep);
        lemma_kept_places(m, keep);
        lemma_kept_places(m, with_path(ps));
        lemma_kept_same(m, keep, with_path(ps));
        let rest = kept.map_values(
            |i: int| CandidateView { upstream: us[i], path: ps[i]->0, route: RouteKind::Hedge },
        );
        assert(reversed_candidates(us, ps).reverse() == rest);
        if paths.last() is Some {
            let last = CandidateView {
                upstream: urls.last(),
                path: paths.last()->0,
                route: RouteKind::Hedge,
            };
            assert(taken =~= reversed_candidates(us, ps).reverse().push(last));
            assert(places(urls.len()).filter(keep) == kept.push(m as int));
            assert(out =~= rest.push(last));
        } else {
            assert(out =~= rest);
        }
    } else {
        assert(taken =~= out);
    }
}

/// Every attempt that was ever started is still running or has ended: none is
/// forgotten, and none ends that was not started.
pub proof fn law_attempts_are_accounted_for(start: HedgeState, limit: nat, events: Seq<HedgeEvent>)
    requires
        start.allows_all(limit, events),
    ensures
        start.after_all(events).running + events.filter(|e: HedgeEvent| e is Ended).len()
            == start.running + start.after_all(events).asked.len() - start.asked.len(),
    decreases events.len(),
{
    reveal(Seq::filter);
    if events.len() > 0 {
        law_attempts_are_accounted_for(start, limit, events.drop_last());
    }
}

/// A further candidate is asked where the upstream of an attempt does not have
/// the archive, where the attempts take too long and where none is running, and
/// in no other case; it is the one that stands at the end.
pub proof fn law_a_broken_attempt_is_not_replaced(state: HedgeState, event: HedgeEvent)
    ensures
        ({
            let after = state.after(event);
            if state.left.len() > 0 && event != HedgeEvent::Ended(AttemptEnd::Broken) && event
                != HedgeEvent::Ended(AttemptEnd::Answered) {
                state.left == after.left.push(after.asked.last()) && after.asked.drop_last()
                    == state.asked && after.asked.len() == state.asked.len() + 1
            } else {
                event is Ended ==> after.left == state.left && after.asked == state.asked
            }
        }),
{
    let after = state.after(event);
    if state.left.len() > 0 && event != HedgeEvent::Ended(AttemptEnd::Broken) && event
        != HedgeEvent::Ended(AttemptEnd::Answered) {
        assert(state.left =~= after.left.push(after.asked.last()));
        assert(after.asked.drop_last() =~= state.asked);
    }
}

/// Another attempt is waited for only where a candidate is left and fewer attempts
/// run than may; only the head of an archive is asked of all at once, and then none
/// is left to wait for; and there is nothing to wait for exactly where no attempt
/// runs and none will be started though a candidate is left.
pub proof fn law_attempts_are_waited_for_with_reason(nar: HedgedNar)
    ensures
        nar.armed() ==> nar.left().len() > 0 && nar.running() < nar.limit(),
        nar.armed() ==> !nar.head_only() && !nar.stuck(),
        nar.wf() && nar.head_only() ==> nar.left().len() == 0,
        nar.stuck() ==> nar.running() == 0 && nar.left().len() > 0,
        nar.running() == 0 && nar.left().len() > 0 && !nar.armed() ==> nar.stuck(),
{
}

} // verus!
