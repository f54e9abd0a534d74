//! Races: the upstreams of one priority are asked at once for a narinfo, those
//! of the next priority only where none of them has it.

use vstd::prelude::*;
use vstd::string::*;

use crate::select::{chosen, lemma_chosen_last, lemma_chosen_members, lemma_chosen_same};
use crate::text::{same_text, views};

verus! {

// ---------------------------------------------------------------------------
// Groups
// ---------------------------------------------------------------------------
/// Those of `urls` whose priority is `priority`, in order.
pub open spec fn with_priority(urls: Seq<Seq<char>>, priorities: Seq<i32>, priority: i32) -> Seq<
    Seq<char>,
>
    decreases urls.len(),
{
    if urls.len() == 0 || priorities.len() == 0 {
        seq![]
    } else {
        let rest = with_priority(urls.drop_last(), priorities.drop_last(), priority);
        if priorities.last() == priority {
            rest.push(urls.last())
        } else {
            rest
        }
    }
}

/// `levels` are the priorities that occur, from the lowest number to the
/// highest.
pub open spec fn are_levels(levels: Seq<i32>, priorities: Seq<i32>) -> bool {
    &&& forall|i: int, j: int| 0 <= i < j < levels.len() ==> levels[i] < levels[j]
    &&& forall|p: i32| #[trigger] levels.contains(p) <==> priorities.contains(p)
}

/// `groups` are the candidates by priority: one group for each of `levels`.
pub open spec fn grouped(
    groups: Seq<Seq<Seq<char>>>,
    levels: Seq<i32>,
    urls: Seq<Seq<char>>,
    priorities: Seq<i32>,
) -> bool {
    &&& groups.len() == levels.len()
    &&& forall|k: int|
        0 <= k < levels.len() ==> #[trigger] groups[k] == with_priority(urls, priorities, levels[k])
}

/// The contents of the groups of a list.
pub open spec fn group_views(groups: Seq<Vec<String>>) -> Seq<Seq<Seq<char>>> {
    Seq::new(groups.len(), |i: int| views(groups[i]@))
}

/// The priority of an upstream of which nothing is known: it comes last.
pub const UNKNOWN_PRIORITY: i32 = 0x7FFF_FFFF;

/// Adds a candidate to the group of its priority.
fn add_candidate(
    groups: &mut Vec<Vec<String>>,
    levels: &mut Vec<i32>,
    url: &String,
    priority: i32,
    Ghost(urls): Ghost<Seq<Seq<char>>>,
    Ghost(priorities): Ghost<Seq<i32>>,
)
    requires
        urls.len() == priorities.len(),
        are_levels(old(levels)@, priorities),
        grouped(group_views(old(groups)@), old(levels)@, urls, priorities),
    ensures
        are_levels(final(levels)@, priorities.push(priority)),
        grouped(
            group_views(final(groups)@),
            final(levels)@,
            urls.push(url@),
            priorities.push(priority),
        ),
{
    let ghost all = urls.push(url@);
    let ghost ranks = priorities.push(priority);
    let ghost old_groups = group_views(groups@);
    let ghost old_levels = levels@;
    proof {
        assert(all.drop_last() =~= urls);
        assert(ranks.drop_last() =~= priorities);
        assert forall|p: i32| #[trigger] ranks.contains(p) <==> priorities.contains(p) || p
            == priority by {
            if priorities.contains(p) {
                let i = choose|i: int| 0 <= i < priorities.len() && priorities[i] == p;
                assert(ranks[i] == p);
            }
            if p == priority {
                assert(ranks[priorities.len() as int] == p);
            }
            if ranks.contains(p) {
                let i = choose|i: int| 0 <= i < ranks.len() && ranks[i] == p;
                if i < priorities.len() {
                    assert(priorities[i] == p);
                }
            }
        }
    }
    let n: usize = levels.len();
    let mut i: usize = 0;
    while i < n && levels[i] < priority
        invariant
            i <= n,
            n == levels@.len(),
            levels@ == old_levels,
            forall|j: int| 0 <= j < i ==> levels@[j] < priority,
        decreases n - i,
    {
        i = i + 1;
    }
    if i < n && levels[i] == priority {
        let ghost was = groups@[i as int]@;
        groups[i].push(url.clone());
        proof {
            let now = group_views(groups@);
            assert(views(groups@[i as int]@) =~= views(was).push(url@));
            assert forall|k: int| 0 <= k < levels@.len() implies #[trigger] now[k]
                == with_priority(all, ranks, levels@[k]) by {
                assert(old_groups[k] == with_priority(urls, priorities, levels@[k]));
                if k != i {
                    assert(now[k] == old_groups[k]);
                }
            }
            assert forall|p: i32| #[trigger] levels@.contains(p) <==> ranks.contains(p) by {
                assert(levels@.contains(p) <==> priorities.contains(p));
                if p == priority {
                    assert(levels@[i as int] == p);
                }
            }
        }
    } else {
        let mut group: Vec<String> = Vec::new();
        group.push(url.clone());
        let ghost fresh = views(group@);
        proof {
            assert(fresh =~= seq![url@]);
            lemma_no_such_priority(urls, priorities, priority);
            assert(!old_levels.contains(priority)) by {
                if old_levels.contains(priority) {
                    let k = choose|k: int| 0 <= k < old_levels.len() && old_levels[k] == priority;
                    if k > i {
                        assert(old_levels[i as int] < old_levels[k]);
                    }
                }
            }
            assert(!priorities.contains(priority)) by {
                assert(old_levels.contains(priority) <==> priorities.contains(priority));
            }
            assert(with_priority(all, ranks, priority) =~= fresh);
        }
        groups.insert(i, group);
        levels.insert(i, priority);
        proof {
            let now = group_views(groups@);
            assert(now =~= old_groups.insert(i as int, fresh));
            assert forall|k: int| 0 <= k < levels@.len() implies #[trigger] now[k]
                == with_priority(all, ranks, levels@[k]) by {
                let m = if k < i { k } else { k - 1 };
                if k != i {
                    assert(levels@[k] == old_levels[m]);
                    assert(now[k] == old_groups[m]);
                    assert(old_groups[m] == with_priority(urls, priorities, old_levels[m]));
                    assert(old_levels.contains(old_levels[m]));
                }
            }
            assert forall|p: i32| #[trigger] levels@.contains(p) <==> ranks.contains(p) by {
                assert(old_levels.contains(p) <==> priorities.contains(p));
                if old_levels.contains(p) {
                    let k = choose|k: int| 0 <= k < old_levels.len() && old_levels[k] == p;
                    assert(levels@[if k < i { k } else { k + 1 }] == p);
                }
                if p == priority {
                    assert(levels@[i as int] == p);
                }
                if levels@.contains(p) && p != priority {
                    let k = choose|k: int| 0 <= k < levels@.len() && levels@[k] == p;
                    assert(old_levels[if k < i { k } else { k - 1 }] == p);
                }
            }
            assert forall|a: int, b: int| 0 <= a < b < levels@.len() implies levels@[a]
                < levels@[b] by {
                let x = if a < i { a } else { a - 1 };
                let y = if b < i { b } else { b - 1 };
                if a != i && b != i {
                    assert(old_levels[x] < old_levels[y]);
                } else if b == i {
                    assert(levels@[a] == old_levels[a]);
                } else {
                    assert(levels@[b] == old_levels[y]);
                    if y > i {
                        assert(old_levels[i as int] < old_levels[y]);
                    }
                    assert(old_levels[i as int] != priority) by {
                        assert(old_levels.contains(old_levels[i as int]));
                    }
                }
            }
        }
    }
}

proof fn lemma_no_such_priority(urls: Seq<Seq<char>>, priorities: Seq<i32>, priority: i32)
    requires
        urls.len() == priorities.len(),
    ensures
        !priorities.contains(priority) ==> with_priority(urls, priorities, priority).len() == 0,
        priorities.contains(priority) ==> with_priority(urls, priorities, priority).len() > 0,
    decreases urls.len(),
{
    if urls.len() > 0 {
        let front = priorities.drop_last();
        lemma_no_such_priority(urls.drop_last(), front, priority);
        if front.contains(priority) {
            let i = choose|i: int| 0 <= i < front.len() && front[i] == priority;
            assert(priorities[i] == priority);
        }
        assert(priorities[priorities.len() - 1] == priorities.last());
        if priorities.contains(priority) && !front.contains(priority) {
            let i = choose|i: int| 0 <= i < priorities.len() && priorities[i] == priority;
            if i < front.len() {
                assert(front[i] == priority);
            }
        }
    }
}

/// The candidates by priority, lower numbers first; within a priority they keep
/// their order.
pub fn group_by_priority(urls: &Vec<String>, priorities: &Vec<i32>) -> (out: Vec<Vec<String>>)
    requires
        urls@.len() == priorities@.len(),
    ensures
        exists|levels: Seq<i32>|
            are_levels(levels, priorities@) && #[trigger] grouped(
                group_views(out@),
                levels,
                views(urls@),
                priorities@,
            ),
        forall|k: int| 0 <= k < out@.len() ==> (#[trigger] out@[k])@.len() > 0,
{
    let mut groups: Vec<Vec<String>> = Vec::new();
    let mut levels: Vec<i32> = Vec::new();
    let n: usize = urls.len();
    let mut i: usize = 0;
    let ghost all = views(urls@);
    while i < n
        invariant
            i <= n,
            n == urls@.len(),
            n == priorities@.len(),
            all == views(urls@),
            are_levels(levels@, priorities@.take(i as int)),
            grouped(
                group_views(groups@),
                levels@,
                all.take(i as int),
                priorities@.take(i as int),
            ),
        decreases n - i,
    {
        let ghost seen = all.take(i as int);
        let ghost ranks = priorities@.take(i as int);
        add_candidate(
            &mut groups,
            &mut levels,
            &urls[i],
            priorities[i],
            Ghost(seen),
            Ghost(ranks),
        );
        assert(all.take(i + 1) =~= seen.push(all[i as int]));
        assert(priorities@.take(i + 1) =~= ranks.push(priorities@[i as int]));
        i = i + 1;
    }
    assert(all.take(n as int) =~= all);
    assert(priorities@.take(n as int) =~= priorities@);
    proof {
        assert forall|k: int| 0 <= k < groups@.len() implies (#[trigger] groups@[k])@.len() > 0 by {
            lemma_no_such_priority(all, priorities@, levels@[k]);
            assert(group_views(groups@)[k] == with_priority(all, priorities@, levels@[k]));
            assert(levels@.contains(levels@[k]));
            assert(views(groups@[k]@).len() > 0);
        }
    }
    groups
}

// ---------------------------------------------------------------------------
// One group
// ---------------------------------------------------------------------------
/// How the attempt at one upstream of a group ended.
#[derive(Debug, Clone, Copy, PartialEq, Eq, Structural)]
pub enum Attempt {
    /// It has the narinfo.
    Won,
    /// It answered that it has none.
    NotFound,
    /// It could not be asked, or gave no answer.
    NetworkError,
    /// The attempt itself broke off.
    Broken,
}

/// Why a group gave no winner.
#[derive(Debug, Clone, Copy, PartialEq, Eq, Structural)]
pub enum RaceGroupError {
    /// An upstream of the group answered that it has no such path.
    NotFound,
    /// None answered that, and some could not be reached: the path may exist.
    NetworkError,
    /// None answered in time.
    Timeout,
}

/// How many of `attempts` ended in `kind`.
pub open spec fn count_of(attempts: Seq<Attempt>, kind: Attempt) -> nat
    decreases attempts.len(),
{
    if attempts.len() == 0 {
        0
    } else {
        count_of(attempts.drop_last(), kind) + if attempts.last() == kind {
            1nat
        } else {
            0
        }
    }
}

/// What a group without a winner comes to, after `attempts`.
pub open spec fn loss_after(attempts: Seq<Attempt>) -> RaceGroupError {
    if count_of(attempts, Attempt::NotFound) > 0 {
        RaceGroupError::NotFound
    } else if count_of(attempts, Attempt::NetworkError) + count_of(attempts, Attempt::Broken) > 0 {
        RaceGroupError::NetworkError
    } else {
        RaceGroupError::Timeout
    }
}

/// The running race of one group.
pub struct GroupRace {
    pending: usize,
    net_errs: usize,
    not_founds: usize,
    attempts: u32,
    history: Ghost<Seq<Attempt>>,
}

/// What a group's race has come to.
#[derive(Debug, Clone, Copy, PartialEq, Eq, Structural)]
pub enum GroupProgress {
    /// Attempts are still running.
    Running,
    /// The upstream whose attempt just ended has won.
    Won,
    /// There is no winner.
    Lost(RaceGroupError),
}

impl GroupRace {
    /// How the attempts have ended, in order.
    pub closed spec fn ended(self) -> Seq<Attempt> {
        self.history@
    }

    /// How many attempts are still running.
    pub closed spec fn running(self) -> nat {
        self.pending as nat
    }

    /// The counts are those of the attempts that have ended, none of which won.
    pub closed spec fn wf(self) -> bool {
        &&& self.net_errs == count_of(self.history@, Attempt::NetworkError) + count_of(
            self.history@,
            Attempt::Broken,
        )
        &&& self.not_founds == count_of(self.history@, Attempt::NotFound)
        &&& self.attempts == self.history@.len()
        &&& count_of(self.history@, Attempt::Won) == 0
        &&& self.history@.len() + self.pending <= u32::MAX
        &&& self.net_errs + self.not_founds == self.history@.len()
    }

    /// The race of a group of `size` upstreams, all of which are being asked.
    pub fn new(size: usize) -> (out: Self)
        requires
            size <= u32::MAX,
        ensures
            out.wf(),
            out.ended() == Seq::<Attempt>::empty(),
            out.running() == size,
    {
        GroupRace {
            pending: size,
            net_errs: 0,
            not_founds: 0,
            attempts: 0,
            history: Ghost(Seq::<Attempt>::empty()),
        }
    }

    /// How many attempts have ended.
    pub fn attempts(&self) -> (out: u32)
        requires
            self.wf(),
        ensures
            out == self.ended().len(),
    {
        self.attempts
    }

    fn classify(&self) -> (out: RaceGroupError)
        requires
            self.wf(),
        ensures
            out == loss_after(self.ended()),
    {
        if self.net_errs > 0 && self.not_founds == 0 {
            RaceGroupError::NetworkError
        } else if self.not_founds > 0 {
            RaceGroupError::NotFound
        } else {
            RaceGroupError::Timeout
        }
    }

    /// What has come of the race so far, before any attempt ends.
    pub fn start(&self) -> (out: GroupProgress)
        requires
            self.wf(),
        ensures
            out == if self.running() == 0 {
                GroupProgress::Lost(loss_after(self.ended()))
            } else {
                GroupProgress::Running
            },
    {
        if self.pending == 0 {
            GroupProgress::Lost(self.classify())
        } else {
            GroupProgress::Running
        }
    }

    /// An attempt has ended. The first that wins ends the race.
    pub fn on_attempt(&mut self, attempt: Attempt) -> (out: GroupProgress)
        requires
            old(self).wf(),
            old(self).running() > 0,
        ensures
            final(self).ended() == old(self).ended().push(attempt),
            final(self).running() == old(self).running() - 1,
            attempt != Attempt::Won ==> final(self).wf(),
            out == if attempt == Attempt::Won {
                GroupProgress::Won
            } else if final(self).running() == 0 {
                GroupProgress::Lost(loss_after(final(self).ended()))
            } else {
                GroupProgress::Running
            },
    {
        let ghost before = self.history@;
        let ghost after = before.push(attempt);
        assert(after.drop_last() =~= before);
        self.pending = self.pending - 1;
        self.attempts = self.attempts + 1;
        self.history = Ghost(after);
        match attempt {
            Attempt::Won => {
                return GroupProgress::Won;
            },
            Attempt::NotFound => {
                self.not_founds = self.not_founds + 1;
            },
            Attempt::NetworkError | Attempt::Broken => {
                self.net_errs = self.net_errs + 1;
            },
        }
        if self.pending == 0 {
            GroupProgress::Lost(self.classify())
        } else {
            GroupProgress::Running
        }
    }

    /// The time is up: what the group comes to without a winner.
    pub fn on_deadline(&self) -> (out: RaceGroupError)
        requires
            self.wf(),
        ensures
            out == loss_after(self.ended()),
    {
        self.classify()
    }
}

/// Whether the upstream of an attempt that ended so is left alone for a while.
pub fn cools_down(attempt: Attempt) -> (yes: bool)
    ensures
        yes == (attempt == Attempt::NetworkError),
{
    attempt == Attempt::NetworkError
}

/// A group says that a path is not there only where an upstream of the group said
/// so, and that it is unreachable only where none did and some could not be
/// reached.
pub proof fn law_loss_is_justified(attempts: Seq<Attempt>)
    ensures
        loss_after(attempts) == RaceGroupError::NotFound <==> attempts.contains(Attempt::NotFound),
        loss_after(attempts) == RaceGroupError::NetworkError <==> (!attempts.contains(
            Attempt::NotFound,
        ) && (attempts.contains(Attempt::NetworkError) || attempts.contains(Attempt::Broken))),
{
    lemma_count_positive(attempts, Attempt::NotFound);
    lemma_count_positive(attempts, Attempt::NetworkError);
    lemma_count_positive(attempts, Attempt::Broken);
}

proof fn lemma_count_positive(attempts: Seq<Attempt>, kind: Attempt)
    ensures
        count_of(attempts, kind) > 0 <==> attempts.contains(kind),
    decreases attempts.len(),
{
    if attempts.len() > 0 {
        let front = attempts.drop_last();
        lemma_count_positive(front, kind);
        if front.contains(kind) {
            let i = choose|i: int| 0 <= i < front.len() && front[i] == kind;
            assert(attempts[i] == kind);
        }
        assert(attempts[attempts.len() - 1] == attempts.last());
        if attempts.contains(kind) && attempts.last() != kind {
            let i = choose|i: int| 0 <= i < attempts.len() && attempts[i] == kind;
            assert(front[i] == kind);
        }
    }
}

// ---------------------------------------------------------------------------
// The race
// ---------------------------------------------------------------------------
/// Why a winner does not get the route.
#[derive(Debug, Clone, Copy, PartialEq, Eq, Structural)]
pub enum Refusal {
    /// It is not let through: by its filter, or for want of a signature or of
    /// trust.
    Rejected,
    /// It no longer has the narinfo.
    NotFound,
    /// It could not be reached again.
    Network,
}

/// What a race without a route comes to.
#[derive(Debug, Clone, Copy, PartialEq, Eq, Structural)]
pub enum RaceVerdict {
    /// No upstream has the path.
    NotFound,
    /// No upstream could be asked.
    Unavailable,
}

/// The candidates that a race still has: the groups that have not been lost, the
/// first of which is being raced.
pub struct Race {
    groups: Vec<Vec<String>>,
    at: usize,
    any_not_found: bool,
    attempts_total: u32,
}

/// How many candidates there are in `groups`.
pub open spec fn candidates_in(groups: Seq<Seq<Seq<char>>>) -> nat
    decreases groups.len(),
{
    if groups.len() == 0 {
        0
    } else {
        groups[0].len() + candidates_in(groups.skip(1))
    }
}

/// `urls` without `url`.
pub open spec fn without(urls: Seq<Seq<char>>, url: Seq<char>) -> Seq<Seq<char>>
    decreases urls.len(),
{
    if urls.len() == 0 {
        seq![]
    } else {
        let rest = without(urls.drop_last(), url);
        if urls.last() == url {
            rest
        } else {
            rest.push(urls.last())
        }
    }
}

/// `groups` when the winner `url` of the first of them is out.
pub open spec fn groups_without(groups: Seq<Seq<Seq<char>>>, url: Seq<char>) -> Seq<
    Seq<Seq<char>>,
> {
    let first = without(groups[0], url);
    if first.len() == 0 {
        groups.skip(1)
    } else {
        groups.update(0, first)
    }
}

proof fn lemma_without_shorter(urls: Seq<Seq<char>>, url: Seq<char>)
    ensures
        without(urls, url).len() <= urls.len(),
        urls.contains(url) ==> without(urls, url).len() < urls.len(),
    decreases urls.len(),
{
    if urls.len() > 0 {
        let front = urls.drop_last();
        lemma_without_shorter(front, url);
        if urls.contains(url) && urls.last() != url {
            let i = choose|i: int| 0 <= i < urls.len() && urls[i] == url;
            assert(front[i] == url);
        }
    }
}

/// Removes `url` from `urls`.
fn retain_others(urls: &Vec<String>, url: &str) -> (out: Vec<String>)
    ensures
        views(out@) == without(views(urls@), url@),
{
    let ghost all = views(urls@);
    let mut out: Vec<String> = Vec::new();
    let n: usize = urls.len();
    let mut i: usize = 0;
    assert(all.take(0) =~= seq![]);
    while i < n
        invariant
            i <= n,
            n == urls@.len(),
            all == views(urls@),
            views(out@) == without(all.take(i as int), url@),
        decreases n - i,
    {
        let ghost said = views(out@);
        let ghost next = all.take(i + 1);
        assert(next.drop_last() =~= all.take(i as int));
        assert(next.last() == urls@[i as int]@);
        if !same_text(urls[i].as_str(), url) {
            out.push(urls[i].clone());
            assert(views(out@) =~= said.push(urls@[i as int]@));
        }
        i = i + 1;
    }
    assert(all.take(n as int) =~= all);
    out
}

impl Race {
    /// The groups that have not been lost, in the order in which they are raced.
    pub closed spec fn left(self) -> Seq<Seq<Seq<char>>> {
        group_views(self.groups@).skip(self.at as int)
    }

    /// Some upstream has said that it has no such path, or was refused for
    /// another reason than the network.
    pub closed spec fn found_missing(self) -> bool {
        self.any_not_found
    }

    /// How many attempts have been made.
    pub closed spec fn attempts(self) -> nat {
        self.attempts_total as nat
    }

    /// No group that is left is empty.
    pub closed spec fn wf(self) -> bool {
        &&& self.at <= self.groups@.len()
        &&& forall|k: int|
            self.at <= k < self.groups@.len() ==> (#[trigger] self.groups@[k])@.len() > 0
    }

    /// A race among `groups`.
    pub fn new(groups: Vec<Vec<String>>) -> (out: Self)
        requires
            forall|k: int| 0 <= k < groups@.len() ==> (#[trigger] groups@[k])@.len() > 0,
        ensures
            out.wf(),
            out.left() == group_views(groups@),
            !out.found_missing(),
            out.attempts() == 0,
    {
        let out = Race { groups, at: 0, any_not_found: false, attempts_total: 0 };
        assert(out.left() =~= group_views(groups@));
        out
    }

    /// The group that is to be raced, where one is left.
    pub fn current(&self) -> (out: Option<&Vec<String>>)
        requires
            self.wf(),
        ensures
            match out {
                Some(group) => self.left().len() > 0 && views(group@) == self.left()[0]
                    && group@.len() > 0,
                None => self.left().len() == 0,
            },
    {
        if self.at < self.groups.len() {
            assert(self.left()[0] == views(self.groups@[self.at as int]@));
            Some(&self.groups[self.at])
        } else {
            None
        }
    }

    /// The current group was raced with `attempts` attempts.
    pub fn add_attempts(&mut self, attempts: u32)
        requires
            old(self).wf(),
            old(self).attempts() + attempts <= u32::MAX,
        ensures
            final(self).wf(),
            final(self).left() == old(self).left(),
            final(self).found_missing() == old(self).found_missing(),
            final(self).attempts() == old(self).attempts() + attempts,
    {
        self.attempts_total = self.attempts_total + attempts;
    }

    /// The current group has no winner: the next one is up.
    pub fn on_lost(&mut self, loss: RaceGroupError)
        requires
            old(self).wf(),
            old(self).left().len() > 0,
        ensures
            final(self).wf(),
            final(self).left() == old(self).left().skip(1),
            final(self).left() == left_after(old(self).left(), RaceEvent::Lost(loss)),
            final(self).found_missing() == (old(self).found_missing() || loss
                == RaceGroupError::NotFound),
            final(self).found_missing() == missing_after(
                old(self).found_missing(),
                seq![RaceEvent::Lost(loss)],
            ),
            final(self).attempts() == old(self).attempts(),
            candidates_in(final(self).left()) < candidates_in(old(self).left()),
    {
        let ghost before = self.left();
        let n: usize = self.groups.len();
        assert(self.at < n);
        assert(before[0] == views(self.groups@[self.at as int]@));
        if loss == RaceGroupError::NotFound {
            self.any_not_found = true;
        }
        self.at = self.at + 1;
        assert(self.left() =~= before.skip(1));
        proof {
            lemma_one_event(old(self).any_not_found, RaceEvent::Lost(loss));
        }
    }

    /// The winner of the current group does not get the route: the others of its
    /// group are raced again, or the next group where there are none. Says whether
    /// the winner is to be left alone for a while.
    pub fn on_refused(&mut self, winner: &str, refusal: Refusal) -> (cool_down: bool)
        requires
            old(self).wf(),
            old(self).left().len() > 0,
            old(self).left()[0].contains(winner@),
        ensures
            final(self).wf(),
            final(self).left() == groups_without(old(self).left(), winner@),
            final(self).left() == left_after(
                old(self).left(),
                RaceEvent::Refused(winner@, refusal),
            ),
            final(self).found_missing() == (old(self).found_missing() || refusal
                != Refusal::Network),
            final(self).found_missing() == missing_after(
                old(self).found_missing(),
                seq![RaceEvent::Refused(winner@, refusal)],
            ),
            final(self).attempts() == old(self).attempts(),
            cool_down == (refusal == Refusal::Network),
            candidates_in(final(self).left()) < candidates_in(old(self).left()),
    {
        let ghost before = self.left();
        let ghost all = group_views(self.groups@);
        let n: usize = self.groups.len();
        assert(self.at < n);
        assert(before[0] == views(self.groups@[self.at as int]@));
        proof {
            lemma_without_shorter(before[0], winner@);
        }
        let others: Vec<String> = retain_others(&self.groups[self.at], winner);
        let ghost kept = views(others@);
        if others.len() == 0 {
            self.at = self.at + 1;
            assert(self.left() =~= before.skip(1));
        } else {
            self.groups.set(self.at, others);
            assert(group_views(self.groups@) =~= all.update(self.at as int, kept));
            assert(self.left() =~= before.update(0, kept));
            assert(self.left().skip(1) =~= before.skip(1));
        }
        if refusal != Refusal::Network {
            self.any_not_found = true;
        }
        proof {
            lemma_one_event(old(self).any_not_found, RaceEvent::Refused(winner@, refusal));
        }
        refusal == Refusal::Network
    }

    /// What a race that no group is left of comes to.
    pub fn verdict(&self) -> (out: RaceVerdict)
        ensures
            out == if self.found_missing() {
                RaceVerdict::NotFound
            } else {
                RaceVerdict::Unavailable
            },
    {
        if self.any_not_found {
            RaceVerdict::NotFound
        } else {
            RaceVerdict::Unavailable
        }
    }

    /// How many attempts have been made.
    pub fn attempts_made(&self) -> (out: u32)
        ensures
            out == self.attempts(),
    {
        self.attempts_total
    }
}

/// The name under which the number of attempts of a lost race is counted.
pub fn verdict_label(verdict: RaceVerdict) -> (out: &'static str)
    ensures
        out@ == match verdict {
            RaceVerdict::NotFound => "not_found"@,
            RaceVerdict::Unavailable => "unavailable"@,
        },
{
    match verdict {
        RaceVerdict::NotFound => "not_found",
        RaceVerdict::Unavailable => "unavailable",
    }
}

/// What happens to a race.
pub enum RaceEvent {
    /// The current group was lost.
    Lost(RaceGroupError),
    /// The winner of the current group was refused.
    Refused(Seq<char>, Refusal),
}

/// The groups that are left after `event`.
pub open spec fn left_after(left: Seq<Seq<Seq<char>>>, event: RaceEvent) -> Seq<Seq<Seq<char>>> {
    match event {
        RaceEvent::Lost(_) => left.skip(1),
        RaceEvent::Refused(winner, _) => groups_without(left, winner),
    }
}

/// The event says that the path is not there.
pub open spec fn says_missing(event: RaceEvent) -> bool {
    match event {
        RaceEvent::Lost(loss) => loss == RaceGroupError::NotFound,
        RaceEvent::Refused(_, refusal) => refusal != Refusal::Network,
    }
}

/// The events can happen one after the other to a race of which `left` is left.
pub open spec fn can_happen(left: Seq<Seq<Seq<char>>>, events: Seq<RaceEvent>) -> bool
    decreases events.len(),
{
    events.len() > 0 ==> {
        &&& left.len() > 0
        &&& match events[0] {
            RaceEvent::Lost(_) => left[0].len() > 0,
            RaceEvent::Refused(winner, _) => left[0].contains(winner),
        }
        &&& can_happen(left_after(left, events[0]), events.skip(1))
    }
}

proof fn lemma_event_uses_candidate(left: Seq<Seq<Seq<char>>>, event: RaceEvent)
    requires
        left.len() > 0,
        match event {
            RaceEvent::Lost(_) => left[0].len() > 0,
            RaceEvent::Refused(winner, _) => left[0].contains(winner),
        },
    ensures
        candidates_in(left_after(left, event)) < candidates_in(left),
{
    match event {
        RaceEvent::Lost(_) => {},
        RaceEvent::Refused(winner, _) => {
            lemma_without_shorter(left[0], winner);
            let first = without(left[0], winner);
            if first.len() > 0 {
                assert(left.update(0, first).skip(1) =~= left.skip(1));
            }
        },
    }
}

/// A race ends: it takes at most as many steps as there are candidates.
pub proof fn law_race_ends(left: Seq<Seq<Seq<char>>>, events: Seq<RaceEvent>)
    requires
        can_happen(left, events),
    ensures
        events.len() <= candidates_in(left),
    decreases events.len(),
{
    if events.len() > 0 {
        lemma_event_uses_candidate(left, events[0]);
        law_race_ends(left_after(left, events[0]), events.skip(1));
    }
}

/// Groups are raced in the order of their priorities: whatever happens, the last
/// of the groups that are left are untouched, and only the first is changed.
pub proof fn law_race_keeps_priorities(left: Seq<Seq<Seq<char>>>, event: RaceEvent)
    requires
        left.len() > 0,
    ensures
        left_after(left, event) == left.skip(1) || left_after(left, event).skip(1) == left.skip(1),
{
    match event {
        RaceEvent::Lost(_) => {},
        RaceEvent::Refused(winner, _) => {
            let first = without(left[0], winner);
            if first.len() > 0 {
                assert(left.update(0, first).skip(1) =~= left.skip(1));
            }
        },
    }
}

/// The path has been found missing after `events`, or was before.
pub open spec fn missing_after(before: bool, events: Seq<RaceEvent>) -> bool
    decreases events.len(),
{
    if events.len() == 0 {
        before
    } else {
        missing_after(before, events.drop_last()) || says_missing(events.last())
    }
}

proof fn lemma_one_event(before: bool, event: RaceEvent)
    ensures
        missing_after(before, seq![event]) == (before || says_missing(event)),
{
    assert(seq![event].drop_last() =~= seq![]);
    assert(missing_after(before, seq![event].drop_last()) == before);
}

/// A race says that a path is not there exactly where one of its events did;
/// failures of the network alone never do.
pub proof fn law_not_found_needs_evidence(events: Seq<RaceEvent>)
    ensures
        missing_after(false, events) <==> exists|i: int|
            0 <= i < events.len() && says_missing(#[trigger] events[i]),
    decreases events.len(),
{
    if events.len() > 0 {
        let front = events.drop_last();
        law_not_found_needs_evidence(front);
        if missing_after(false, front) {
            let i = choose|i: int| 0 <= i < front.len() && says_missing(#[trigger] front[i]);
            assert(says_missing(events[i]));
        }
        if says_missing(events.last()) {
            assert(says_missing(events[events.len() - 1]));
        }
        if exists|i: int| 0 <= i < events.len() && says_missing(#[trigger] events[i]) {
            let i = choose|i: int| 0 <= i < events.len() && says_missing(#[trigger] events[i]);
            if i < front.len() {
                assert(says_missing(front[i]));
            }
        }
    }
}

/// A race comes to the path not being there exactly where a group had an upstream
/// that said so, or a winner was refused because it no longer has the narinfo or
/// because its narinfo is not let through. A group that could not be reached or was
/// too slow, and a winner that could not be reached again, leave it open.
pub proof fn law_networks_say_nothing_of_paths(events: Seq<RaceEvent>)
    ensures
        missing_after(false, events) <==> exists|i: int|
            0 <= i < events.len() && {
                ||| #[trigger] events[i] == RaceEvent::Lost(RaceGroupError::NotFound)
                ||| events[i] matches RaceEvent::Refused(_, refusal) && (refusal
                    == Refusal::NotFound || refusal == Refusal::Rejected)
            },
{
    law_not_found_needs_evidence(events);
    assert forall|i: int| 0 <= i < events.len() implies says_missing(#[trigger] events[i]) == {
        ||| events[i] == RaceEvent::Lost(RaceGroupError::NotFound)
        ||| events[i] matches RaceEvent::Refused(_, refusal) && (refusal == Refusal::NotFound
            || refusal == Refusal::Rejected)
    } by {}
    if missing_after(false, events) {
        let i = choose|i: int| 0 <= i < events.len() && says_missing(#[trigger] events[i]);
        assert(says_missing(events[i]));
    }
}

// ---------------------------------------------------------------------------
// Who is raced
// ---------------------------------------------------------------------------
proof fn lemma_without_filters(urls: Seq<Seq<char>>, url: Seq<char>)
    ensures
        without(urls, url) == urls.filter(|u: Seq<char>| u != url),
    decreases urls.len(),
{
    reveal(Seq::filter);
    if urls.len() > 0 {
        lemma_without_filters(urls.drop_last(), url);
    }
    assert(without(urls, url) =~= urls.filter(|u: Seq<char>| u != url));
}

proof fn lemma_without_members(urls: Seq<Seq<char>>, url: Seq<char>)
    ensures
        forall|u: Seq<char>| #[trigger]
            without(urls, url).contains(u) <==> urls.contains(u) && u != url,
    decreases urls.len(),
{
    if urls.len() > 0 {
        let front = urls.drop_last();
        let out = without(urls, url);
        let rest = without(front, url);
        lemma_without_members(front, url);
        assert forall|u: Seq<char>| #[trigger] out.contains(u) <==> urls.contains(u) && u
            != url by {
            assert(rest.contains(u) <==> front.contains(u) && u != url);
            if out.contains(u) {
                let k = choose|k: int| 0 <= k < out.len() && out[k] == u;
                if k < rest.len() {
                    assert(rest[k] == u);
                    let j = choose|j: int| 0 <= j < front.len() && front[j] == u;
                    assert(urls[j] == u);
                } else {
                    assert(urls[urls.len() - 1] == u);
                }
            }
            if urls.contains(u) && u != url {
                let j = choose|j: int| 0 <= j < urls.len() && urls[j] == u;
                if j < front.len() {
                    assert(front[j] == u);
                    let k = choose|k: int| 0 <= k < rest.len() && rest[k] == u;
                    assert(out[k] == u);
                } else {
                    assert(out[rest.len() as int] == u);
                }
            }
        }
    }
}

/// When a winner is refused, its group keeps all of its other members and only
/// those, in the order in which they stood, wherever the winner stood among them;
/// the groups behind it stay as they are. The group itself goes only where it had
/// no other member.
pub proof fn law_refusal_takes_out_the_winner_alone(
    left: Seq<Seq<Seq<char>>>,
    winner: Seq<char>,
    refusal: Refusal,
)
    requires
        left.len() > 0,
    ensures
        ({
            let after = left_after(left, RaceEvent::Refused(winner, refusal));
            if exists|u: Seq<char>| u != winner && #[trigger] left[0].contains(u) {
                &&& after.len() == left.len()
                &&& forall|u: Seq<char>| #[trigger]
                    after[0].contains(u) <==> left[0].contains(u) && u != winner
                &&& after[0] == left[0].filter(|u: Seq<char>| u != winner)
                &&& after.skip(1) == left.skip(1)
            } else {
                after == left.skip(1)
            }
        }),
{
    lemma_without_members(left[0], winner);
    lemma_without_filters(left[0], winner);
    let others = without(left[0], winner);
    if exists|u: Seq<char>| u != winner && #[trigger] left[0].contains(u) {
        let u = choose|u: Seq<char>| u != winner && #[trigger] left[0].contains(u);
        assert(others.contains(u));
        let after = left.update(0, others);
        assert(after.skip(1) =~= left.skip(1));
    } else if others.len() > 0 {
        assert(others.contains(others[0]));
    }
}

/// Where a group is lost, the others stay as they are, and the next one is up.
pub proof fn law_loss_takes_out_the_group_alone(
    left: Seq<Seq<Seq<char>>>,
    loss: RaceGroupError,
)
    requires
        left.len() > 0,
    ensures
        left == seq![left[0]] + left_after(left, RaceEvent::Lost(loss)),
{
    assert(left =~= seq![left[0]] + left.skip(1));
}

/// The places at which `priorities` has `priority`.
pub open spec fn at_priority(priorities: Seq<i32>, priority: i32) -> spec_fn(int) -> bool {
    |i: int| priorities[i] == priority
}

proof fn lemma_with_priority_chosen(urls: Seq<Seq<char>>, priorities: Seq<i32>, priority: i32)
    requires
        urls.len() == priorities.len(),
    ensures
        with_priority(urls, priorities, priority) == chosen(
            urls,
            at_priority(priorities, priority),
        ),
    decreases urls.len(),
{
    let keep = at_priority(priorities, priority);
    if urls.len() == 0 {
        reveal(Seq::filter);
        assert(chosen(urls, keep) =~= seq![]);
    } else {
        let front = priorities.drop_last();
        lemma_with_priority_chosen(urls.drop_last(), front, priority);
        lemma_chosen_last(urls, keep);
        lemma_chosen_same(urls.drop_last(), keep, at_priority(front, priority));
    }
}

/// The groups are raced from the lowest priority number to the highest; each
/// holds the candidates of one priority, all of them, in the order in which they
/// were given, and every candidate is in the group of its priority.
pub proof fn law_groups_are_by_priority(
    groups: Seq<Seq<Seq<char>>>,
    levels: Seq<i32>,
    urls: Seq<Seq<char>>,
    priorities: Seq<i32>,
)
    requires
        urls.len() == priorities.len(),
        are_levels(levels, priorities),
        grouped(groups, levels, urls, priorities),
    ensures
        groups.len() == levels.len(),
        forall|k: int, l: int| 0 <= k < l < groups.len() ==> levels[k] < levels[l],
        forall|k: int|
            0 <= k < groups.len() ==> #[trigger] groups[k] == chosen(
                urls,
                at_priority(priorities, levels[k]),
            ),
        forall|i: int| 0 <= i < urls.len() ==> levels.contains(#[trigger] priorities[i]),
        forall|i: int, k: int|
            0 <= i < urls.len() && 0 <= k < groups.len() && priorities[i] == levels[k]
                ==> #[trigger] groups[k].contains(#[trigger] urls[i]),
        forall|k: int, u: Seq<char>|
            0 <= k < groups.len() && #[trigger] groups[k].contains(u) ==> exists|i: int|
                0 <= i < urls.len() && #[trigger] urls[i] == u && priorities[i] == levels[k],
{
    assert forall|k: int| 0 <= k < groups.len() implies #[trigger] groups[k] == chosen(
        urls,
        at_priority(priorities, levels[k]),
    ) by {
        lemma_with_priority_chosen(urls, priorities, levels[k]);
    }
    assert forall|i: int| 0 <= i < urls.len() implies levels.contains(#[trigger] priorities[i]) by {
        assert(priorities.contains(priorities[i]));
    }
    assert forall|i: int, k: int|
        0 <= i < urls.len() && 0 <= k < groups.len() && priorities[i] == levels[k] implies
        #[trigger] groups[k].contains(#[trigger] urls[i]) by {
        let keep = at_priority(priorities, levels[k]);
        lemma_chosen_members(urls, keep);
        assert(keep(i));
        assert(groups[k] == chosen(urls, keep));
    }
    assert forall|k: int, u: Seq<char>|
        0 <= k < groups.len() && #[trigger] groups[k].contains(u) implies exists|i: int|
        0 <= i < urls.len() && #[trigger] urls[i] == u && priorities[i] == levels[k] by {
        let keep = at_priority(priorities, levels[k]);
        lemma_chosen_members(urls, keep);
        assert(groups[k] == chosen(urls, keep));
        let i = choose|i: int| 0 <= i < urls.len() && #[trigger] urls[i] == u && keep(i);
        assert(urls[i] == u && priorities[i] == levels[k]);
    }
}

} // verus!
