//! The order in which upstreams are asked: by latency, with priorities among
//! those of like latency, and those that are down at the end.

use vstd::prelude::*;

use crate::double::Double;
use crate::health::{Prober, Status, UpstreamHealth};

verus! {

/// The latency is not known: nothing has answered yet.
pub open spec fn unmeasured(health: UpstreamHealth) -> bool {
    health.ema_latency.same_spec(Double { bits: 0 })
}

/// `a` is asked before `b`, where `close` says whether their latencies are within
/// a tenth of that of `b`. What is down comes after what is not; among upstreams
/// of like latency priority decides; what is unmeasured comes after what is
/// measured; and the faster comes first.
pub open spec fn precedes(a: UpstreamHealth, b: UpstreamHealth, close: bool) -> bool {
    if (a.status == Status::Down) != (b.status == Status::Down) {
        b.status == Status::Down
    } else if (Double { bits: 0 }).lt_spec(b.ema_latency) && close && a.priority != b.priority {
        a.priority < b.priority
    } else if unmeasured(a) != unmeasured(b) {
        unmeasured(b)
    } else {
        a.ema_latency.lt_spec(b.ema_latency)
    }
}

/// Whether `a` is asked before `b`.
pub fn asked_before(a: &UpstreamHealth, b: &UpstreamHealth, close: bool) -> (yes: bool)
    ensures
        yes == precedes(*a, *b, close),
{
    let zero = Double::zero();
    let a_down: bool = a.status == Status::Down;
    let b_down: bool = b.status == Status::Down;
    if a_down != b_down {
        return b_down;
    }
    if close && a.priority != b.priority && zero.less_than(&b.ema_latency) {
        return a.priority < b.priority;
    }
    let a_unmeasured: bool = a.ema_latency.same_as(&zero);
    let b_unmeasured: bool = b.ema_latency.same_as(&zero);
    if a_unmeasured != b_unmeasured {
        return b_unmeasured;
    }
    a.ema_latency.less_than(&b.ema_latency)
}

/// `x` put into `order` in front of all that it precedes at its end.
pub open spec fn inserted(order: Seq<int>, x: int, less: spec_fn(int, int) -> bool) -> Seq<int>
    decreases order.len(),
{
    if order.len() > 0 && less(x, order.last()) {
        inserted(order.drop_last(), x, less).push(order.last())
    } else {
        order.push(x)
    }
}

/// The numbers below `n`, each put in its place in turn.
pub open spec fn ordered(n: nat, less: spec_fn(int, int) -> bool) -> Seq<int>
    decreases n,
{
    if n == 0 {
        seq![]
    } else {
        inserted(ordered((n - 1) as nat, less), n - 1, less)
    }
}

/// The relation between the places of `list` that `precedes` gives, where
/// `close` says which latencies are close.
pub open spec fn place_less(list: Seq<UpstreamHealth>, close: Seq<Vec<bool>>) -> spec_fn(
    int,
    int,
) -> bool {
    |i: int, j: int| precedes(list[i], list[j], close[i]@[j])
}

/// `close` says of every two places of `list` whether their latencies are close.
pub open spec fn covers(close: Seq<Vec<bool>>, n: nat) -> bool {
    close.len() == n && forall|i: int| 0 <= i < n ==> (#[trigger] close[i])@.len() == n
}

/// The places below `n`, as numbers.
spec fn as_ints(order: Seq<usize>) -> Seq<int> {
    Seq::new(order.len(), |i: int| order[i] as int)
}

proof fn lemma_inserted_members(order: Seq<int>, x: int, less: spec_fn(int, int) -> bool)
    ensures
        inserted(order, x, less).len() == order.len() + 1,
        forall|y: int| #[trigger]
            inserted(order, x, less).contains(y) <==> order.contains(y) || y == x,
        order.no_duplicates() && !order.contains(x) ==> inserted(order, x, less).no_duplicates(),
    decreases order.len(),
{
    let out = inserted(order, x, less);
    if order.len() > 0 && less(x, order.last()) {
        let front = order.drop_last();
        let rest = inserted(front, x, less);
        lemma_inserted_members(front, x, less);
        assert(order =~= front.push(order.last()));
        assert forall|y: int| #[trigger] out.contains(y) <==> order.contains(y) || y == x by {
            if out.contains(y) {
                let i = choose|i: int| 0 <= i < out.len() && out[i] == y;
                if i < rest.len() {
                    assert(rest[i] == y);
                    assert(rest.contains(y));
                    if front.contains(y) {
                        let j = choose|j: int| 0 <= j < front.len() && front[j] == y;
                        assert(order[j] == y);
                    }
                } else {
                    assert(order[order.len() - 1] == y);
                }
            }
            if order.contains(y) {
                let i = choose|i: int| 0 <= i < order.len() && order[i] == y;
                if i < front.len() {
                    assert(front[i] == y);
                    assert(front.contains(y));
                    assert(rest.contains(y));
                    let j = choose|j: int| 0 <= j < rest.len() && rest[j] == y;
                    assert(out[j] == y);
                } else {
                    assert(out[rest.len() as int] == y);
                }
            }
            if y == x {
                assert(rest.contains(x));
                let j = choose|j: int| 0 <= j < rest.len() && rest[j] == x;
                assert(out[j] == x);
            }
        }
        if order.no_duplicates() && !order.contains(x) {
            assert(front.no_duplicates());
            assert(!front.contains(x)) by {
                if front.contains(x) {
                    let j = choose|j: int| 0 <= j < front.len() && front[j] == x;
                    assert(order[j] == x);
                }
            }
            assert(!rest.contains(order.last())) by {
                if rest.contains(order.last()) {
                    if front.contains(order.last()) {
                        let j = choose|j: int| 0 <= j < front.len() && front[j] == order.last();
                        assert(order[j] == order[order.len() - 1]);
                    }
                    assert(order[order.len() - 1] == order.last());
                }
            }
            assert forall|i: int, j: int|
                0 <= i < out.len() && 0 <= j < out.len() && i != j implies out[i] != out[j] by {
                if i < rest.len() && j < rest.len() {
                    assert(rest[i] != rest[j]);
                } else if i < rest.len() {
                    assert(rest.contains(rest[i]));
                } else if j < rest.len() {
                    assert(rest.contains(rest[j]));
                }
            }
        }
    } else {
        assert(out =~= order.push(x));
        assert forall|y: int| #[trigger] out.contains(y) <==> order.contains(y) || y == x by {
            if order.contains(y) {
                let i = choose|i: int| 0 <= i < order.len() && order[i] == y;
                assert(out[i] == y);
            }
            if y == x {
                assert(out[order.len() as int] == x);
            }
            if out.contains(y) {
                let i = choose|i: int| 0 <= i < out.len() && out[i] == y;
                if i < order.len() {
                    assert(order[i] == y);
                }
            }
        }
        if order.no_duplicates() && !order.contains(x) {
            assert forall|i: int, j: int|
                0 <= i < out.len() && 0 <= j < out.len() && i != j implies out[i] != out[j] by {
                if i < order.len() && j == order.len() {
                    assert(order.contains(order[i]));
                } else if j < order.len() && i == order.len() {
                    assert(order.contains(order[j]));
                }
            }
        }
    }
}

/// Nothing is lost and nothing comes twice: the order holds each number below `n`
/// exactly once.
pub proof fn law_order_is_complete(n: nat, less: spec_fn(int, int) -> bool)
    ensures
        ordered(n, less).len() == n,
        ordered(n, less).no_duplicates(),
        forall|y: int| #[trigger] ordered(n, less).contains(y) <==> 0 <= y < n,
    decreases n,
{
    if n > 0 {
        law_order_is_complete((n - 1) as nat, less);
        lemma_inserted_members(ordered((n - 1) as nat, less), n - 1, less);
    }
}

proof fn lemma_inserted_last(
    list: Seq<UpstreamHealth>,
    close: Seq<Vec<bool>>,
    order: Seq<int>,
    x: int,
)
    requires
        forall|k: int, m: int|
            0 <= k < m < order.len() && list[#[trigger] order[k]].status == Status::Down
                ==> list[#[trigger] order[m]].status == Status::Down,
    ensures
        ({
            let out = inserted(order, x, place_less(list, close));
            forall|k: int, m: int|
                0 <= k < m < out.len() && list[#[trigger] out[k]].status == Status::Down
                    ==> list[#[trigger] out[m]].status == Status::Down
        }),
    decreases order.len(),
{
    let less = place_less(list, close);
    let out = inserted(order, x, less);
    if order.len() > 0 && less(x, order.last()) {
        let front = order.drop_last();
        let rest = inserted(front, x, less);
        lemma_inserted_last(list, close, front, x);
        lemma_inserted_members(front, x, less);
        assert forall|k: int, m: int|
            0 <= k < m < out.len() && list[#[trigger] out[k]].status
                == Status::Down implies list[#[trigger] out[m]].status == Status::Down by {
            if m < rest.len() {
                assert(out[k] == rest[k] && out[m] == rest[m]);
            } else {
                assert(out[m] == order.last());
                assert(rest.contains(rest[k]));
                if rest[k] == x {
                    assert(list[x].status == Status::Down);
                } else {
                    assert(front.contains(rest[k]));
                    let j = choose|j: int| 0 <= j < front.len() && front[j] == rest[k];
                    assert(order[j] == rest[k]);
                    assert(order[order.len() - 1] == order.last());
                }
            }
        }
    } else {
        assert forall|k: int, m: int|
            0 <= k < m < out.len() && list[#[trigger] out[k]].status
                == Status::Down implies list[#[trigger] out[m]].status == Status::Down by {
            if m < order.len() {
                assert(out[k] == order[k] && out[m] == order[m]);
            } else {
                assert(out[m] == x);
                assert(out[k] == order[k]);
                if k < order.len() - 1 {
                    assert(list[order[order.len() - 1]].status == Status::Down);
                }
                assert(!less(x, order.last()));
            }
        }
    }
}

/// What is down is asked last: nothing that is not down comes behind it.
pub proof fn law_down_goes_last(list: Seq<UpstreamHealth>, close: Seq<Vec<bool>>, n: nat)
    ensures
        ({
            let out = ordered(n, place_less(list, close));
            forall|k: int, m: int|
                0 <= k < m < out.len() && list[#[trigger] out[k]].status == Status::Down
                    ==> list[#[trigger] out[m]].status == Status::Down
        }),
    decreases n,
{
    if n > 0 {
        law_down_goes_last(list, close, (n - 1) as nat);
        lemma_inserted_last(
            list,
            close,
            ordered((n - 1) as nat, place_less(list, close)),
            n - 1,
        );
    }
}

/// `less` orders the numbers below `n`: what is less is not greater, and what
/// lies between two numbers that are in order is in order with one of them.
pub open spec fn orders(less: spec_fn(int, int) -> bool, n: nat) -> bool {
    &&& forall|i: int, j: int|
        0 <= i < n && 0 <= j < n && #[trigger] less(i, j) ==> !less(j, i)
    &&& forall|i: int, j: int, k: int|
        0 <= i < n && 0 <= j < n && 0 <= k < n && #[trigger] less(i, k) ==> #[trigger] less(i, j)
            || less(j, k)
}

proof fn lemma_inserted_sorted(order: Seq<int>, x: int, less: spec_fn(int, int) -> bool, n: nat)
    requires
        orders(less, n),
        0 <= x < n,
        forall|k: int| 0 <= k < order.len() ==> 0 <= #[trigger] order[k] < n,
        forall|k: int, m: int|
            0 <= k < m < order.len() ==> !less(#[trigger] order[m], #[trigger] order[k]),
    ensures
        ({
            let out = inserted(order, x, less);
            forall|k: int, m: int|
                0 <= k < m < out.len() ==> !less(#[trigger] out[m], #[trigger] out[k])
        }),
    decreases order.len(),
{
    let out = inserted(order, x, less);
    if order.len() > 0 && less(x, order.last()) {
        let front = order.drop_last();
        let rest = inserted(front, x, less);
        lemma_inserted_sorted(front, x, less, n);
        lemma_inserted_members(front, x, less);
        assert forall|k: int, m: int| 0 <= k < m < out.len() implies !less(
            #[trigger] out[m],
            #[trigger] out[k],
        ) by {
            if m < rest.len() {
                assert(out[k] == rest[k] && out[m] == rest[m]);
            } else {
                assert(out[m] == order.last());
                assert(rest.contains(rest[k]));
                if rest[k] != x {
                    assert(front.contains(rest[k]));
                    let j = choose|j: int| 0 <= j < front.len() && front[j] == rest[k];
                    assert(order[j] == rest[k]);
                    assert(!less(order[order.len() - 1], order[j]));
                }
            }
        }
    } else {
        assert forall|k: int, m: int| 0 <= k < m < out.len() implies !less(
            #[trigger] out[m],
            #[trigger] out[k],
        ) by {
            if m < order.len() {
                assert(out[k] == order[k] && out[m] == order[m]);
            } else {
                let last = order[order.len() - 1];
                assert(out[m] == x && out[k] == order[k]);
                if less(x, order[k]) && k < order.len() - 1 {
                    assert(less(x, last) || less(last, order[k]));
                }
            }
        }
    }
}

proof fn lemma_ordered_sorted(m: nat, less: spec_fn(int, int) -> bool, n: nat)
    requires
        orders(less, n),
        m <= n,
    ensures
        forall|k: int| 0 <= k < ordered(m, less).len() ==> 0 <= #[trigger] ordered(m, less)[k] < n,
        forall|k: int, l: int|
            0 <= k < l < ordered(m, less).len() ==> !less(
                #[trigger] ordered(m, less)[l],
                #[trigger] ordered(m, less)[k],
            ),
    decreases m,
{
    if m > 0 {
        lemma_ordered_sorted((m - 1) as nat, less, n);
        lemma_inserted_sorted(ordered((m - 1) as nat, less), m - 1, less, n);
        law_order_is_complete(m, less);
        assert forall|k: int| 0 <= k < ordered(m, less).len() implies 0 <= #[trigger] ordered(
            m,
            less,
        )[k] < n by {
            assert(ordered(m, less).contains(ordered(m, less)[k]));
        }
    }
}

/// Where no two latencies are close and all are numbers, the order is by latency:
/// of two upstreams the one behind never precedes the one before.
pub proof fn law_order_follows_latency(list: Seq<UpstreamHealth>, close: Seq<Vec<bool>>, n: nat)
    requires
        n <= list.len(),
        covers(close, n),
        forall|i: int, j: int| 0 <= i < n && 0 <= j < n ==> !(#[trigger] close[i]@[j]),
        forall|i: int| 0 <= i < n ==> !(#[trigger] list[i]).ema_latency.is_nan(),
    ensures
        ({
            let out = ordered(n, place_less(list, close));
            forall|k: int, l: int|
                0 <= k < l < n ==> !precedes(
                    list[#[trigger] out[l]],
                    list[#[trigger] out[k]],
                    false,
                )
        }),
{
    let less = place_less(list, close);
    assert(orders(less, n)) by {
        assert forall|i: int, j: int|
            0 <= i < n && 0 <= j < n && #[trigger] less(i, j) implies !less(j, i) by {
            assert(!close[i]@[j] && !close[j]@[i]);
            assert(!list[i].ema_latency.is_nan() && !list[j].ema_latency.is_nan());
        }
        assert forall|i: int, j: int, k: int|
            0 <= i < n && 0 <= j < n && 0 <= k < n && #[trigger] less(i, k) implies
            #[trigger] less(i, j) || less(j, k) by {
            assert(!close[i]@[j] && !close[j]@[k] && !close[i]@[k]);
            assert(!list[i].ema_latency.is_nan() && !list[j].ema_latency.is_nan()
                && !list[k].ema_latency.is_nan());
        }
    }
    lemma_ordered_sorted(n, less, n);
    law_order_is_complete(n, less);
    let out = ordered(n, less);
    assert forall|k: int, l: int| 0 <= k < l < n implies !precedes(
        list[#[trigger] out[l]],
        list[#[trigger] out[k]],
        false,
    ) by {
        assert(!less(out[l], out[k]));
        assert(!close[out[l]]@[out[k]]);
    }
}

/// The places of `list` in the order in which its upstreams are asked.
pub fn latency_order(list: &Vec<UpstreamHealth>, close: &Vec<Vec<bool>>) -> (out: Vec<usize>)
    requires
        covers(close@, list@.len()),
    ensures
        out@.len() == list@.len(),
        forall|k: int|
            0 <= k < out@.len() ==> (#[trigger] out@[k]) as int == ordered(
                list@.len(),
                place_less(list@, close@),
            )[k],
{
    let ghost less = place_less(list@, close@);
    let n: usize = list.len();
    let mut out: Vec<usize> = Vec::new();
    let mut i: usize = 0;
    assert(as_ints(out@) =~= seq![]);
    while i < n
        invariant
            i <= n,
            n == list@.len(),
            covers(close@, list@.len()),
            less == place_less(list@, close@),
            out@.len() == i,
            as_ints(out@) == ordered(i as nat, less),
            forall|k: int| 0 <= k < i ==> (#[trigger] out@[k]) < i,
        decreases n - i,
    {
        let ghost before = as_ints(out@);
        let ghost kept = out@;
        let mut at: usize = i;
        assert(before.take(i as int) =~= before);
        assert(before.skip(i as int) =~= seq![]);
        assert(inserted(before, i as int, less) + seq![] =~= inserted(before, i as int, less));
        while at > 0 && asked_before(&list[i], &list[out[at - 1]], close[i][out[at - 1]])
            invariant
                at <= i < n,
                n == list@.len(),
                covers(close@, list@.len()),
                less == place_less(list@, close@),
                out@ == kept,
                out@.len() == i,
                before == as_ints(out@),
                forall|k: int| 0 <= k < i ==> (#[trigger] out@[k]) < i,
                inserted(before, i as int, less) == inserted(
                    before.take(at as int),
                    i as int,
                    less,
                ) + before.skip(at as int),
            decreases at,
        {
            let ghost front = before.take(at as int);
            assert(front.last() == out@[at - 1] as int);
            assert(close@[i as int]@.len() == n);
            assert(less(i as int, front.last()));
            assert(front.drop_last() =~= before.take(at - 1));
            assert(inserted(front, i as int, less) + before.skip(at as int) =~= inserted(
                front.drop_last(),
                i as int,
                less,
            ) + before.skip(at - 1));
            at = at - 1;
        }
        proof {
            let front = before.take(at as int);
            if at > 0 {
                assert(front.last() == out@[at - 1] as int);
            }
            assert(inserted(front, i as int, less) =~= front.push(i as int));
        }
        out.insert(at, i);
        assert(as_ints(out@) =~= before.take(at as int).push(i as int) + before.skip(at as int));
        i = i + 1;
    }
    assert forall|k: int| 0 <= k < out@.len() implies (#[trigger] out@[k]) as int == ordered(
        list@.len(),
        less,
    )[k] by {
        assert(as_ints(out@)[k] == out@[k] as int);
    }
    out
}

/// `list` in the order in which its upstreams are asked.
pub open spec fn in_order(list: Seq<UpstreamHealth>, close: Seq<Vec<bool>>) -> Seq<UpstreamHealth> {
    let order = ordered(list.len(), place_less(list, close));
    Seq::new(order.len(), |k: int| list[order[k]])
}

/// `list` in the order in which its upstreams are asked.
pub fn sort_by_latency(list: &Vec<UpstreamHealth>, close: &Vec<Vec<bool>>) -> (out: Vec<
    UpstreamHealth,
>)
    requires
        covers(close@, list@.len()),
    ensures
        out@ == in_order(list@, close@),
{
    let order: Vec<usize> = latency_order(list, close);
    let ghost less = place_less(list@, close@);
    proof {
        law_order_is_complete(list@.len(), less);
    }
    let mut out: Vec<UpstreamHealth> = Vec::new();
    let mut k: usize = 0;
    let n: usize = order.len();
    while k < n
        invariant
            k <= n,
            n == order@.len(),
            n == list@.len(),
            less == place_less(list@, close@),
            forall|k: int|
                0 <= k < order@.len() ==> (#[trigger] order@[k]) as int == ordered(
                    list@.len(),
                    less,
                )[k],
            forall|y: int| #[trigger] ordered(list@.len(), less).contains(y) <==> 0 <= y < n,
            ordered(list@.len(), less).len() == n,
            out@ == in_order(list@, close@).take(k as int),
        decreases n - k,
    {
        assert(ordered(list@.len(), less).contains(ordered(list@.len(), less)[k as int]));
        out.push(list[order[k]].clone());
        assert(in_order(list@, close@)[k as int] == list@[order@[k as int] as int]);
        assert(in_order(list@, close@).take(k + 1) =~= in_order(list@, close@).take(k as int).push(
            in_order(list@, close@)[k as int],
        ));
        k = k + 1;
    }
    assert(in_order(list@, close@).take(n as int) =~= in_order(list@, close@));
    out
}

impl Prober {
    /// All that is known, in the order in which the upstreams are asked; `close`
    /// says of every two places of `all_health` whether their latencies are
    /// within a tenth of that of the second.
    pub fn sorted_by_latency(&self, close: &Vec<Vec<bool>>) -> (out: Vec<UpstreamHealth>)
        requires
            self.wf(),
            covers(close@, self.list().len()),
        ensures
            out@ == in_order(self.list(), close@),
    {
        sort_by_latency(&self.all_health(), close)
    }
}

// ---------------------------------------------------------------------------
// What the order says of the latencies
// ---------------------------------------------------------------------------
/// No latency has been measured: it is zero.
pub open spec fn has_no_latency(health: UpstreamHealth) -> bool {
    health.ema_latency.bits == 0
}

/// A latency has been measured: its bits are those of a number above zero.
pub open spec fn has_latency(health: UpstreamHealth) -> bool {
    0 < health.ema_latency.bits <= 0x7FF0_0000_0000_0000
}

/// The latency of `a` is at most that of `b`. Of two numbers above zero the
/// greater has the greater bits.
pub open spec fn at_most_as_slow(a: UpstreamHealth, b: UpstreamHealth) -> bool {
    a.ema_latency.bits <= b.ema_latency.bits
}

/// Where no two latencies are close, upstreams that are not down are asked by
/// latency: none of which no latency is known stands before one of which it is,
/// and of two of which it is the faster stands first. Nothing that is down stands
/// before what is not.
pub proof fn law_faster_upstreams_are_asked_first(
    list: Seq<UpstreamHealth>,
    close: Seq<Vec<bool>>,
)
    requires
        covers(close, list.len()),
        forall|i: int, j: int|
            0 <= i < list.len() && 0 <= j < list.len() ==> !(#[trigger] close[i]@[j]),
        forall|i: int|
            0 <= i < list.len() ==> has_no_latency(#[trigger] list[i]) || has_latency(list[i]),
    ensures
        ({
            let out = in_order(list, close);
            &&& out.to_multiset() == list.to_multiset()
            &&& forall|k: int, l: int|
                #![trigger out[k], out[l]]
                0 <= k < l < out.len() ==> {
                    &&& out[k].status == Status::Down ==> out[l].status == Status::Down
                    &&& out[k].status != Status::Down && out[l].status != Status::Down ==> {
                        &&& !(has_no_latency(out[k]) && has_latency(out[l]))
                        &&& has_latency(out[k]) && has_latency(out[l]) ==> at_most_as_slow(
                            out[k],
                            out[l],
                        )
                    }
                }
        }),
{
    let n = list.len();
    let order = ordered(n, place_less(list, close));
    let out = in_order(list, close);
    assert forall|i: int| 0 <= i < n implies !(#[trigger] list[i]).ema_latency.is_nan() by {
        assert(has_no_latency(list[i]) || has_latency(list[i]));
    }
    law_order_follows_latency(list, close, n);
    law_order_is_complete(n, place_less(list, close));
    law_down_goes_last(list, close, n);
    lemma_order_keeps_all(list, order);
    assert forall|k: int, l: int|
        #![trigger out[k], out[l]]
        0 <= k < l < out.len() implies {
            &&& out[k].status == Status::Down ==> out[l].status == Status::Down
            &&& out[k].status != Status::Down && out[l].status != Status::Down ==> {
                &&& !(has_no_latency(out[k]) && has_latency(out[l]))
                &&& has_latency(out[k]) && has_latency(out[l]) ==> at_most_as_slow(out[k], out[l])
            }
        } by {
        assert(!precedes(list[order[l]], list[order[k]], false));
    }
}

proof fn lemma_order_keeps_all(list: Seq<UpstreamHealth>, order: Seq<int>)
    requires
        order.len() == list.len(),
        order.no_duplicates(),
        forall|y: int| #[trigger] order.contains(y) <==> 0 <= y < list.len(),
    ensures
        Seq::new(order.len(), |k: int| list[order[k]]).to_multiset() == list.to_multiset(),
    decreases list.len(),
{
    let out = Seq::new(order.len(), |k: int| list[order[k]]);
    if list.len() == 0 {
        assert(out =~= list);
    } else {
        let n = list.len();
        assert(order.contains(n - 1));
        let at = choose|at: int| 0 <= at < order.len() && order[at] == n - 1;
        let front = list.drop_last();
        let rest = order.remove(at);
        assert forall|y: int| #[trigger] rest.contains(y) <==> 0 <= y < front.len() by {
            if rest.contains(y) {
                let k = choose|k: int| 0 <= k < rest.len() && rest[k] == y;
                let j = if k < at { k } else { k + 1 };
                assert(order[j] == y);
                assert(order.contains(y));
                assert(order[j] != order[at]);
            }
            if 0 <= y < front.len() {
                assert(order.contains(y));
                let j = choose|j: int| 0 <= j < order.len() && order[j] == y;
                assert(rest[if j < at { j } else { j - 1 }] == y);
            }
        }
        assert forall|i: int, j: int|
            0 <= i < rest.len() && 0 <= j < rest.len() && i != j implies rest[i] != rest[j] by {
            let a = if i < at { i } else { i + 1 };
            let b = if j < at { j } else { j + 1 };
            assert(order[a] != order[b]);
        }
        lemma_order_keeps_all(front, rest);
        let kept = Seq::new(rest.len(), |k: int| front[rest[k]]);
        assert forall|k: int| 0 <= k < rest.len() implies #[trigger] kept[k] == out.remove(
            at,
        )[k] by {
            assert(rest.contains(rest[k]));
        }
        assert(kept =~= out.remove(at));
        assert(out =~= out.remove(at).insert(at, list.last()));
        broadcast use vstd::seq_lib::group_to_multiset_ensures;

        assert(list =~= front.push(list.last()));
        assert(out.remove(at).to_multiset() =~= out.to_multiset().remove(out[at]));
        assert(out.to_multiset().count(out[at]) > 0) by {
            assert(out.contains(out[at]));
        }
        assert(out.to_multiset() =~= front.to_multiset().insert(list.last()));
        assert(list.to_multiset() =~= front.to_multiset().insert(list.last()));
    }
}

/// Of two numbers that stand side by side the first is less, or neither is and
/// the first is the smaller.
pub open spec fn in_turn(less: spec_fn(int, int) -> bool, a: int, b: int) -> bool {
    less(a, b) || (!less(b, a) && a < b)
}

proof fn lemma_inserted_neighbours(order: Seq<int>, x: int, less: spec_fn(int, int) -> bool)
    requires
        forall|k: int| 0 <= k < order.len() ==> #[trigger] order[k] < x,
        forall|k: int|
            0 <= k < order.len() - 1 ==> in_turn(less, #[trigger] order[k], order[k + 1]),
    ensures
        ({
            let out = inserted(order, x, less);
            forall|k: int| 0 <= k < out.len() - 1 ==> in_turn(less, #[trigger] out[k], out[k + 1])
        }),
        inserted(order, x, less).last() == x || (order.len() > 0 && inserted(order, x, less).last()
            == order.last()),
    decreases order.len(),
{
    let out = inserted(order, x, less);
    lemma_inserted_members(order, x, less);
    if order.len() > 0 && less(x, order.last()) {
        let front = order.drop_last();
        let rest = inserted(front, x, less);
        assert forall|k: int| 0 <= k < front.len() - 1 implies in_turn(
            less,
            #[trigger] front[k],
            front[k + 1],
        ) by {
            assert(order[k] == front[k] && order[k + 1] == front[k + 1]);
        }
        lemma_inserted_neighbours(front, x, less);
        lemma_inserted_members(front, x, less);
        assert forall|k: int| 0 <= k < out.len() - 1 implies in_turn(
            less,
            #[trigger] out[k],
            out[k + 1],
        ) by {
            if k < rest.len() - 1 {
                assert(out[k] == rest[k] && out[k + 1] == rest[k + 1]);
            } else {
                assert(out[k] == rest.last() && out[k + 1] == order.last());
                if rest.last() != x {
                    assert(order[order.len() - 2] == front.last());
                    assert(in_turn(less, order[order.len() - 2], order[order.len() - 2 + 1]));
                }
            }
        }
    } else {
        assert forall|k: int| 0 <= k < out.len() - 1 implies in_turn(
            less,
            #[trigger] out[k],
            out[k + 1],
        ) by {
            if k < order.len() - 1 {
                assert(out[k] == order[k] && out[k + 1] == order[k + 1]);
            } else {
                assert(out[k] == order[k] && out[k + 1] == x);
            }
        }
    }
}

proof fn lemma_ordered_neighbours(n: nat, less: spec_fn(int, int) -> bool)
    ensures
        ({
            let out = ordered(n, less);
            forall|k: int| 0 <= k < out.len() - 1 ==> in_turn(less, #[trigger] out[k], out[k + 1])
        }),
    decreases n,
{
    if n > 0 {
        let m: nat = (n - 1) as nat;
        let before = ordered(m, less);
        lemma_ordered_neighbours(m, less);
        law_order_is_complete(m, less);
        assert forall|k: int| 0 <= k < before.len() implies #[trigger] before[k] < m by {
            assert(before.contains(before[k]));
        }
        lemma_inserted_neighbours(before, n - 1, less);
    }
}

/// Of two upstreams that are asked one after the other, both down or neither: where
/// their latencies are close and their priorities differ, the one with the lower
/// number stands first; where they are not close or the priorities are the same,
/// the faster does, and none of which no latency is known stands first before one
/// of which it is. Where nothing tells the two apart they stay in the order in
/// which they were given.
pub proof fn law_close_latencies_are_asked_by_priority(
    list: Seq<UpstreamHealth>,
    close: Seq<Vec<bool>>,
    k: int,
)
    requires
        covers(close, list.len()),
        0 <= k < list.len() - 1,
    ensures
        ({
            let i = ordered(list.len(), place_less(list, close))[k];
            let j = ordered(list.len(), place_less(list, close))[k + 1];
            let a = list[i];
            let b = list[j];
            &&& 0 <= i < list.len() && 0 <= j < list.len()
            &&& in_order(list, close)[k] == a && in_order(list, close)[k + 1] == b
            &&& a.status == Status::Down ==> b.status == Status::Down
            &&& a.status == Status::Down || b.status != Status::Down ==> {
                &&& has_latency(a) && has_latency(b) && close[i]@[j] && close[j]@[i] && a.priority
                    != b.priority ==> a.priority < b.priority
                &&& has_latency(a) && has_latency(b) && (a.priority == b.priority || (!close[i]@[j]
                    && !close[j]@[i])) ==> at_most_as_slow(a, b)
                &&& a.priority == b.priority || (!close[i]@[j] && !close[j]@[i]) ==> !(
                has_no_latency(a) && has_latency(b))
            }
            &&& a.status == b.status && a.priority == b.priority && a.ema_latency == b.ema_latency
                ==> i < j
        }),
{
    let less = place_less(list, close);
    let order = ordered(list.len(), less);
    lemma_ordered_neighbours(list.len(), less);
    law_order_is_complete(list.len(), less);
    assert(order.contains(order[k]) && order.contains(order[k + 1]));
    assert(in_turn(less, order[k], order[k + 1]));
}

} // verus!
