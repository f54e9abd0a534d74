//! Selections: what is left of a list when only some of its places are kept, and
//! how the places that are kept stand to each other.

use vstd::prelude::*;

verus! {

/// The places of a list of `n` elements, in order.
pub open spec fn places(n: nat) -> Seq<int> {
    Seq::new(n, |i: int| i)
}

/// The elements of `list` at the places that `keep` keeps, in order.
pub open spec fn chosen<A>(list: Seq<A>, keep: spec_fn(int) -> bool) -> Seq<A> {
    places(list.len()).filter(keep).map_values(|i: int| list[i])
}

/// The places that are kept rise, and are those that `keep` keeps.
pub proof fn lemma_kept_places(n: nat, keep: spec_fn(int) -> bool)
    ensures
        forall|k: int|
            0 <= k < places(n).filter(keep).len() ==> 0 <= #[trigger] places(n).filter(keep)[k] < n
                && keep(places(n).filter(keep)[k]),
        forall|k: int, l: int|
            0 <= k < l < places(n).filter(keep).len() ==> #[trigger] places(n).filter(keep)[k]
                < #[trigger] places(n).filter(keep)[l],
        forall|i: int| #[trigger] places(n).filter(keep).contains(i) <==> 0 <= i < n && keep(i),
    decreases n,
{
    reveal(Seq::filter);
    let all = places(n);
    let out = all.filter(keep);
    if n == 0 {
        assert(out =~= seq![]);
    } else {
        let m: nat = (n - 1) as nat;
        let rest = places(m).filter(keep);
        assert(all.drop_last() =~= places(m));
        lemma_kept_places(m, keep);
        assert(out == if keep(n - 1) {
            rest.push(n - 1)
        } else {
            rest
        });
        assert forall|i: int| #[trigger] out.contains(i) <==> 0 <= i < n && keep(i) by {
            if out.contains(i) {
                let k = choose|k: int| 0 <= k < out.len() && out[k] == i;
                if k < rest.len() {
                    assert(rest[k] == i);
                }
            }
            if 0 <= i < n && keep(i) {
                if i < m {
                    assert(rest.contains(i));
                    let k = choose|k: int| 0 <= k < rest.len() && rest[k] == i;
                    assert(out[k] == i);
                } else {
                    assert(out[rest.len() as int] == i);
                }
            }
        }
        assert forall|k: int, l: int| 0 <= k < l < out.len() implies #[trigger] out[k]
            < #[trigger] out[l] by {
            assert(out[k] == rest[k]);
            if l < rest.len() {
                assert(out[l] == rest[l]);
            }
        }
    }
}

/// What is chosen of a list, by its last element and the rest.
pub proof fn lemma_chosen_last<A>(list: Seq<A>, keep: spec_fn(int) -> bool)
    requires
        list.len() > 0,
    ensures
        chosen(list, keep) == if keep(list.len() - 1) {
            chosen(list.drop_last(), keep).push(list.last())
        } else {
            chosen(list.drop_last(), keep)
        },
{
    reveal(Seq::filter);
    let n = list.len();
    let m: nat = (n - 1) as nat;
    assert(places(n).drop_last() =~= places(m));
    lemma_kept_places(m, keep);
    let rest = places(m).filter(keep);
    let front = list.drop_last();
    assert(rest.map_values(|i: int| list[i]) =~= rest.map_values(|i: int| front[i]));
    if keep(n - 1) {
        assert(places(n).filter(keep) == rest.push(n - 1));
    }
    assert(chosen(list, keep) =~= if keep(n - 1) {
        chosen(front, keep).push(list.last())
    } else {
        chosen(front, keep)
    });
}

/// Only what `keep` says of the places of the list matters.
pub proof fn lemma_chosen_same<A>(
    list: Seq<A>,
    keep: spec_fn(int) -> bool,
    other: spec_fn(int) -> bool,
)
    requires
        forall|i: int| 0 <= i < list.len() ==> #[trigger] keep(i) == other(i),
    ensures
        chosen(list, keep) == chosen(list, other),
    decreases list.len(),
{
    if list.len() == 0 {
        reveal(Seq::filter);
        assert(chosen(list, keep) =~= chosen(list, other));
    } else {
        assert(keep(list.len() - 1) == other(list.len() - 1));
        lemma_chosen_same(list.drop_last(), keep, other);
        lemma_chosen_last(list, keep);
        lemma_chosen_last(list, other);
    }
}

/// Only what `keep` says of the places matters.
pub proof fn lemma_kept_same(n: nat, keep: spec_fn(int) -> bool, other: spec_fn(int) -> bool)
    requires
        forall|i: int| 0 <= i < n ==> #[trigger] keep(i) == other(i),
    ensures
        places(n).filter(keep) == places(n).filter(other),
    decreases n,
{
    reveal(Seq::filter);
    if n > 0 {
        let m: nat = (n - 1) as nat;
        assert(places(n).drop_last() =~= places(m));
        assert(keep(n - 1) == other(n - 1));
        lemma_kept_same(m, keep, other);
    }
}

/// What stands among the chosen elements stands at a place that is kept.
pub proof fn lemma_chosen_members<A>(list: Seq<A>, keep: spec_fn(int) -> bool)
    ensures
        forall|x: A| #[trigger]
            chosen(list, keep).contains(x) <==> exists|i: int|
                0 <= i < list.len() && #[trigger] list[i] == x && keep(i),
{
    lemma_kept_places(list.len(), keep);
    let kept = places(list.len()).filter(keep);
    assert forall|x: A| #[trigger] chosen(list, keep).contains(x) <==> exists|i: int|
        0 <= i < list.len() && #[trigger] list[i] == x && keep(i) by {
        if chosen(list, keep).contains(x) {
            let k = choose|k: int| 0 <= k < chosen(list, keep).len() && chosen(list, keep)[k] == x;
            assert(list[kept[k]] == x);
        }
        if exists|i: int| 0 <= i < list.len() && #[trigger] list[i] == x && keep(i) {
            let i = choose|i: int| 0 <= i < list.len() && #[trigger] list[i] == x && keep(i);
            assert(kept.contains(i));
            let k = choose|k: int| 0 <= k < kept.len() && kept[k] == i;
            assert(chosen(list, keep)[k] == x);
        }
    }
}

} // verus!
