//! Cooldowns: upstreams that just failed are left alone for a while.

use dashmap::DashMap;
use vstd::prelude::*;

use crate::text::{copy_strings, owned, views};
use crate::time::{max_nanos, Duration, Instant};

verus! {

/// The ends of cooldowns that a map holds, by URL.
pub uninterp spec fn cooldown_contents(map: DashMap<String, Instant>) -> Map<Seq<char>, Instant>;

/// No cooldowns.
pub open spec fn no_cooldowns() -> Map<Seq<char>, Instant> {
    Map::empty()
}

/// `DashMap::new` makes an empty map.
#[verifier::external_body]
fn cooldown_new() -> (out: DashMap<String, Instant>)
    ensures
        cooldown_contents(out) == no_cooldowns(),
{
    DashMap::new()
}

/// `DashMap::insert` gives the key the value, in place of one that it had.
#[verifier::external_body]
fn cooldown_insert(map: &mut DashMap<String, Instant>, key: String, value: Instant)
    ensures
        cooldown_contents(*final(map)) == cooldown_contents(*old(map)).insert(key@, value),
{
    map.insert(key, value);
}

/// `DashMap::get` finds the value of the key, of which a copy is given.
#[verifier::external_body]
fn cooldown_get(map: &DashMap<String, Instant>, key: &str) -> (out: Option<Instant>)
    ensures
        match out {
            Some(value) => cooldown_contents(*map).contains_key(key@) && value == cooldown_contents(
                *map,
            )[key@],
            None => !cooldown_contents(*map).contains_key(key@),
        },
{
    map.get(key).map(|entry| *entry)
}

/// `DashMap::remove` takes the key and its value away, where it has one.
#[verifier::external_body]
fn cooldown_remove(map: &mut DashMap<String, Instant>, key: &str)
    ensures
        cooldown_contents(*final(map)) == cooldown_contents(*old(map)).remove(key@),
{
    map.remove(key);
}

/// The upstreams that are left alone, and for how long one is.
pub struct Cooldowns {
    until: DashMap<String, Instant>,
    window: Duration,
}

impl View for Cooldowns {
    type V = Map<Seq<char>, Instant>;

    /// The end of each cooldown, by URL.
    closed spec fn view(&self) -> Map<Seq<char>, Instant> {
        cooldown_contents(self.until)
    }
}

/// `url` is left alone at `now`.
pub open spec fn cooling(until: Map<Seq<char>, Instant>, url: Seq<char>, now: Instant) -> bool {
    until.contains_key(url) && until[url]@ > now@
}

/// `until` without the cooldowns of `urls` that are over.
pub open spec fn pruned(
    until: Map<Seq<char>, Instant>,
    urls: Seq<Seq<char>>,
    now: Instant,
) -> Map<Seq<char>, Instant> {
    Map::new(
        |url: Seq<char>|
            until.contains_key(url) && (urls.contains(url) ==> cooling(until, url, now)),
        |url: Seq<char>| until[url],
    )
}

/// Those of `urls` that are not left alone at `now`, in order.
pub open spec fn warm(
    until: Map<Seq<char>, Instant>,
    urls: Seq<Seq<char>>,
    now: Instant,
) -> Seq<Seq<char>> {
    urls.filter(|url: Seq<char>| !cooling(until, url, now))
}

impl Cooldowns {
    /// How long an upstream is left alone, in nanoseconds.
    pub closed spec fn span(self) -> nat {
        self.window@
    }

    /// No cooldowns yet; one lasts `window`.
    pub fn new(window: Duration) -> (out: Self)
        ensures
            out@ == no_cooldowns(),
            out.span() == window@,
    {
        Cooldowns { until: cooldown_new(), window }
    }

    /// Whether an upstream is left alone. A cooldown that is over is forgotten.
    pub fn in_cooldown(&mut self, url: &str, now: Instant) -> (yes: bool)
        ensures
            yes == cooling(old(self)@, url@, now),
            final(self)@ == if yes {
                old(self)@
            } else {
                old(self)@.remove(url@)
            },
            final(self).span() == old(self).span(),
    {
        if let Some(until) = cooldown_get(&self.until, url) {
            if until.after(now) {
                return true;
            }
        }
        cooldown_remove(&mut self.until, url);
        false
    }

    /// Leaves an upstream alone from now on.
    pub fn mark_cooldown(&mut self, url: &str, now: Instant)
        requires
            now@ + old(self).span() <= max_nanos(),
        ensures
            final(self)@.contains_key(url@),
            final(self)@[url@]@ == now@ + old(self).span(),
            final(self)@ == old(self)@.insert(url@, final(self)@[url@]),
            final(self).span() == old(self).span(),
    {
        match now.checked_add(self.window) {
            Some(until) => cooldown_insert(&mut self.until, owned(url), until),
            None => {
                assert(false);
            },
        }
    }

    /// Those of `candidates` that are not left alone, in order. The cooldowns of
    /// candidates that are over are forgotten.
    pub fn cooldown_filtered_candidates(&mut self, candidates: &Vec<String>, now: Instant) -> (out:
        Vec<String>)
        ensures
            views(out@) == warm(old(self)@, views(candidates@), now),
            final(self)@ == pruned(old(self)@, views(candidates@), now),
            final(self).span() == old(self).span(),
    {
        let ghost before = self@;
        let ghost urls = views(candidates@);
        let ghost keep = |url: Seq<char>| !cooling(before, url, now);
        let mut out: Vec<String> = Vec::new();
        let n: usize = candidates.len();
        let mut i: usize = 0;
        proof {
            assert(urls.take(0) =~= seq![]);
            reveal(Seq::filter);
            assert(self@ =~= pruned(before, urls.take(0), now));
        }
        while i < n
            invariant
                i <= n,
                n == candidates@.len(),
                urls == views(candidates@),
                keep == (|url: Seq<char>| !cooling(before, url, now)),
                self.span() == old(self).span(),
                views(out@) == urls.take(i as int).filter(keep),
                self@ == pruned(before, urls.take(i as int), now),
            decreases n - i,
        {
            let url: &String = &candidates[i];
            let ghost seen = urls.take(i as int);
            let ghost next = urls.take(i + 1);
            let ghost said = views(out@);
            assert(next =~= seen.push(url@));
            proof {
                assert(next.drop_last() =~= seen);
                reveal(Seq::filter);
                assert forall|u: Seq<char>| next.contains(u) == (seen.contains(u) || u == url@) by {
                    if seen.contains(u) {
                        let k = choose|k: int| 0 <= k < seen.len() && seen[k] == u;
                        assert(next[k] == u);
                    }
                    if u == url@ {
                        assert(next[i as int] == u);
                    }
                    if next.contains(u) && u != url@ {
                        let k = choose|k: int| 0 <= k < next.len() && next[k] == u;
                        assert(seen[k] == u);
                    }
                }
                assert(cooling(self@, url@, now) == cooling(before, url@, now));
            }
            let cold: bool = self.in_cooldown(url.as_str(), now);
            if !cold {
                out.push(url.clone());
                assert(views(out@) =~= said.push(url@));
            }
            assert(self@ =~= pruned(before, next, now));
            i = i + 1;
        }
        assert(urls.take(n as int) =~= urls);
        out
    }

    /// The candidates that a race is run with: those that are not left alone, or
    /// all of them where every one is.
    pub fn effective_candidates(&mut self, candidates: &Vec<String>, now: Instant) -> (out: Vec<
        String,
    >)
        ensures
            views(out@) == effective(old(self)@, views(candidates@), now),
            final(self)@ == pruned(old(self)@, views(candidates@), now),
            final(self).span() == old(self).span(),
    {
        let filtered: Vec<String> = self.cooldown_filtered_candidates(candidates, now);
        if filtered.len() == 0 {
            copy_strings(candidates)
        } else {
            filtered
        }
    }
}

/// Those of `urls` that are not left alone, or all of them where every one is.
pub open spec fn effective(
    until: Map<Seq<char>, Instant>,
    urls: Seq<Seq<char>>,
    now: Instant,
) -> Seq<Seq<char>> {
    if warm(until, urls, now).len() == 0 {
        urls
    } else {
        warm(until, urls, now)
    }
}

/// A race always has candidates where there are any: cooldowns never leave a
/// request without an upstream to ask.
pub proof fn law_cooldown_leaves_candidates(
    until: Map<Seq<char>, Instant>,
    urls: Seq<Seq<char>>,
    now: Instant,
)
    requires
        urls.len() > 0,
    ensures
        effective(until, urls, now).len() > 0,
        forall|url: Seq<char>| #[trigger]
            effective(until, urls, now).contains(url) ==> urls.contains(url),
{
    let keep = |url: Seq<char>| !cooling(until, url, now);
    assert forall|url: Seq<char>| #[trigger] effective(until, urls, now).contains(
        url,
    ) implies urls.contains(url) by {
        if warm(until, urls, now).len() > 0 {
            urls.lemma_filter_contains_rev(keep, url);
        }
    }
}

/// An upstream that was marked is left alone until the window is over, and no
/// longer.
pub proof fn law_cooldown_lasts_its_window(
    until: Map<Seq<char>, Instant>,
    url: Seq<char>,
    marked: Instant,
    end: Instant,
    window: nat,
    now: Instant,
)
    requires
        end@ == marked@ + window,
    ensures
        cooling(until.insert(url, end), url, now) <==> now@ < marked@ + window,
{
}

/// While some upstream is not left alone, none that is left alone is asked and
/// every other is, in order; where all are left alone, all are asked. Forgetting
/// cooldowns that are over does not change who is left alone.
pub proof fn law_upstreams_that_failed_are_left_alone(
    until: Map<Seq<char>, Instant>,
    urls: Seq<Seq<char>>,
    now: Instant,
)
    ensures
        (exists|url: Seq<char>| #[trigger]
            urls.contains(url) && !(until.contains_key(url) && now@ < until[url]@)) ==> {
            &&& forall|url: Seq<char>| #[trigger]
                effective(until, urls, now).contains(url) <==> urls.contains(url) && !(
                until.contains_key(url) && now@ < until[url]@)
            &&& effective(until, urls, now) == urls.filter(
                |url: Seq<char>| !(until.contains_key(url) && now@ < until[url]@),
            )
        },
        (forall|url: Seq<char>| #[trigger]
            urls.contains(url) ==> until.contains_key(url) && now@ < until[url]@) ==> effective(
            until,
            urls,
            now,
        ) == urls,
        forall|url: Seq<char>, later: Instant|
            now@ <= later@ ==> #[trigger] cooling(pruned(until, urls, now), url, later) == cooling(
                until,
                url,
                later,
            ),
{
    let keep = |url: Seq<char>| !cooling(until, url, now);
    let same = |url: Seq<char>| !(until.contains_key(url) && now@ < until[url]@);
    assert(keep =~= same);
    let out = urls.filter(keep);
    assert forall|url: Seq<char>| #[trigger] out.contains(url) <==> urls.contains(url) && keep(
        url,
    ) by {
        if out.contains(url) {
            let k = choose|k: int| 0 <= k < out.len() && out[k] == url;
            urls.lemma_filter_pred(keep, k);
            urls.lemma_filter_contains_rev(keep, url);
        }
        if urls.contains(url) && keep(url) {
            let k = choose|k: int| 0 <= k < urls.len() && urls[k] == url;
            urls.lemma_filter_contains(keep, k);
        }
    }
    if exists|url: Seq<char>| #[trigger]
        urls.contains(url) && !(until.contains_key(url) && now@ < until[url]@) {
        let url = choose|url: Seq<char>| #[trigger]
            urls.contains(url) && !(until.contains_key(url) && now@ < until[url]@);
        assert(keep(url));
        assert(out.contains(url));
    } else {
        if out.len() > 0 {
            assert(out.contains(out[0]));
        }
    }
}

} // verus!
