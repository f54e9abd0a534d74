//! Filters: which store paths an upstream may serve.

use vstd::prelude::*;
use vstd::string::*;

use crate::nar_url::{file_name, last_segment, lemma_last_segment};
use crate::narinfo::{NarInfo, NarInfoView};
use crate::text::{
    chars_of, find, find_chars, has_prefix, has_suffix, lemma_find_from, lemma_run_before,
    lemma_split_once_char, occurs_at, part, run_before, same_text, split_at_first, split_char, split_on, split_once,
    strip_prefix, strip_suffix, views,
};

verus! {

/// What a rule does with what it matches.
#[derive(Debug, Clone, Copy, PartialEq, Eq, Structural)]
pub enum FilterAction {
    Allow,
    Deny,
}

/// What a rule looks at.
#[derive(Debug, Clone, Copy, PartialEq, Eq, Structural)]
pub enum FilterField {
    /// The store path behind its hash.
    Name,
    /// The whole store path.
    StorePath,
    /// Each of the references.
    Reference,
    /// The derivation.
    Deriver,
}

/// One rule of an upstream's filter.
#[derive(Debug, PartialEq, Eq)]
pub struct FilterRule {
    pub action: FilterAction,
    pub field: FilterField,
    pub pattern: String,
}

/// The contents of a rule.
pub struct FilterRuleView {
    pub action: FilterAction,
    pub field: FilterField,
    pub pattern: Seq<char>,
}

impl View for FilterRule {
    type V = FilterRuleView;

    open spec fn view(&self) -> FilterRuleView {
        FilterRuleView { action: self.action, field: self.field, pattern: self.pattern@ }
    }
}

impl Clone for FilterRule {
    fn clone(&self) -> (out: Self)
        ensures
            out@ == self@,
    {
        FilterRule { action: self.action, field: self.field, pattern: self.pattern.clone() }
    }
}

/// The contents of the rules of a list.
pub open spec fn rule_views(rules: Seq<FilterRule>) -> Seq<FilterRuleView> {
    Seq::new(rules.len(), |i: int| rules[i]@)
}

/// A copy of a list of rules.
pub fn copy_rules(rules: &Vec<FilterRule>) -> (out: Vec<FilterRule>)
    ensures
        rule_views(out@) == rule_views(rules@),
{
    let mut out: Vec<FilterRule> = Vec::new();
    let mut i: usize = 0;
    while i < rules.len()
        invariant
            i <= rules@.len(),
            rule_views(out@) == rule_views(rules@).take(i as int),
        decreases rules@.len() - i,
    {
        let ghost before = rule_views(out@);
        let rule: FilterRule = rules[i].clone();
        out.push(rule);
        assert(rule_views(out@) =~= before.push(rule@));
        i = i + 1;
        assert(rule_views(rules@).take(i as int) =~= before.push(rule_views(rules@)[i - 1]));
    }
    assert(rule_views(rules@).take(i as int) =~= rule_views(rules@));
    out
}

// ---------------------------------------------------------------------------
// Wildcards
// ---------------------------------------------------------------------------
/// `gaps` and `pieces` in turn.
pub open spec fn interleaved(gaps: Seq<Seq<char>>, pieces: Seq<Seq<char>>) -> Seq<char>
    decreases pieces.len(),
{
    if pieces.len() == 0 {
        seq![]
    } else {
        gaps[0] + pieces[0] + interleaved(gaps.skip(1), pieces.skip(1))
    }
}

/// `pattern` with its stars replaced by the texts `gaps`, in order.
pub open spec fn stars_replaced(pattern: Seq<char>, gaps: Seq<Seq<char>>) -> Seq<char> {
    let pieces = split_on(pattern, '*');
    pieces[0] + interleaved(gaps, pieces.skip(1))
}

/// `value` is `pattern` with each star replaced by some text.
pub open spec fn wildcard_matches(pattern: Seq<char>, value: Seq<char>) -> bool {
    exists|gaps: Seq<Seq<char>>|
        gaps.len() + 1 == split_on(pattern, '*').len() && value == #[trigger] stars_replaced(
            pattern,
            gaps,
        )
}

/// What is left of `value` when each of `pieces` has been found in it, one
/// behind the other, each at the first place it occurs.
spec fn after_pieces(pieces: Seq<Seq<char>>, value: Seq<char>) -> Option<Seq<char>>
    decreases pieces.len(),
{
    if pieces.len() == 0 {
        Some(value)
    } else {
        match split_once(value, pieces[0]) {
            Some((_, rest)) => after_pieces(pieces.skip(1), rest),
            None => None,
        }
    }
}

proof fn lemma_gaps(pieces: Seq<Seq<char>>, value: Seq<char>) -> (gaps: Seq<Seq<char>>)
    requires
        after_pieces(pieces, value) is Some,
    ensures
        gaps.len() == pieces.len(),
        value == interleaved(gaps, pieces) + after_pieces(pieces, value)->0,
    decreases pieces.len(),
{
    if pieces.len() == 0 {
        assert(value =~= interleaved(seq![], pieces) + value);
        seq![]
    } else {
        let (a, b) = split_once(value, pieces[0])->0;
        lemma_find_from(value, pieces[0], 0);
        let i = find(value, pieces[0])->0;
        assert(value =~= a + value.subrange(i as int, (i + pieces[0].len()) as int) + b);
        let rest = lemma_gaps(pieces.skip(1), b);
        let gaps = seq![a] + rest;
        assert(gaps.skip(1) =~= rest);
        assert(value =~= interleaved(gaps, pieces) + after_pieces(pieces, value)->0);
        gaps
    }
}

proof fn lemma_interleaved_push(
    gaps: Seq<Seq<char>>,
    pieces: Seq<Seq<char>>,
    gap: Seq<char>,
    piece: Seq<char>,
)
    requires
        gaps.len() == pieces.len(),
    ensures
        interleaved(gaps.push(gap), pieces.push(piece)) == interleaved(gaps, pieces) + gap + piece,
    decreases pieces.len(),
{
    let more_gaps = gaps.push(gap);
    let more = pieces.push(piece);
    if pieces.len() == 0 {
        assert(more.skip(1) =~= seq![]);
        assert(interleaved(more_gaps.skip(1), more.skip(1)) =~= seq![]);
        assert(interleaved(more_gaps, more) =~= interleaved(gaps, pieces) + gap + piece);
    } else {
        assert(more_gaps.skip(1) =~= gaps.skip(1).push(gap));
        assert(more.skip(1) =~= pieces.skip(1).push(piece));
        lemma_interleaved_push(gaps.skip(1), pieces.skip(1), gap, piece);
        assert(interleaved(more_gaps, more) =~= interleaved(gaps, pieces) + gap + piece);
    }
}

proof fn lemma_pieces_found(
    before: Seq<char>,
    gaps: Seq<Seq<char>>,
    pieces: Seq<Seq<char>>,
    behind: Seq<char>,
)
    requires
        gaps.len() == pieces.len(),
    ensures
        after_pieces(pieces, before + interleaved(gaps, pieces) + behind) is Some,
    decreases pieces.len(),
{
    if pieces.len() > 0 {
        let p = pieces[0];
        let tail = interleaved(gaps.skip(1), pieces.skip(1));
        let value = before + interleaved(gaps, pieces) + behind;
        let at = before.len() + gaps[0].len();
        assert(value =~= before + gaps[0] + p + tail + behind);
        assert(value.subrange(at as int, (at + p.len()) as int) =~= p);
        assert(occurs_at(value, p, at as int));
        lemma_find_from(value, p, 0);
        let i = find(value, p)->0;
        let rest = value.skip((i + p.len()) as int);
        let skipped = value.subrange((i + p.len()) as int, (at + p.len()) as int);
        assert(rest =~= skipped + tail + behind);
        lemma_pieces_found(skipped, gaps.skip(1), pieces.skip(1), behind);
    }
}

proof fn lemma_split_on(s: Seq<char>, c: char)
    ensures
        split_on(s, c).len() >= 1,
        split_on(s, c).len() == 1 ==> split_on(s, c)[0] == s,
        split_on(s, c).len() == 1 <==> !s.contains(c),
    decreases s.len(),
{
    let n = run_before(s, c);
    lemma_run_before(s, c);
    if n < s.len() {
        lemma_split_on(s.skip(n as int + 1), c);
        assert(s[n as int] == c);
    }
}

/// A value that begins with the first piece of a pattern and ends with the last
/// matches it if and only if the pieces between are found in what is between.
proof fn lemma_matches_by_pieces(pattern: Seq<char>, value: Seq<char>)
    requires
        split_on(pattern, '*').len() > 1,
    ensures
        ({
            let pieces = split_on(pattern, '*');
            let first = pieces[0];
            let last = pieces.last();
            let between = pieces.skip(1).drop_last();
            wildcard_matches(pattern, value) <==> {
                &&& has_prefix(value, first)
                &&& has_suffix(value.skip(first.len() as int), last)
                &&& after_pieces(
                    between,
                    value.subrange(first.len() as int, value.len() - last.len()),
                ) is Some
            }
        }),
{
    let pieces = split_on(pattern, '*');
    let first = pieces[0];
    let last = pieces.last();
    let ps = pieces.skip(1);
    let between = ps.drop_last();
    let rest = value.skip(first.len() as int);
    let middle = value.subrange(first.len() as int, value.len() - last.len());
    assert(ps =~= between.push(last));
    if wildcard_matches(pattern, value) {
        let gaps = choose|gaps: Seq<Seq<char>>|
            gaps.len() + 1 == pieces.len() && value == #[trigger] stars_replaced(pattern, gaps);
        let front = gaps.drop_last();
        let gap = gaps.last();
        assert(gaps =~= front.push(gap));
        lemma_interleaved_push(front, between, gap, last);
        assert(value =~= first + interleaved(front, between) + gap + last);
        assert(value.take(first.len() as int) =~= first);
        assert(rest =~= interleaved(front, between) + gap + last);
        assert(rest.skip(rest.len() - last.len()) =~= last);
        assert(middle =~= seq![] + interleaved(front, between) + gap);
        lemma_pieces_found(seq![], front, between, gap);
    }
    if has_prefix(value, first) && has_suffix(rest, last) && after_pieces(between, middle) is Some {
        let front = lemma_gaps(between, middle);
        let gap = after_pieces(between, middle)->0;
        let gaps = front.push(gap);
        lemma_interleaved_push(front, between, gap, last);
        assert(value.take(first.len() as int) =~= first);
        assert(rest.skip(rest.len() - last.len()) =~= last);
        assert(value =~= first + (middle + last));
        assert(value =~= stars_replaced(pattern, gaps));
    }
}

/// Whether `value` is of the form that `pattern` gives, in which `*` stands for
/// any text.
pub fn wildcard_match(pattern: &str, value: &str) -> (yes: bool)
    ensures
        yes == wildcard_matches(pattern@, value@),
{
    let pieces: Vec<String> = split_char(pattern, '*');
    let ghost ps = split_on(pattern@, '*');
    proof {
        lemma_split_on(pattern@, '*');
    }
    let n: usize = pieces.len();
    assert(views(pieces@)[0] == ps[0]);
    if n == 1 {
        proof {
            law_plain_pattern_matches_itself_alone(pattern@, value@);
        }
        return same_text(pattern, value);
    }
    proof {
        lemma_matches_by_pieces(pattern@, value@);
        assert(ps.last() == pieces@[n - 1]@);
    }
    let behind: String = match strip_prefix(value, pieces[0].as_str()) {
        Some(behind) => behind,
        None => return false,
    };
    let mut rest: String = match strip_suffix(behind.as_str(), pieces[n - 1].as_str()) {
        Some(rest) => rest,
        None => return false,
    };
    let ghost between = ps.skip(1).drop_last();
    let ghost middle = rest@;
    assert(middle =~= value@.subrange(ps[0].len() as int, value@.len() - ps.last().len()));
    assert(between.skip(0) =~= between);
    let mut i: usize = 1;
    while i < n - 1
        invariant
            1 <= i <= n - 1,
            n == pieces@.len(),
            ps == views(pieces@),
            between == ps.skip(1).drop_last(),
            wildcard_matches(pattern@, value@) <==> after_pieces(between, middle) is Some,
            after_pieces(between, middle) == after_pieces(between.skip(i - 1), rest@),
        decreases n - i,
    {
        assert(between.skip(i - 1)[0] == pieces@[i as int]@);
        assert(between.skip(i - 1).skip(1) =~= between.skip(i as int));
        match split_at_first(rest.as_str(), pieces[i].as_str()) {
            Some((_, next)) => rest = next,
            None => {
                assert(after_pieces(between, middle) is None);
                return false;
            },
        }
        i = i + 1;
    }
    assert(between.skip(i - 1) =~= seq![]);
    true
}

/// A pattern without a star matches itself alone.
pub proof fn law_plain_pattern_matches_itself_alone(pattern: Seq<char>, value: Seq<char>)
    requires
        !pattern.contains('*'),
    ensures
        wildcard_matches(pattern, value) <==> value == pattern,
{
    lemma_split_on(pattern, '*');
    let pieces = split_on(pattern, '*');
    assert(pieces.skip(1) =~= seq![]);
    assert forall|gaps: Seq<Seq<char>>| #[trigger] stars_replaced(pattern, gaps) == pattern by {
        assert(pieces[0] + interleaved(gaps, pieces.skip(1)) =~= pattern);
    }
    assert(value == pattern ==> value == stars_replaced(pattern, seq![]));
}

/// A star alone matches everything.
pub proof fn law_star_matches_everything(value: Seq<char>)
    ensures
        wildcard_matches(seq!['*'], value),
{
    let star = seq!['*'];
    assert(run_before(star, '*') == 0);
    assert(star.skip(1) =~= seq![]);
    assert(star.take(0) =~= seq![]);
    let none = Seq::<char>::empty();
    assert(split_on(none, '*') =~= seq![none]);
    let pieces = split_on(star, '*');
    assert(pieces =~= seq![none, none]);
    let gaps = seq![value];
    assert(pieces.skip(1).skip(1) =~= seq![]);
    assert(interleaved(gaps.skip(1), pieces.skip(1).skip(1)) =~= none);
    assert(value =~= stars_replaced(star, gaps));
}

// ---------------------------------------------------------------------------
// Rules
// ---------------------------------------------------------------------------
/// The name in a store path: what stands behind the first dash of its last
/// segment.
pub open spec fn name_in(store_path: Seq<char>) -> Seq<char> {
    let base = file_name(store_path);
    match split_once(base, "-"@) {
        Some((_, name)) => name,
        None => base,
    }
}

/// The name in a store path, without the hash before it.
pub fn store_path_name(store_path: &str) -> (out: &str)
    ensures
        out@ == name_in(store_path@),
{
    let base: &str = last_segment(store_path);
    let v: Vec<char> = chars_of(base);
    let n: usize = v.len();
    let dash: Vec<char> = chars_of("-");
    match find_chars(&v, &dash, 0) {
        Some(i) => part(base, &v, i + dash.len(), n),
        None => base,
    }
}

/// The rule matches the field of `info` that it looks at.
pub open spec fn rule_matches(rule: FilterRuleView, info: NarInfoView) -> bool {
    match rule.field {
        FilterField::StorePath => wildcard_matches(rule.pattern, info.store_path),
        FilterField::Name => wildcard_matches(rule.pattern, name_in(info.store_path)),
        FilterField::Reference => exists|i: int|
            0 <= i < info.references.len() && #[trigger] wildcard_matches(
                rule.pattern,
                info.references[i],
            ),
        FilterField::Deriver => wildcard_matches(rule.pattern, info.deriver),
    }
}

/// Whether `rule` matches the field of `narinfo` that it looks at.
pub fn filter_rule_matches(rule: &FilterRule, narinfo: &NarInfo) -> (yes: bool)
    ensures
        yes == rule_matches(rule@, narinfo@),
{
    let pattern: &str = rule.pattern.as_str();
    match rule.field {
        FilterField::StorePath => wildcard_match(pattern, narinfo.store_path.as_str()),
        FilterField::Name => wildcard_match(
            pattern,
            store_path_name(narinfo.store_path.as_str()),
        ),
        FilterField::Reference => {
            let mut i: usize = 0;
            let n: usize = narinfo.references.len();
            while i < n
                invariant
                    i <= n,
                    n == narinfo.references@.len(),
                    pattern@ == rule@.pattern,
                    rule@.field == FilterField::Reference,
                    forall|j: int|
                        0 <= j < i ==> !#[trigger] wildcard_matches(
                            rule@.pattern,
                            narinfo@.references[j],
                        ),
                decreases n - i,
            {
                if wildcard_match(pattern, narinfo.references[i].as_str()) {
                    assert(wildcard_matches(rule@.pattern, narinfo@.references[i as int]));
                    return true;
                }
                assert(narinfo@.references[i as int] == narinfo.references@[i as int]@);
                i = i + 1;
            }
            false
        },
        FilterField::Deriver => wildcard_match(pattern, narinfo.deriver.as_str()),
    }
}

/// One of `rules` has the action `action`.
pub open spec fn has_action(rules: Seq<FilterRuleView>, action: FilterAction) -> bool {
    exists|i: int| 0 <= i < rules.len() && (#[trigger] rules[i]).action == action
}

/// One of `rules` has the action `action` and matches `info`.
pub open spec fn some_match(
    rules: Seq<FilterRuleView>,
    action: FilterAction,
    info: NarInfoView,
) -> bool {
    exists|i: int|
        0 <= i < rules.len() && (#[trigger] rules[i]).action == action && rule_matches(
            rules[i],
            info,
        )
}

/// `rules` let `info` through: nothing denies it, and where there are rules that
/// allow, one of them allows it.
pub open spec fn rules_allow(rules: Seq<FilterRuleView>, info: NarInfoView) -> bool {
    !some_match(rules, FilterAction::Deny, info) && (has_action(rules, FilterAction::Allow)
        ==> some_match(rules, FilterAction::Allow, info))
}

/// Whether `rules` let `narinfo` through. No rules let everything through.
pub fn allows_narinfo(rules: &Vec<FilterRule>, narinfo: &NarInfo) -> (yes: bool)
    ensures
        yes == rules_allow(rule_views(rules@), narinfo@),
{
    let ghost views = rule_views(rules@);
    let mut has_allow: bool = false;
    let mut allow_matched: bool = false;
    let mut i: usize = 0;
    let n: usize = rules.len();
    while i < n
        invariant
            i <= n,
            n == rules@.len(),
            views == rule_views(rules@),
            has_allow == has_action(views.take(i as int), FilterAction::Allow),
            allow_matched == some_match(views.take(i as int), FilterAction::Allow, narinfo@),
            !some_match(views.take(i as int), FilterAction::Deny, narinfo@),
        decreases n - i,
    {
        let rule: &FilterRule = &rules[i];
        let ghost seen = views.take(i as int);
        let ghost next = views.take(i + 1);
        assert(next =~= seen.push(views[i as int]));
        assert(next[i as int] == rule@);
        assert(forall|j: int| 0 <= j < i ==> next[j] == #[trigger] seen[j]);
        let matches: bool = filter_rule_matches(rule, narinfo);
        if rule.action == FilterAction::Allow {
            has_allow = true;
            if matches {
                allow_matched = true;
            }
        } else if matches {
            assert(views[i as int] == rule@);
            return false;
        }
        proof {
            assert(has_action(next, FilterAction::Allow) == (has_action(seen, FilterAction::Allow)
                || rule@.action == FilterAction::Allow)) by {
                if has_action(seen, FilterAction::Allow) {
                    let j = choose|j: int|
                        0 <= j < seen.len() && (#[trigger] seen[j]).action == FilterAction::Allow;
                    assert(next[j].action == FilterAction::Allow);
                }
            }
            assert forall|action: FilterAction| #[trigger]
                some_match(next, action, narinfo@) == (some_match(seen, action, narinfo@) || (
                rule@.action == action && rule_matches(rule@, narinfo@))) by {
                if some_match(seen, action, narinfo@) {
                    let j = choose|j: int|
                        0 <= j < seen.len() && (#[trigger] seen[j]).action == action
                            && rule_matches(seen[j], narinfo@);
                    assert(next[j].action == action);
                }
                if some_match(next, action, narinfo@) && !(rule@.action == action && rule_matches(
                    rule@,
                    narinfo@,
                )) {
                    let j = choose|j: int|
                        0 <= j < next.len() && (#[trigger] next[j]).action == action
                            && rule_matches(next[j], narinfo@);
                    assert(seen[j].action == action);
                }
            }
        }
        i = i + 1;
    }
    assert(views.take(i as int) =~= views);
    !has_allow || allow_matched
}

/// A matching rule that denies rejects, whatever the other rules say.
pub proof fn law_deny_always_rejects(rules: Seq<FilterRuleView>, info: NarInfoView, at: int)
    requires
        0 <= at < rules.len(),
        rules[at].action == FilterAction::Deny,
        rule_matches(rules[at], info),
    ensures
        !rules_allow(rules, info),
{
}

/// Where rules allow, what none of them matches is rejected.
pub proof fn law_allow_is_required(rules: Seq<FilterRuleView>, info: NarInfoView, at: int)
    requires
        0 <= at < rules.len(),
        rules[at].action == FilterAction::Allow,
        forall|i: int|
            0 <= i < rules.len() && (#[trigger] rules[i]).action == FilterAction::Allow
                ==> !rule_matches(rules[i], info),
    ensures
        !rules_allow(rules, info),
{
}

/// The order of the rules does not matter: rules that hold the same ones decide
/// alike.
pub proof fn law_rule_order_is_irrelevant(
    a: Seq<FilterRuleView>,
    b: Seq<FilterRuleView>,
    info: NarInfoView,
)
    requires
        a.to_set() == b.to_set(),
    ensures
        rules_allow(a, info) == rules_allow(b, info),
{
    assert forall|i: int| 0 <= i < a.len() implies b.contains(#[trigger] a[i]) by {
        assert(a.to_set().contains(a[i]));
        assert(b.to_set().contains(a[i]));
    }
    assert forall|i: int| 0 <= i < b.len() implies a.contains(#[trigger] b[i]) by {
        assert(b.to_set().contains(b[i]));
        assert(a.to_set().contains(b[i]));
    }
    lemma_same_decisions(a, b, info);
    lemma_same_decisions(b, a, info);
}

proof fn lemma_same_decisions(a: Seq<FilterRuleView>, b: Seq<FilterRuleView>, info: NarInfoView)
    requires
        forall|i: int| 0 <= i < a.len() ==> b.contains(#[trigger] a[i]),
    ensures
        forall|action: FilterAction|
            #![trigger has_action(a, action)]
            #![trigger has_action(b, action)]
            has_action(a, action) ==> has_action(b, action),
        forall|action: FilterAction|
            #![trigger some_match(a, action, info)]
            #![trigger some_match(b, action, info)]
            some_match(a, action, info) ==> some_match(b, action, info),
{
    assert forall|action: FilterAction| has_action(a, action) implies #[trigger] has_action(
        b,
        action,
    ) by {
        let i = choose|i: int| 0 <= i < a.len() && (#[trigger] a[i]).action == action;
        assert(b.contains(a[i]));
        let j = choose|j: int| 0 <= j < b.len() && b[j] == a[i];
        assert(b[j].action == action);
    }
    assert forall|action: FilterAction| some_match(a, action, info) implies #[trigger] some_match(
        b,
        action,
        info,
    ) by {
        let i = choose|i: int|
            0 <= i < a.len() && (#[trigger] a[i]).action == action && rule_matches(a[i], info);
        assert(b.contains(a[i]));
        let j = choose|j: int| 0 <= j < b.len() && b[j] == a[i];
        assert(b[j].action == action);
    }
}

/// Rules look neither at the address of the archive nor at what no field names:
/// narinfos that differ in nothing else fare alike.
pub proof fn law_rules_look_at_their_fields_alone(
    rules: Seq<FilterRuleView>,
    a: NarInfoView,
    b: NarInfoView,
)
    requires
        a.store_path == b.store_path,
        a.references == b.references,
        a.deriver == b.deriver,
    ensures
        rules_allow(rules, a) == rules_allow(rules, b),
{
    assert forall|i: int| 0 <= i < rules.len() implies rule_matches(#[trigger] rules[i], a)
        == rule_matches(rules[i], b) by {}
    assert forall|action: FilterAction| #[trigger]
        some_match(rules, action, a) == some_match(rules, action, b) by {
        if some_match(rules, action, a) {
            let i = choose|i: int|
                0 <= i < rules.len() && (#[trigger] rules[i]).action == action && rule_matches(
                    rules[i],
                    a,
                );
            assert(rule_matches(rules[i], b));
        }
        if some_match(rules, action, b) {
            let i = choose|i: int|
                0 <= i < rules.len() && (#[trigger] rules[i]).action == action && rule_matches(
                    rules[i],
                    b,
                );
            assert(rule_matches(rules[i], a));
        }
    }
}

// ---------------------------------------------------------------------------
// What rules say of narinfos
// ---------------------------------------------------------------------------
/// `value` is what `pattern` spells, read character by character: a star stands
/// for any number of characters, every other character for itself.
pub open spec fn spelled_by(pattern: Seq<char>, value: Seq<char>) -> bool
    decreases pattern.len() + value.len(),
{
    if pattern.len() == 0 {
        value.len() == 0
    } else if pattern[0] == '*' {
        spelled_by(pattern.skip(1), value) || (value.len() > 0 && spelled_by(
            pattern,
            value.skip(1),
        ))
    } else {
        value.len() > 0 && value[0] == pattern[0] && spelled_by(pattern.skip(1), value.skip(1))
    }
}

proof fn lemma_split_on_head(s: Seq<char>, c: char)
    requires
        s.len() > 0,
    ensures
        ({
            let pieces = split_on(s, c);
            let behind = split_on(s.skip(1), c);
            if s[0] == c {
                pieces == seq![Seq::<char>::empty()] + behind
            } else {
                pieces.len() == behind.len() && pieces[0] == seq![s[0]] + behind[0]
                    && pieces.skip(1) == behind.skip(1)
            }
        }),
{
    let rest = s.skip(1);
    lemma_run_before(s, c);
    lemma_run_before(rest, c);
    let n = run_before(s, c);
    if s[0] == c {
        assert(s.take(0) =~= Seq::<char>::empty());
        assert(split_on(s, c) =~= seq![Seq::<char>::empty()] + split_on(rest, c));
    } else {
        let m = run_before(rest, c);
        assert(n == m + 1);
        if n >= s.len() {
            assert(split_on(s, c) =~= seq![s]);
            assert(split_on(rest, c) =~= seq![rest]);
            assert(s =~= seq![s[0]] + rest);
        } else {
            assert(s.take(n as int) =~= seq![s[0]] + rest.take(m as int));
            assert(s.skip(n as int + 1) =~= rest.skip(m as int + 1));
        }
        assert(split_on(s, c).skip(1) =~= split_on(rest, c).skip(1));
    }
}

/// A pattern matches exactly what it spells, from the first character to the
/// last: a star any text, also the empty one, every other character itself alone.
pub proof fn law_patterns_match_what_they_spell(pattern: Seq<char>, value: Seq<char>)
    ensures
        wildcard_matches(pattern, value) <==> spelled_by(pattern, value),
    decreases pattern.len() + value.len(),
{
    let pieces = split_on(pattern, '*');
    lemma_split_on(pattern, '*');
    if pattern.len() == 0 {
        law_plain_pattern_matches_itself_alone(pattern, value);
        assert(value == pattern <==> value.len() == 0) by {
            if value.len() == 0 {
                assert(value =~= pattern);
            }
        }
    } else {
        let rest = pattern.skip(1);
        let behind = split_on(rest, '*');
        lemma_split_on_head(pattern, '*');
        lemma_split_on(rest, '*');
        if pattern[0] == '*' {
            assert(pieces.skip(1) =~= behind);
            law_patterns_match_what_they_spell(rest, value);
            if value.len() > 0 {
                law_patterns_match_what_they_spell(pattern, value.skip(1));
            }
            if wildcard_matches(pattern, value) {
                let gaps = choose|gaps: Seq<Seq<char>>|
                    gaps.len() + 1 == pieces.len() && value == #[trigger] stars_replaced(
                        pattern,
                        gaps,
                    );
                let tail = stars_replaced(rest, gaps.skip(1));
                assert(value =~= gaps[0] + tail);
                if gaps[0].len() == 0 {
                    assert(value =~= tail);
                    assert(wildcard_matches(rest, value));
                } else {
                    let fewer = gaps.update(0, gaps[0].skip(1));
                    assert(fewer.skip(1) =~= gaps.skip(1));
                    assert(value.skip(1) =~= stars_replaced(pattern, fewer));
                    assert(wildcard_matches(pattern, value.skip(1)));
                }
            }
            if wildcard_matches(rest, value) {
                let gaps = choose|gaps: Seq<Seq<char>>|
                    gaps.len() + 1 == behind.len() && value == #[trigger] stars_replaced(
                        rest,
                        gaps,
                    );
                let more = seq![Seq::<char>::empty()] + gaps;
                assert(more.skip(1) =~= gaps);
                assert(value =~= stars_replaced(pattern, more));
                assert(wildcard_matches(pattern, value));
            }
            if value.len() > 0 && wildcard_matches(pattern, value.skip(1)) {
                let gaps = choose|gaps: Seq<Seq<char>>|
                    gaps.len() + 1 == pieces.len() && value.skip(1) == #[trigger] stars_replaced(
                        pattern,
                        gaps,
                    );
                let more = gaps.update(0, seq![value[0]] + gaps[0]);
                assert(more.skip(1) =~= gaps.skip(1));
                assert(value =~= seq![value[0]] + value.skip(1));
                assert(value =~= stars_replaced(pattern, more));
                assert(wildcard_matches(pattern, value));
            }
        } else {
            if wildcard_matches(pattern, value) {
                let gaps = choose|gaps: Seq<Seq<char>>|
                    gaps.len() + 1 == pieces.len() && value == #[trigger] stars_replaced(
                        pattern,
                        gaps,
                    );
                let tail = stars_replaced(rest, gaps);
                assert(value =~= seq![pattern[0]] + tail);
                assert(value.skip(1) =~= tail);
                assert(wildcard_matches(rest, value.skip(1)));
                law_patterns_match_what_they_spell(rest, value.skip(1));
            }
            if spelled_by(pattern, value) {
                law_patterns_match_what_they_spell(rest, value.skip(1));
                let gaps = choose|gaps: Seq<Seq<char>>|
                    gaps.len() + 1 == behind.len() && value.skip(1) == #[trigger] stars_replaced(
                        rest,
                        gaps,
                    );
                assert(value =~= seq![value[0]] + value.skip(1));
                assert(value =~= stars_replaced(pattern, gaps));
                assert(wildcard_matches(pattern, value));
            }
        }
    }
}

/// A rule holds its pattern against the whole of the field that it names, as the
/// narinfo gives it: the store path, the deriver, or any one of the references. A
/// pattern without a star matches where it is that text, and nowhere else.
pub proof fn law_rules_match_their_own_field(rule: FilterRuleView, info: NarInfoView)
    ensures
        rule.field == FilterField::StorePath ==> (rule_matches(rule, info) <==> spelled_by(
            rule.pattern,
            info.store_path,
        )),
        rule.field == FilterField::Deriver ==> (rule_matches(rule, info) <==> spelled_by(
            rule.pattern,
            info.deriver,
        )),
        rule.field == FilterField::Reference ==> (rule_matches(rule, info) <==> exists|i: int|
            0 <= i < info.references.len() && spelled_by(
                rule.pattern,
                #[trigger] info.references[i],
            )),
        !rule.pattern.contains('*') ==> {
            &&& rule.field == FilterField::StorePath ==> (rule_matches(rule, info)
                <==> info.store_path == rule.pattern)
            &&& rule.field == FilterField::Deriver ==> (rule_matches(rule, info) <==> info.deriver
                == rule.pattern)
            &&& rule.field == FilterField::Reference ==> (rule_matches(rule, info)
                <==> info.references.contains(rule.pattern))
        },
{
    law_patterns_match_what_they_spell(rule.pattern, info.store_path);
    law_patterns_match_what_they_spell(rule.pattern, info.deriver);
    assert forall|i: int| 0 <= i < info.references.len() implies #[trigger] wildcard_matches(
        rule.pattern,
        info.references[i],
    ) == spelled_by(rule.pattern, info.references[i]) by {
        law_patterns_match_what_they_spell(rule.pattern, info.references[i]);
    }
    if rule.field == FilterField::Reference {
        if rule_matches(rule, info) {
            let i = choose|i: int|
                0 <= i < info.references.len() && #[trigger] wildcard_matches(
                    rule.pattern,
                    info.references[i],
                );
            assert(spelled_by(rule.pattern, info.references[i]));
        }
        if exists|i: int|
            0 <= i < info.references.len() && spelled_by(
                rule.pattern,
                #[trigger] info.references[i],
            ) {
            let i = choose|i: int|
                0 <= i < info.references.len() && spelled_by(
                    rule.pattern,
                    #[trigger] info.references[i],
                );
            assert(wildcard_matches(rule.pattern, info.references[i]));
        }
    }
    if !rule.pattern.contains('*') {
        law_plain_pattern_matches_itself_alone(rule.pattern, info.store_path);
        law_plain_pattern_matches_itself_alone(rule.pattern, info.deriver);
        assert forall|i: int| 0 <= i < info.references.len() implies #[trigger] wildcard_matches(
            rule.pattern,
            info.references[i],
        ) == (info.references[i] == rule.pattern) by {
            law_plain_pattern_matches_itself_alone(rule.pattern, info.references[i]);
        }
        if rule.field == FilterField::Reference && info.references.contains(rule.pattern) {
            let i = choose|i: int|
                0 <= i < info.references.len() && info.references[i] == rule.pattern;
            assert(wildcard_matches(rule.pattern, info.references[i]));
        }
    }
}

/// A rule on names looks at what stands behind the hash of the store path: of
/// `dir/hash-name`, at `name`, in which there may be further dashes. Where the last
/// segment has no dash, it looks at the whole of it.
pub proof fn law_name_rules_skip_the_hash(
    rule: FilterRuleView,
    info: NarInfoView,
    dir: Seq<char>,
    hash: Seq<char>,
    name: Seq<char>,
)
    requires
        rule.field == FilterField::Name,
        !hash.contains('-') && !hash.contains('/'),
        !name.contains('/'),
    ensures
        info.store_path == dir + seq!['/'] + hash + seq!['-'] + name ==> (rule_matches(rule, info)
            <==> spelled_by(rule.pattern, name)),
        info.store_path == dir + seq!['/'] + hash ==> (rule_matches(rule, info) <==> spelled_by(
            rule.pattern,
            hash,
        )),
{
    reveal_strlit("/");
    reveal_strlit("-");
    assert("-"@ =~= seq!['-']);
    if info.store_path == dir + seq!['/'] + hash + seq!['-'] + name {
        let base = hash + seq!['-'] + name;
        assert forall|i: int| 0 <= i < base.len() implies base[i] != '/' by {
            if i < hash.len() {
                assert(base[i] == hash[i]);
            } else if i > hash.len() {
                assert(base[i] == name[i - hash.len() - 1]);
            }
        }
        assert(info.store_path =~= dir + seq!['/'] + base);
        lemma_last_segment(dir, base);
        lemma_split_once_char(hash, "-"@, name);
        law_patterns_match_what_they_spell(rule.pattern, name);
    }
    if info.store_path == dir + seq!['/'] + hash {
        assert forall|i: int| 0 <= i < hash.len() implies hash[i] != '/' by {
            assert(hash.contains(hash[i]));
        }
        lemma_last_segment(dir, hash);
        lemma_find_from(hash, "-"@, 0);
        if find(hash, "-"@) is Some {
            let i = find(hash, "-"@)->0;
            assert(hash.subrange(i as int, i as int + 1)[0] == hash[i as int]);
            assert(hash.contains('-'));
        }
        law_patterns_match_what_they_spell(rule.pattern, hash);
    }
}

/// What no rule that denies matches is let through where no rule allows, or where
/// one that allows matches it.
pub proof fn law_what_is_allowed_passes(rules: Seq<FilterRuleView>, info: NarInfoView)
    requires
        forall|i: int|
            0 <= i < rules.len() && (#[trigger] rules[i]).action == FilterAction::Deny
                ==> !rule_matches(rules[i], info),
        (forall|i: int|
            0 <= i < rules.len() ==> (#[trigger] rules[i]).action != FilterAction::Allow) || exists|
            i: int,
        |
            0 <= i < rules.len() && (#[trigger] rules[i]).action == FilterAction::Allow
                && rule_matches(rules[i], info),
    ensures
        rules_allow(rules, info),
{
}

} // verus!
