//! Log levels: lists of directives such as `info,ncro=debug`.

use tracing_subscriber::EnvFilter;
use vstd::prelude::*;
use vstd::string::*;

use crate::text::{
    chars_of, is_white, lemma_run_before, lemma_run_before_is, owned, run_before, split_char,
    split_on, string_of, view_opt, views, white,
};

verus! {

// ---------------------------------------------------------------------------
// Bytes of characters
// ---------------------------------------------------------------------------
/// How many bytes UTF-8 has for `c`.
pub open spec fn width(c: char) -> nat {
    let u = c as u32;
    if u < 0x80 {
        1
    } else if u < 0x800 {
        2
    } else if u < 0x10000 {
        3
    } else {
        4
    }
}

/// How many bytes UTF-8 has for `s`.
pub open spec fn byte_len(s: Seq<char>) -> nat
    decreases s.len(),
{
    if s.len() == 0 {
        0
    } else {
        byte_len(s.drop_last()) + width(s.last())
    }
}

/// The byte `at` of `s` is where a character begins, or where `s` ends.
pub open spec fn starts_char(s: Seq<char>, at: nat) -> bool {
    exists|k: int| 0 <= k <= s.len() && #[trigger] byte_len(s.take(k)) == at
}

proof fn lemma_byte_len_grows(s: Seq<char>, a: int, b: int)
    requires
        0 <= a < b <= s.len(),
    ensures
        byte_len(s.take(a)) < byte_len(s.take(b)),
    decreases b - a,
{
    assert(s.take(b).drop_last() =~= s.take(b - 1));
    if a < b - 1 {
        lemma_byte_len_grows(s, a, b - 1);
    }
}

proof fn lemma_byte_len_split(s: Seq<char>, k: int, n: int)
    requires
        0 <= k <= n <= s.len(),
    ensures
        byte_len(s.take(n)) == byte_len(s.take(k)) + byte_len(s.subrange(k, n)),
    decreases n - k,
{
    if k == n {
        assert(s.subrange(k, n) =~= seq![]);
    } else {
        lemma_byte_len_split(s, k, n - 1);
        assert(s.take(n).drop_last() =~= s.take(n - 1));
        assert(s.subrange(k, n).drop_last() =~= s.subrange(k, n - 1));
    }
}

proof fn lemma_byte_len_bound(s: Seq<char>)
    ensures
        byte_len(s) <= 4 * s.len(),
    decreases s.len(),
{
    if s.len() > 0 {
        lemma_byte_len_bound(s.drop_last());
    }
}

fn width_of(c: char) -> (out: u128)
    ensures
        out == width(c),
{
    let u: u32 = c as u32;
    if u < 0x80 {
        1
    } else if u < 0x800 {
        2
    } else if u < 0x10000 {
        3
    } else {
        4
    }
}

fn char_starts(v: &Vec<char>, at: u128) -> (yes: bool)
    ensures
        yes == starts_char(v@, at as nat),
{
    let n: usize = v.len();
    let mut i: usize = 0;
    let mut sum: u128 = 0;
    assert(v@.take(0) =~= seq![]);
    while i < n
        invariant
            i <= n,
            n == v@.len(),
            sum == byte_len(v@.take(i as int)),
            forall|k: int| 0 <= k < i ==> #[trigger] byte_len(v@.take(k)) != at,
        decreases n - i,
    {
        if sum == at {
            return true;
        }
        assert(v@.take(i + 1).drop_last() =~= v@.take(i as int));
        proof {
            lemma_byte_len_bound(v@.take(i + 1));
        }
        sum = sum + width_of(v[i]);
        i = i + 1;
    }
    sum == at
}

// ---------------------------------------------------------------------------
// Reading a directive
// ---------------------------------------------------------------------------
/// What the parser of directives is reading.
#[derive(Debug, Clone, Copy, PartialEq, Eq, Structural)]
pub enum Reading {
    Start,
    /// A target or a level.
    Word,
    /// The name of a span.
    Span,
    /// A field of a span.
    Field,
    /// The end of a span, behind its field.
    Fields,
    /// What stands behind a span.
    Target,
    /// The level behind an equals sign.
    Level,
    /// Nothing more: this is no directive.
    Refused,
    /// Nothing more: a part would have been cut out that begins or ends inside a
    /// character.
    Torn,
}

/// What is read behind the character `c`: `here` says that a part may end before
/// it, `behind` that one may begin behind it.
pub open spec fn read_on(reading: Reading, c: char, here: bool, behind: bool) -> Reading {
    match reading {
        Reading::Start => if c == '[' {
            cut(behind, Reading::Span)
        } else {
            Reading::Word
        },
        Reading::Word => if c == '=' {
            cut(here && behind, Reading::Level)
        } else if c == '[' {
            cut(here && behind, Reading::Span)
        } else {
            Reading::Word
        },
        Reading::Span => if c == ']' {
            cut(here, Reading::Target)
        } else if c == '{' {
            cut(here && behind, Reading::Field)
        } else {
            Reading::Span
        },
        Reading::Field => if c == '}' {
            cut(here, Reading::Fields)
        } else {
            Reading::Field
        },
        Reading::Fields => if c == ']' {
            Reading::Target
        } else {
            Reading::Refused
        },
        Reading::Target => if c == '=' {
            cut(behind, Reading::Level)
        } else {
            Reading::Refused
        },
        Reading::Level => Reading::Level,
        Reading::Refused => Reading::Refused,
        Reading::Torn => Reading::Torn,
    }
}

/// What is read behind a cut that is `whole` or not.
pub open spec fn cut(whole: bool, next: Reading) -> Reading {
    if whole {
        next
    } else {
        Reading::Torn
    }
}

/// How many characters of white space `s` begins with.
pub open spec fn leading_white(s: Seq<char>) -> nat
    decreases s.len(),
{
    if s.len() == 0 || !is_white(s[0]) {
        0
    } else {
        1 + leading_white(s.skip(1))
    }
}

/// What is read of `s` behind the `n` characters that follow its first `k`, which
/// are white space. The parser counts bytes from behind that white space, and cuts
/// `s` at these counts.
pub open spec fn read_of(s: Seq<char>, k: int, n: nat) -> Reading
    decreases n,
{
    if n == 0 {
        Reading::Start
    } else {
        let at = byte_len(s.subrange(k, k + n - 1));
        read_on(
            read_of(s, k, (n - 1) as nat),
            s[k + n - 1],
            starts_char(s, at),
            starts_char(s, at + 1),
        )
    }
}

/// Reading `directive` ends at a cut inside a character.
pub open spec fn torn(directive: Seq<char>) -> bool {
    let k = leading_white(directive);
    read_of(directive, k as int, (directive.len() - k) as nat) == Reading::Torn
}

/// Where the field ends that is read among the `n` characters of `s` behind its
/// first `k`; 0 where none is.
pub open spec fn field_end(s: Seq<char>, k: int, n: nat) -> int
    decreases n,
{
    if n == 0 {
        0
    } else if read_of(s, k, n) == Reading::Fields {
        k + n
    } else {
        field_end(s, k, (n - 1) as nat)
    }
}

/// What is read of a torn directive before the cut that tears it and can be wrong
/// by itself: what there is up to the end of a field.
pub open spec fn whole_part(directive: Seq<char>) -> Seq<char> {
    let k = leading_white(directive);
    directive.take(field_end(directive, k as int, (directive.len() - k) as nat))
}

proof fn lemma_leading_white(s: Seq<char>)
    ensures
        leading_white(s) <= s.len(),
        forall|i: int| 0 <= i < leading_white(s) ==> is_white(#[trigger] s[i]),
        leading_white(s) < s.len() ==> !is_white(s[leading_white(s) as int]),
    decreases s.len(),
{
    if s.len() > 0 && is_white(s[0]) {
        lemma_leading_white(s.skip(1));
        assert forall|i: int| 0 <= i < leading_white(s) implies is_white(#[trigger] s[i]) by {
            if i > 0 {
                assert(s.skip(1)[i - 1] == s[i]);
            }
        }
    }
}

proof fn lemma_leading_white_is(s: Seq<char>, k: nat)
    requires
        k <= s.len(),
        forall|i: int| 0 <= i < k ==> is_white(#[trigger] s[i]),
        k < s.len() ==> !is_white(s[k as int]),
    ensures
        leading_white(s) == k,
{
    lemma_leading_white(s);
    let m = leading_white(s);
    if m < k {
        assert(is_white(s[m as int]));
    } else if k < m {
        assert(is_white(s[k as int]));
    }
}

proof fn lemma_same_starts(s: Seq<char>, e: int, at: nat)
    requires
        0 <= e <= s.len(),
        at <= byte_len(s.take(e)),
    ensures
        starts_char(s.take(e), at) == starts_char(s, at),
{
    let t = s.take(e);
    if starts_char(t, at) {
        let k = choose|k: int| 0 <= k <= t.len() && #[trigger] byte_len(t.take(k)) == at;
        assert(t.take(k) =~= s.take(k));
    }
    if starts_char(s, at) {
        let k = choose|k: int| 0 <= k <= s.len() && #[trigger] byte_len(s.take(k)) == at;
        if k > e {
            lemma_byte_len_grows(s, e, k);
        }
        assert(t.take(k) =~= s.take(k));
    }
}

/// The first characters of a directive are read alike whatever follows them.
proof fn lemma_read_alike(s: Seq<char>, k: int, n: nat, e: int)
    requires
        0 <= k,
        k + n <= e <= s.len(),
    ensures
        read_of(s.take(e), k, n) == read_of(s, k, n),
    decreases n,
{
    if n > 0 {
        let t = s.take(e);
        let last = k + n - 1;
        lemma_read_alike(s, k, (n - 1) as nat, e);
        assert(t.subrange(k, last) =~= s.subrange(k, last));
        let at = byte_len(s.subrange(k, last));
        lemma_byte_len_split(s, k, last);
        lemma_byte_len_grows(s, last, last + 1);
        if last + 1 < e {
            lemma_byte_len_grows(s, last + 1, e);
        }
        lemma_same_starts(s, e, at);
        lemma_same_starts(s, e, at + 1);
    }
}

proof fn lemma_field_end(s: Seq<char>, k: int, n: nat)
    ensures
        field_end(s, k, n) == 0 || exists|m: nat|
            0 < m <= n && field_end(s, k, n) == k + m && #[trigger] read_of(s, k, m)
                == Reading::Fields,
    decreases n,
{
    if n > 0 && read_of(s, k, n) != Reading::Fields {
        lemma_field_end(s, k, (n - 1) as nat);
    }
}

proof fn lemma_whole_part_is_whole(directive: Seq<char>)
    ensures
        0 <= field_end(
            directive,
            leading_white(directive) as int,
            (directive.len() - leading_white(directive)) as nat,
        ) <= directive.len(),
        !torn(whole_part(directive)),
{
    let k = leading_white(directive);
    let all = (directive.len() - k) as nat;
    let e = field_end(directive, k as int, all);
    lemma_leading_white(directive);
    lemma_field_end(directive, k as int, all);
    let part = directive.take(e);
    if e == 0 {
        assert(leading_white(part) == 0);
    } else {
        let m = choose|m: nat|
            0 < m <= all && e == k + m && #[trigger] read_of(directive, k as int, m)
                == Reading::Fields;
        assert forall|i: int| 0 <= i < k implies is_white(#[trigger] part[i]) by {
            assert(is_white(directive[i]));
        }
        lemma_leading_white_is(part, k);
        lemma_read_alike(directive, k as int, m, e);
    }
}

/// A directive that does not begin with white space is read as it stands.
pub proof fn law_only_white_space_tears(directive: Seq<char>)
    requires
        directive.len() > 0 ==> !is_white(directive[0]),
    ensures
        !torn(directive),
{
    assert(leading_white(directive) == 0);
    lemma_never_torn(directive, directive.len());
}

proof fn lemma_never_torn(s: Seq<char>, n: nat)
    requires
        n <= s.len(),
    ensures
        read_of(s, 0, n) != Reading::Torn,
    decreases n,
{
    if n > 0 {
        lemma_never_torn(s, (n - 1) as nat);
        let at = byte_len(s.subrange(0, n - 1));
        assert(s.subrange(0, n - 1) =~= s.take(n - 1));
        assert(starts_char(s, at));
        assert(s.take(n as int).drop_last() =~= s.take(n - 1));
        if width(s[n - 1]) == 1 {
            assert(byte_len(s.take(n as int)) == at + 1);
            assert(starts_char(s, at + 1));
        }
    }
}

fn read_next(reading: Reading, c: char, here: bool, behind: bool) -> (out: Reading)
    ensures
        out == read_on(reading, c, here, behind),
{
    let (whole, next): (bool, Reading) = match reading {
        Reading::Start => if c == '[' {
            (behind, Reading::Span)
        } else {
            (true, Reading::Word)
        },
        Reading::Word => if c == '=' {
            (here && behind, Reading::Level)
        } else if c == '[' {
            (here && behind, Reading::Span)
        } else {
            (true, Reading::Word)
        },
        Reading::Span => if c == ']' {
            (here, Reading::Target)
        } else if c == '{' {
            (here && behind, Reading::Field)
        } else {
            (true, Reading::Span)
        },
        Reading::Field => if c == '}' {
            (here, Reading::Fields)
        } else {
            (true, Reading::Field)
        },
        Reading::Fields => if c == ']' {
            (true, Reading::Target)
        } else {
            (true, Reading::Refused)
        },
        Reading::Target => if c == '=' {
            (behind, Reading::Level)
        } else {
            (true, Reading::Refused)
        },
        Reading::Level => (true, Reading::Level),
        Reading::Refused => (true, Reading::Refused),
        Reading::Torn => (true, Reading::Torn),
    };
    if whole {
        next
    } else {
        Reading::Torn
    }
}

/// The whole part of a directive that is torn; none where it is not.
fn torn_part(directive: &str) -> (out: Option<String>)
    ensures
        match out {
            Some(part) => torn(directive@) && part@ == whole_part(directive@),
            None => !torn(directive@),
        },
{
    let v: Vec<char> = chars_of(directive);
    let n: usize = v.len();
    let mut k: usize = 0;
    while k < n && white(v[k])
        invariant
            k <= n,
            n == v@.len(),
            forall|i: int| 0 <= i < k ==> is_white(#[trigger] v@[i]),
        decreases n - k,
    {
        k = k + 1;
    }
    proof {
        lemma_leading_white_is(directive@, k as nat);
    }
    let mut reading: Reading = Reading::Start;
    let mut end: usize = 0;
    let mut at: u128 = 0;
    let mut i: usize = k;
    assert(v@.subrange(k as int, k as int) =~= seq![]);
    while i < n
        invariant
            k <= i <= n,
            n == v@.len(),
            at == byte_len(v@.subrange(k as int, i as int)),
            reading == read_of(v@, k as int, (i - k) as nat),
            end == field_end(v@, k as int, (i - k) as nat),
            end <= n,
        decreases n - i,
    {
        proof {
            lemma_byte_len_bound(v@.subrange(k as int, i as int));
            assert(v@.subrange(k as int, i + 1).drop_last() =~= v@.subrange(k as int, i as int));
        }
        let here: bool = char_starts(&v, at);
        let behind: bool = char_starts(&v, at + 1);
        reading = read_next(reading, v[i], here, behind);
        at = at + width_of(v[i]);
        i = i + 1;
        if reading == Reading::Fields {
            end = i;
        }
    }
    if reading == Reading::Torn {
        assert(v@.subrange(0, end as int) =~= v@.take(end as int));
        Some(string_of(&v, 0, end))
    } else {
        None
    }
}

// ---------------------------------------------------------------------------
// Levels
// ---------------------------------------------------------------------------
/// None of the directives of `level` is torn.
pub open spec fn is_whole(level: Seq<char>) -> bool {
    forall|i: int| 0 <= i < split_on(level, ',').len() ==> !torn(#[trigger] split_on(level, ',')[i])
}

/// What `EnvFilter::try_new` says is wrong with a filter directive, if anything.
pub uninterp spec fn filter_error(level: Seq<char>) -> Option<Seq<char>>;

/// `EnvFilter::try_new` of tracing-subscriber: what its error says, where it
/// gives one. Which directives are valid is named, not stated. It panics where a
/// directive is torn.
#[verifier::external_body]
pub(crate) fn try_filter(level: &str) -> (out: Option<String>)
    requires
        is_whole(level@),
    ensures
        view_opt(out) == filter_error(level@),
{
    EnvFilter::try_new(level).err().map(|e| e.to_string())
}

/// What is read of `directives` before the first that is torn is cut.
pub open spec fn read_before(directives: Seq<Seq<char>>) -> Seq<char>
    decreases directives.len(),
{
    if directives.len() == 0 {
        seq![]
    } else if torn(directives[0]) {
        whole_part(directives[0])
    } else {
        directives[0] + ","@ + read_before(directives.skip(1))
    }
}

/// Why a log level is no list of filter directives, if it is none. One with a torn
/// directive is none either: what is wrong is what is wrong before the cut, or else
/// the cut itself.
pub open spec fn level_error(level: Seq<char>) -> Option<Seq<char>> {
    if is_whole(level) {
        filter_error(level)
    } else {
        match filter_error(read_before(split_on(level, ','))) {
            Some(e) => Some(e),
            None => Some("invalid filter directive"@),
        }
    }
}

proof fn lemma_split_free(s: Seq<char>, c: char)
    ensures
        split_on(s, c).len() > 0,
        forall|i: int| 0 <= i < split_on(s, c).len() ==> !(#[trigger] split_on(s, c)[i]).contains(c),
    decreases s.len(),
{
    let n = run_before(s, c);
    lemma_run_before(s, c);
    if n < s.len() {
        let first = s.take(n as int);
        let rest = s.skip(n as int + 1);
        lemma_split_free(rest, c);
        assert(!first.contains(c));
        assert forall|i: int| 0 <= i < split_on(s, c).len() implies !(#[trigger] split_on(
            s,
            c,
        )[i]).contains(c) by {
            if i > 0 {
                assert(split_on(s, c)[i] == split_on(rest, c)[i - 1]);
            }
        }
    }
}

proof fn lemma_split_one(s: Seq<char>, c: char)
    requires
        !s.contains(c),
    ensures
        split_on(s, c) == seq![s],
{
    assert forall|i: int| 0 <= i < s.len() implies s[i] != c by {
        assert(s.contains(s[i]));
    }
    lemma_run_before_is(s, c, s.len());
}

proof fn lemma_split_first(a: Seq<char>, c: char, rest: Seq<char>)
    requires
        !a.contains(c),
    ensures
        split_on(a + seq![c] + rest, c) == seq![a] + split_on(rest, c),
{
    let s = a + seq![c] + rest;
    assert forall|i: int| 0 <= i < a.len() implies s[i] != c by {
        assert(a.contains(a[i]));
    }
    assert(s[a.len() as int] == c);
    lemma_run_before_is(s, c, a.len());
    assert(s.take(a.len() as int) =~= a);
    assert(s.skip(a.len() as int + 1) =~= rest);
}

proof fn lemma_read_before_is_whole(directives: Seq<Seq<char>>)
    requires
        forall|i: int| 0 <= i < directives.len() ==> !(#[trigger] directives[i]).contains(','),
    ensures
        is_whole(read_before(directives)),
    decreases directives.len(),
{
    let text = read_before(directives);
    if directives.len() == 0 {
        lemma_split_one(text, ',');
        assert(leading_white(text) == 0);
    } else if torn(directives[0]) {
        let first = directives[0];
        lemma_whole_part_is_whole(first);
        assert forall|i: int| 0 <= i < text.len() implies text[i] != ',' by {
            assert(first.contains(first[i]));
        }
        lemma_split_one(text, ',');
    } else {
        let first = directives[0];
        let rest = directives.skip(1);
        assert forall|i: int| 0 <= i < rest.len() implies !(#[trigger] rest[i]).contains(',') by {
            assert(rest[i] == directives[i + 1]);
        }
        lemma_read_before_is_whole(rest);
        reveal_strlit(",");
        assert(","@ =~= seq![',']);
        lemma_split_first(first, ',', read_before(rest));
        let pieces = split_on(text, ',');
        assert forall|i: int| 0 <= i < pieces.len() implies !torn(#[trigger] pieces[i]) by {
            if i > 0 {
                assert(pieces[i] == split_on(read_before(rest), ',')[i - 1]);
            }
        }
    }
}

/// Why a log level is no list of filter directives, if it is none.
pub fn find_level_error(level: &str) -> (out: Option<String>)
    ensures
        view_opt(out) == level_error(level@),
{
    let pieces: Vec<String> = split_char(level, ',');
    let ghost ps = split_on(level@, ',');
    let n: usize = pieces.len();
    let mut before: String = String::new();
    let mut i: usize = 0;
    assert(ps.skip(0) =~= ps);
    assert(before@ + read_before(ps) =~= read_before(ps));
    proof {
        lemma_split_free(level@, ',');
        lemma_read_before_is_whole(ps);
    }
    while i < n
        invariant
            i <= n,
            n == pieces@.len(),
            ps == views(pieces@),
            ps == split_on(level@, ','),
            is_whole(read_before(ps)),
            read_before(ps) == before@ + read_before(ps.skip(i as int)),
            forall|j: int| 0 <= j < i ==> !torn(#[trigger] ps[j]),
        decreases n - i,
    {
        let ghost said = before@;
        let ghost left = ps.skip(i as int);
        assert(left[0] == pieces@[i as int]@);
        assert(ps[i as int] == pieces@[i as int]@);
        assert(left.skip(1) =~= ps.skip(i + 1));
        match torn_part(pieces[i].as_str()) {
            Some(part) => {
                before.append(part.as_str());
                return match try_filter(before.as_str()) {
                    Some(e) => Some(e),
                    None => Some(owned("invalid filter directive")),
                };
            },
            None => {},
        }
        before.append(pieces[i].as_str());
        before.append(",");
        assert(before@ + read_before(ps.skip(i + 1)) =~= said + read_before(left));
        i = i + 1;
    }
    try_filter(level)
}

/// A log level of which no directive begins with white space is right or wrong as
/// the parser finds it. One with a torn directive is always wrong.
pub proof fn law_levels_are_what_the_parser_says(level: Seq<char>)
    ensures
        (forall|i: int|
            0 <= i < split_on(level, ',').len() && (#[trigger] split_on(level, ',')[i]).len() > 0
                ==> !is_white(split_on(level, ',')[i][0])) ==> level_error(level) == filter_error(
            level,
        ),
        (exists|i: int|
            0 <= i < split_on(level, ',').len() && torn(#[trigger] split_on(level, ',')[i]))
            ==> level_error(level) is Some,
{
    let pieces = split_on(level, ',');
    if forall|i: int|
        0 <= i < pieces.len() && (#[trigger] pieces[i]).len() > 0 ==> !is_white(pieces[i][0]) {
        assert forall|i: int| 0 <= i < pieces.len() implies !torn(#[trigger] pieces[i]) by {
            law_only_white_space_tears(pieces[i]);
        }
    }
}

} // verus!
