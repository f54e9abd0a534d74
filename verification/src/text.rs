//! Character sequences: the string operations that the rest of the crate is
//! written with, each specified over `Seq<char>`.

use vstd::prelude::*;
use vstd::string::*;

verus! {

/// `String::push` appends the character.
pub assume_specification[ String::push ](s: &mut String, c: char)
    ensures
        final(s)@ == old(s)@.push(c),
;

/// The contents of each string of a list.
pub open spec fn views(list: Seq<String>) -> Seq<Seq<char>> {
    Seq::new(list.len(), |i: int| list[i]@)
}

/// The content of an optional string.
pub open spec fn view_opt(s: Option<String>) -> Option<Seq<char>> {
    match s {
        Some(t) => Some(t@),
        None => None,
    }
}

// ---------------------------------------------------------------------------
// Conversions
// ---------------------------------------------------------------------------
/// The characters of `s`, in order.
pub fn chars_of(s: &str) -> (out: Vec<char>)
    ensures
        out@ == s@,
{
    let mut out: Vec<char> = Vec::new();
    for c in it: s.chars()
        invariant
            it.seq() == s@,
            out@ == it.seq().take(it.index() as int),
    {
        out.push(c);
    }
    out
}

/// The characters of `v` from `from` up to `to`, as a string.
pub fn string_of(v: &Vec<char>, from: usize, to: usize) -> (out: String)
    requires
        from <= to <= v@.len(),
    ensures
        out@ == v@.subrange(from as int, to as int),
{
    let mut out: String = String::new();
    let mut i: usize = from;
    while i < to
        invariant
            from <= i <= to <= v@.len(),
            out@ == v@.subrange(from as int, i as int),
        decreases to - i,
    {
        out.push(v[i]);
        i = i + 1;
        assert(v@.subrange(from as int, i as int) =~= v@.subrange(from as int, i - 1).push(
            v@[i - 1],
        ));
    }
    out
}

/// The part of `s`, whose characters are `v`, from one position to another.
pub fn part<'a>(s: &'a str, v: &Vec<char>, from: usize, to: usize) -> (out: &'a str)
    requires
        v@ == s@,
        from <= to <= v@.len(),
    ensures
        out@ == s@.subrange(from as int, to as int),
        to == v@.len() ==> out@ == s@.skip(from as int),
        from == 0 ==> out@ == s@.take(to as int),
{
    let out: &str = s.substring_char(from, to);
    assert(to == v@.len() ==> out@ =~= s@.skip(from as int));
    assert(from == 0 ==> out@ =~= s@.take(to as int));
    out
}

/// A string that holds `s`.
pub fn owned(s: &str) -> (out: String)
    ensures
        out@ == s@,
{
    s.to_owned()
}

/// A copy of an optional string.
pub fn copy_opt(s: &Option<String>) -> (out: Option<String>)
    ensures
        out == s,
{
    match s {
        Some(t) => Some(t.clone()),
        None => None,
    }
}

/// A copy of a list of strings.
pub fn copy_strings(list: &Vec<String>) -> (out: Vec<String>)
    ensures
        out@ == list@,
{
    let mut out: Vec<String> = Vec::new();
    let mut i: usize = 0;
    while i < list.len()
        invariant
            i <= list@.len(),
            out@ == list@.take(i as int),
        decreases list@.len() - i,
    {
        out.push(list[i].clone());
        i = i + 1;
        assert(list@.take(i as int) =~= list@.take(i - 1).push(list@[i - 1]));
    }
    assert(list@.take(i as int) =~= list@);
    out
}

// ---------------------------------------------------------------------------
// Comparison
// ---------------------------------------------------------------------------
fn same_chars(a: &Vec<char>, b: &Vec<char>) -> (same: bool)
    ensures
        same == (a@ == b@),
{
    if a.len() != b.len() {
        return false;
    }
    let mut i: usize = 0;
    while i < a.len()
        invariant
            i <= a@.len(),
            a@.len() == b@.len(),
            forall|j: int| 0 <= j < i ==> a@[j] == b@[j],
        decreases a@.len() - i,
    {
        if a[i] != b[i] {
            assert(a@[i as int] != b@[i as int]);
            return false;
        }
        i = i + 1;
    }
    assert(a@ =~= b@);
    true
}

/// Whether two strings hold the same characters.
pub fn same_text(a: &str, b: &str) -> (same: bool)
    ensures
        same == (a@ == b@),
{
    same_chars(&chars_of(a), &chars_of(b))
}

/// Whether `list` holds `s`.
pub fn list_contains(list: &Vec<String>, s: &str) -> (found: bool)
    ensures
        found == views(list@).contains(s@),
{
    let mut i: usize = 0;
    while i < list.len()
        invariant
            i <= list@.len(),
            forall|j: int| 0 <= j < i ==> (#[trigger] list@[j])@ != s@,
        decreases list@.len() - i,
    {
        if same_text(list[i].as_str(), s) {
            assert(views(list@)[i as int] == s@);
            return true;
        }
        i = i + 1;
    }
    assert forall|j: int| 0 <= j < views(list@).len() implies views(list@)[j] != s@ by {
        assert(list@[j]@ != s@);
    }
    false
}

/// The order of strings: character by character, a proper prefix first.
pub open spec fn text_le(a: Seq<char>, b: Seq<char>) -> bool
    decreases a.len(),
{
    if a.len() == 0 {
        true
    } else if b.len() == 0 {
        false
    } else if a[0] != b[0] {
        a[0] < b[0]
    } else {
        text_le(a.skip(1), b.skip(1))
    }
}

/// Whether `a` comes no later than `b` in the order of strings.
pub fn text_at_most(a: &str, b: &str) -> (le: bool)
    ensures
        le == text_le(a@, b@),
{
    let x: Vec<char> = chars_of(a);
    let y: Vec<char> = chars_of(b);
    let mut i: usize = 0;
    assert(x@.skip(0) =~= x@);
    assert(y@.skip(0) =~= y@);
    while i < x.len() && i < y.len()
        invariant
            x@ == a@,
            y@ == b@,
            i <= x@.len(),
            i <= y@.len(),
            text_le(x@, y@) == text_le(x@.skip(i as int), y@.skip(i as int)),
        decreases x@.len() - i,
    {
        assert(x@.skip(i as int).skip(1) =~= x@.skip(i + 1));
        assert(y@.skip(i as int).skip(1) =~= y@.skip(i + 1));
        if x[i] != y[i] {
            return x[i] < y[i];
        }
        i = i + 1;
    }
    i == x.len()
}

/// The order of strings is total.
pub proof fn lemma_text_le_total(a: Seq<char>, b: Seq<char>)
    ensures
        text_le(a, b) || text_le(b, a),
    decreases a.len(),
{
    if a.len() > 0 && b.len() > 0 && a[0] == b[0] {
        lemma_text_le_total(a.skip(1), b.skip(1));
    }
}

/// The order of strings is transitive.
pub proof fn lemma_text_le_transitive(a: Seq<char>, b: Seq<char>, c: Seq<char>)
    requires
        text_le(a, b),
        text_le(b, c),
    ensures
        text_le(a, c),
    decreases a.len(),
{
    if a.len() > 0 && b.len() > 0 && c.len() > 0 && a[0] == b[0] && b[0] == c[0] {
        lemma_text_le_transitive(a.skip(1), b.skip(1), c.skip(1));
    }
}

/// Two strings that come no later than each other are the same.
pub proof fn lemma_text_le_antisymmetric(a: Seq<char>, b: Seq<char>)
    requires
        text_le(a, b),
        text_le(b, a),
    ensures
        a == b,
    decreases a.len(),
{
    if a.len() > 0 && b.len() > 0 {
        lemma_text_le_antisymmetric(a.skip(1), b.skip(1));
        assert(a =~= seq![a[0]] + a.skip(1));
        assert(b =~= seq![b[0]] + b.skip(1));
    } else {
        assert(a =~= b);
    }
}

// ---------------------------------------------------------------------------
// Prefixes, suffixes, occurrences
// ---------------------------------------------------------------------------
/// `s` begins with `p`.
pub open spec fn has_prefix(s: Seq<char>, p: Seq<char>) -> bool {
    p.len() <= s.len() && s.take(p.len() as int) == p
}

/// `s` ends with `p`.
pub open spec fn has_suffix(s: Seq<char>, p: Seq<char>) -> bool {
    p.len() <= s.len() && s.skip(s.len() - p.len()) == p
}

/// `p` occurs in `s` at position `i`.
pub open spec fn occurs_at(s: Seq<char>, p: Seq<char>, i: int) -> bool {
    0 <= i && i + p.len() <= s.len() && s.subrange(i, i + p.len()) == p
}

/// The first position at or after `from` at which `p` occurs in `s`.
pub open spec fn find_from(s: Seq<char>, p: Seq<char>, from: nat) -> Option<nat>
    decreases s.len() + 1 - from,
{
    if from + p.len() > s.len() {
        None
    } else if s.subrange(from as int, (from + p.len()) as int) == p {
        Some(from)
    } else {
        find_from(s, p, from + 1)
    }
}

/// The first position at which `p` occurs in `s`.
pub open spec fn find(s: Seq<char>, p: Seq<char>) -> Option<nat> {
    find_from(s, p, 0)
}

/// What comes before and what comes after the first occurrence of `p`.
pub open spec fn split_once(s: Seq<char>, p: Seq<char>) -> Option<(Seq<char>, Seq<char>)> {
    match find(s, p) {
        Some(i) => Some((s.take(i as int), s.skip((i + p.len()) as int))),
        None => None,
    }
}

/// `find_from` gives the least position at or after `from` at which `p` occurs.
pub proof fn lemma_find_from(s: Seq<char>, p: Seq<char>, from: nat)
    ensures
        match find_from(s, p, from) {
            Some(i) => from <= i && occurs_at(s, p, i as int) && forall|j: int|
                from <= j < i ==> !occurs_at(s, p, j),
            None => forall|j: int| from <= j ==> !occurs_at(s, p, j),
        },
    decreases s.len() + 1 - from,
{
    if from + p.len() <= s.len() && s.subrange(from as int, (from + p.len()) as int) != p {
        lemma_find_from(s, p, from + 1);
    }
}

/// The least position at which `p` occurs is the one that `find_from` gives.
pub proof fn lemma_find_from_is(s: Seq<char>, p: Seq<char>, from: nat, at: nat)
    requires
        from <= at,
        occurs_at(s, p, at as int),
        forall|j: int| from <= j < at ==> !occurs_at(s, p, j),
    ensures
        find_from(s, p, from) == Some(at),
{
    lemma_find_from(s, p, from);
}

/// A text splits at the first occurrence of a one-character separator.
pub proof fn lemma_split_once_char(a: Seq<char>, p: Seq<char>, b: Seq<char>)
    requires
        p.len() == 1,
        !a.contains(p[0]),
    ensures
        split_once(a + p + b, p) == Some((a, b)),
{
    let s = a + p + b;
    assert(s.subrange(a.len() as int, a.len() as int + 1) =~= p);
    assert forall|j: int| 0 <= j < a.len() implies !occurs_at(s, p, j) by {
        if occurs_at(s, p, j) {
            assert(s.subrange(j, j + 1)[0] == a[j]);
            assert(a.contains(p[0]));
        }
    }
    lemma_find_from_is(s, p, 0, a.len());
    assert(s.take(a.len() as int) =~= a);
    assert(s.skip(a.len() as int + 1) =~= b);
}

fn occurs_here(s: &Vec<char>, p: &Vec<char>, at: usize) -> (yes: bool)
    requires
        at <= s@.len(),
    ensures
        yes == occurs_at(s@, p@, at as int),
{
    if p.len() > s.len() - at {
        return false;
    }
    let n: usize = s.len();
    let mut i: usize = 0;
    while i < p.len()
        invariant
            i <= p@.len(),
            n == s@.len(),
            at + p@.len() <= n,
            forall|j: int| 0 <= j < i ==> s@[at + j] == p@[j],
        decreases p@.len() - i,
    {
        if s[at + i] != p[i] {
            assert(s@.subrange(at as int, at + p@.len())[i as int] != p@[i as int]);
            return false;
        }
        i = i + 1;
    }
    assert(s@.subrange(at as int, at + p@.len()) =~= p@);
    true
}

/// The first position at or after `from` at which `p` occurs in `s`.
pub fn find_chars(s: &Vec<char>, p: &Vec<char>, from: usize) -> (at: Option<usize>)
    ensures
        match at {
            Some(i) => find_from(s@, p@, from as nat) == Some(i as nat),
            None => find_from(s@, p@, from as nat) is None,
        },
        at matches Some(i) ==> from <= i && i + p@.len() <= s@.len(),
{
    let mut i: usize = from;
    while i <= s.len() && p.len() <= s.len() - i
        invariant
            from <= i,
            find_from(s@, p@, from as nat) == find_from(s@, p@, i as nat),
        decreases s@.len() + 1 - i,
    {
        if occurs_here(s, p, i) {
            return Some(i);
        }
        if i == s.len() {
            assert(s@.subrange(i as int, i as int) =~= p@);
            return None;
        }
        i = i + 1;
    }
    None
}

/// Whether `s` begins with `p`.
pub fn starts_with(s: &str, p: &str) -> (yes: bool)
    ensures
        yes == has_prefix(s@, p@),
{
    let yes: bool = occurs_here(&chars_of(s), &chars_of(p), 0);
    assert(p@.len() <= s@.len() ==> s@.subrange(0, p@.len() as int) =~= s@.take(p@.len() as int));
    yes
}

/// Whether `s` ends with `p`.
pub fn ends_with(s: &str, p: &str) -> (yes: bool)
    ensures
        yes == has_suffix(s@, p@),
{
    let x: Vec<char> = chars_of(s);
    let y: Vec<char> = chars_of(p);
    if y.len() > x.len() {
        return false;
    }
    assert(s@.subrange(s@.len() - p@.len(), s@.len() as int) =~= s@.skip(s@.len() - p@.len()));
    occurs_here(&x, &y, x.len() - y.len())
}

/// Whether `p` occurs in `s`.
pub fn contains(s: &str, p: &str) -> (yes: bool)
    ensures
        yes == (find(s@, p@) is Some),
{
    find_chars(&chars_of(s), &chars_of(p), 0).is_some()
}

/// Whether the character `c` occurs in `s`.
pub fn contains_char(s: &str, c: char) -> (yes: bool)
    ensures
        yes == s@.contains(c),
{
    let v: Vec<char> = chars_of(s);
    let mut i: usize = 0;
    while i < v.len()
        invariant
            i <= v@.len(),
            v@ == s@,
            forall|j: int| 0 <= j < i ==> v@[j] != c,
        decreases v@.len() - i,
    {
        if v[i] == c {
            assert(s@[i as int] == c);
            return true;
        }
        i = i + 1;
    }
    false
}

/// What is left of `s` behind the prefix `p`.
pub fn strip_prefix(s: &str, p: &str) -> (rest: Option<String>)
    ensures
        match rest {
            Some(r) => has_prefix(s@, p@) && r@ == s@.skip(p@.len() as int),
            None => !has_prefix(s@, p@),
        },
{
    let x: Vec<char> = chars_of(s);
    let y: Vec<char> = chars_of(p);
    assert(p@.len() <= s@.len() ==> s@.subrange(0, p@.len() as int) =~= s@.take(p@.len() as int));
    if occurs_here(&x, &y, 0) {
        let rest: String = string_of(&x, y.len(), x.len());
        assert(s@.subrange(p@.len() as int, s@.len() as int) =~= s@.skip(p@.len() as int));
        Some(rest)
    } else {
        None
    }
}

/// What is left of `s` before the suffix `p`.
pub fn strip_suffix(s: &str, p: &str) -> (rest: Option<String>)
    ensures
        match rest {
            Some(r) => has_suffix(s@, p@) && r@ == s@.take(s@.len() - p@.len()),
            None => !has_suffix(s@, p@),
        },
{
    if ends_with(s, p) {
        let x: Vec<char> = chars_of(s);
        let y: Vec<char> = chars_of(p);
        let rest: String = string_of(&x, 0, x.len() - y.len());
        assert(s@.subrange(0, s@.len() - p@.len()) =~= s@.take(s@.len() - p@.len()));
        Some(rest)
    } else {
        None
    }
}

/// Splits `s` at the first occurrence of `p`.
pub fn split_at_first(s: &str, p: &str) -> (parts: Option<(String, String)>)
    ensures
        match parts {
            Some((a, b)) => split_once(s@, p@) == Some((a@, b@)),
            None => split_once(s@, p@) is None,
        },
{
    let x: Vec<char> = chars_of(s);
    let y: Vec<char> = chars_of(p);
    match find_chars(&x, &y, 0) {
        Some(i) => {
            let n: usize = x.len();
            let a: String = string_of(&x, 0, i);
            let b: String = string_of(&x, i + y.len(), n);
            assert(a@ =~= s@.take(i as int));
            assert(b@ =~= s@.skip(i + p@.len()));
            Some((a, b))
        },
        None => None,
    }
}

/// The last position at which `p` occurs in `s`, at or before `upto`.
pub open spec fn rfind_upto(s: Seq<char>, p: Seq<char>, upto: int) -> Option<int>
    decreases upto + 1,
{
    if upto < 0 {
        None
    } else if occurs_at(s, p, upto) {
        Some(upto)
    } else {
        rfind_upto(s, p, upto - 1)
    }
}

/// The last position at which `p` occurs in `s`.
pub open spec fn rfind(s: Seq<char>, p: Seq<char>) -> Option<int> {
    rfind_upto(s, p, s.len() as int)
}

/// `p` occurs at the position that `rfind_upto` gives, and at none behind it.
pub proof fn lemma_rfind(s: Seq<char>, p: Seq<char>, upto: int)
    ensures
        match rfind_upto(s, p, upto) {
            Some(i) => 0 <= i <= upto && occurs_at(s, p, i) && forall|j: int|
                i < j <= upto ==> !occurs_at(s, p, j),
            None => forall|j: int| 0 <= j <= upto ==> !occurs_at(s, p, j),
        },
    decreases upto + 1,
{
    if upto >= 0 && !occurs_at(s, p, upto) {
        lemma_rfind(s, p, upto - 1);
    }
}

/// The last position at which `p` occurs in `s`.
pub fn rfind_chars(s: &Vec<char>, p: &Vec<char>) -> (at: Option<usize>)
    ensures
        match at {
            Some(i) => rfind(s@, p@) == Some(i as int) && i + p@.len() <= s@.len(),
            None => rfind(s@, p@) is None,
        },
{
    let mut i: usize = s.len();
    loop
        invariant
            i <= s@.len(),
            rfind(s@, p@) == rfind_upto(s@, p@, i as int),
        decreases i,
    {
        if occurs_here(s, p, i) {
            return Some(i);
        }
        if i == 0 {
            assert(rfind_upto(s@, p@, -1) is None);
            return None;
        }
        i = i - 1;
    }
}

// ---------------------------------------------------------------------------
// Trimming
// ---------------------------------------------------------------------------
/// `s` without the characters `c` at its start.
pub open spec fn trim_start(s: Seq<char>, c: char) -> Seq<char>
    decreases s.len(),
{
    if s.len() > 0 && s[0] == c {
        trim_start(s.skip(1), c)
    } else {
        s
    }
}

/// `s` without the characters `c` at its end.
pub open spec fn trim_end(s: Seq<char>, c: char) -> Seq<char>
    decreases s.len(),
{
    if s.len() > 0 && s.last() == c {
        trim_end(s.drop_last(), c)
    } else {
        s
    }
}

/// `s` without the characters `c` at its start.
pub fn trim_start_char(s: &str, c: char) -> (out: String)
    ensures
        out@ == trim_start(s@, c),
{
    let v: Vec<char> = chars_of(s);
    let mut i: usize = 0;
    assert(v@.skip(0) =~= v@);
    while i < v.len() && v[i] == c
        invariant
            i <= v@.len(),
            trim_start(v@, c) == trim_start(v@.skip(i as int), c),
        decreases v@.len() - i,
    {
        assert(v@.skip(i as int).skip(1) =~= v@.skip(i + 1));
        i = i + 1;
    }
    assert(v@.subrange(i as int, v@.len() as int) =~= v@.skip(i as int));
    string_of(&v, i, v.len())
}

/// `s` without the characters `c` at its end.
pub fn trim_end_char(s: &str, c: char) -> (out: String)
    ensures
        out@ == trim_end(s@, c),
{
    let v: Vec<char> = chars_of(s);
    let mut n: usize = v.len();
    assert(v@.take(n as int) =~= v@);
    while n > 0 && v[n - 1] == c
        invariant
            n <= v@.len(),
            trim_end(v@, c) == trim_end(v@.take(n as int), c),
        decreases n,
    {
        assert(v@.take(n as int).drop_last() =~= v@.take(n - 1));
        n = n - 1;
    }
    assert(v@.subrange(0, n as int) =~= v@.take(n as int));
    string_of(&v, 0, n)
}

/// The characters that Unicode calls white space.
pub open spec fn is_white(c: char) -> bool {
    let u = c as u32;
    ||| 0x09 <= u <= 0x0D
    ||| u == 0x20
    ||| u == 0x85
    ||| u == 0xA0
    ||| u == 0x1680
    ||| 0x2000 <= u <= 0x200A
    ||| u == 0x2028
    ||| u == 0x2029
    ||| u == 0x202F
    ||| u == 0x205F
    ||| u == 0x3000
}

/// Whether `c` is white space.
pub fn white(c: char) -> (yes: bool)
    ensures
        yes == is_white(c),
{
    let u: u32 = c as u32;
    (0x09 <= u && u <= 0x0D) || u == 0x20 || u == 0x85 || u == 0xA0 || u == 0x1680 || (0x2000 <= u
        && u <= 0x200A) || u == 0x2028 || u == 0x2029 || u == 0x202F || u == 0x205F || u == 0x3000
}

/// Every character of `s` is white space.
pub open spec fn all_white(s: Seq<char>) -> bool {
    forall|i: int| 0 <= i < s.len() ==> is_white(#[trigger] s[i])
}

/// Whether nothing is left of `s` once white space is trimmed.
pub fn blank(s: &str) -> (yes: bool)
    ensures
        yes == all_white(s@),
{
    let v: Vec<char> = chars_of(s);
    let mut i: usize = 0;
    while i < v.len()
        invariant
            i <= v@.len(),
            v@ == s@,
            forall|j: int| 0 <= j < i ==> is_white(#[trigger] s@[j]),
        decreases v@.len() - i,
    {
        if !white(v[i]) {
            assert(!is_white(s@[i as int]));
            return false;
        }
        i = i + 1;
    }
    true
}

// ---------------------------------------------------------------------------
// Splitting into pieces
// ---------------------------------------------------------------------------
/// How many characters of `s` stand before its first `c`.
pub open spec fn run_before(s: Seq<char>, c: char) -> nat
    decreases s.len(),
{
    if s.len() == 0 || s[0] == c {
        0
    } else {
        1 + run_before(s.skip(1), c)
    }
}

/// The pieces of `s` between the characters `c`.
pub open spec fn split_on(s: Seq<char>, c: char) -> Seq<Seq<char>>
    decreases s.len(),
{
    let n = run_before(s, c);
    if n >= s.len() {
        seq![s]
    } else {
        seq![s.take(n as int)] + split_on(s.skip(n as int + 1), c)
    }
}

/// `run_before` counts the characters that differ from `c`.
pub proof fn lemma_run_before(s: Seq<char>, c: char)
    ensures
        run_before(s, c) <= s.len(),
        forall|i: int| 0 <= i < run_before(s, c) ==> s[i] != c,
        run_before(s, c) < s.len() ==> s[run_before(s, c) as int] == c,
    decreases s.len(),
{
    if s.len() > 0 && s[0] != c {
        lemma_run_before(s.skip(1), c);
        assert forall|i: int| 0 <= i < run_before(s, c) implies s[i] != c by {
            if i > 0 {
                assert(s.skip(1)[i - 1] == s[i]);
            }
        }
    }
}

/// A position that holds `c`, with no `c` before it, is where `run_before` ends.
pub proof fn lemma_run_before_is(s: Seq<char>, c: char, n: nat)
    requires
        n <= s.len(),
        forall|i: int| 0 <= i < n ==> s[i] != c,
        n < s.len() ==> s[n as int] == c,
    ensures
        run_before(s, c) == n,
{
    lemma_run_before(s, c);
    let m = run_before(s, c);
    if m < n {
        assert(s[m as int] != c);
    } else if n < m {
        assert(s[n as int] == c);
    }
}

/// The position of the first `c` at or after `from`, or the length of `v`.
pub fn end_of_run(v: &Vec<char>, from: usize, c: char) -> (end: usize)
    requires
        from <= v@.len(),
    ensures
        from <= end <= v@.len(),
        end - from == run_before(v@.skip(from as int), c),
        end < v@.len() ==> v@[end as int] == c,
        forall|i: int| from <= i < end ==> v@[i] != c,
{
    let mut i: usize = from;
    while i < v.len() && v[i] != c
        invariant
            from <= i <= v@.len(),
            forall|j: int| from <= j < i ==> v@[j] != c,
        decreases v@.len() - i,
    {
        i = i + 1;
    }
    proof {
        lemma_run_before_is(v@.skip(from as int), c, (i - from) as nat);
    }
    i
}

/// The pieces of `s` between the characters `c`.
pub fn split_char(s: &str, c: char) -> (out: Vec<String>)
    ensures
        views(out@) == split_on(s@, c),
{
    let v: Vec<char> = chars_of(s);
    let mut out: Vec<String> = Vec::new();
    let mut start: usize = 0;
    assert(v@.skip(0) =~= v@);
    assert(views(out@) + split_on(v@, c) =~= split_on(v@, c));
    loop
        invariant
            start <= v@.len(),
            v@ == s@,
            views(out@) + split_on(v@.skip(start as int), c) == split_on(s@, c),
        decreases v@.len() - start,
    {
        let end: usize = end_of_run(&v, start, c);
        let ghost rest = v@.skip(start as int);
        let ghost before = views(out@);
        let piece: String = string_of(&v, start, end);
        assert(piece@ =~= rest.take(end - start));
        out.push(piece);
        assert(views(out@) =~= before.push(rest.take(end - start)));
        if end == v.len() {
            assert(rest.take(end - start) =~= rest);
            assert(views(out@) =~= before + split_on(rest, c));
            return out;
        }
        assert(rest.skip(end - start + 1) =~= v@.skip(end + 1));
        assert(views(out@) + split_on(v@.skip(end + 1), c) =~= before + split_on(rest, c));
        start = end + 1;
    }
}

/// How many characters of `s` stand before its first white space.
pub open spec fn word_len(s: Seq<char>) -> nat
    decreases s.len(),
{
    if s.len() == 0 || is_white(s[0]) {
        0
    } else {
        1 + word_len(s.skip(1))
    }
}

/// The words of `s`: its longest pieces free of white space.
pub open spec fn words(s: Seq<char>) -> Seq<Seq<char>>
    decreases s.len(),
{
    if s.len() == 0 {
        seq![]
    } else if is_white(s[0]) {
        words(s.skip(1))
    } else {
        let n = word_len(s);
        if n > s.len() {
            seq![]
        } else {
            seq![s.take(n as int)] + words(s.skip(n as int))
        }
    }
}

/// The first word of `s` is as long as what stands before its first white space.
pub proof fn lemma_word_len_is(s: Seq<char>, n: nat)
    requires
        n <= s.len(),
        forall|i: int| 0 <= i < n ==> !is_white(#[trigger] s[i]),
        n < s.len() ==> is_white(s[n as int]),
    ensures
        word_len(s) == n,
    decreases n,
{
    if n > 0 {
        assert(!is_white(s[0]));
        assert forall|i: int| 0 <= i < n - 1 implies !is_white(#[trigger] s.skip(1)[i]) by {
            assert(s.skip(1)[i] == s[i + 1]);
        }
        lemma_word_len_is(s.skip(1), (n - 1) as nat);
    }
}

/// The words of `s`.
pub fn split_words(s: &str) -> (out: Vec<String>)
    ensures
        views(out@) == words(s@),
{
    let v: Vec<char> = chars_of(s);
    let mut out: Vec<String> = Vec::new();
    let mut start: usize = 0;
    assert(v@.skip(0) =~= v@);
    assert(views(out@) + words(v@) =~= words(v@));
    while start < v.len()
        invariant
            start <= v@.len(),
            v@ == s@,
            views(out@) + words(v@.skip(start as int)) == words(s@),
        decreases v@.len() - start,
    {
        let ghost rest = v@.skip(start as int);
        if white(v[start]) {
            assert(rest.skip(1) =~= v@.skip(start + 1));
            start = start + 1;
        } else {
            let mut end: usize = start;
            while end < v.len() && !white(v[end])
                invariant
                    start <= end <= v@.len(),
                    forall|j: int| start <= j < end ==> !is_white(#[trigger] v@[j]),
                decreases v@.len() - end,
            {
                end = end + 1;
            }
            proof {
                assert forall|i: int| 0 <= i < end - start implies !is_white(#[trigger] rest[i]) by {
                    assert(rest[i] == v@[start + i]);
                }
                lemma_word_len_is(rest, (end - start) as nat);
            }
            assert(!is_white(rest[0]));
            assert(word_len(rest) >= 1);
            let ghost before = views(out@);
            let piece: String = string_of(&v, start, end);
            assert(piece@ =~= rest.take(end - start));
            out.push(piece);
            assert(views(out@) =~= before.push(rest.take(end - start)));
            assert(rest.skip(end - start) =~= v@.skip(end as int));
            assert(views(out@) + words(v@.skip(end as int)) =~= before + words(rest));
            start = end;
        }
    }
    assert(v@.skip(start as int) =~= Seq::empty());
    assert(views(out@) =~= views(out@) + words(v@.skip(start as int)));
    out
}

// ---------------------------------------------------------------------------
// Quoting
// ---------------------------------------------------------------------------
/// A text in double quotes, escaped as Rust's `{:?}` does.
pub uninterp spec fn debug_text(s: Seq<char>) -> Seq<char>;

/// `{:?}` of `str`: the text in double quotes with what needs it escaped. The
/// form is named, not stated.
#[verifier::external_body]
pub(crate) fn quoted(s: &str) -> (out: String)
    ensures
        out@ == debug_text(s@),
{
    format!("{s:?}")
}

// ---------------------------------------------------------------------------
// Building
// ---------------------------------------------------------------------------
/// The pieces of `list` with `sep` between each two.
pub open spec fn joined(list: Seq<Seq<char>>, sep: Seq<char>) -> Seq<char>
    decreases list.len(),
{
    if list.len() == 0 {
        seq![]
    } else if list.len() == 1 {
        list[0]
    } else {
        joined(list.drop_last(), sep) + sep + list.last()
    }
}

/// The pieces of `list` with `sep` between each two.
pub fn join(list: &Vec<String>, sep: &str) -> (out: String)
    ensures
        out@ == joined(views(list@), sep@),
{
    let mut out: String = String::new();
    let mut i: usize = 0;
    while i < list.len()
        invariant
            i <= list@.len(),
            out@ == joined(views(list@).take(i as int), sep@),
        decreases list@.len() - i,
    {
        let ghost next = views(list@).take(i + 1);
        assert(next.drop_last() =~= views(list@).take(i as int));
        if i > 0 {
            out.append(sep);
        }
        out.append(list[i].as_str());
        assert(out@ =~= joined(next, sep@));
        i = i + 1;
    }
    assert(views(list@).take(i as int) =~= views(list@));
    out
}

/// `a` followed by `b`.
pub fn concat2(a: &str, b: &str) -> (out: String)
    ensures
        out@ == a@ + b@,
{
    let mut out: String = owned(a);
    out.append(b);
    out
}

/// `a` followed by `b` and `c`.
pub fn concat3(a: &str, b: &str, c: &str) -> (out: String)
    ensures
        out@ == a@ + b@ + c@,
{
    let mut out: String = concat2(a, b);
    out.append(c);
    out
}

// ---------------------------------------------------------------------------
// What the operations give
// ---------------------------------------------------------------------------
/// Trimming at the start takes away the characters `c` there, all of them and
/// nothing else.
pub proof fn law_trim_start_takes_the_run(s: Seq<char>, c: char)
    ensures
        trim_start(s, c).len() <= s.len(),
        s.skip(s.len() - trim_start(s, c).len()) == trim_start(s, c),
        forall|i: int| 0 <= i < s.len() - trim_start(s, c).len() ==> s[i] == c,
        trim_start(s, c).len() > 0 ==> trim_start(s, c)[0] != c,
    decreases s.len(),
{
    if s.len() > 0 && s[0] == c {
        let rest = s.skip(1);
        law_trim_start_takes_the_run(rest, c);
        let n = s.len() - trim_start(s, c).len();
        assert(s.skip(n) =~= rest.skip(n - 1));
        assert forall|i: int| 0 <= i < n implies s[i] == c by {
            if i > 0 {
                assert(rest[i - 1] == s[i]);
            }
        }
    } else {
        assert(s.skip(0) =~= s);
    }
}

/// Trimming at the end takes away the characters `c` there, all of them and
/// nothing else.
pub proof fn law_trim_end_takes_the_run(s: Seq<char>, c: char)
    ensures
        trim_end(s, c).len() <= s.len(),
        s.take(trim_end(s, c).len() as int) == trim_end(s, c),
        forall|i: int| trim_end(s, c).len() <= i < s.len() ==> s[i] == c,
        trim_end(s, c).len() > 0 ==> trim_end(s, c).last() != c,
    decreases s.len(),
{
    if s.len() > 0 && s.last() == c {
        let front = s.drop_last();
        law_trim_end_takes_the_run(front, c);
        let n = trim_end(s, c).len() as int;
        assert(s.take(n) =~= front.take(n));
        assert forall|i: int| n <= i < s.len() implies s[i] == c by {
            if i < front.len() {
                assert(front[i] == s[i]);
            }
        }
    } else {
        assert(s.take(s.len() as int) =~= s);
    }
}

proof fn lemma_joined_first(list: Seq<Seq<char>>, sep: Seq<char>)
    requires
        list.len() > 1,
    ensures
        joined(list, sep) == list[0] + sep + joined(list.skip(1), sep),
    decreases list.len(),
{
    let rest = list.skip(1);
    if list.len() == 2 {
        reveal_with_fuel(joined, 2);
        assert(list.drop_last() =~= seq![list[0]]);
        assert(rest =~= seq![list[1]]);
        assert(joined(list, sep) =~= list[0] + sep + joined(rest, sep));
    } else {
        let front = list.drop_last();
        lemma_joined_first(front, sep);
        assert(front.skip(1) =~= rest.drop_last());
        assert(rest.last() == list.last());
        assert(joined(list, sep) =~= list[0] + sep + joined(rest, sep));
    }
}

/// The pieces between the characters `c` hold none of them, and put together
/// again with one between each two they are what was split.
pub proof fn law_pieces_join_back(s: Seq<char>, c: char)
    ensures
        split_on(s, c).len() > 0,
        joined(split_on(s, c), seq![c]) == s,
        forall|i: int| 0 <= i < split_on(s, c).len() ==> !(#[trigger] split_on(s, c)[i]).contains(c),
    decreases s.len(),
{
    let n = run_before(s, c) as int;
    lemma_run_before(s, c);
    let pieces = split_on(s, c);
    if n >= s.len() {
        assert(pieces =~= seq![s]);
        assert(!s.contains(c));
    } else {
        let rest = split_on(s.skip(n + 1), c);
        law_pieces_join_back(s.skip(n + 1), c);
        lemma_joined_first(pieces, seq![c]);
        assert(pieces.skip(1) =~= rest);
        assert(s =~= s.take(n) + seq![c] + s.skip(n + 1));
        assert forall|i: int| 0 <= i < pieces.len() implies !(#[trigger] pieces[i]).contains(c) by {
            if i == 0 {
                assert(!s.take(n).contains(c));
            } else {
                assert(pieces[i] == rest[i - 1]);
            }
        }
    }
}

/// Texts are in order by the first character in which they differ; where one is
/// the beginning of the other it comes first.
pub proof fn law_texts_are_in_order(
    same: Seq<char>,
    a: char,
    b: char,
    behind_a: Seq<char>,
    behind_b: Seq<char>,
)
    requires
        a < b,
    ensures
        text_le(same + seq![a] + behind_a, same + seq![b] + behind_b),
        !text_le(same + seq![b] + behind_b, same + seq![a] + behind_a),
        text_le(same, same + behind_a),
        behind_a.len() > 0 ==> !text_le(same + behind_a, same),
    decreases same.len(),
{
    let x = same + seq![a] + behind_a;
    let y = same + seq![b] + behind_b;
    let z = same + behind_a;
    if same.len() > 0 {
        let rest = same.skip(1);
        law_texts_are_in_order(rest, a, b, behind_a, behind_b);
        assert(x.skip(1) =~= rest + seq![a] + behind_a);
        assert(y.skip(1) =~= rest + seq![b] + behind_b);
        assert(z.skip(1) =~= rest + behind_a);
        assert(x[0] == same[0] && y[0] == same[0] && z[0] == same[0]);
    } else {
        assert(x[0] == a && y[0] == b);
    }
}

/// Of ASCII, white space is the space and what moves the line on: tabs, line feeds,
/// form feeds and carriage returns.
pub proof fn law_ascii_white_space(c: char)
    requires
        c <= '\u{7f}',
    ensures
        is_white(c) <==> c == ' ' || '\t' <= c <= '\r',
{
}

} // verus!
