//! The addresses of archives: where an upstream keeps one, and the path under
//! which it is served here.

use vstd::prelude::*;
use vstd::string::*;

use crate::text::{
    chars_of, concat3, find, find_chars, has_prefix, lemma_find_from, lemma_find_from_is,
    lemma_rfind, lemma_split_once_char, occurs_at, part, rfind, rfind_chars, split_once, starts_with, trim_start,
};

verus! {

/// What becomes of the address that an upstream's narinfo gives its archive.
#[derive(Debug, Clone, Copy, PartialEq, Eq, Structural)]
pub enum NarUrlMode {
    /// It stays as it is.
    Keep,
    /// It leads here.
    ToSelf,
    /// It leads to the upstream.
    ToUpstream,
}

impl Default for NarUrlMode {
    fn default() -> (mode: Self)
        ensures
            mode == NarUrlMode::ToSelf,
    {
        NarUrlMode::ToSelf
    }
}

// ---------------------------------------------------------------------------
// Paths
// ---------------------------------------------------------------------------
/// The path of `url` on its host, without a slash before it.
pub open spec fn relative_path(url: Seq<char>) -> Seq<char> {
    match split_once(url, "://"@) {
        Some((_, rest)) => match split_once(rest, "/"@) {
            Some((_, path)) => path,
            None => trim_start(url, '/'),
        },
        None => trim_start(url, '/'),
    }
}

/// How many slashes `v` begins with.
fn leading_slashes(v: &Vec<char>) -> (n: usize)
    ensures
        n <= v@.len(),
        v@.skip(n as int) == trim_start(v@, '/'),
{
    let mut i: usize = 0;
    assert(v@.skip(0) =~= v@);
    while i < v.len() && v[i] == '/'
        invariant
            i <= v@.len(),
            trim_start(v@, '/') == trim_start(v@.skip(i as int), '/'),
        decreases v@.len() - i,
    {
        assert(v@.skip(i as int).skip(1) =~= v@.skip(i + 1));
        i = i + 1;
    }
    i
}

/// The path of `url` on its host, without a slash before it.
pub fn relative_nar_url(url: &str) -> (out: &str)
    ensures
        out@ == relative_path(url@),
{
    let v: Vec<char> = chars_of(url);
    let n: usize = v.len();
    let scheme_end: Vec<char> = chars_of("://");
    if let Some(i) = find_chars(&v, &scheme_end, 0) {
        let rest: &str = part(url, &v, i + scheme_end.len(), n);
        let w: Vec<char> = chars_of(rest);
        let m: usize = w.len();
        let slash: Vec<char> = chars_of("/");
        if let Some(j) = find_chars(&w, &slash, 0) {
            return part(rest, &w, j + slash.len(), m);
        }
    }
    part(url, &v, leading_slashes(&v), n)
}

/// What stands before the first question mark of `s`.
pub open spec fn before_query(s: Seq<char>) -> Seq<char> {
    match split_once(s, "?"@) {
        Some((path, _)) => path,
        None => s,
    }
}

/// What stands behind the last slash of `s`.
pub open spec fn file_name(s: Seq<char>) -> Seq<char> {
    match rfind(s, "/"@) {
        Some(i) => s.skip(i + 1),
        None => s,
    }
}

/// The end of `file` from its last `.nar` on.
pub open spec fn nar_suffix(file: Seq<char>) -> Seq<char> {
    match rfind(file, ".nar"@) {
        Some(i) => file.skip(i),
        None => seq![],
    }
}

/// `.nar` and the compression of the archive at `url`, where its name says them.
pub open spec fn extension_of(url: Seq<char>) -> Seq<char> {
    nar_suffix(file_name(before_query(relative_path(url))))
}

/// What stands before the first question mark of `s`.
fn drop_query(s: &str) -> (out: &str)
    ensures
        out@ == before_query(s@),
{
    let v: Vec<char> = chars_of(s);
    match find_chars(&v, &chars_of("?"), 0) {
        Some(i) => part(s, &v, 0, i),
        None => s,
    }
}

/// What stands behind the last slash of `s`.
pub fn last_segment(s: &str) -> (out: &str)
    ensures
        out@ == file_name(s@),
{
    let v: Vec<char> = chars_of(s);
    let n: usize = v.len();
    proof {
        reveal_strlit("/");
    }
    match rfind_chars(&v, &chars_of("/")) {
        Some(i) => part(s, &v, i + 1, n),
        None => s,
    }
}

/// `.nar` and the compression of the archive at `url`, where its name says them.
pub fn nar_extension(url: &str) -> (out: &str)
    ensures
        out@ == extension_of(url@),
{
    let file: &str = last_segment(drop_query(relative_nar_url(url)));
    let v: Vec<char> = chars_of(file);
    let n: usize = v.len();
    match rfind_chars(&v, &chars_of(".nar")) {
        Some(i) => part(file, &v, i, n),
        None => {
            proof {
                reveal_strlit("");
            }
            assert(""@ =~= seq![]);
            ""
        },
    }
}

/// The path under which the archive of `store_hash` is served here.
pub open spec fn canonical_path(url: Seq<char>, store_hash: Seq<char>) -> Seq<char> {
    "nar/"@ + store_hash + extension_of(url)
}

/// The path under which the archive of `store_hash` is served here, with the
/// extension that the upstream gives it. Only the store hash works against every
/// upstream, since each names its archives in its own way.
pub fn canonical_nar_url(url: &str, store_hash: &str) -> (out: String)
    ensures
        out@ == canonical_path(url@, store_hash@),
{
    concat3("nar/", store_hash, nar_extension(url))
}

/// `c` is a letter or a digit of ASCII.
pub open spec fn is_alphanumeric(c: char) -> bool {
    '0' <= c <= '9' || 'a' <= c <= 'z' || 'A' <= c <= 'Z'
}

/// `s` has the form of a store hash.
pub open spec fn is_store_hash(s: Seq<char>) -> bool {
    s.len() == 32 && forall|i: int| 0 <= i < s.len() ==> is_alphanumeric(#[trigger] s[i])
}

/// What stands before the first `.nar` of `s`.
pub open spec fn before_nar(s: Seq<char>) -> Seq<char> {
    match split_once(s, ".nar"@) {
        Some((hash, _)) => hash,
        None => s,
    }
}

/// The store hash in a path of the form that `canonical_path` gives.
pub open spec fn hash_in_path(path: Seq<char>) -> Option<Seq<char>> {
    let p = trim_start(path, '/');
    if !has_prefix(p, "nar/"@) {
        None
    } else {
        let hash = before_nar(p.skip(4));
        if is_store_hash(hash) {
            Some(hash)
        } else {
            None
        }
    }
}

fn looks_like_store_hash(v: &Vec<char>) -> (yes: bool)
    ensures
        yes == is_store_hash(v@),
{
    if v.len() != 32 {
        return false;
    }
    let mut i: usize = 0;
    while i < v.len()
        invariant
            i <= v@.len(),
            forall|j: int| 0 <= j < i ==> is_alphanumeric(#[trigger] v@[j]),
        decreases v@.len() - i,
    {
        let c: char = v[i];
        if !(('0' <= c && c <= '9') || ('a' <= c && c <= 'z') || ('A' <= c && c <= 'Z')) {
            assert(!is_alphanumeric(v@[i as int]));
            return false;
        }
        i = i + 1;
    }
    true
}

/// The store hash in a path of the form that `canonical_nar_url` gives.
pub fn store_hash_from_canonical_nar_url(path: &str) -> (out: Option<&str>)
    ensures
        match out {
            Some(hash) => hash_in_path(path@) == Some(hash@),
            None => hash_in_path(path@) is None,
        },
{
    let v: Vec<char> = chars_of(path);
    let n: usize = v.len();
    let p: &str = part(path, &v, leading_slashes(&v), n);
    let w: Vec<char> = chars_of(p);
    let m: usize = w.len();
    proof {
        reveal_strlit("nar/");
    }
    if !starts_with(p, "nar/") {
        return None;
    }
    let rest: &str = part(p, &w, 4, m);
    let r: Vec<char> = chars_of(rest);
    let hash: &str = match find_chars(&r, &chars_of(".nar"), 0) {
        Some(i) => part(rest, &r, 0, i),
        None => rest,
    };
    if looks_like_store_hash(&chars_of(hash)) {
        Some(hash)
    } else {
        None
    }
}

/// The store hash can be read back from the path that was made of it, whatever
/// the upstream's own address was.
pub proof fn law_canonical_path_round_trips(url: Seq<char>, store_hash: Seq<char>)
    requires
        is_store_hash(store_hash),
    ensures
        hash_in_path(canonical_path(url, store_hash)) == Some(store_hash),
{
    reveal_strlit("nar/");
    reveal_strlit(".nar");
    let ext = extension_of(url);
    let path = canonical_path(url, store_hash);
    let rest = store_hash + ext;
    assert(path[0] == 'n');
    assert(trim_start(path, '/') == path);
    assert(path.take(4) =~= "nar/"@);
    assert(path.skip(4) =~= rest);
    let file = file_name(before_query(relative_path(url)));
    lemma_rfind(file, ".nar"@, file.len() as int);
    assert forall|j: int| 0 <= j < 32 implies !occurs_at(rest, ".nar"@, j) by {
        if occurs_at(rest, ".nar"@, j) {
            assert(rest.subrange(j, j + 4)[0] == rest[j]);
            assert(is_alphanumeric(store_hash[j]));
        }
    }
    if ext.len() > 0 {
        let i = rfind(file, ".nar"@)->0;
        assert(ext.take(4) =~= file.subrange(i, i + 4));
        assert(rest.subrange(32, 36) =~= ext.take(4));
        lemma_find_from_is(rest, ".nar"@, 0, 32);
        assert(rest.take(32) =~= store_hash);
    } else {
        assert(rest =~= store_hash);
        lemma_find_from(rest, ".nar"@, 0);
    }
}

/// The path of an address with a host is what stands behind the first slash after
/// the host; that of any other is the address without the slashes before it.
pub proof fn law_relative_path_drops_the_host(
    scheme: Seq<char>,
    host: Seq<char>,
    path: Seq<char>,
    plain: Seq<char>,
)
    requires
        !scheme.contains(':'),
        !host.contains('/'),
        !plain.contains(':'),
    ensures
        relative_path(scheme + "://"@ + host + "/"@ + path) == path,
        plain.len() > 0 && plain[0] != '/' ==> relative_path(plain) == plain,
        relative_path("/"@ + plain) == relative_path(plain),
{
    reveal_strlit("://");
    reveal_strlit("/");
    let url = scheme + "://"@ + host + "/"@ + path;
    let n = scheme.len();
    let rest = host + "/"@ + path;
    assert(url.subrange(n as int, n as int + 3) =~= "://"@);
    assert forall|j: int| 0 <= j < n implies !occurs_at(url, "://"@, j) by {
        if occurs_at(url, "://"@, j) {
            assert(url.subrange(j, j + 3)[0] == url[j]);
            assert(scheme.contains(scheme[j]));
        }
    }
    lemma_find_from_is(url, "://"@, 0, n);
    assert(url.skip(n as int + 3) =~= rest);
    lemma_split_once_char(host, "/"@, path);
    lemma_no_scheme(plain);
    let slashed = "/"@ + plain;
    assert(!slashed.contains(':')) by {
        if slashed.contains(':') {
            let j = choose|j: int| 0 <= j < slashed.len() && slashed[j] == ':';
            assert(plain[j - 1] == ':');
        }
    }
    lemma_no_scheme(slashed);
    assert(slashed.skip(1) =~= plain);
}

proof fn lemma_no_scheme(s: Seq<char>)
    requires
        !s.contains(':'),
    ensures
        split_once(s, "://"@) is None,
{
    reveal_strlit("://");
    lemma_find_from(s, "://"@, 0);
    if let Some(i) = find(s, "://"@) {
        assert(s.subrange(i as int, i as int + 3)[0] == s[i as int]);
        assert(s.contains(':'));
    }
}

/// What stands behind a slash and holds none is the last segment.
pub proof fn lemma_last_segment(dir: Seq<char>, base: Seq<char>)
    requires
        forall|i: int| 0 <= i < base.len() ==> base[i] != '/',
    ensures
        file_name(dir + seq!['/'] + base) == base,
{
    reveal_strlit("/");
    let s = dir + seq!['/'] + base;
    let slash = "/"@;
    let at = dir.len() as int;
    assert(s.subrange(at, at + 1) =~= slash);
    assert(occurs_at(s, slash, at));
    lemma_rfind(s, slash, s.len() as int);
    let i = rfind(s, slash)->0;
    if i > at {
        assert(s.subrange(i, i + 1)[0] == s[i]);
        assert(s[i] == base[i - at - 1]);
    }
    assert(s.skip(at + 1) =~= base);
}

proof fn lemma_nar_suffix(stem: Seq<char>, compression: Seq<char>)
    requires
        forall|j: int| 0 < j ==> !occurs_at(".nar"@ + compression, ".nar"@, j),
    ensures
        nar_suffix(stem + (".nar"@ + compression)) == ".nar"@ + compression,
{
    reveal_strlit(".nar");
    let end = ".nar"@ + compression;
    let file = stem + end;
    lemma_rfind(file, ".nar"@, file.len() as int);
    let k = stem.len() as int;
    assert(file.subrange(k, k + 4) =~= ".nar"@);
    assert(occurs_at(file, ".nar"@, k));
    let nar = rfind(file, ".nar"@)->0;
    if nar > k {
        assert(end.subrange(nar - k, nar - k + 4) =~= file.subrange(nar, nar + 4));
        assert(occurs_at(end, ".nar"@, nar - k));
    }
    assert(file.skip(k) =~= end);
}

/// An archive is served here under the store hash, with the extension that the
/// upstream gives it: of `dir/stem.nar.xz?query` that is `.nar.xz`, wherever the
/// address leads and whatever its query says.
pub proof fn law_served_path_keeps_the_extension(
    dir: Seq<char>,
    stem: Seq<char>,
    compression: Seq<char>,
    query: Seq<char>,
    store_hash: Seq<char>,
)
    requires
        dir.len() > 0 && dir[0] != '/',
        forall|i: int| 0 <= i < dir.len() ==> #[trigger] dir[i] != ':' && dir[i] != '?',
        forall|i: int|
            0 <= i < stem.len() ==> #[trigger] stem[i] != ':' && stem[i] != '?' && stem[i] != '/',
        forall|i: int|
            0 <= i < compression.len() ==> #[trigger] compression[i] != ':' && compression[i] != '?'
                && compression[i] != '/',
        forall|j: int| 0 < j ==> !occurs_at(".nar"@ + compression, ".nar"@, j),
        !query.contains(':'),
    ensures
        canonical_path(dir + "/"@ + stem + ".nar"@ + compression, store_hash) == "nar/"@ + store_hash
            + ".nar"@ + compression,
        canonical_path(dir + "/"@ + stem + ".nar"@ + compression + "?"@ + query, store_hash)
            == "nar/"@ + store_hash + ".nar"@ + compression,
{
    reveal_strlit("/");
    reveal_strlit("?");
    reveal_strlit(".nar");
    let end = ".nar"@ + compression;
    let file = stem + end;
    let whole = dir + "/"@ + file;
    let asked = whole + "?"@ + query;
    assert(dir + "/"@ + stem + ".nar"@ + compression =~= whole);
    assert(dir + "/"@ + stem + ".nar"@ + compression + "?"@ + query =~= asked);
    assert forall|i: int| 0 <= i < whole.len() implies #[trigger] whole[i] != ':' && whole[i]
        != '?' by {
        if i < dir.len() {
            assert(whole[i] == dir[i]);
        } else if i > dir.len() {
            let j = i - dir.len() - 1;
            assert(whole[i] == file[j]);
            if j < stem.len() {
                assert(file[j] == stem[j]);
            } else if j >= stem.len() + 4 {
                assert(file[j] == compression[j - stem.len() - 4]);
            }
        }
    }
    assert(!asked.contains(':')) by {
        if asked.contains(':') {
            let j = choose|j: int| 0 <= j < asked.len() && asked[j] == ':';
            if j < whole.len() {
                assert(asked[j] == whole[j]);
            } else {
                assert(query[j - whole.len() - 1] == ':');
            }
        }
    }
    assert(!whole.contains(':'));
    lemma_no_scheme(whole);
    lemma_no_scheme(asked);
    assert(whole[0] == dir[0] && asked[0] == dir[0]);
    assert(!whole.contains('?'));
    lemma_split_once_char(whole, "?"@, query);
    lemma_find_from(whole, "?"@, 0);
    if let Some(i) = find(whole, "?"@) {
        assert(whole.subrange(i as int, i as int + 1)[0] == whole[i as int]);
    }
    assert forall|j: int| 0 <= j < file.len() implies file[j] != '/' by {
        if j < stem.len() {
            assert(file[j] == stem[j]);
        } else if j >= stem.len() + 4 {
            assert(file[j] == compression[j - stem.len() - 4]);
        }
    }
    assert(whole =~= dir + seq!['/'] + file);
    lemma_last_segment(dir, file);
    lemma_nar_suffix(stem, compression);
    assert("nar/"@ + store_hash + end =~= "nar/"@ + store_hash + ".nar"@ + compression);
}

/// Only a path of the form `nar/hash.nar...` has a store hash, and it is the one
/// that stands there: 32 letters and digits.
pub proof fn law_only_store_hashes_are_read(path: Seq<char>)
    ensures
        hash_in_path(path) matches Some(hash) ==> {
            let p = trim_start(path, '/');
            &&& hash.len() == 32
            &&& forall|i: int|
                0 <= i < 32 ==> ('0' <= #[trigger] hash[i] <= '9' || 'a' <= hash[i] <= 'z' || 'A'
                    <= hash[i] <= 'Z')
            &&& p.take(36) == "nar/"@ + hash
            &&& p.len() > 36 ==> p.subrange(36, 40) == ".nar"@ && p.len() >= 40
        },
{
    reveal_strlit("nar/");
    reveal_strlit(".nar");
    if let Some(hash) = hash_in_path(path) {
        let p = trim_start(path, '/');
        let rest = p.skip(4);
        lemma_find_from(rest, ".nar"@, 0);
        assert forall|i: int| 0 <= i < 32 implies ('0' <= #[trigger] hash[i] <= '9' || 'a'
            <= hash[i] <= 'z' || 'A' <= hash[i] <= 'Z') by {
            assert(is_alphanumeric(hash[i]));
        }
        assert(p.take(4) =~= "nar/"@);
        assert(p.take(36) =~= "nar/"@ + hash);
        if p.len() > 36 {
            assert(rest.subrange(32, 36) =~= p.subrange(36, 40));
        }
    }
}

/// A store hash is any 32 letters and digits, in either case, and nothing else.
pub proof fn law_store_hashes_are_letters_and_digits(s: Seq<char>)
    ensures
        is_store_hash(s) <==> s.len() == 32 && forall|i: int|
            0 <= i < s.len() ==> ('0' <= #[trigger] s[i] <= '9' || 'a' <= s[i] <= 'z' || 'A' <= s[i]
                <= 'Z'),
{
    if is_store_hash(s) {
        assert forall|i: int| 0 <= i < s.len() implies ('0' <= #[trigger] s[i] <= '9' || 'a' <= s[i]
            <= 'z' || 'A' <= s[i] <= 'Z') by {
            assert(is_alphanumeric(s[i]));
        }
    }
}

} // verus!
