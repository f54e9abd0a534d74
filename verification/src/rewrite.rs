//! Narinfos rewritten so that the address of the archive leads where it should.

use vstd::prelude::*;
use vstd::string::*;
use vstd::utf8::{decode_utf8, decode_utf8_encode_utf8, encode_utf8, valid_utf8};

use crate::codec::{utf8_bytes, utf8_text};
use crate::nar_url::{
    before_query, canonical_nar_url, canonical_path, extension_of, file_name,
    law_relative_path_drops_the_host, relative_nar_url, relative_path, NarUrlMode,
};
use crate::narinfo::{
    blank_narinfo, fingerprint_of, lemma_lines_of_text, parsed, signed_by, with_field, with_line,
    with_text, without_cr, NarInfoErrorView, NarInfoView,
};
use crate::text::{
    chars_of, concat2, concat3, end_of_run, has_prefix, lemma_find_from, lemma_find_from_is,
    lemma_rfind, lemma_run_before, lemma_run_before_is, occurs_at, owned, run_before, split_once,
    string_of, strip_prefix, trim_end, trim_end_char, trim_start, trim_start_char,
};

verus! {

/// The address that takes the place of `url` in a narinfo of `upstream`.
pub open spec fn rewritten_url(
    url: Seq<char>,
    upstream: Seq<char>,
    store_hash: Seq<char>,
    mode: NarUrlMode,
) -> Seq<char> {
    match mode {
        NarUrlMode::Keep => url,
        NarUrlMode::ToSelf => canonical_path(url, store_hash),
        NarUrlMode::ToUpstream => trim_end(upstream, '/') + "/"@ + trim_start(
            relative_path(url),
            '/',
        ),
    }
}

/// The address that takes the place of `url` in a narinfo of `upstream`.
pub fn rewrite_nar_url_value(
    url: &str,
    upstream: &str,
    store_hash: &str,
    mode: NarUrlMode,
) -> (out: String)
    ensures
        out@ == rewritten_url(url@, upstream@, store_hash@, mode),
{
    match mode {
        NarUrlMode::Keep => owned(url),
        NarUrlMode::ToSelf => canonical_nar_url(url, store_hash),
        NarUrlMode::ToUpstream => concat3(
            trim_end_char(upstream, '/').as_str(),
            "/",
            trim_start_char(relative_nar_url(url), '/').as_str(),
        ),
    }
}

/// A line of a narinfo with its address rewritten, where it gives one.
pub open spec fn rewritten_line(
    line: Seq<char>,
    upstream: Seq<char>,
    store_hash: Seq<char>,
    mode: NarUrlMode,
) -> Seq<char> {
    if has_prefix(line, "URL: "@) {
        "URL: "@ + rewritten_url(line.skip(5), upstream, store_hash, mode)
    } else {
        line
    }
}

/// What ends a line whose text up to the line feed is `line`.
pub open spec fn line_ending(line: Seq<char>) -> Seq<char> {
    if line.len() > 0 && line.last() == '\r' {
        "\r\n"@
    } else {
        "\n"@
    }
}

/// A narinfo with its addresses rewritten, line by line; the line ends stay.
pub open spec fn rewritten_text(
    s: Seq<char>,
    upstream: Seq<char>,
    store_hash: Seq<char>,
    mode: NarUrlMode,
) -> Seq<char>
    decreases s.len(),
{
    let n = run_before(s, '\n');
    if s.len() == 0 {
        seq![]
    } else if n >= s.len() {
        rewritten_line(s, upstream, store_hash, mode)
    } else {
        let line = s.take(n as int);
        rewritten_line(without_cr(line), upstream, store_hash, mode) + line_ending(line)
            + rewritten_text(s.skip(n as int + 1), upstream, store_hash, mode)
    }
}

/// The bytes of a narinfo with its addresses rewritten. What is no UTF-8 stays.
pub open spec fn rewritten_body(
    body: Seq<u8>,
    upstream: Seq<char>,
    store_hash: Seq<char>,
    mode: NarUrlMode,
) -> Seq<u8> {
    if mode == NarUrlMode::Keep || !valid_utf8(body) {
        body
    } else {
        encode_utf8(rewritten_text(decode_utf8(body), upstream, store_hash, mode))
    }
}

/// A line of a narinfo with its address rewritten, where it gives one.
fn rewrite_line(line: &str, upstream: &str, store_hash: &str, mode: NarUrlMode) -> (out: String)
    ensures
        out@ == rewritten_line(line@, upstream@, store_hash@, mode),
{
    proof {
        reveal_strlit("URL: ");
    }
    match strip_prefix(line, "URL: ") {
        Some(url) => concat2(
            "URL: ",
            rewrite_nar_url_value(url.as_str(), upstream, store_hash, mode).as_str(),
        ),
        None => owned(line),
    }
}

/// A narinfo with its addresses rewritten to what `mode` asks for.
pub fn rewrite_narinfo_url(
    body: &[u8],
    upstream: &str,
    store_hash: &str,
    mode: NarUrlMode,
) -> (out: Vec<u8>)
    ensures
        out@ == rewritten_body(body@, upstream@, store_hash@, mode),
{
    let text: String = match utf8_text(body) {
        Some(text) if mode != NarUrlMode::Keep => text,
        _ => {
            let mut out: Vec<u8> = Vec::new();
            out.extend_from_slice(body);
            assert(out@ =~= body@);
            return out;
        },
    };
    let v: Vec<char> = chars_of(text.as_str());
    let mut out: String = String::new();
    let mut start: usize = 0;
    let n: usize = v.len();
    let ghost whole = rewritten_text(v@, upstream@, store_hash@, mode);
    assert(v@.skip(0) =~= v@);
    assert(out@ + whole =~= whole);
    while start < n
        invariant
            start <= n,
            n == v@.len(),
            whole == out@ + rewritten_text(v@.skip(start as int), upstream@, store_hash@, mode),
        decreases n - start,
    {
        let ghost rest = v@.skip(start as int);
        let ghost before = out@;
        let end: usize = end_of_run(&v, start, '\n');
        if end == n {
            let line: String = string_of(&v, start, end);
            assert(line@ =~= rest);
            out.append(rewrite_line(line.as_str(), upstream, store_hash, mode).as_str());
            start = n;
            assert(v@.skip(n as int) =~= seq![]);
            assert(out@ =~= out@ + rewritten_text(seq![], upstream@, store_hash@, mode));
        } else {
            let ghost line = rest.take(end - start);
            let cr: bool = end > start && v[end - 1] == '\r';
            let to: usize = if cr {
                end - 1
            } else {
                end
            };
            let content: String = string_of(&v, start, to);
            assert(content@ =~= without_cr(line));
            out.append(rewrite_line(content.as_str(), upstream, store_hash, mode).as_str());
            out.append(
                if cr {
                    "\r\n"
                } else {
                    "\n"
                },
            );
            assert(rest.skip(end - start + 1) =~= v@.skip(end + 1));
            start = end + 1;
            assert(whole =~= out@ + rewritten_text(
                v@.skip(start as int),
                upstream@,
                store_hash@,
                mode,
            ));
        }
    }
    assert(v@.skip(n as int) =~= seq![]);
    assert(whole =~= out@);
    utf8_bytes(out.as_str())
}

// ---------------------------------------------------------------------------
// Rewriting changes addresses and nothing else
// ---------------------------------------------------------------------------
/// The character `c` does not occur in `s`.
pub open spec fn free_of(s: Seq<char>, c: char) -> bool {
    forall|i: int| 0 <= i < s.len() ==> s[i] != c
}

/// Every carriage return of `s` belongs to a line end.
pub open spec fn tidy(s: Seq<char>) -> bool {
    forall|i: int|
        0 <= i < s.len() && #[trigger] s[i] == '\r' ==> i + 1 < s.len() && s[i + 1] == '\n'
}

/// One of the lines of `s` gives an address.
pub open spec fn gives_url(s: Seq<char>) -> bool
    decreases s.len(),
{
    let n = run_before(s, '\n');
    if s.len() == 0 {
        false
    } else if n >= s.len() {
        has_prefix(s, "URL: "@)
    } else {
        has_prefix(without_cr(s.take(n as int)), "URL: "@) || gives_url(s.skip(n as int + 1))
    }
}

proof fn lemma_split_free(s: Seq<char>, p: Seq<char>, c: char)
    requires
        free_of(s, c),
    ensures
        split_once(s, p) matches Some((a, b)) ==> free_of(a, c) && free_of(b, c),
{
    lemma_find_from(s, p, 0);
}

proof fn lemma_trim_start_free(s: Seq<char>, d: char, c: char)
    requires
        free_of(s, c),
    ensures
        free_of(trim_start(s, d), c),
    decreases s.len(),
{
    if s.len() > 0 && s[0] == d {
        lemma_trim_start_free(s.skip(1), d, c);
    }
}

proof fn lemma_trim_end_free(s: Seq<char>, d: char, c: char)
    requires
        free_of(s, c),
    ensures
        free_of(trim_end(s, d), c),
    decreases s.len(),
{
    if s.len() > 0 && s.last() == d {
        lemma_trim_end_free(s.drop_last(), d, c);
    }
}

proof fn lemma_relative_free(url: Seq<char>, c: char)
    requires
        free_of(url, c),
    ensures
        free_of(relative_path(url), c),
{
    lemma_split_free(url, "://"@, c);
    lemma_trim_start_free(url, '/', c);
    if let Some((_, rest)) = split_once(url, "://"@) {
        lemma_split_free(rest, "/"@, c);
    }
}

proof fn lemma_extension_free(url: Seq<char>, c: char)
    requires
        free_of(url, c),
    ensures
        free_of(extension_of(url), c),
{
    let path = relative_path(url);
    lemma_relative_free(url, c);
    lemma_split_free(path, "?"@, c);
    let p = before_query(path);
    reveal_strlit("/");
    lemma_rfind(p, "/"@, p.len() as int);
    let file = file_name(p);
    assert(free_of(file, c));
    lemma_rfind(file, ".nar"@, file.len() as int);
}

proof fn lemma_rewritten_free(
    line: Seq<char>,
    upstream: Seq<char>,
    store_hash: Seq<char>,
    mode: NarUrlMode,
    c: char,
)
    requires
        free_of(line, c),
        free_of(upstream, c),
        free_of(store_hash, c),
        c == '\n' || c == '\r',
    ensures
        free_of(rewritten_line(line, upstream, store_hash, mode), c),
{
    reveal_strlit("URL: ");
    reveal_strlit("nar/");
    reveal_strlit("/");
    if has_prefix(line, "URL: "@) {
        let url = line.skip(5);
        assert(free_of(url, c));
        lemma_relative_free(url, c);
        lemma_extension_free(url, c);
        lemma_trim_start_free(relative_path(url), '/', c);
        lemma_trim_end_free(upstream, '/', c);
        let value = rewritten_url(url, upstream, store_hash, mode);
        assert(free_of("nar/"@, c));
        assert(free_of("/"@, c));
        assert(free_of("URL: "@, c));
        assert(free_of(value, c));
    }
}

/// A line that begins with `URL: ` is the field `URL`.
proof fn lemma_url_line(value: Seq<char>)
    ensures
        split_once("URL: "@ + value, ": "@) == Some(("URL"@, value)),
        has_prefix("URL: "@ + value, "URL: "@),
        ("URL: "@ + value).skip(5) == value,
{
    reveal_strlit("URL: ");
    reveal_strlit(": ");
    reveal_strlit("URL");
    let line = "URL: "@ + value;
    assert(line.subrange(3, 5) =~= ": "@);
    assert forall|j: int| 0 <= j < 3 implies !occurs_at(line, ": "@, j) by {
        if occurs_at(line, ": "@, j) {
            assert(line.subrange(j, j + 2)[0] == line[j]);
        }
    }
    lemma_find_from_is(line, ": "@, 0, 3);
    assert(line.take(3) =~= "URL"@);
    assert(line.skip(5) =~= value);
    assert(line.take(5) =~= "URL: "@);
}

/// A line of the field `URL` begins with `URL: `.
proof fn lemma_only_url_lines(line: Seq<char>)
    ensures
        split_once(line, ": "@) matches Some((key, value)) ==> (key == "URL"@ ==> has_prefix(
            line,
            "URL: "@,
        )),
{
    reveal_strlit("URL: ");
    reveal_strlit(": ");
    reveal_strlit("URL");
    lemma_find_from(line, ": "@, 0);
    if let Some((key, value)) = split_once(line, ": "@) {
        if key == "URL"@ {
            assert(key.len() == 3);
            assert(line.subrange(3, 5) == ": "@);
            assert(line[3] == line.subrange(3, 5)[0]);
            assert(line[4] == line.subrange(3, 5)[1]);
            assert(line[0] == key[0] && line[1] == key[1] && line[2] == key[2]);
            assert(line.take(5) =~= "URL: "@);
        }
    }
}

/// `info` with its address rewritten where one was given.
pub open spec fn rewritten_info(
    info: NarInfoView,
    given: bool,
    upstream: Seq<char>,
    store_hash: Seq<char>,
    mode: NarUrlMode,
) -> NarInfoView {
    if given {
        NarInfoView { url: rewritten_url(info.url, upstream, store_hash, mode), ..info }
    } else {
        info
    }
}

/// `b` is `a` but for the address, which is rewritten where one was given.
spec fn differs_in_url(
    a: NarInfoView,
    b: NarInfoView,
    given: bool,
    upstream: Seq<char>,
    store_hash: Seq<char>,
    mode: NarUrlMode,
) -> bool {
    b == rewritten_info(a, given, upstream, store_hash, mode)
}

proof fn lemma_field_keeps_difference(
    a: NarInfoView,
    b: NarInfoView,
    given: bool,
    key: Seq<char>,
    value: Seq<char>,
    upstream: Seq<char>,
    store_hash: Seq<char>,
    mode: NarUrlMode,
)
    requires
        differs_in_url(a, b, given, upstream, store_hash, mode),
        key != "URL"@,
    ensures
        match with_field(a, key, value) {
            Ok(x) => with_field(b, key, value) matches Ok(y) && differs_in_url(
                x,
                y,
                given,
                upstream,
                store_hash,
                mode,
            ),
            Err(e) => with_field(b, key, value) == Err::<NarInfoView, NarInfoErrorView>(e),
        },
{
}

proof fn lemma_line_keeps_difference(
    a: NarInfoView,
    b: NarInfoView,
    given: bool,
    line: Seq<char>,
    upstream: Seq<char>,
    store_hash: Seq<char>,
    mode: NarUrlMode,
)
    requires
        differs_in_url(a, b, given, upstream, store_hash, mode),
    ensures
        match with_line(a, line) {
            Ok(x) => with_line(b, rewritten_line(line, upstream, store_hash, mode)) matches Ok(y)
                && differs_in_url(
                x,
                y,
                given || has_prefix(line, "URL: "@),
                upstream,
                store_hash,
                mode,
            ),
            Err(e) => with_line(b, rewritten_line(line, upstream, store_hash, mode)) == Err::<
                NarInfoView,
                NarInfoErrorView,
            >(e),
        },
{
    if has_prefix(line, "URL: "@) {
        reveal_strlit("URL: ");
        let value = line.skip(5);
        let new = rewritten_url(value, upstream, store_hash, mode);
        assert(line =~= "URL: "@ + value);
        lemma_url_line(value);
        lemma_url_line(new);
        assert("URL"@ != "StorePath"@) by {
            reveal_strlit("URL");
            reveal_strlit("StorePath");
            assert("URL"@.len() != "StorePath"@.len());
        }
    } else {
        lemma_only_url_lines(line);
        if let Some((key, value)) = split_once(line, ": "@) {
            if line.len() > 0 {
                lemma_field_keeps_difference(
                    a,
                    b,
                    given,
                    key,
                    value,
                    upstream,
                    store_hash,
                    mode,
                );
            }
        }
    }
}

/// The first line of a rewritten text is the first line, rewritten; the rest is
/// the rest, rewritten.
proof fn lemma_rewritten_lines(
    s: Seq<char>,
    upstream: Seq<char>,
    store_hash: Seq<char>,
    mode: NarUrlMode,
)
    requires
        s.len() > 0,
        tidy(s),
        free_of(upstream, '\n'),
        free_of(upstream, '\r'),
        free_of(store_hash, '\n'),
        free_of(store_hash, '\r'),
    ensures
        ({
            let n = run_before(s, '\n');
            let r = rewritten_text(s, upstream, store_hash, mode);
            let m = run_before(r, '\n');
            if n >= s.len() {
                r.len() > 0 && m >= r.len() && r == rewritten_line(s, upstream, store_hash, mode)
            } else {
                &&& m < r.len()
                &&& without_cr(r.take(m as int)) == rewritten_line(
                    without_cr(s.take(n as int)),
                    upstream,
                    store_hash,
                    mode,
                )
                &&& r.skip(m as int + 1) == rewritten_text(
                    s.skip(n as int + 1),
                    upstream,
                    store_hash,
                    mode,
                )
                &&& tidy(s.skip(n as int + 1))
            }
        }),
{
    let n = run_before(s, '\n');
    let r = rewritten_text(s, upstream, store_hash, mode);
    lemma_run_before(s, '\n');
    if n >= s.len() {
        lemma_rewritten_free(s, upstream, store_hash, mode, '\n');
        lemma_run_before_is(r, '\n', r.len());
        reveal_strlit("URL: ");
    } else {
        let raw = s.take(n as int);
        let line = without_cr(raw);
        let rest = s.skip(n as int + 1);
        let new = rewritten_line(line, upstream, store_hash, mode);
        let tail = rewritten_text(rest, upstream, store_hash, mode);
        reveal_strlit("\r\n");
        reveal_strlit("\n");
        assert forall|i: int| 0 <= i < line.len() implies line[i] != '\r' by {
            if line[i] == '\r' {
                assert(s[i] == '\r');
                assert(i + 1 < raw.len() ==> s[i + 1] == raw[i + 1]);
            }
        }
        lemma_rewritten_free(line, upstream, store_hash, mode, '\n');
        lemma_rewritten_free(line, upstream, store_hash, mode, '\r');
        let head = if raw.len() > 0 && raw.last() == '\r' {
            new.push('\r')
        } else {
            new
        };
        assert(r =~= head + "\n"@ + tail);
        assert forall|i: int| 0 <= i < head.len() implies r[i] != '\n' by {
            assert(r[i] == head[i]);
        }
        assert(r[head.len() as int] == '\n');
        lemma_run_before_is(r, '\n', head.len());
        assert(r.take(head.len() as int) =~= head);
        assert(without_cr(head) =~= new);
        assert(r.skip(head.len() as int + 1) =~= tail);
        assert forall|i: int| 0 <= i < rest.len() && #[trigger] rest[i] == '\r' implies i + 1
            < rest.len() && rest[i + 1] == '\n' by {
            assert(s[i + n + 1] == rest[i]);
        }
    }
}

proof fn lemma_text_keeps_difference(
    a: NarInfoView,
    b: NarInfoView,
    given: bool,
    s: Seq<char>,
    upstream: Seq<char>,
    store_hash: Seq<char>,
    mode: NarUrlMode,
)
    requires
        differs_in_url(a, b, given, upstream, store_hash, mode),
        tidy(s),
        free_of(upstream, '\n'),
        free_of(upstream, '\r'),
        free_of(store_hash, '\n'),
        free_of(store_hash, '\r'),
    ensures
        match with_text(a, s) {
            Ok(x) => with_text(b, rewritten_text(s, upstream, store_hash, mode)) matches Ok(y)
                && differs_in_url(x, y, given || gives_url(s), upstream, store_hash, mode),
            Err(e) => with_text(b, rewritten_text(s, upstream, store_hash, mode)) == Err::<
                NarInfoView,
                NarInfoErrorView,
            >(e),
        },
    decreases s.len(),
{
    if s.len() > 0 {
        let n = run_before(s, '\n');
        lemma_rewritten_lines(s, upstream, store_hash, mode);
        if n >= s.len() {
            lemma_line_keeps_difference(a, b, given, s, upstream, store_hash, mode);
        } else {
            let line = without_cr(s.take(n as int));
            let new = rewritten_line(line, upstream, store_hash, mode);
            lemma_line_keeps_difference(a, b, given, line, upstream, store_hash, mode);
            if let Ok(x) = with_line(a, line) {
                lemma_text_keeps_difference(
                    x,
                    with_line(b, new)->Ok_0,
                    given || has_prefix(line, "URL: "@),
                    s.skip(n as int + 1),
                    upstream,
                    store_hash,
                    mode,
                );
            }
        }
    }
}

/// A narinfo and its rewritten form say the same but for the address of the
/// archive, which is rewritten where the narinfo gave one: one can be read where
/// the other can, with the same error where not, and the same keys verify both.
/// This holds of a text whose carriage returns all belong to line ends.
pub proof fn law_rewriting_changes_only_the_url(
    body: Seq<u8>,
    upstream: Seq<char>,
    store_hash: Seq<char>,
    mode: NarUrlMode,
)
    requires
        valid_utf8(body),
        tidy(decode_utf8(body)),
        free_of(upstream, '\n'),
        free_of(upstream, '\r'),
        free_of(store_hash, '\n'),
        free_of(store_hash, '\r'),
    ensures
        match parsed(body) {
            Ok(x) => {
                let y = rewritten_info(
                    x,
                    gives_url(decode_utf8(body)),
                    upstream,
                    store_hash,
                    mode,
                );
                &&& parsed(rewritten_body(body, upstream, store_hash, mode)) == Ok::<
                    NarInfoView,
                    NarInfoErrorView,
                >(y)
                &&& fingerprint_of(y) == fingerprint_of(x)
                &&& forall|name: Seq<char>, key: Seq<u8>|
                    #![trigger signed_by(y, name, key)]
                    signed_by(y, name, key) == signed_by(x, name, key)
            },
            Err(e) => parsed(rewritten_body(body, upstream, store_hash, mode)) == Err::<
                NarInfoView,
                NarInfoErrorView,
            >(e),
        },
{
    let s = decode_utf8(body);
    let r = rewritten_text(s, upstream, store_hash, mode);
    decode_utf8_encode_utf8(body);
    lemma_lines_of_text(blank_narinfo(), s);
    lemma_lines_of_text(blank_narinfo(), r);
    lemma_text_keeps_difference(
        blank_narinfo(),
        blank_narinfo(),
        false,
        s,
        upstream,
        store_hash,
        mode,
    );
    if let Ok(x) = parsed(body) {
        let y = rewritten_info(x, gives_url(s), upstream, store_hash, mode);
        assert(parsed(rewritten_body(body, upstream, store_hash, mode)) == Ok::<
            NarInfoView,
            NarInfoErrorView,
        >(y));
        assert(fingerprint_of(y) == fingerprint_of(x));
        assert forall|name: Seq<char>, key: Seq<u8>|
            #![trigger signed_by(y, name, key)]
            signed_by(y, name, key) == signed_by(x, name, key) by {
            assert(y.sig == x.sig);
        }
    }
}

// ---------------------------------------------------------------------------
// Carriage returns that belong to no line end
// ---------------------------------------------------------------------------
/// What `mode` puts into an address holds no line feed.
pub open spec fn fits_a_line(upstream: Seq<char>, store_hash: Seq<char>, mode: NarUrlMode) -> bool {
    match mode {
        NarUrlMode::Keep => true,
        NarUrlMode::ToSelf => free_of(store_hash, '\n'),
        NarUrlMode::ToUpstream => free_of(upstream, '\n'),
    }
}

/// `b` is `a` but perhaps for the address.
pub open spec fn same_but_url(a: NarInfoView, b: NarInfoView) -> bool {
    b == (NarInfoView { url: b.url, ..a })
}

/// `b` is `a`, or both give an address.
spec fn same_or_urls(a: Seq<char>, b: Seq<char>) -> bool {
    a == b || (has_prefix(a, "URL: "@) && has_prefix(b, "URL: "@))
}

proof fn lemma_rewritten_fits_a_line(
    line: Seq<char>,
    upstream: Seq<char>,
    store_hash: Seq<char>,
    mode: NarUrlMode,
)
    requires
        free_of(line, '\n'),
        fits_a_line(upstream, store_hash, mode),
    ensures
        free_of(rewritten_line(line, upstream, store_hash, mode), '\n'),
        same_or_urls(line, rewritten_line(line, upstream, store_hash, mode)),
{
    let none = Seq::<char>::empty();
    let u = if mode == NarUrlMode::ToUpstream {
        upstream
    } else {
        none
    };
    let h = if mode == NarUrlMode::ToSelf {
        store_hash
    } else {
        none
    };
    lemma_rewritten_free(line, u, h, mode, '\n');
    if has_prefix(line, "URL: "@) {
        lemma_url_line(rewritten_url(line.skip(5), upstream, store_hash, mode));
    }
}

/// The first line of a rewritten text is the first line, or both give an address;
/// the rest is the rest, rewritten.
proof fn lemma_rewritten_lines_but_urls(
    s: Seq<char>,
    upstream: Seq<char>,
    store_hash: Seq<char>,
    mode: NarUrlMode,
)
    requires
        s.len() > 0,
        fits_a_line(upstream, store_hash, mode),
    ensures
        ({
            let n = run_before(s, '\n');
            let r = rewritten_text(s, upstream, store_hash, mode);
            let m = run_before(r, '\n');
            if n >= s.len() {
                r.len() > 0 && m >= r.len() && same_or_urls(s, r)
            } else {
                &&& m < r.len()
                &&& same_or_urls(without_cr(s.take(n as int)), without_cr(r.take(m as int)))
                &&& r.skip(m as int + 1) == rewritten_text(
                    s.skip(n as int + 1),
                    upstream,
                    store_hash,
                    mode,
                )
            }
        }),
{
    let n = run_before(s, '\n');
    let r = rewritten_text(s, upstream, store_hash, mode);
    lemma_run_before(s, '\n');
    reveal_strlit("URL: ");
    if n >= s.len() {
        lemma_rewritten_fits_a_line(s, upstream, store_hash, mode);
        lemma_run_before_is(r, '\n', r.len());
    } else {
        let raw = s.take(n as int);
        let line = without_cr(raw);
        let rest = s.skip(n as int + 1);
        let new = rewritten_line(line, upstream, store_hash, mode);
        let tail = rewritten_text(rest, upstream, store_hash, mode);
        reveal_strlit("\r\n");
        reveal_strlit("\n");
        assert(free_of(line, '\n'));
        lemma_rewritten_fits_a_line(line, upstream, store_hash, mode);
        let cr = raw.len() > 0 && raw.last() == '\r';
        let head = if cr {
            new.push('\r')
        } else {
            new
        };
        assert(r =~= head + "\n"@ + tail);
        assert forall|i: int| 0 <= i < head.len() implies r[i] != '\n' by {
            assert(r[i] == head[i]);
        }
        assert(r[head.len() as int] == '\n');
        lemma_run_before_is(r, '\n', head.len());
        assert(r.take(head.len() as int) =~= head);
        assert(r.skip(head.len() as int + 1) =~= tail);
        if cr {
            assert(without_cr(head) =~= new);
        } else if new != line {
            let read = without_cr(head);
            assert(new.take(5) =~= "URL: "@);
            assert(new[4] == new.take(5)[4]);
            assert(read.take(5) =~= "URL: "@);
        }
    }
}

proof fn lemma_line_changes_only_the_url(
    a: NarInfoView,
    b: NarInfoView,
    line: Seq<char>,
    other: Seq<char>,
)
    requires
        same_but_url(a, b),
        same_or_urls(line, other),
    ensures
        match with_line(a, line) {
            Ok(x) => with_line(b, other) matches Ok(y) && same_but_url(x, y),
            Err(e) => with_line(b, other) == Err::<NarInfoView, NarInfoErrorView>(e),
        },
{
    reveal_strlit("URL: ");
    reveal_strlit("URL");
    reveal_strlit("StorePath");
    if has_prefix(line, "URL: "@) && has_prefix(other, "URL: "@) {
        assert(line =~= "URL: "@ + line.skip(5));
        assert(other =~= "URL: "@ + other.skip(5));
        lemma_url_line(line.skip(5));
        lemma_url_line(other.skip(5));
        assert("URL"@.len() != "StorePath"@.len());
    }
}

proof fn lemma_text_changes_only_the_url(
    a: NarInfoView,
    b: NarInfoView,
    s: Seq<char>,
    upstream: Seq<char>,
    store_hash: Seq<char>,
    mode: NarUrlMode,
)
    requires
        same_but_url(a, b),
        fits_a_line(upstream, store_hash, mode),
    ensures
        match with_text(a, s) {
            Ok(x) => with_text(b, rewritten_text(s, upstream, store_hash, mode)) matches Ok(y)
                && same_but_url(x, y),
            Err(e) => with_text(b, rewritten_text(s, upstream, store_hash, mode)) == Err::<
                NarInfoView,
                NarInfoErrorView,
            >(e),
        },
    decreases s.len(),
{
    if s.len() > 0 {
        let n = run_before(s, '\n');
        let r = rewritten_text(s, upstream, store_hash, mode);
        lemma_rewritten_lines_but_urls(s, upstream, store_hash, mode);
        if n >= s.len() {
            lemma_line_changes_only_the_url(a, b, s, r);
        } else {
            let line = without_cr(s.take(n as int));
            let other = without_cr(r.take(run_before(r, '\n') as int));
            lemma_line_changes_only_the_url(a, b, line, other);
            if let Ok(x) = with_line(a, line) {
                lemma_text_changes_only_the_url(
                    x,
                    with_line(b, other)->Ok_0,
                    s.skip(n as int + 1),
                    upstream,
                    store_hash,
                    mode,
                );
            }
        }
    }
}

/// Whatever a narinfo holds, its rewritten form says the same but for the address
/// of the archive: one can be read where the other can, with the same error where
/// not, and the same keys verify both.
pub proof fn law_rewriting_keeps_every_other_field(
    body: Seq<u8>,
    upstream: Seq<char>,
    store_hash: Seq<char>,
    mode: NarUrlMode,
)
    requires
        fits_a_line(upstream, store_hash, mode),
    ensures
        match parsed(body) {
            Ok(x) => parsed(rewritten_body(body, upstream, store_hash, mode)) matches Ok(y)
                && same_but_url(x, y) && fingerprint_of(y) == fingerprint_of(x) && (forall|
                name: Seq<char>,
                key: Seq<u8>,
            |
                #![trigger signed_by(y, name, key)]
                signed_by(y, name, key) == signed_by(x, name, key)),
            Err(e) => parsed(rewritten_body(body, upstream, store_hash, mode)) == Err::<
                NarInfoView,
                NarInfoErrorView,
            >(e),
        },
{
    if mode != NarUrlMode::Keep && valid_utf8(body) {
        let s = decode_utf8(body);
        decode_utf8_encode_utf8(body);
        lemma_lines_of_text(blank_narinfo(), s);
        lemma_lines_of_text(
            blank_narinfo(),
            rewritten_text(s, upstream, store_hash, mode),
        );
        lemma_text_changes_only_the_url(
            blank_narinfo(),
            blank_narinfo(),
            s,
            upstream,
            store_hash,
            mode,
        );
    }
    if let Ok(x) = parsed(body) {
        let y = parsed(rewritten_body(body, upstream, store_hash, mode))->Ok_0;
        assert(same_but_url(x, y));
        assert(fingerprint_of(y) == fingerprint_of(x));
        assert forall|name: Seq<char>, key: Seq<u8>|
            #![trigger signed_by(y, name, key)]
            signed_by(y, name, key) == signed_by(x, name, key) by {
            assert(y.sig == x.sig);
        }
    }
}

/// An address that is to lead to the upstream is the upstream's own address, one
/// slash, and the path that the narinfo gives, whichever host the narinfo names
/// and however many slashes the upstream's address ends in. One that is kept is
/// the one that the narinfo gives.
pub proof fn law_addresses_lead_to_the_upstream(
    base: Seq<char>,
    slashes: Seq<char>,
    scheme: Seq<char>,
    host: Seq<char>,
    path: Seq<char>,
    store_hash: Seq<char>,
)
    requires
        base.len() > 0 && base.last() != '/',
        forall|i: int| 0 <= i < slashes.len() ==> slashes[i] == '/',
        !scheme.contains(':'),
        !host.contains('/'),
        path.len() > 0 && path[0] != '/' && !path.contains(':'),
    ensures
        rewritten_url(
            scheme + "://"@ + host + "/"@ + path,
            base + slashes,
            store_hash,
            NarUrlMode::ToUpstream,
        ) == base + "/"@ + path,
        rewritten_url(path, base + slashes, store_hash, NarUrlMode::ToUpstream) == base + "/"@
            + path,
        rewritten_url(path, base + slashes, store_hash, NarUrlMode::Keep) == path,
{
    law_relative_path_drops_the_host(scheme, host, path, path);
    lemma_trim_slashes(base, slashes);
}

proof fn lemma_trim_slashes(base: Seq<char>, slashes: Seq<char>)
    requires
        base.len() > 0 && base.last() != '/',
        forall|i: int| 0 <= i < slashes.len() ==> slashes[i] == '/',
    ensures
        trim_end(base + slashes, '/') == base,
    decreases slashes.len(),
{
    let s = base + slashes;
    if slashes.len() == 0 {
        assert(s =~= base);
    } else {
        assert(s.last() == '/');
        assert(s.drop_last() =~= base + slashes.drop_last());
        lemma_trim_slashes(base, slashes.drop_last());
    }
}

/// No line of `s` gives an address.
pub open spec fn gives_no_url(s: Seq<char>) -> bool
    decreases s.len(),
{
    let n = run_before(s, '\n');
    s.len() == 0 || (!has_prefix(s, "URL: "@) && (n < s.len() ==> gives_no_url(
        s.skip(n as int + 1),
    )))
}

/// A text in which no line gives an address stays as it is, to the last character:
/// its line ends too. So does every body where addresses are kept, and one that is
/// no text.
pub proof fn law_texts_without_an_address_stay(
    s: Seq<char>,
    body: Seq<u8>,
    upstream: Seq<char>,
    store_hash: Seq<char>,
    mode: NarUrlMode,
)
    ensures
        gives_no_url(s) ==> rewritten_text(s, upstream, store_hash, mode) == s,
        rewritten_body(body, upstream, store_hash, NarUrlMode::Keep) == body,
        !valid_utf8(body) ==> rewritten_body(body, upstream, store_hash, mode) == body,
    decreases s.len(),
{
    if gives_no_url(s) && s.len() > 0 {
        let n = run_before(s, '\n') as int;
        lemma_run_before(s, '\n');
        if n < s.len() {
            let line = s.take(n);
            let rest = s.skip(n + 1);
            law_texts_without_an_address_stay(rest, body, upstream, store_hash, mode);
            reveal_strlit("\r\n");
            reveal_strlit("\n");
            reveal_strlit("URL: ");
            let content = without_cr(line);
            if has_prefix(content, "URL: "@) {
                assert(s.take(5) =~= content.take(5));
            }
            assert(content + line_ending(line) =~= line + seq!['\n']);
            assert(s =~= line + seq!['\n'] + rest);
            assert(rewritten_text(s, upstream, store_hash, mode) =~= s);
        }
    } else if s.len() == 0 {
        assert(rewritten_text(s, upstream, store_hash, mode) =~= s);
    }
}

} // verus!
