//! Which headers pass through: few of the question go to the upstream, few of
//! the answer come back.

use vstd::prelude::*;
use vstd::string::*;

use crate::number::{signed_decimal, signed_text};
use crate::s3::S3ObjectHead;
use crate::text::{owned, same_text, view_opt};

verus! {

/// The headers of a question that the upstream gets to see.
pub open spec fn request_names() -> Seq<Seq<char>> {
    seq!["accept"@, "accept-encoding"@, "range"@]
}

/// The headers of an answer that are passed on.
pub open spec fn response_names() -> Seq<Seq<char>> {
    seq![
        "accept-ranges"@,
        "content-type"@,
        "content-length"@,
        "content-range"@,
        "content-encoding"@,
        "etag"@,
        "x-nix-signature"@,
        "cache-control"@,
        "last-modified"@,
    ]
}

/// A header: its name, in lower case, and its value.
pub struct Header {
    pub name: String,
    pub value: Vec<u8>,
}

/// The contents of a header.
pub type HeaderView = (Seq<char>, Seq<u8>);

/// The contents of the headers of a list.
pub open spec fn header_views(headers: Seq<Header>) -> Seq<HeaderView> {
    Seq::new(headers.len(), |i: int| (headers[i].name@, headers[i].value@))
}

/// The first value of the header `name`.
pub open spec fn first_value(headers: Seq<HeaderView>, name: Seq<char>) -> Option<Seq<u8>>
    decreases headers.len(),
{
    if headers.len() == 0 {
        None
    } else if headers[0].0 == name {
        Some(headers[0].1)
    } else {
        first_value(headers.skip(1), name)
    }
}

/// The headers of `names` that `headers` has, in the order of `names`, each with
/// its first value.
pub open spec fn selected(headers: Seq<HeaderView>, names: Seq<Seq<char>>) -> Seq<HeaderView>
    decreases names.len(),
{
    if names.len() == 0 {
        seq![]
    } else {
        let rest = selected(headers, names.drop_last());
        match first_value(headers, names.last()) {
            Some(value) => rest.push((names.last(), value)),
            None => rest,
        }
    }
}

fn find_value(headers: &Vec<Header>, name: &str) -> (out: Option<Vec<u8>>)
    ensures
        match out {
            Some(value) => first_value(header_views(headers@), name@) == Some(value@),
            None => first_value(header_views(headers@), name@) is None,
        },
{
    let ghost all = header_views(headers@);
    let n: usize = headers.len();
    let mut i: usize = 0;
    assert(all.skip(0) =~= all);
    while i < n
        invariant
            i <= n,
            n == headers@.len(),
            all == header_views(headers@),
            first_value(all, name@) == first_value(all.skip(i as int), name@),
        decreases n - i,
    {
        assert(all.skip(i as int)[0] == (headers@[i as int].name@, headers@[i as int].value@));
        assert(all.skip(i as int).skip(1) =~= all.skip(i + 1));
        if same_text(headers[i].name.as_str(), name) {
            let mut value: Vec<u8> = Vec::new();
            value.extend_from_slice(headers[i].value.as_slice());
            assert(value@ =~= headers@[i as int].value@);
            return Some(value);
        }
        i = i + 1;
    }
    None
}

fn pick(headers: &Vec<Header>, out: &mut Vec<Header>, name: &str, Ghost(names): Ghost<Seq<Seq<char>>>)
    requires
        header_views(old(out)@) == selected(header_views(headers@), names),
    ensures
        header_views(final(out)@) == selected(header_views(headers@), names.push(name@)),
{
    let ghost said = header_views(out@);
    assert(names.push(name@).drop_last() =~= names);
    if let Some(value) = find_value(headers, name) {
        let ghost v = value@;
        out.push(Header { name: owned(name), value });
        assert(header_views(out@) =~= said.push((name@, v)));
    }
}

/// The headers of a question that go to the upstream.
pub fn forwarded_request_headers(headers: &Vec<Header>) -> (out: Vec<Header>)
    ensures
        header_views(out@) == selected(header_views(headers@), request_names()),
{
    let mut out: Vec<Header> = Vec::new();
    let ghost n0 = Seq::<Seq<char>>::empty();
    assert(header_views(out@) =~= selected(header_views(headers@), n0));
    pick(headers, &mut out, "accept", Ghost(n0));
    pick(headers, &mut out, "accept-encoding", Ghost(n0.push("accept"@)));
    pick(headers, &mut out, "range", Ghost(n0.push("accept"@).push("accept-encoding"@)));
    assert(request_names() =~= n0.push("accept"@).push("accept-encoding"@).push("range"@));
    out
}

/// The headers of an answer that are passed on.
pub fn forwarded_response_headers(headers: &Vec<Header>) -> (out: Vec<Header>)
    ensures
        header_views(out@) == selected(header_views(headers@), response_names()),
{
    let mut out: Vec<Header> = Vec::new();
    let ghost mut names = Seq::<Seq<char>>::empty();
    assert(header_views(out@) =~= selected(header_views(headers@), names));
    pick(headers, &mut out, "accept-ranges", Ghost(names));
    proof {
        names = names.push("accept-ranges"@);
    }
    pick(headers, &mut out, "content-type", Ghost(names));
    proof {
        names = names.push("content-type"@);
    }
    pick(headers, &mut out, "content-length", Ghost(names));
    proof {
        names = names.push("content-length"@);
    }
    pick(headers, &mut out, "content-range", Ghost(names));
    proof {
        names = names.push("content-range"@);
    }
    pick(headers, &mut out, "content-encoding", Ghost(names));
    proof {
        names = names.push("content-encoding"@);
    }
    pick(headers, &mut out, "etag", Ghost(names));
    proof {
        names = names.push("etag"@);
    }
    pick(headers, &mut out, "x-nix-signature", Ghost(names));
    proof {
        names = names.push("x-nix-signature"@);
    }
    pick(headers, &mut out, "cache-control", Ghost(names));
    proof {
        names = names.push("cache-control"@);
    }
    pick(headers, &mut out, "last-modified", Ghost(names));
    proof {
        names = names.push("last-modified"@);
    }
    assert(response_names() =~= names);
    out
}

proof fn lemma_selected(headers: Seq<HeaderView>, names: Seq<Seq<char>>, i: int)
    requires
        0 <= i < selected(headers, names).len(),
    ensures
        names.contains(selected(headers, names)[i].0),
        first_value(headers, selected(headers, names)[i].0) == Some(selected(headers, names)[i].1),
    decreases names.len(),
{
    if names.len() > 0 {
        let front = names.drop_last();
        let rest = selected(headers, front);
        let out = selected(headers, names);
        if i < rest.len() {
            lemma_selected(headers, front, i);
            assert(out[i] == rest[i]);
            let k = choose|k: int| 0 <= k < front.len() && front[k] == rest[i].0;
            assert(names[k] == out[i].0);
        } else {
            assert(names[names.len() - 1] == out[i].0);
        }
    }
}

/// Nothing but the headers on the lists passes through, and what passes keeps its
/// value.
pub proof fn law_only_listed_headers_pass(headers: Seq<HeaderView>, i: int, j: int)
    requires
        0 <= i < selected(headers, request_names()).len(),
        0 <= j < selected(headers, response_names()).len(),
    ensures
        ({
            let (name, value) = selected(headers, request_names())[i];
            request_names().contains(name) && first_value(headers, name) == Some(value)
        }),
        ({
            let (name, value) = selected(headers, response_names())[j];
            response_names().contains(name) && first_value(headers, name) == Some(value)
        }),
{
    lemma_selected(headers, request_names(), i);
    lemma_selected(headers, response_names(), j);
}

// ---------------------------------------------------------------------------
// S3
// ---------------------------------------------------------------------------
/// A header by the texts of its name and its value.
pub type TextHeader = (Seq<char>, Seq<char>);

/// `list` with the header `name`, where it has a value.
pub open spec fn with_header(
    list: Seq<TextHeader>,
    name: Seq<char>,
    value: Option<Seq<char>>,
) -> Seq<TextHeader> {
    match value {
        Some(v) => list.push((name, v)),
        None => list,
    }
}

/// The length of an object in decimal.
pub open spec fn length_text(length: Option<i64>) -> Option<Seq<char>> {
    match length {
        Some(n) => Some(signed_decimal(n as int)),
        None => None,
    }
}

/// The contents of text headers.
pub open spec fn text_header_views(list: Seq<(&'static str, String)>) -> Seq<TextHeader> {
    Seq::new(list.len(), |i: int| (list[i].0@, list[i].1@))
}

fn add_header(list: &mut Vec<(&'static str, String)>, name: &'static str, value: Option<String>)
    ensures
        text_header_views(final(list)@) == with_header(
            text_header_views(old(list)@),
            name@,
            view_opt(value),
        ),
{
    let ghost said = text_header_views(list@);
    if let Some(v) = value {
        let ghost text = v@;
        list.push((name, v));
        assert(text_header_views(list@) =~= said.push((name@, text)));
    }
}

fn length_value(length: Option<i64>) -> (out: Option<String>)
    ensures
        view_opt(out) == length_text(length),
{
    match length {
        Some(n) => Some(signed_text(n)),
        None => None,
    }
}

/// The headers with which an object of S3 is answered; `content_range` is there
/// where a part of it is sent.
pub open spec fn object_headers(head: S3ObjectHead, content_range: Option<Seq<char>>) -> Seq<
    TextHeader,
> {
    let h0 = with_header(seq![], "accept-ranges"@, view_opt(head.accept_ranges));
    let h1 = with_header(h0, "content-type"@, view_opt(head.content_type));
    let h2 = with_header(h1, "content-length"@, length_text(head.content_length));
    let h3 = with_header(h2, "content-range"@, content_range);
    let h4 = with_header(h3, "etag"@, view_opt(head.etag));
    with_header(h4, "last-modified"@, view_opt(head.last_modified))
}

/// The headers with which an object of S3 is answered.
pub fn s3_headers(head: S3ObjectHead, content_range: Option<String>) -> (out: Vec<
    (&'static str, String),
>)
    ensures
        text_header_views(out@) == object_headers(head, view_opt(content_range)),
{
    let mut out: Vec<(&'static str, String)> = Vec::new();
    assert(text_header_views(out@) =~= seq![]);
    add_header(&mut out, "accept-ranges", head.accept_ranges);
    add_header(&mut out, "content-type", head.content_type);
    add_header(&mut out, "content-length", length_value(head.content_length));
    add_header(&mut out, "content-range", content_range);
    add_header(&mut out, "etag", head.etag);
    add_header(&mut out, "last-modified", head.last_modified);
    out
}

proof fn lemma_first_value(headers: Seq<HeaderView>, name: Seq<char>, at: int)
    requires
        0 <= at < headers.len(),
        headers[at].0 == name,
        forall|j: int| 0 <= j < at ==> (#[trigger] headers[j]).0 != name,
    ensures
        first_value(headers, name) == Some(headers[at].1),
    decreases headers.len(),
{
    if at > 0 {
        assert(headers[0].0 != name);
        let rest = headers.skip(1);
        assert(rest[at - 1] == headers[at]);
        assert forall|j: int| 0 <= j < at - 1 implies (#[trigger] rest[j]).0 != name by {
            assert(rest[j] == headers[j + 1]);
        }
        lemma_first_value(rest, name, at - 1);
    }
}

proof fn lemma_passes(headers: Seq<HeaderView>, names: Seq<Seq<char>>, k: int, value: Seq<u8>)
    requires
        0 <= k < names.len(),
        first_value(headers, names[k]) == Some(value),
    ensures
        selected(headers, names).contains((names[k], value)),
    decreases names.len(),
{
    let out = selected(headers, names);
    let front = names.drop_last();
    let rest = selected(headers, front);
    if k < front.len() {
        lemma_passes(headers, front, k, value);
        let j = choose|j: int| 0 <= j < rest.len() && rest[j] == (front[k], value);
        assert(out[j] == (names[k], value));
    } else {
        assert(out[rest.len() as int] == (names[k], value));
    }
}

/// A question goes to the upstream with what it accepts and the range that it asks
/// for; an answer comes back with what says how to read and to keep the body: its
/// ranges, type, length, encoding, tag, signature, lifetime and age. Each has the
/// first value that it was given.
pub proof fn law_needed_headers_pass(headers: Seq<HeaderView>, at: int)
    requires
        0 <= at < headers.len(),
        forall|j: int| 0 <= j < at ==> (#[trigger] headers[j]).0 != headers[at].0,
    ensures
        ({
            let name = headers[at].0;
            &&& name == "accept"@ || name == "accept-encoding"@ || name == "range"@ ==> selected(
                headers,
                request_names(),
            ).contains(headers[at])
            &&& name == "accept-ranges"@ || name == "content-type"@ || name == "content-length"@
                || name == "content-range"@ || name == "content-encoding"@ || name == "etag"@
                || name == "x-nix-signature"@ || name == "cache-control"@ || name
                == "last-modified"@ ==> selected(headers, response_names()).contains(headers[at])
        }),
{
    let name = headers[at].0;
    let value = headers[at].1;
    lemma_first_value(headers, name, at);
    let asked = request_names();
    let answered = response_names();
    if name == "accept"@ {
        lemma_passes(headers, asked, 0, value);
    } else if name == "accept-encoding"@ {
        lemma_passes(headers, asked, 1, value);
    } else if name == "range"@ {
        lemma_passes(headers, asked, 2, value);
    }
    if name == "accept-ranges"@ {
        lemma_passes(headers, answered, 0, value);
    } else if name == "content-type"@ {
        lemma_passes(headers, answered, 1, value);
    } else if name == "content-length"@ {
        lemma_passes(headers, answered, 2, value);
    } else if name == "content-range"@ {
        lemma_passes(headers, answered, 3, value);
    } else if name == "content-encoding"@ {
        lemma_passes(headers, answered, 4, value);
    } else if name == "etag"@ {
        lemma_passes(headers, answered, 5, value);
    } else if name == "x-nix-signature"@ {
        lemma_passes(headers, answered, 6, value);
    } else if name == "cache-control"@ {
        lemma_passes(headers, answered, 7, value);
    } else if name == "last-modified"@ {
        lemma_passes(headers, answered, 8, value);
    }
}

/// Neither who asks nor what a server wants to be remembered passes through, and
/// nothing passes but what is needed.
pub proof fn law_other_headers_stay_behind(headers: Seq<HeaderView>, header: HeaderView)
    ensures
        selected(headers, request_names()).contains(header) ==> header.0 == "accept"@ || header.0
            == "accept-encoding"@ || header.0 == "range"@,
        selected(headers, response_names()).contains(header) ==> header.0 == "accept-ranges"@
            || header.0 == "content-type"@ || header.0 == "content-length"@ || header.0
            == "content-range"@ || header.0 == "content-encoding"@ || header.0 == "etag"@
            || header.0 == "x-nix-signature"@ || header.0 == "cache-control"@ || header.0
            == "last-modified"@,
{
    if selected(headers, request_names()).contains(header) {
        let out = selected(headers, request_names());
        let i = choose|i: int| 0 <= i < out.len() && out[i] == header;
        lemma_selected(headers, request_names(), i);
        let names = request_names();
        let k = choose|k: int| 0 <= k < names.len() && names[k] == header.0;
        assert(k == 0 || k == 1 || k == 2);
    }
    if selected(headers, response_names()).contains(header) {
        let out = selected(headers, response_names());
        let i = choose|i: int| 0 <= i < out.len() && out[i] == header;
        lemma_selected(headers, response_names(), i);
        let names = response_names();
        let k = choose|k: int| 0 <= k < names.len() && names[k] == header.0;
        assert(k == 0 || k == 1 || k == 2 || k == 3 || k == 4 || k == 5 || k == 6 || k == 7 || k
            == 8);
    }
}

/// The value that an object of S3 gives the header `name`, where it gives one.
pub open spec fn object_value(
    head: S3ObjectHead,
    content_range: Option<Seq<char>>,
    name: Seq<char>,
) -> Option<Seq<char>> {
    if name == "accept-ranges"@ {
        view_opt(head.accept_ranges)
    } else if name == "content-type"@ {
        view_opt(head.content_type)
    } else if name == "content-length"@ {
        match head.content_length {
            Some(n) => Some(signed_decimal(n as int)),
            None => None,
        }
    } else if name == "content-range"@ {
        content_range
    } else if name == "etag"@ {
        view_opt(head.etag)
    } else if name == "last-modified"@ {
        view_opt(head.last_modified)
    } else {
        None
    }
}

proof fn lemma_with_header(
    list: Seq<TextHeader>,
    name: Seq<char>,
    value: Option<Seq<char>>,
    header: TextHeader,
)
    ensures
        with_header(list, name, value).contains(header) <==> list.contains(header) || (header.0
            == name && value == Some(header.1)),
{
    let out = with_header(list, name, value);
    if list.contains(header) {
        let i = choose|i: int| 0 <= i < list.len() && list[i] == header;
        assert(out[i] == header);
    }
    if header.0 == name && value == Some(header.1) {
        assert(out[list.len() as int] == header);
    }
    if out.contains(header) {
        let i = choose|i: int| 0 <= i < out.len() && out[i] == header;
        if i < list.len() {
            assert(list[i] == header);
        }
    }
}

/// An object of S3 is answered with a header exactly where it has a value for it,
/// and with that value.
pub proof fn law_objects_are_answered_with_their_headers(
    head: S3ObjectHead,
    content_range: Option<Seq<char>>,
    header: TextHeader,
)
    ensures
        object_headers(head, content_range).contains(header) <==> object_value(
            head,
            content_range,
            header.0,
        ) == Some(header.1),
{
    reveal_strlit("accept-ranges");
    reveal_strlit("content-type");
    reveal_strlit("content-length");
    reveal_strlit("content-range");
    reveal_strlit("etag");
    reveal_strlit("last-modified");
    assert("accept-ranges"@.len() == 13 && "content-type"@.len() == 12);
    assert("content-length"@.len() == 14 && "content-range"@.len() == 13);
    assert("etag"@.len() == 4 && "last-modified"@.len() == 13);
    assert("accept-ranges"@[0] == 'a' && "content-range"@[0] == 'c' && "last-modified"@[0] == 'l');
    let h0 = with_header(seq![], "accept-ranges"@, view_opt(head.accept_ranges));
    let h1 = with_header(h0, "content-type"@, view_opt(head.content_type));
    let h2 = with_header(h1, "content-length"@, length_text(head.content_length));
    let h3 = with_header(h2, "content-range"@, content_range);
    let h4 = with_header(h3, "etag"@, view_opt(head.etag));
    lemma_with_header(seq![], "accept-ranges"@, view_opt(head.accept_ranges), header);
    lemma_with_header(h0, "content-type"@, view_opt(head.content_type), header);
    lemma_with_header(h1, "content-length"@, length_text(head.content_length), header);
    lemma_with_header(h2, "content-range"@, content_range, header);
    lemma_with_header(h3, "etag"@, view_opt(head.etag), header);
    lemma_with_header(h4, "last-modified"@, view_opt(head.last_modified), header);
}

} // verus!
