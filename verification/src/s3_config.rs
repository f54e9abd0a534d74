//! S3 upstreams: the settings that an `s3://` URL gives.

use vstd::prelude::*;
use vstd::string::*;

use crate::address::{pair_views, parse_url, url_parsed};
use crate::text::{concat3, contains_char, copy_opt, debug_text, owned, quoted, same_text, view_opt};

verus! {

/// How a bucket is named in a request.
#[derive(Debug, Clone, Copy, PartialEq, Eq, Structural)]
pub enum S3AddressingStyle {
    Auto,
    Path,
    Virtual,
}

impl Default for S3AddressingStyle {
    fn default() -> (out: Self)
        ensures
            out == S3AddressingStyle::Auto,
    {
        S3AddressingStyle::Auto
    }
}

/// Where an S3 upstream is and how it is asked.
#[derive(Debug, PartialEq, Eq)]
pub struct S3Config {
    pub bucket: String,
    pub endpoint: Option<String>,
    pub scheme: String,
    pub region: String,
    pub profile: Option<String>,
    pub addressing_style: S3AddressingStyle,
}

/// The contents of the settings of an S3 upstream.
pub struct S3ConfigView {
    pub bucket: Seq<char>,
    pub endpoint: Option<Seq<char>>,
    pub scheme: Seq<char>,
    pub region: Seq<char>,
    pub profile: Option<Seq<char>>,
    pub addressing_style: S3AddressingStyle,
}

impl View for S3Config {
    type V = S3ConfigView;

    open spec fn view(&self) -> S3ConfigView {
        S3ConfigView {
            bucket: self.bucket@,
            endpoint: view_opt(self.endpoint),
            scheme: self.scheme@,
            region: self.region@,
            profile: view_opt(self.profile),
            addressing_style: self.addressing_style,
        }
    }
}

impl Clone for S3Config {
    fn clone(&self) -> (out: Self)
        ensures
            out@ == self@,
    {
        S3Config {
            bucket: self.bucket.clone(),
            endpoint: copy_opt(&self.endpoint),
            scheme: self.scheme.clone(),
            region: self.region.clone(),
            profile: copy_opt(&self.profile),
            addressing_style: self.addressing_style,
        }
    }
}

impl S3ConfigView {
    /// The URL of a custom endpoint.
    pub open spec fn endpoint_text(self) -> Option<Seq<char>> {
        match self.endpoint {
            Some(endpoint) => Some(self.scheme + "://"@ + endpoint),
            None => None,
        }
    }

    /// The bucket is named in the path: where that is asked for, and where nothing
    /// is asked for but the endpoint is custom or the bucket has a dot in it.
    pub open spec fn path_style(self) -> bool {
        match self.addressing_style {
            S3AddressingStyle::Path => true,
            S3AddressingStyle::Virtual => false,
            S3AddressingStyle::Auto => self.endpoint is Some || self.bucket.contains('.'),
        }
    }
}

impl S3Config {
    /// The URL of a custom endpoint.
    pub fn endpoint_url(&self) -> (out: Option<String>)
        ensures
            view_opt(out) == self@.endpoint_text(),
    {
        match &self.endpoint {
            Some(endpoint) => Some(concat3(self.scheme.as_str(), "://", endpoint.as_str())),
            None => None,
        }
    }

    /// Whether the bucket is named in the path.
    pub fn force_path_style(&self) -> (yes: bool)
        ensures
            yes == self@.path_style(),
    {
        match self.addressing_style {
            S3AddressingStyle::Path => true,
            S3AddressingStyle::Virtual => false,
            S3AddressingStyle::Auto => self.endpoint.is_some() || contains_char(
                self.bucket.as_str(),
                '.',
            ),
        }
    }
}

// ---------------------------------------------------------------------------
// Reading the URL
// ---------------------------------------------------------------------------
/// The value of the last pair of `query` whose key is `key`.
pub open spec fn last_value(query: Seq<(Seq<char>, Seq<char>)>, key: Seq<char>) -> Option<Seq<char>>
    decreases query.len(),
{
    if query.len() == 0 {
        None
    } else if query.last().0 == key {
        Some(query.last().1)
    } else {
        last_value(query.drop_last(), key)
    }
}

/// The last value of `key`, or `default` where there is none.
pub open spec fn value_or(
    query: Seq<(Seq<char>, Seq<char>)>,
    key: Seq<char>,
    default: Seq<char>,
) -> Seq<char> {
    match last_value(query, key) {
        Some(value) => value,
        None => default,
    }
}

/// The addressing style of a name.
pub open spec fn style_named(name: Seq<char>) -> Option<S3AddressingStyle> {
    if name == "auto"@ {
        Some(S3AddressingStyle::Auto)
    } else if name == "path"@ {
        Some(S3AddressingStyle::Path)
    } else if name == "virtual"@ {
        Some(S3AddressingStyle::Virtual)
    } else {
        None
    }
}

/// The first value of `addressing-style` that names no style.
pub open spec fn unknown_style(query: Seq<(Seq<char>, Seq<char>)>) -> Option<Seq<char>>
    decreases query.len(),
{
    if query.len() == 0 {
        None
    } else {
        match unknown_style(query.drop_last()) {
            Some(name) => Some(name),
            None => if query.last().0 == "addressing-style"@ && style_named(query.last().1) is None {
                Some(query.last().1)
            } else {
                None
            },
        }
    }
}

/// The style that `query` asks for.
pub open spec fn style_asked(query: Seq<(Seq<char>, Seq<char>)>) -> S3AddressingStyle {
    match last_value(query, "addressing-style"@) {
        Some(name) => style_named(name)->0,
        None => S3AddressingStyle::Auto,
    }
}

/// The settings that the host and the query of the URL `raw` give, or what is
/// wrong with them.
pub open spec fn s3_settings(
    raw: Seq<char>,
    host: Option<Seq<char>>,
    query: Seq<(Seq<char>, Seq<char>)>,
) -> Result<S3ConfigView, Seq<char>> {
    match host {
        None => Err("s3 upstream "@ + debug_text(raw) + ": missing bucket name"@),
        Some(bucket) => match unknown_style(query) {
            Some(name) => Err(
                "s3 upstream "@ + debug_text(raw) + ": unsupported addressing-style "@ + debug_text(
                    name,
                ),
            ),
            None => Ok(
                S3ConfigView {
                    bucket,
                    endpoint: last_value(query, "endpoint"@),
                    scheme: value_or(query, "scheme"@, "https"@),
                    region: value_or(query, "region"@, "us-east-1"@),
                    profile: last_value(query, "profile"@),
                    addressing_style: style_asked(query),
                },
            ),
        },
    }
}

/// The settings that the `s3://` URL `raw` gives, or what is wrong with it.
pub open spec fn s3_url_settings(raw: Seq<char>) -> Result<S3ConfigView, Seq<char>> {
    match url_parsed(raw) {
        Ok((_, host, query)) => s3_settings(raw, host, query),
        Err(e) => Err("s3 upstream: invalid URL "@ + debug_text(raw) + ": "@ + e),
    }
}

/// The last value of `key`.
fn find_last(query: &Vec<(String, String)>, key: &str) -> (out: Option<String>)
    ensures
        view_opt(out) == last_value(pair_views(query@), key@),
{
    let ghost q = pair_views(query@);
    let mut i: usize = query.len();
    assert(q.take(i as int) =~= q);
    while i > 0
        invariant
            i <= query@.len(),
            q == pair_views(query@),
            last_value(q, key@) == last_value(q.take(i as int), key@),
        decreases i,
    {
        assert(q.take(i as int).drop_last() =~= q.take(i - 1));
        assert(q.take(i as int).last() == q[i - 1]);
        if same_text(query[i - 1].0.as_str(), key) {
            return Some(query[i - 1].1.clone());
        }
        i = i - 1;
    }
    None
}

/// The last value of `key`, or `default` where there is none.
fn find_last_or(query: &Vec<(String, String)>, key: &str, default: &str) -> (out: String)
    ensures
        out@ == value_or(pair_views(query@), key@, default@),
{
    match find_last(query, key) {
        Some(value) => value,
        None => owned(default),
    }
}

/// The addressing style of a name.
fn parse_style(name: &str) -> (out: Option<S3AddressingStyle>)
    ensures
        out == style_named(name@),
{
    if same_text(name, "auto") {
        Some(S3AddressingStyle::Auto)
    } else if same_text(name, "path") {
        Some(S3AddressingStyle::Path)
    } else if same_text(name, "virtual") {
        Some(S3AddressingStyle::Virtual)
    } else {
        None
    }
}

/// The first value of `addressing-style` that names no style.
fn find_unknown_style(query: &Vec<(String, String)>) -> (out: Option<String>)
    ensures
        view_opt(out) == unknown_style(pair_views(query@)),
{
    let ghost q = pair_views(query@);
    let mut i: usize = 0;
    let n: usize = query.len();
    while i < n
        invariant
            i <= n,
            n == query@.len(),
            q == pair_views(query@),
            unknown_style(q.take(i as int)) is None,
        decreases n - i,
    {
        let ghost next = q.take(i + 1);
        assert(next.drop_last() =~= q.take(i as int));
        assert(next.last() == q[i as int]);
        if same_text(query[i].0.as_str(), "addressing-style") && parse_style(
            query[i].1.as_str(),
        ).is_none() {
            proof {
                lemma_first_unknown(q, i as int);
            }
            return Some(query[i].1.clone());
        }
        i = i + 1;
    }
    assert(q.take(i as int) =~= q);
    None
}

/// Once a style is unknown, no later pair changes which one was the first.
proof fn lemma_first_unknown(q: Seq<(Seq<char>, Seq<char>)>, i: int)
    requires
        0 <= i < q.len(),
        unknown_style(q.take(i + 1)) is Some,
    ensures
        unknown_style(q) == unknown_style(q.take(i + 1)),
    decreases q.len(),
{
    if i + 1 == q.len() {
        assert(q.take(i + 1) =~= q);
    } else {
        assert(q.drop_last().take(i + 1) =~= q.take(i + 1));
        lemma_first_unknown(q.drop_last(), i);
    }
}

/// A query without unknown styles has a known style wherever it has one.
proof fn lemma_known_style(q: Seq<(Seq<char>, Seq<char>)>)
    requires
        unknown_style(q) is None,
    ensures
        last_value(q, "addressing-style"@) matches Some(name) ==> style_named(name) is Some,
    decreases q.len(),
{
    if q.len() > 0 && q.last().0 != "addressing-style"@ {
        lemma_known_style(q.drop_last());
    }
}

/// The settings that the host and the query of the URL `raw` give, or what is
/// wrong with them.
pub fn s3_config_from_parts(
    raw: &str,
    host: &Option<String>,
    query: &Vec<(String, String)>,
) -> (out: Result<S3Config, String>)
    ensures
        match out {
            Ok(config) => s3_settings(raw@, view_opt(*host), pair_views(query@)) == Ok::<
                S3ConfigView,
                Seq<char>,
            >(config@),
            Err(e) => s3_settings(raw@, view_opt(*host), pair_views(query@)) == Err::<
                S3ConfigView,
                Seq<char>,
            >(e@),
        },
{
    let bucket: String = match host {
        Some(host) => host.clone(),
        None => {
            return Err(
                concat3("s3 upstream ", quoted(raw).as_str(), ": missing bucket name"),
            );
        },
    };
    if let Some(name) = find_unknown_style(query) {
        let mut e: String = concat3(
            "s3 upstream ",
            quoted(raw).as_str(),
            ": unsupported addressing-style ",
        );
        e.append(quoted(name.as_str()).as_str());
        return Err(e);
    }
    proof {
        lemma_known_style(pair_views(query@));
    }
    let addressing_style: S3AddressingStyle = match find_last(query, "addressing-style") {
        Some(name) => match parse_style(name.as_str()) {
            Some(style) => style,
            None => S3AddressingStyle::Auto,
        },
        None => S3AddressingStyle::Auto,
    };
    Ok(
        S3Config {
            bucket,
            endpoint: find_last(query, "endpoint"),
            scheme: find_last_or(query, "scheme", "https"),
            region: find_last_or(query, "region", "us-east-1"),
            profile: find_last(query, "profile"),
            addressing_style,
        },
    )
}

/// The settings that the `s3://` URL `raw` gives, or what is wrong with it.
pub fn s3_config_from_url(raw: &str) -> (out: Result<S3Config, String>)
    ensures
        match out {
            Ok(config) => s3_url_settings(raw@) == Ok::<S3ConfigView, Seq<char>>(config@),
            Err(e) => s3_url_settings(raw@) == Err::<S3ConfigView, Seq<char>>(e@),
        },
{
    match parse_url(raw) {
        Ok(url) => s3_config_from_parts(raw, &url.host, &url.query),
        Err(e) => {
            let mut out: String = concat3(
                "s3 upstream: invalid URL ",
                quoted(raw).as_str(),
                ": ",
            );
            out.append(e.as_str());
            Err(out)
        },
    }
}

/// The last pair of `query` whose key is `key` is the one at `at`.
pub open spec fn last_pair(query: Seq<(Seq<char>, Seq<char>)>, key: Seq<char>, at: int) -> bool {
    &&& 0 <= at < query.len()
    &&& query[at].0 == key
    &&& forall|j: int| at < j < query.len() ==> (#[trigger] query[j]).0 != key
}

/// No pair of `query` has the key `key`.
pub open spec fn no_pair(query: Seq<(Seq<char>, Seq<char>)>, key: Seq<char>) -> bool {
    forall|j: int| 0 <= j < query.len() ==> (#[trigger] query[j]).0 != key
}

proof fn lemma_last_value(query: Seq<(Seq<char>, Seq<char>)>, key: Seq<char>)
    ensures
        forall|at: int| #[trigger]
            last_pair(query, key, at) ==> last_value(query, key) == Some(query[at].1),
        no_pair(query, key) ==> last_value(query, key) is None,
    decreases query.len(),
{
    if query.len() > 0 {
        let front = query.drop_last();
        lemma_last_value(front, key);
        assert(query[query.len() - 1] == query.last());
        assert forall|at: int| #[trigger] last_pair(query, key, at) implies last_value(query, key)
            == Some(query[at].1) by {
            if at < front.len() {
                assert(query[query.len() - 1].0 != key);
                assert(front[at] == query[at]);
                assert forall|j: int| at < j < front.len() implies (#[trigger] front[j]).0
                    != key by {
                    assert(front[j] == query[j]);
                }
                assert(last_pair(front, key, at));
            }
        }
        if no_pair(query, key) {
            assert(query[query.len() - 1].0 != key);
            assert forall|j: int| 0 <= j < front.len() implies (#[trigger] front[j]).0 != key by {
                assert(front[j] == query[j]);
            }
        }
    }
}

proof fn lemma_unknown_style(query: Seq<(Seq<char>, Seq<char>)>)
    ensures
        unknown_style(query) is None <==> forall|j: int|
            0 <= j < query.len() && (#[trigger] query[j]).0 == "addressing-style"@ ==> {
                ||| query[j].1 == "auto"@
                ||| query[j].1 == "path"@
                ||| query[j].1 == "virtual"@
            },
    decreases query.len(),
{
    if query.len() > 0 {
        let front = query.drop_last();
        lemma_unknown_style(front);
        assert(query[query.len() - 1] == query.last());
        if unknown_style(query) is None {
            assert forall|j: int|
                0 <= j < query.len() && (#[trigger] query[j]).0 == "addressing-style"@ implies {
                ||| query[j].1 == "auto"@
                ||| query[j].1 == "path"@
                ||| query[j].1 == "virtual"@
            } by {
                if j < front.len() {
                    assert(front[j] == query[j]);
                }
            }
        } else if unknown_style(front) is Some {
            let j = choose|j: int|
                0 <= j < front.len() && (#[trigger] front[j]).0 == "addressing-style"@ && !(
                front[j].1 == "auto"@ || front[j].1 == "path"@ || front[j].1 == "virtual"@);
            assert(query[j] == front[j]);
        }
    }
}

/// The settings of an upstream on S3 are those that its URL gives: the bucket is
/// its host, and of a setting that the query gives more than once the last counts.
/// Without one, S3 is asked over HTTPS, in the region `us-east-1`, at its own
/// endpoint and with the default profile. A URL without a bucket and a style of
/// addressing that is none are refused, and nothing else is.
pub proof fn law_s3_settings_are_those_of_the_url(
    raw: Seq<char>,
    host: Option<Seq<char>>,
    query: Seq<(Seq<char>, Seq<char>)>,
    at: int,
)
    ensures
        s3_settings(raw, host, query) is Ok <==> host is Some && forall|j: int|
            0 <= j < query.len() && (#[trigger] query[j]).0 == "addressing-style"@ ==> {
                ||| query[j].1 == "auto"@
                ||| query[j].1 == "path"@
                ||| query[j].1 == "virtual"@
            },
        s3_settings(raw, host, query) matches Ok(settings) ==> {
            &&& settings.bucket == host->0
            &&& last_pair(query, "endpoint"@, at) ==> settings.endpoint == Some(query[at].1)
            &&& no_pair(query, "endpoint"@) ==> settings.endpoint is None
            &&& last_pair(query, "scheme"@, at) ==> settings.scheme == query[at].1
            &&& no_pair(query, "scheme"@) ==> settings.scheme == "https"@
            &&& last_pair(query, "region"@, at) ==> settings.region == query[at].1
            &&& no_pair(query, "region"@) ==> settings.region == "us-east-1"@
            &&& last_pair(query, "profile"@, at) ==> settings.profile == Some(query[at].1)
            &&& no_pair(query, "profile"@) ==> settings.profile is None
            &&& no_pair(query, "addressing-style"@) ==> settings.addressing_style
                == S3AddressingStyle::Auto
            &&& last_pair(query, "addressing-style"@, at) ==> {
                &&& query[at].1 == "auto"@ <==> settings.addressing_style == S3AddressingStyle::Auto
                &&& query[at].1 == "path"@ <==> settings.addressing_style == S3AddressingStyle::Path
                &&& query[at].1 == "virtual"@ <==> settings.addressing_style
                    == S3AddressingStyle::Virtual
            }
        },
{
    lemma_unknown_style(query);
    lemma_last_value(query, "endpoint"@);
    lemma_last_value(query, "scheme"@);
    lemma_last_value(query, "region"@);
    lemma_last_value(query, "profile"@);
    lemma_last_value(query, "addressing-style"@);
    reveal_strlit("auto");
    reveal_strlit("path");
    reveal_strlit("virtual");
    assert("auto"@.len() == 4 && "path"@.len() == 4 && "virtual"@.len() == 7);
    assert("auto"@[0] == 'a' && "path"@[0] == 'p');
}

/// The bucket is named in the path where that is asked for, and where nothing is
/// asked for but the name of the bucket would not make a host, or the endpoint is
/// not that of S3; the endpoint has the scheme that is configured.
pub proof fn law_buckets_are_named_in_the_path(settings: S3ConfigView)
    ensures
        settings.addressing_style == S3AddressingStyle::Path ==> settings.path_style(),
        settings.addressing_style == S3AddressingStyle::Virtual ==> !settings.path_style(),
        settings.addressing_style == S3AddressingStyle::Auto ==> (settings.path_style() <==> (
        settings.endpoint is Some || exists|i: int|
            0 <= i < settings.bucket.len() && #[trigger] settings.bucket[i] == '.')),
        settings.endpoint is None ==> settings.endpoint_text() is None,
        settings.endpoint matches Some(endpoint) ==> settings.endpoint_text() == Some(
            settings.scheme + "://"@ + endpoint,
        ),
{
    if settings.bucket.contains('.') {
        let i = choose|i: int| 0 <= i < settings.bucket.len() && settings.bucket[i] == '.';
        assert(settings.bucket[i] == '.');
    }
}

} // verus!
