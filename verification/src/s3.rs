//! The S3 upstreams that are registered, and what the answers of S3 mean.

use dashmap::DashMap;
use vstd::prelude::*;
use vstd::string::*;

use crate::s3_config::{S3Config, S3ConfigView};
use crate::text::{
    concat2, contains, debug_text, find, lemma_find_from, occurs_at, owned, quoted,
};

verus! {

/// dashmap's map.
#[verifier::external_type_specification]
#[verifier::external_body]
#[verifier::reject_recursive_types(K)]
#[verifier::reject_recursive_types(V)]
#[verifier::reject_recursive_types(S)]
pub struct ExDashMap<K, V, S>(dashmap::DashMap<K, V, S>);

/// The settings that a map of S3 upstreams holds, by URL.
pub uninterp spec fn pool_contents(map: DashMap<String, S3Config>) -> Map<Seq<char>, S3ConfigView>;

/// No settings.
pub open spec fn no_settings() -> Map<Seq<char>, S3ConfigView> {
    Map::empty()
}

/// `DashMap::new` makes an empty map.
#[verifier::external_body]
fn pool_new() -> (out: DashMap<String, S3Config>)
    ensures
        pool_contents(out) == no_settings(),
{
    DashMap::new()
}

/// `DashMap::insert` gives the key the value, in place of one that it had.
#[verifier::external_body]
fn pool_insert(map: &mut DashMap<String, S3Config>, key: String, value: S3Config)
    ensures
        pool_contents(*final(map)) == pool_contents(*old(map)).insert(key@, value@),
{
    map.insert(key, value);
}

/// `DashMap::contains_key` says whether the key has a value.
#[verifier::external_body]
fn pool_contains(map: &DashMap<String, S3Config>, key: &str) -> (yes: bool)
    ensures
        yes == pool_contents(*map).contains_key(key@),
{
    map.contains_key(key)
}

/// `DashMap::get` finds the value of the key, of which a copy is given.
#[verifier::external_body]
fn pool_get(map: &DashMap<String, S3Config>, key: &str) -> (out: Option<S3Config>)
    ensures
        match out {
            Some(value) => pool_contents(*map).contains_key(key@) && value@ == pool_contents(
                *map,
            )[key@],
            None => !pool_contents(*map).contains_key(key@),
        },
{
    map.get(key).map(|entry| entry.clone())
}

/// Why an S3 upstream gives nothing.
#[derive(Debug, PartialEq, Eq)]
pub enum S3Error {
    /// The upstream is not registered.
    UnknownUpstream(String),
    /// The request failed.
    Request(String),
    /// The object could not be read.
    Body(String),
}

impl S3Error {
    /// What the error says of itself.
    pub open spec fn text(self) -> Seq<char> {
        match self {
            S3Error::UnknownUpstream(url) => "unknown S3 upstream "@ + debug_text(url@),
            S3Error::Request(e) => "S3 request failed: "@ + e@,
            S3Error::Body(e) => "read S3 object body: "@ + e@,
        }
    }

    /// What the error says of itself.
    pub fn message(&self) -> (out: String)
        ensures
            out@ == self.text(),
    {
        match self {
            S3Error::UnknownUpstream(url) => concat2(
                "unknown S3 upstream ",
                quoted(url.as_str()).as_str(),
            ),
            S3Error::Request(e) => concat2("S3 request failed: ", e.as_str()),
            S3Error::Body(e) => concat2("read S3 object body: ", e.as_str()),
        }
    }
}

/// The S3 upstreams that are registered.
pub struct S3ClientPool {
    configs: DashMap<String, S3Config>,
}

impl View for S3ClientPool {
    type V = Map<Seq<char>, S3ConfigView>;

    /// The settings of each upstream, by URL.
    closed spec fn view(&self) -> Map<Seq<char>, S3ConfigView> {
        pool_contents(self.configs)
    }
}

impl S3ClientPool {
    /// A pool without upstreams.
    pub fn new() -> (out: Self)
        ensures
            out@ == Map::<Seq<char>, S3ConfigView>::empty(),
    {
        S3ClientPool { configs: pool_new() }
    }

    /// Registers an upstream with its settings.
    pub fn register(&mut self, upstream: String, config: S3Config)
        ensures
            final(self)@ == old(self)@.insert(upstream@, config@),
    {
        pool_insert(&mut self.configs, upstream, config);
    }

    /// Whether an upstream is registered.
    pub fn contains(&self, upstream: &str) -> (yes: bool)
        ensures
            yes == self@.contains_key(upstream@),
    {
        pool_contains(&self.configs, upstream)
    }

    /// The settings of an upstream.
    pub fn config(&self, upstream: &str) -> (out: Result<S3Config, S3Error>)
        ensures
            match out {
                Ok(config) => self@.contains_key(upstream@) && config@ == self@[upstream@],
                Err(e) => !self@.contains_key(upstream@) && (e matches S3Error::UnknownUpstream(
                    url,
                ) && url@ == upstream@),
            },
    {
        match pool_get(&self.configs, upstream) {
            Some(config) => Ok(config),
            None => Err(S3Error::UnknownUpstream(owned(upstream))),
        }
    }
}

/// What S3 says of an object without giving it.
#[derive(Debug, PartialEq, Eq)]
pub struct S3ObjectHead {
    pub content_type: Option<String>,
    pub content_length: Option<i64>,
    pub accept_ranges: Option<String>,
    pub etag: Option<String>,
    pub last_modified: Option<String>,
}

/// An error of S3 that says `text` means that the object does not exist.
pub open spec fn says_not_found(text: Seq<char>) -> bool {
    find(text, "NotFound"@) is Some || find(text, "NoSuchKey"@) is Some || find(
        text,
        "status code: 404"@,
    ) is Some
}

/// Whether an error of S3 that says `text` means that the object does not exist.
pub fn is_not_found(text: &str) -> (yes: bool)
    ensures
        yes == says_not_found(text@),
{
    contains(text, "NotFound") || contains(text, "NoSuchKey") || contains(
        text,
        "status code: 404",
    )
}

/// What the failure of a request means: that there is no such object, or an
/// error.
pub fn request_failure(text: &str) -> (out: Option<S3Error>)
    ensures
        match out {
            None => says_not_found(text@),
            Some(e) => !says_not_found(text@) && (e matches S3Error::Request(t) && t@ == text@),
        },
{
    if is_not_found(text) {
        None
    } else {
        Some(S3Error::Request(owned(text)))
    }
}

/// The status with which an object is passed on: part of it where a range was
/// asked for.
pub fn object_status(ranged: bool) -> (out: u16)
    ensures
        out == if ranged {
            206u16
        } else {
            200u16
        },
{
    if ranged {
        206
    } else {
        200
    }
}

/// A failure of S3 means that there is no such object wherever it says so, by the
/// name of the error or by its status, whatever stands around that; one that says
/// nothing of the kind is an error.
pub proof fn law_missing_objects_are_recognized(
    before: Seq<char>,
    behind: Seq<char>,
    text: Seq<char>,
)
    ensures
        says_not_found(before + "NotFound"@ + behind),
        says_not_found(before + "NoSuchKey"@ + behind),
        says_not_found(before + "status code: 404"@ + behind),
        (forall|i: int| !#[trigger] occurs_at(text, "NotFound"@, i)) && (forall|i: int|
            !#[trigger] occurs_at(text, "NoSuchKey"@, i)) && (forall|i: int|
            !#[trigger] occurs_at(text, "status code: 404"@, i)) ==> !says_not_found(text),
{
    lemma_found(before, "NotFound"@, behind);
    lemma_found(before, "NoSuchKey"@, behind);
    lemma_found(before, "status code: 404"@, behind);
    lemma_find_from(text, "NotFound"@, 0);
    lemma_find_from(text, "NoSuchKey"@, 0);
    lemma_find_from(text, "status code: 404"@, 0);
}

proof fn lemma_found(before: Seq<char>, word: Seq<char>, behind: Seq<char>)
    ensures
        find(before + word + behind, word) is Some,
{
    let text = before + word + behind;
    let at = before.len() as int;
    assert(text.subrange(at, at + word.len()) =~= word);
    assert(occurs_at(text, word, at));
    lemma_find_from(text, word, 0);
}

} // verus!
