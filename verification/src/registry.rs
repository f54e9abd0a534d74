//! The upstreams that are registered: the keys that may sign for each, how it is
//! authenticated with, what it may serve and how its narinfos are rewritten.

use vstd::prelude::*;
use vstd::string::*;

use crate::config::UpstreamConfig;
use crate::filter::{allows_narinfo, copy_rules, rule_views, rules_allow, FilterRule};
use crate::nar_url::NarUrlMode;
use crate::narinfo::{
    parse_public_key, read_public_key, signed_by, NarInfo, NarInfoError, NarInfoErrorView,
    NarInfoView,
};
use crate::rewrite::{rewrite_narinfo_url, rewritten_body};
use crate::s3::S3ClientPool;
use crate::s3_config::S3Config;
use crate::table::Table;
use crate::text::{
    concat2, copy_opt, copy_strings, lemma_text_le_antisymmetric, lemma_text_le_total,
    lemma_text_le_transitive, same_text, text_at_most, text_le, view_opt, views,
};
use crate::time::Duration;

verus! {

// ---------------------------------------------------------------------------
// Keys
// ---------------------------------------------------------------------------
/// The texts of `list` are in order and none occurs twice.
pub open spec fn strictly_sorted(list: Seq<Seq<char>>) -> bool {
    forall|i: int, j: int|
        0 <= i < j < list.len() ==> text_le(#[trigger] list[i], #[trigger] list[j]) && list[i]
            != list[j]
}

/// `key` is the key of its own field, or one of the list.
pub open spec fn is_configured_key(
    public_key: Seq<char>,
    public_keys: Seq<Seq<char>>,
    key: Seq<char>,
) -> bool {
    (public_key.len() > 0 && key == public_key) || public_keys.contains(key)
}

/// `keys` are the configured keys, in order, each once.
pub open spec fn are_normalized(
    keys: Seq<Seq<char>>,
    public_key: Seq<char>,
    public_keys: Seq<Seq<char>>,
) -> bool {
    strictly_sorted(keys) && forall|key: Seq<char>| #[trigger]
        keys.contains(key) <==> is_configured_key(public_key, public_keys, key)
}

/// Puts `key` into `keys` at its place, unless it is there already.
fn add_key(keys: &mut Vec<String>, key: String)
    requires
        strictly_sorted(views(old(keys)@)),
    ensures
        strictly_sorted(views(final(keys)@)),
        forall|k: Seq<char>| #[trigger]
            views(final(keys)@).contains(k) <==> views(old(keys)@).contains(k) || k == key@,
{
    let ghost before = views(keys@);
    let n: usize = keys.len();
    let mut i: usize = 0;
    while i < n && !text_at_most(key.as_str(), keys[i].as_str())
        invariant
            i <= n,
            n == keys@.len(),
            before == views(keys@),
            forall|j: int| 0 <= j < i ==> !text_le(key@, #[trigger] before[j]),
        decreases n - i,
    {
        assert(before[i as int] == keys@[i as int]@);
        i = i + 1;
    }
    if i < n {
        assert(before[i as int] == keys@[i as int]@);
        if same_text(key.as_str(), keys[i].as_str()) {
            assert(before.contains(key@));
            return;
        }
    }
    let ghost k0 = key@;
    keys.insert(i, key);
    let ghost after = views(keys@);
    assert(after =~= before.insert(i as int, k0));
    proof {
        assert forall|a: int, b: int| 0 <= a < b < after.len() implies text_le(
            #[trigger] after[a],
            #[trigger] after[b],
        ) && after[a] != after[b] by {
            let x = if a < i { a } else { a - 1 };
            let y = if b < i { b } else { b - 1 };
            if a != i && b != i {
                assert(after[a] == before[x] && after[b] == before[y]);
            } else if b == i {
                assert(after[a] == before[a]);
                lemma_text_le_total(k0, before[a]);
            } else {
                assert(after[b] == before[y]);
                if y > i {
                    lemma_text_le_transitive(k0, before[i as int], before[y]);
                    if k0 == before[y] {
                        lemma_text_le_antisymmetric(k0, before[i as int]);
                    }
                }
            }
        }
        assert forall|k: Seq<char>| #[trigger] after.contains(k) <==> before.contains(k) || k == k0 by {
            if before.contains(k) {
                let j = choose|j: int| 0 <= j < before.len() && before[j] == k;
                assert(after[if j < i { j } else { j + 1 }] == k);
            }
            if k == k0 {
                assert(after[i as int] == k);
            }
            if after.contains(k) && k != k0 {
                let j = choose|j: int| 0 <= j < after.len() && after[j] == k;
                assert(before[if j < i { j } else { j - 1 }] == k);
            }
        }
    }
}

/// The keys of an upstream: that of its own field and those of the list, in order
/// and each once.
pub fn normalized_public_keys(public_key: String, public_keys: Vec<String>) -> (out: Vec<String>)
    ensures
        are_normalized(views(out@), public_key@, views(public_keys@)),
{
    let ghost given = views(public_keys@);
    let mut keys: Vec<String> = Vec::new();
    let ghost own = public_key@;
    if public_key.as_str().unicode_len() > 0 {
        keys.push(public_key);
        assert(views(keys@) =~= seq![own]);
        assert(views(keys@)[0] == own);
    }
    let n: usize = public_keys.len();
    let mut i: usize = 0;
    assert(given.take(0) =~= seq![]);
    while i < n
        invariant
            i <= n,
            n == public_keys@.len(),
            given == views(public_keys@),
            strictly_sorted(views(keys@)),
            forall|k: Seq<char>| #[trigger]
                views(keys@).contains(k) <==> is_configured_key(own, given.take(i as int), k),
        decreases n - i,
    {
        let ghost seen = given.take(i as int);
        let ghost next = given.take(i + 1);
        let ghost key = given[i as int];
        assert(next =~= seen.push(key));
        add_key(&mut keys, public_keys[i].clone());
        proof {
            assert forall|k: Seq<char>| #[trigger]
                views(keys@).contains(k) <==> is_configured_key(own, next, k) by {
                if seen.contains(k) {
                    let j = choose|j: int| 0 <= j < seen.len() && seen[j] == k;
                    assert(next[j] == k);
                }
                if k == key {
                    assert(next[i as int] == k);
                }
                if next.contains(k) && k != key {
                    let j = choose|j: int| 0 <= j < next.len() && next[j] == k;
                    assert(seen[j] == k);
                }
            }
        }
        i = i + 1;
    }
    assert(given.take(n as int) =~= given);
    keys
}

/// One of `keys` verifies `info`.
pub open spec fn verified_by_any(info: NarInfoView, keys: Seq<Seq<char>>) -> bool {
    exists|i: int| 0 <= i < keys.len() && #[trigger] verified_by(info, keys[i])
}

/// The key that is written `key` verifies `info`. What is no key verifies
/// nothing.
pub open spec fn verified_by(info: NarInfoView, key: Seq<char>) -> bool {
    match read_public_key(key) {
        Ok((name, bytes)) => signed_by(info, name, bytes),
        Err(_) => false,
    }
}

/// Whether one of `public_keys` verifies `narinfo`.
pub fn narinfo_verifies_any_key(narinfo: &NarInfo, public_keys: &[String]) -> (yes: bool)
    ensures
        yes == verified_by_any(narinfo@, views(public_keys@)),
{
    let ghost keys = views(public_keys@);
    let n: usize = public_keys.len();
    let mut i: usize = 0;
    while i < n
        invariant
            i <= n,
            n == public_keys@.len(),
            keys == views(public_keys@),
            forall|j: int| 0 <= j < i ==> !#[trigger] verified_by(narinfo@, keys[j]),
        decreases n - i,
    {
        assert(keys[i as int] == public_keys@[i as int]@);
        let verified: bool = match narinfo.verify(public_keys[i].as_str()) {
            Ok(yes) => yes,
            Err(_) => false,
        };
        if verified {
            assert(verified_by(narinfo@, keys[i as int]));
            return true;
        }
        i = i + 1;
    }
    false
}

/// Whichever of its keys an upstream signs with, and in whatever order and how
/// often they are configured, the same narinfos verify.
pub proof fn law_key_order_is_irrelevant(
    info: NarInfoView,
    keys: Seq<Seq<char>>,
    public_key: Seq<char>,
    public_keys: Seq<Seq<char>>,
)
    requires
        are_normalized(keys, public_key, public_keys),
    ensures
        verified_by_any(info, keys) <==> exists|key: Seq<char>|
            is_configured_key(public_key, public_keys, key) && #[trigger] verified_by(info, key),
{
    if verified_by_any(info, keys) {
        let i = choose|i: int| 0 <= i < keys.len() && #[trigger] verified_by(info, keys[i]);
        assert(keys.contains(keys[i]));
        assert(is_configured_key(public_key, public_keys, keys[i]));
    }
    if exists|key: Seq<char>|
        is_configured_key(public_key, public_keys, key) && #[trigger] verified_by(info, key) {
        let key = choose|key: Seq<char>|
            is_configured_key(public_key, public_keys, key) && #[trigger] verified_by(info, key);
        assert(keys.contains(key));
        let i = choose|i: int| 0 <= i < keys.len() && keys[i] == key;
        assert(verified_by(info, keys[i]));
    }
}

/// Normalizing gives one list: two lists of the same keys, in order and each
/// once, are the same.
pub proof fn law_normalized_keys_are_unique(
    a: Seq<Seq<char>>,
    b: Seq<Seq<char>>,
    public_key: Seq<char>,
    public_keys: Seq<Seq<char>>,
)
    requires
        are_normalized(a, public_key, public_keys),
        are_normalized(b, public_key, public_keys),
    ensures
        a == b,
{
    assert forall|k: Seq<char>| a.contains(k) == b.contains(k) by {
        assert(a.contains(k) <==> is_configured_key(public_key, public_keys, k));
        assert(b.contains(k) <==> is_configured_key(public_key, public_keys, k));
    }
    lemma_sorted_lists_agree(a, b);
}

proof fn lemma_sorted_lists_agree(a: Seq<Seq<char>>, b: Seq<Seq<char>>)
    requires
        strictly_sorted(a),
        strictly_sorted(b),
        forall|k: Seq<char>| a.contains(k) == b.contains(k),
    ensures
        a == b,
    decreases a.len(),
{
    if a.len() == 0 {
        if b.len() > 0 {
            assert(b.contains(b[0]));
            assert(a.contains(b[0]));
        }
        assert(a =~= b);
    } else {
        assert(a.contains(a[0]));
        assert(b.contains(a[0]));
        let j = choose|j: int| 0 <= j < b.len() && b[j] == a[0];
        assert(b.contains(b[0]));
        assert(a.contains(b[0]));
        let i = choose|i: int| 0 <= i < a.len() && a[i] == b[0];
        if j > 0 && i > 0 {
            assert(text_le(b[0], b[j]) && b[0] != b[j]);
            assert(text_le(a[0], a[i]));
            lemma_text_le_antisymmetric(a[0], b[0]);
        }
        assert(a[0] == b[0]);
        let x = a.skip(1);
        let y = b.skip(1);
        assert forall|k: Seq<char>| x.contains(k) == y.contains(k) by {
            if x.contains(k) {
                let m = choose|m: int| 0 <= m < x.len() && x[m] == k;
                assert(a[m + 1] == k);
                assert(a[0] != a[m + 1]);
                assert(b.contains(k));
                let l = choose|l: int| 0 <= l < b.len() && b[l] == k;
                assert(y[l - 1] == k);
            }
            if y.contains(k) {
                let m = choose|m: int| 0 <= m < y.len() && y[m] == k;
                assert(b[m + 1] == k);
                assert(b[0] != b[m + 1]);
                assert(a.contains(k));
                let l = choose|l: int| 0 <= l < a.len() && a[l] == k;
                assert(x[l - 1] == k);
            }
        }
        assert forall|p: int, q: int| 0 <= p < q < x.len() implies text_le(
            #[trigger] x[p],
            #[trigger] x[q],
        ) && x[p] != x[q] by {
            assert(x[p] == a[p + 1] && x[q] == a[q + 1]);
        }
        assert forall|p: int, q: int| 0 <= p < q < y.len() implies text_le(
            #[trigger] y[p],
            #[trigger] y[q],
        ) && y[p] != y[q] by {
            assert(y[p] == b[p + 1] && y[q] == b[q + 1]);
        }
        lemma_sorted_lists_agree(x, y);
        assert(a =~= seq![a[0]] + x);
        assert(b =~= seq![b[0]] + y);
    }
}

// ---------------------------------------------------------------------------
// Upstreams
// ---------------------------------------------------------------------------
/// What a router needs to know of an upstream.
pub trait RouterUpstream {
    /// The configuration that the upstream amounts to.
    spec fn config(&self) -> UpstreamConfig;

    fn url(&self) -> (out: &str)
        ensures
            out@ == self.config().url@,
    ;

    fn public_key(&self) -> (out: &str)
        ensures
            out@ == self.config().public_key@,
    ;

    fn public_keys(&self) -> (out: &Vec<String>)
        ensures
            out@ == self.config().public_keys@,
    ;

    fn username(&self) -> (out: &str)
        ensures
            out@ == self.config().username@,
    ;

    fn password(&self) -> (out: &Option<String>)
        ensures
            *out == self.config().password,
    ;

    fn filters(&self) -> (out: &Vec<FilterRule>)
        ensures
            rule_views(out@) == rule_views(self.config().filters@),
    ;

    fn nar_url_mode(&self) -> (out: NarUrlMode)
        ensures
            out == self.config().nar_url_mode,
    ;

    fn narinfo_timeout(&self) -> (out: Option<Duration>)
        ensures
            match out {
                Some(t) => self.config().narinfo_timeout matches Some(h) && h.0 == t,
                None => self.config().narinfo_timeout is None,
            },
    ;

    fn s3(&self) -> (out: Option<&S3Config>)
        ensures
            match out {
                Some(c) => self.config().s3 == Some(*c),
                None => self.config().s3 is None,
            },
    ;
}

impl RouterUpstream for UpstreamConfig {
    open spec fn config(&self) -> UpstreamConfig {
        *self
    }

    fn url(&self) -> (out: &str) {
        self.url.as_str()
    }

    fn public_key(&self) -> (out: &str) {
        self.public_key.as_str()
    }

    fn public_keys(&self) -> (out: &Vec<String>) {
        &self.public_keys
    }

    fn username(&self) -> (out: &str) {
        self.username.as_str()
    }

    fn password(&self) -> (out: &Option<String>) {
        &self.password
    }

    fn filters(&self) -> (out: &Vec<FilterRule>) {
        &self.filters
    }

    fn nar_url_mode(&self) -> (out: NarUrlMode) {
        self.nar_url_mode
    }

    fn narinfo_timeout(&self) -> (out: Option<Duration>) {
        match &self.narinfo_timeout {
            Some(timeout) => Some(timeout.0),
            None => None,
        }
    }

    fn s3(&self) -> (out: Option<&S3Config>) {
        match &self.s3 {
            Some(config) => Some(config),
            None => None,
        }
    }
}

/// Why an upstream cannot be registered.
#[derive(Debug, PartialEq, Eq)]
pub enum UpstreamRegistrationError {
    /// One of its keys is no key.
    PublicKey(NarInfoError),
    /// No client can be made for it.
    HttpClient(String),
}

impl UpstreamRegistrationError {
    /// What the error says of itself.
    pub open spec fn text(self) -> Seq<char> {
        match self {
            UpstreamRegistrationError::PublicKey(e) => "invalid upstream public key: "@ + e@.text(),
            UpstreamRegistrationError::HttpClient(e) => "build upstream HTTP client: "@ + e@,
        }
    }

    /// What the error says of itself.
    pub fn message(&self) -> (out: String)
        ensures
            out@ == self.text(),
    {
        match self {
            UpstreamRegistrationError::PublicKey(e) => concat2(
                "invalid upstream public key: ",
                e.message().as_str(),
            ),
            UpstreamRegistrationError::HttpClient(e) => concat2(
                "build upstream HTTP client: ",
                e.as_str(),
            ),
        }
    }
}

/// The limits that a router keeps.
#[derive(Debug, Clone, Copy)]
pub struct RouterTuning {
    pub max_concurrent_races: u32,
    pub per_upstream_max_inflight: u32,
    pub in_memory_negative_ttl: Duration,
    pub upstream_cooldown: Duration,
}

/// What a router knows of its upstreams, by URL.
pub struct Router {
    keys: Table<Vec<String>>,
    auth: Table<(String, Option<String>)>,
    filters: Table<Vec<FilterRule>>,
    modes: Table<NarUrlMode>,
    timeouts: Table<Duration>,
    s3: S3ClientPool,
}

/// A user and a password.
pub type Login = (Seq<char>, Option<Seq<char>>);

/// Every key of `keys` reads as a key.
pub open spec fn all_keys_read(keys: Seq<Seq<char>>) -> bool {
    forall|i: int| 0 <= i < keys.len() ==> read_public_key(#[trigger] keys[i]) is Ok
}

/// Every configured key reads as a key.
pub open spec fn configured_keys_read(config: UpstreamConfig) -> bool {
    forall|key: Seq<char>| #[trigger]
        is_configured_key(config.public_key@, views(config.public_keys@), key)
            ==> read_public_key(key) is Ok
}

/// `error` is what is wrong with the first configured key that does not read as
/// one, in the order in which they are registered.
pub open spec fn is_key_error(config: UpstreamConfig, error: NarInfoErrorView) -> bool {
    exists|keys: Seq<Seq<char>>, i: int|
        #![trigger are_normalized(keys, config.public_key@, views(config.public_keys@)), keys[i]]
        are_normalized(keys, config.public_key@, views(config.public_keys@)) && 0 <= i < keys.len()
            && all_keys_read(keys.take(i)) && read_public_key(keys[i]) == Err::<
            (Seq<char>, Seq<u8>),
            NarInfoErrorView,
        >(error)
}

/// `list`, or nothing where it is empty.
pub open spec fn unless_empty<T>(list: Seq<T>) -> Option<Seq<T>> {
    if list.len() == 0 {
        None
    } else {
        Some(list)
    }
}

/// The login of an upstream: none where its user is empty.
pub open spec fn login_of(config: UpstreamConfig) -> Option<Login> {
    if config.username@.len() == 0 {
        None
    } else {
        Some((config.username@, view_opt(config.password)))
    }
}

impl Router {
    /// The tables hold every name once.
    pub closed spec fn wf(self) -> bool {
        &&& self.keys.wf()
        &&& self.auth.wf()
        &&& self.filters.wf()
        &&& self.modes.wf()
        &&& self.timeouts.wf()
    }

    /// The keys that may sign for `url`; none where anything may.
    pub closed spec fn keys_of(self, url: Seq<char>) -> Option<Seq<Seq<char>>> {
        if self.keys.view().contains_key(url) {
            Some(views(self.keys.view()[url]@))
        } else {
            None
        }
    }

    /// The login for `url`; none where it is asked without.
    pub closed spec fn login_of(self, url: Seq<char>) -> Option<Login> {
        if self.auth.view().contains_key(url) {
            Some((self.auth.view()[url].0@, view_opt(self.auth.view()[url].1)))
        } else {
            None
        }
    }

    /// The filter of `url`; none where it may serve anything.
    pub closed spec fn rules_of(self, url: Seq<char>) -> Option<Seq<crate::filter::FilterRuleView>> {
        if self.filters.view().contains_key(url) {
            Some(rule_views(self.filters.view()[url]@))
        } else {
            None
        }
    }

    /// What becomes of the addresses in narinfos of `url`.
    pub closed spec fn mode_of(self, url: Seq<char>) -> NarUrlMode {
        if self.modes.view().contains_key(url) {
            self.modes.view()[url]
        } else {
            NarUrlMode::ToSelf
        }
    }

    /// How long a narinfo of `url` may take; none where the common limit holds.
    pub closed spec fn timeout_of(self, url: Seq<char>) -> Option<Duration> {
        if self.timeouts.view().contains_key(url) {
            Some(self.timeouts.view()[url])
        } else {
            None
        }
    }

    /// The S3 settings of the upstreams that have some.
    pub closed spec fn s3_settings(self) -> Map<Seq<char>, crate::s3_config::S3ConfigView> {
        self.s3@
    }

    /// `other` knows the same of `url`, but for S3 settings.
    pub open spec fn agrees_on(self, other: Router, url: Seq<char>) -> bool {
        &&& self.keys_of(url) == other.keys_of(url)
        &&& self.login_of(url) == other.login_of(url)
        &&& self.rules_of(url) == other.rules_of(url)
        &&& self.mode_of(url) == other.mode_of(url)
        &&& self.timeout_of(url) == other.timeout_of(url)
    }

    /// A router that knows no upstream.
    pub fn new() -> (out: Self)
        ensures
            out.wf(),
            out.s3_settings() == Map::<Seq<char>, crate::s3_config::S3ConfigView>::empty(),
            forall|url: Seq<char>| #[trigger] out.keys_of(url) is None,
            forall|url: Seq<char>| #[trigger] out.login_of(url) is None,
            forall|url: Seq<char>| #[trigger] out.rules_of(url) is None,
            forall|url: Seq<char>| #[trigger] out.mode_of(url) == NarUrlMode::ToSelf,
            forall|url: Seq<char>| #[trigger] out.timeout_of(url) is None,
    {
        Router {
            keys: Table::new(),
            auth: Table::new(),
            filters: Table::new(),
            modes: Table::new(),
            timeouts: Table::new(),
            s3: S3ClientPool::new(),
        }
    }

    /// Registers the keys that may sign for `url`. The first that is no key is
    /// the error, and then nothing is registered.
    fn register_upstream_keys(
        &mut self,
        url: String,
        public_key: String,
        public_keys: Vec<String>,
    ) -> (out: Result<(), NarInfoError>)
        requires
            old(self).wf(),
        ensures
            final(self).wf(),
            final(self).s3_settings() == old(self).s3_settings(),
            forall|u: Seq<char>|
                #![trigger final(self).keys_of(u)]
                u != url@ ==> final(self).agrees_on(*old(self), u),
            ({
                let now = *final(self);
                let was = *old(self);
                &&& now.login_of(url@) == was.login_of(url@)
                &&& now.rules_of(url@) == was.rules_of(url@)
                &&& now.mode_of(url@) == was.mode_of(url@)
                &&& now.timeout_of(url@) == was.timeout_of(url@)
            }),
            match out {
                Ok(_) => exists|keys: Seq<Seq<char>>| #[trigger]
                    are_normalized(keys, public_key@, views(public_keys@)) && all_keys_read(keys)
                        && final(self).keys_of(url@) == unless_empty(keys),
                Err(e) => final(self).keys_of(url@) == old(self).keys_of(url@) && exists|
                    keys: Seq<Seq<char>>,
                    i: int,
                |
                    #![trigger are_normalized(keys, public_key@, views(public_keys@)), keys[i]]
                    are_normalized(keys, public_key@, views(public_keys@)) && 0 <= i < keys.len()
                        && all_keys_read(keys.take(i)) && read_public_key(keys[i]) == Err::<
                        (Seq<char>, Seq<u8>),
                        NarInfoErrorView,
                    >(e@),
            },
    {
        let keys: Vec<String> = normalized_public_keys(public_key, public_keys);
        let ghost list = views(keys@);
        let n: usize = keys.len();
        let mut i: usize = 0;
        while i < n
            invariant
                i <= n,
                n == keys@.len(),
                list == views(keys@),
                *self == *old(self),
                self.wf(),
                are_normalized(list, public_key@, views(public_keys@)),
                all_keys_read(list.take(i as int)),
            decreases n - i,
        {
            assert(list[i as int] == keys@[i as int]@);
            match parse_public_key(keys[i].as_str()) {
                Ok(_) => {},
                Err(e) => return Err(e),
            }
            assert forall|j: int| 0 <= j < i + 1 implies read_public_key(
                #[trigger] list.take(i + 1)[j],
            ) is Ok by {
                if j < i {
                    assert(list.take(i as int)[j] == list.take(i + 1)[j]);
                }
            }
            i = i + 1;
        }
        assert(list.take(n as int) =~= list);
        if n == 0 {
            self.keys.remove(url.as_str());
        } else {
            self.keys.insert(url, keys);
        }
        Ok(())
    }

    /// Registers the login for `url`; an empty user is none.
    fn register_upstream_auth(&mut self, url: String, username: String, password: Option<String>)
        requires
            old(self).wf(),
        ensures
            final(self).wf(),
            final(self).s3_settings() == old(self).s3_settings(),
            forall|u: Seq<char>|
                #![trigger final(self).login_of(u)]
                u != url@ ==> final(self).agrees_on(*old(self), u),
            final(self).keys_of(url@) == old(self).keys_of(url@),
            final(self).rules_of(url@) == old(self).rules_of(url@),
            final(self).mode_of(url@) == old(self).mode_of(url@),
            final(self).timeout_of(url@) == old(self).timeout_of(url@),
            final(self).login_of(url@) == if username@.len() == 0 {
                None
            } else {
                Some((username@, view_opt(password)))
            },
    {
        if username.as_str().unicode_len() == 0 {
            self.auth.remove(url.as_str());
        } else {
            self.auth.insert(url, (username, password));
        }
    }

    /// Registers the filter of `url`; no rules are no filter.
    pub fn register_upstream_filters(&mut self, url: String, filters: Vec<FilterRule>)
        requires
            old(self).wf(),
        ensures
            final(self).wf(),
            final(self).s3_settings() == old(self).s3_settings(),
            forall|u: Seq<char>|
                #![trigger final(self).rules_of(u)]
                u != url@ ==> final(self).agrees_on(*old(self), u),
            final(self).keys_of(url@) == old(self).keys_of(url@),
            final(self).login_of(url@) == old(self).login_of(url@),
            final(self).mode_of(url@) == old(self).mode_of(url@),
            final(self).timeout_of(url@) == old(self).timeout_of(url@),
            final(self).rules_of(url@) == unless_empty(rule_views(filters@)),
    {
        if filters.len() == 0 {
            self.filters.remove(url.as_str());
        } else {
            self.filters.insert(url, filters);
        }
    }

    /// Registers what becomes of the addresses in narinfos of `url`.
    fn register_upstream_nar_url_mode(&mut self, url: String, mode: NarUrlMode)
        requires
            old(self).wf(),
        ensures
            final(self).wf(),
            final(self).s3_settings() == old(self).s3_settings(),
            forall|u: Seq<char>|
                #![trigger final(self).mode_of(u)]
                u != url@ ==> final(self).agrees_on(*old(self), u),
            final(self).keys_of(url@) == old(self).keys_of(url@),
            final(self).login_of(url@) == old(self).login_of(url@),
            final(self).rules_of(url@) == old(self).rules_of(url@),
            final(self).timeout_of(url@) == old(self).timeout_of(url@),
            final(self).mode_of(url@) == mode,
    {
        self.modes.insert(url, mode);
    }

    /// Registers how long a narinfo of `url` may take.
    fn register_upstream_narinfo_timeout(&mut self, url: String, timeout: Option<Duration>)
        requires
            old(self).wf(),
        ensures
            final(self).wf(),
            final(self).s3_settings() == old(self).s3_settings(),
            forall|u: Seq<char>|
                #![trigger final(self).timeout_of(u)]
                u != url@ ==> final(self).agrees_on(*old(self), u),
            final(self).keys_of(url@) == old(self).keys_of(url@),
            final(self).login_of(url@) == old(self).login_of(url@),
            final(self).rules_of(url@) == old(self).rules_of(url@),
            final(self).mode_of(url@) == old(self).mode_of(url@),
            final(self).timeout_of(url@) == timeout,
    {
        match timeout {
            Some(timeout) => {
                self.timeouts.insert(url, timeout);
            },
            None => {
                self.timeouts.remove(url.as_str());
            },
        }
    }

    /// Registers an upstream, in place of what was known of its URL. A key that is
    /// no key is the error; then only S3 settings are registered.
    pub fn register_upstream<U: RouterUpstream>(&mut self, upstream: &U) -> (out: Result<
        (),
        UpstreamRegistrationError,
    >)
        requires
            old(self).wf(),
        ensures
            final(self).wf(),
            ({
                let c = upstream.config();
                let url = c.url@;
                let now = *final(self);
                let was = *old(self);
                &&& now.s3_settings() == match c.s3 {
                    Some(config) => was.s3_settings().insert(url, config@),
                    None => was.s3_settings(),
                }
                &&& forall|u: Seq<char>|
                    #![trigger now.keys_of(u)]
                    #![trigger now.login_of(u)]
                    #![trigger now.rules_of(u)]
                    #![trigger now.mode_of(u)]
                    #![trigger now.timeout_of(u)]
                    u != url ==> now.agrees_on(was, u)
                &&& out is Ok <==> configured_keys_read(c)
                &&& out is Ok ==> {
                    &&& exists|keys: Seq<Seq<char>>| #[trigger]
                        are_normalized(keys, c.public_key@, views(c.public_keys@)) && now.keys_of(
                            url,
                        ) == unless_empty(keys)
                    &&& now.login_of(url) == login_of(c)
                    &&& now.rules_of(url) == unless_empty(rule_views(c.filters@))
                    &&& now.mode_of(url) == c.nar_url_mode
                    &&& now.timeout_of(url) == match c.narinfo_timeout {
                        Some(t) => Some(t.0),
                        None => None,
                    }
                }
                &&& out matches Err(e) ==> {
                    &&& now.agrees_on(was, url)
                    &&& e matches UpstreamRegistrationError::PublicKey(ne) && is_key_error(c, ne@)
                }
            }),
    {
        let ghost c = upstream.config();
        let url: String = crate::text::owned(upstream.url());
        if let Some(config) = upstream.s3() {
            self.s3.register(url.clone(), config.clone());
        }
        let ghost after_s3 = *self;
        let registered = self.register_upstream_keys(
            url.clone(),
            crate::text::owned(upstream.public_key()),
            copy_strings(upstream.public_keys()),
        );
        match registered {
            Ok(_) => {},
            Err(e) => {
                proof {
                    let (keys, i) = choose|keys: Seq<Seq<char>>, i: int|
                        #![trigger are_normalized(keys, c.public_key@, views(c.public_keys@)), keys[i]]
                        are_normalized(keys, c.public_key@, views(c.public_keys@)) && 0 <= i
                            < keys.len() && all_keys_read(keys.take(i)) && read_public_key(keys[i])
                            == Err::<(Seq<char>, Seq<u8>), NarInfoErrorView>(e@);
                    assert(keys.contains(keys[i]));
                    assert(is_configured_key(c.public_key@, views(c.public_keys@), keys[i]));
                }
                return Err(UpstreamRegistrationError::PublicKey(e));
            },
        }
        proof {
            let keys = choose|keys: Seq<Seq<char>>| #[trigger]
                are_normalized(keys, c.public_key@, views(c.public_keys@)) && all_keys_read(keys)
                    && self.keys_of(url@) == unless_empty(keys);
            assert forall|key: Seq<char>| #[trigger]
                is_configured_key(
                    c.public_key@,
                    views(c.public_keys@),
                    key,
                ) implies read_public_key(key) is Ok by {
                assert(keys.contains(key));
                let i = choose|i: int| 0 <= i < keys.len() && keys[i] == key;
                assert(read_public_key(keys[i]) is Ok);
            }
        }
        let ghost s1 = *self;
        self.register_upstream_auth(
            url.clone(),
            crate::text::owned(upstream.username()),
            copy_opt(upstream.password()),
        );
        let ghost s2 = *self;
        self.register_upstream_filters(url.clone(), copy_rules(upstream.filters()));
        let ghost s3 = *self;
        self.register_upstream_nar_url_mode(url.clone(), upstream.nar_url_mode());
        let ghost s4 = *self;
        self.register_upstream_narinfo_timeout(url, upstream.narinfo_timeout());
        proof {
            assert forall|u: Seq<char>| u != c.url@ implies self.agrees_on(*old(self), u) by {
                assert(self.timeout_of(u) == s4.timeout_of(u));
                assert(s4.mode_of(u) == s3.mode_of(u));
                assert(s3.rules_of(u) == s2.rules_of(u));
                assert(s2.login_of(u) == s1.login_of(u));
                assert(s1.keys_of(u) == after_s3.keys_of(u));
            }
        }
        Ok(())
    }

    /// The keys that may sign for `url`, none where it has none.
    pub fn public_keys(&self, url: &str) -> (out: Vec<String>)
        requires
            self.wf(),
        ensures
            views(out@) == match self.keys_of(url@) {
                Some(keys) => keys,
                None => Seq::<Seq<char>>::empty(),
            },
    {
        match self.keys.get(url) {
            Some(keys) => copy_strings(keys),
            None => {
                let out: Vec<String> = Vec::new();
                assert(views(out@) =~= Seq::<Seq<char>>::empty());
                out
            },
        }
    }

    /// Whether `url` is an S3 upstream.
    pub fn is_s3(&self, url: &str) -> (yes: bool)
        ensures
            yes == self.s3_settings().contains_key(url@),
    {
        self.s3.contains(url)
    }

    /// The login for `url`.
    pub fn login(&self, url: &str) -> (out: Option<(String, Option<String>)>)
        requires
            self.wf(),
        ensures
            match out {
                Some((user, password)) => self.login_of(url@) == Some((user@, view_opt(password))),
                None => self.login_of(url@) is None,
            },
    {
        match self.auth.get(url) {
            Some(login) => Some((login.0.clone(), copy_opt(&login.1))),
            None => None,
        }
    }

    /// How long a narinfo of `url` may take.
    pub fn narinfo_timeout(&self, url: &str) -> (out: Option<Duration>)
        requires
            self.wf(),
        ensures
            out == self.timeout_of(url@),
    {
        match self.timeouts.get(url) {
            Some(timeout) => Some(*timeout),
            None => None,
        }
    }

    /// What becomes of the addresses in narinfos of `url`.
    pub fn nar_url_mode(&self, url: &str) -> (out: NarUrlMode)
        requires
            self.wf(),
        ensures
            out == self.mode_of(url@),
    {
        match self.modes.get(url) {
            Some(mode) => *mode,
            None => NarUrlMode::default(),
        }
    }

    /// Whether `url` has a filter.
    pub fn has_filter(&self, url: &str) -> (yes: bool)
        ensures
            yes == (self.rules_of(url@) is Some),
    {
        self.filters.contains(url)
    }

    /// `url` may serve `info`.
    pub open spec fn allows(self, url: Seq<char>, info: NarInfoView) -> bool {
        match self.rules_of(url) {
            Some(rules) => rules_allow(rules, info),
            None => true,
        }
    }

    /// Whether `url` may serve `narinfo`.
    pub fn upstream_allows_narinfo(&self, url: &str, narinfo: &NarInfo) -> (yes: bool)
        requires
            self.wf(),
        ensures
            yes == self.allows(url@, narinfo@),
    {
        match self.filters.get(url) {
            Some(rules) => allows_narinfo(rules, narinfo),
            None => true,
        }
    }

    /// `url` may have signed `info`.
    pub open spec fn vouches(self, url: Seq<char>, info: NarInfoView) -> bool {
        match self.keys_of(url) {
            Some(keys) => verified_by_any(info, keys),
            None => true,
        }
    }

    /// Whether `narinfo` is signed as `url` has to sign.
    pub fn signature_accepted(&self, url: &str, narinfo: &NarInfo) -> (yes: bool)
        requires
            self.wf(),
        ensures
            yes == self.vouches(url@, narinfo@),
    {
        match self.keys.get(url) {
            Some(keys) => narinfo_verifies_any_key(narinfo, keys.as_slice()),
            None => true,
        }
    }

    /// The body with which a narinfo of `url` is answered.
    pub open spec fn answer(self, url: Seq<char>, store_hash: Seq<char>, body: Option<Seq<u8>>) -> Option<
        Seq<u8>,
    > {
        match body {
            Some(b) => Some(rewritten_body(b, url, store_hash, self.mode_of(url))),
            None => None,
        }
    }

    /// The body with which a narinfo of `url` is answered: its addresses rewritten
    /// as the upstream's mode asks.
    pub fn response_narinfo_bytes(
        &self,
        url: &str,
        store_hash: &str,
        body: &Option<Vec<u8>>,
    ) -> (out: Option<Vec<u8>>)
        requires
            self.wf(),
        ensures
            view_bytes(out) == self.answer(url@, store_hash@, view_bytes(*body)),
    {
        match body {
            Some(b) => Some(
                rewrite_narinfo_url(b.as_slice(), url, store_hash, self.nar_url_mode(url)),
            ),
            None => None,
        }
    }
}

/// The contents of optional bytes.
pub open spec fn view_bytes(bytes: Option<Vec<u8>>) -> Option<Seq<u8>> {
    match bytes {
        Some(b) => Some(b@),
        None => None,
    }
}

/// Routers that agree on an upstream hold it to the same keys and rules, ask it with
/// the same login and for as long, and answer its narinfos alike.
pub proof fn law_routers_that_agree_decide_alike(
    a: Router,
    b: Router,
    url: Seq<char>,
    info: NarInfoView,
    store_hash: Seq<char>,
    body: Option<Seq<u8>>,
)
    requires
        a.agrees_on(b, url),
    ensures
        a.vouches(url, info) == b.vouches(url, info),
        a.allows(url, info) == b.allows(url, info),
        a.answer(url, store_hash, body) == b.answer(url, store_hash, body),
        a.login_of(url) == b.login_of(url),
        a.timeout_of(url) == b.timeout_of(url),
{
}

} // verus!
