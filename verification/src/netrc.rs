//! Credentials from a netrc file, for upstreams that have none of their own.

use vstd::prelude::*;
use vstd::string::*;

use crate::address::{parse_url, url_parsed, ParsedUrl, UrlParts};
use crate::config::{Config, FallbackCacheConfig, UpstreamConfig};
use crate::text::{concat3, same_text, view_opt, views};

verus! {

/// What a netrc file says of one machine. The name of the entry for every other
/// machine is `default`.
#[derive(PartialEq, Eq)]
pub struct NetrcEntry {
    pub machine: String,
    pub login: String,
    pub password: String,
}

/// A netrc file.
#[derive(PartialEq, Eq)]
pub struct Netrc {
    pub hosts: Vec<NetrcEntry>,
}

/// A login and a password.
pub type Credentials = (Seq<char>, Seq<char>);

/// What the entries say of `machine`.
pub open spec fn entry_for(entries: Seq<NetrcEntry>, machine: Seq<char>) -> Option<Credentials>
    decreases entries.len(),
{
    if entries.len() == 0 {
        None
    } else if entries[0].machine@ == machine {
        Some((entries[0].login@, entries[0].password@))
    } else {
        entry_for(entries.skip(1), machine)
    }
}

impl Netrc {
    /// What the file says of `host`: its own entry, else the default entry.
    pub open spec fn credentials_for(self, host: Seq<char>) -> Option<Credentials> {
        match entry_for(self.hosts@, host) {
            Some(c) => Some(c),
            None => entry_for(self.hosts@, "default"@),
        }
    }

    fn find(&self, machine: &str) -> (out: Option<(String, String)>)
        ensures
            match out {
                Some((login, password)) => entry_for(self.hosts@, machine@) == Some(
                    (login@, password@),
                ),
                None => entry_for(self.hosts@, machine@) is None,
            },
    {
        let mut i: usize = 0;
        let n: usize = self.hosts.len();
        assert(self.hosts@.skip(0) =~= self.hosts@);
        while i < n
            invariant
                i <= n,
                n == self.hosts@.len(),
                entry_for(self.hosts@, machine@) == entry_for(
                    self.hosts@.skip(i as int),
                    machine@,
                ),
            decreases n - i,
        {
            let entry: &NetrcEntry = &self.hosts[i];
            assert(self.hosts@.skip(i as int)[0] == *entry);
            assert(self.hosts@.skip(i as int).skip(1) =~= self.hosts@.skip(i + 1));
            if same_text(entry.machine.as_str(), machine) {
                return Some((entry.login.clone(), entry.password.clone()));
            }
            i = i + 1;
        }
        None
    }

    /// What the file says of `host`: its own entry, else the default entry.
    pub fn lookup(&self, host: &str) -> (out: Option<(String, String)>)
        ensures
            match out {
                Some((login, password)) => self.credentials_for(host@) == Some((login@, password@)),
                None => self.credentials_for(host@) is None,
            },
    {
        match self.find(host) {
            Some(found) => Some(found),
            None => self.find("default"),
        }
    }
}

/// The login and the password that `nrc` has for an upstream whose URL has the
/// parts `url`: only of HTTP(S), only by host, and only with a login.
pub open spec fn credentials_by_url(url: UrlParts, nrc: Netrc) -> Option<Credentials> {
    let (scheme, host, _) = url;
    if scheme != "http"@ && scheme != "https"@ {
        None
    } else {
        match host {
            Some(host) => match nrc.credentials_for(host) {
                Some((login, password)) => if login.len() == 0 {
                    None
                } else {
                    Some((login, password))
                },
                None => None,
            },
            None => None,
        }
    }
}

/// The login and the password that `upstream` takes from `nrc`. An upstream with
/// a user of its own, or on S3, takes none.
pub open spec fn netrc_credentials(upstream: UpstreamConfig, nrc: Netrc) -> Option<Credentials> {
    if upstream.username@.len() > 0 || upstream.s3 is Some {
        None
    } else {
        match url_parsed(upstream.url@) {
            Ok(url) => credentials_by_url(url, nrc),
            Err(_) => None,
        }
    }
}

/// `after` is `before` with the credentials `c`, where there are any. An empty
/// password is none.
pub open spec fn with_credentials(
    before: UpstreamConfig,
    after: UpstreamConfig,
    c: Option<Credentials>,
) -> bool {
    match c {
        Some((login, password)) => {
            &&& after == (UpstreamConfig {
                username: after.username,
                password: after.password,
                ..before
            })
            &&& after.username@ == login
            &&& view_opt(after.password) == if password.len() == 0 {
                None
            } else {
                Some(password)
            }
        },
        None => after == before,
    }
}

/// What is said when the password of an upstream gives way to netrc.
pub open spec fn ignored_password_warning(url: Seq<char>) -> Seq<char> {
    "upstream "@ + url
        + " has a password configured without a username; the configured password is ignored and netrc credentials will be used instead"@
}

/// Fills the credentials of an upstream without a user, whose URL has the parts
/// `url`. Says so where a password of its own gives way.
pub fn fill_credentials(
    upstream: &mut UpstreamConfig,
    url: &ParsedUrl,
    nrc: &Netrc,
) -> (warning: Option<String>)
    requires
        old(upstream).username@.len() == 0,
        old(upstream).s3 is None,
    ensures
        with_credentials(*old(upstream), *final(upstream), credentials_by_url(url@, *nrc)),
        view_opt(warning) == if credentials_by_url(url@, *nrc) is Some && old(
            upstream,
        ).password is Some {
            Some(ignored_password_warning(old(upstream).url@))
        } else {
            None
        },
{
    if !same_text(url.scheme.as_str(), "http") && !same_text(url.scheme.as_str(), "https") {
        return None;
    }
    let host: &String = match &url.host {
        Some(host) => host,
        None => return None,
    };
    let (login, password): (String, String) = match nrc.lookup(host.as_str()) {
        Some(found) => found,
        None => return None,
    };
    if login.as_str().unicode_len() == 0 {
        return None;
    }
    let warning: Option<String> = if upstream.password.is_some() {
        Some(
            concat3(
                "upstream ",
                upstream.url.as_str(),
                " has a password configured without a username; the configured password is ignored and netrc credentials will be used instead",
            ),
        )
    } else {
        None
    };
    upstream.username = login;
    upstream.password = if password.as_str().unicode_len() == 0 {
        None
    } else {
        Some(password)
    };
    warning
}

/// Fills the credentials of `upstream` from `nrc`, where it has none of its own.
/// Says so where a password without a user gives way.
pub fn apply_netrc(upstream: &mut UpstreamConfig, nrc: &Netrc) -> (warning: Option<String>)
    ensures
        with_credentials(*old(upstream), *final(upstream), netrc_credentials(*old(upstream), *nrc)),
        view_opt(warning) == if netrc_credentials(*old(upstream), *nrc) is Some && old(
            upstream,
        ).password is Some {
            Some(ignored_password_warning(old(upstream).url@))
        } else {
            None
        },
{
    if upstream.username.as_str().unicode_len() > 0 || upstream.s3.is_some() {
        return None;
    }
    match parse_url(upstream.url.as_str()) {
        Ok(url) => fill_credentials(upstream, &url, nrc),
        Err(_) => None,
    }
}

/// What is to be said of filling the credentials of `list`, in order.
pub open spec fn netrc_warnings(list: Seq<UpstreamConfig>, nrc: Netrc) -> Seq<Seq<char>>
    decreases list.len(),
{
    if list.len() == 0 {
        seq![]
    } else {
        let rest = netrc_warnings(list.drop_last(), nrc);
        let upstream = list.last();
        if netrc_credentials(upstream, nrc) is Some && upstream.password is Some {
            rest.push(ignored_password_warning(upstream.url@))
        } else {
            rest
        }
    }
}

impl Config {
    /// Fills the credentials of every upstream and of the fallback cache from
    /// `nrc`, and gives what is to be said of it, in order.
    pub fn apply_netrc(&mut self, nrc: &Netrc) -> (warnings: Vec<String>)
        ensures
            final(self).upstreams@.len() == old(self).upstreams@.len(),
            forall|i: int|
                0 <= i < old(self).upstreams@.len() ==> with_credentials(
                    #[trigger] old(self).upstreams@[i],
                    final(self).upstreams@[i],
                    netrc_credentials(old(self).upstreams@[i], *nrc),
                ),
            with_credentials(
                old(self).fallback_cache.upstream,
                final(self).fallback_cache.upstream,
                netrc_credentials(old(self).fallback_cache.upstream, *nrc),
            ),
            *final(self) == (Config {
                upstreams: final(self).upstreams,
                fallback_cache: FallbackCacheConfig {
                    upstream: final(self).fallback_cache.upstream,
                    ..old(self).fallback_cache
                },
                ..*old(self)
            }),
            views(warnings@) == netrc_warnings(
                old(self).upstreams@.push(old(self).fallback_cache.upstream),
                *nrc,
            ),
    {
        let ghost before = *self;
        let mut warnings: Vec<String> = Vec::new();
        let n: usize = self.upstreams.len();
        let mut i: usize = 0;
        while i < n
            invariant
                i <= n,
                n == before.upstreams@.len(),
                self.upstreams@.len() == n,
                *self == (Config { upstreams: self.upstreams, ..before }),
                forall|j: int|
                    0 <= j < i ==> with_credentials(
                        #[trigger] before.upstreams@[j],
                        self.upstreams@[j],
                        netrc_credentials(before.upstreams@[j], *nrc),
                    ),
                forall|j: int| i <= j < n ==> #[trigger] before.upstreams@[j] == self.upstreams@[j],
                views(warnings@) == netrc_warnings(before.upstreams@.take(i as int), *nrc),
            decreases n - i,
        {
            assert(before.upstreams@[i as int] == self.upstreams@[i as int]);
            let ghost said = views(warnings@);
            let ghost next = before.upstreams@.take(i + 1);
            assert(next.drop_last() =~= before.upstreams@.take(i as int));
            assert(next.last() == before.upstreams@[i as int]);
            if let Some(warning) = apply_netrc(&mut self.upstreams[i], nrc) {
                warnings.push(warning);
                assert(views(warnings@) =~= said.push(warning@));
            }
            i = i + 1;
        }
        let ghost said = views(warnings@);
        let ghost all = before.upstreams@.push(before.fallback_cache.upstream);
        assert(before.upstreams@.take(n as int) =~= before.upstreams@);
        assert(all.drop_last() =~= before.upstreams@);
        if let Some(warning) = apply_netrc(&mut self.fallback_cache.upstream, nrc) {
            warnings.push(warning);
            assert(views(warnings@) =~= said.push(warning@));
        }
        warnings
    }
}

/// Credentials that the configuration gives always win: an upstream with a user
/// of its own stays as it is, whatever the netrc file says.
pub proof fn law_configured_credentials_win(
    before: UpstreamConfig,
    after: UpstreamConfig,
    nrc: Netrc,
)
    requires
        before.username@.len() > 0,
        with_credentials(before, after, netrc_credentials(before, nrc)),
    ensures
        after == before,
{
}

/// Filling credentials twice from the same file changes nothing the second time.
pub proof fn law_netrc_fills_once(
    before: UpstreamConfig,
    once: UpstreamConfig,
    twice: UpstreamConfig,
    nrc: Netrc,
)
    requires
        with_credentials(before, once, netrc_credentials(before, nrc)),
        with_credentials(once, twice, netrc_credentials(once, nrc)),
    ensures
        twice == once,
{
}

/// The first entry of `machine` is the one at `at`.
pub open spec fn first_entry(entries: Seq<NetrcEntry>, machine: Seq<char>, at: int) -> bool {
    &&& 0 <= at < entries.len()
    &&& entries[at].machine@ == machine
    &&& forall|j: int| 0 <= j < at ==> (#[trigger] entries[j]).machine@ != machine
}

/// No entry is that of `machine`.
pub open spec fn no_entry(entries: Seq<NetrcEntry>, machine: Seq<char>) -> bool {
    forall|j: int| 0 <= j < entries.len() ==> (#[trigger] entries[j]).machine@ != machine
}

proof fn lemma_entry_for(entries: Seq<NetrcEntry>, machine: Seq<char>)
    ensures
        forall|at: int| #[trigger]
            first_entry(entries, machine, at) ==> entry_for(entries, machine) == Some(
                (entries[at].login@, entries[at].password@),
            ),
        no_entry(entries, machine) ==> entry_for(entries, machine) is None,
    decreases entries.len(),
{
    if entries.len() > 0 {
        let rest = entries.skip(1);
        lemma_entry_for(rest, machine);
        assert forall|at: int| #[trigger] first_entry(entries, machine, at) implies entry_for(
            entries,
            machine,
        ) == Some((entries[at].login@, entries[at].password@)) by {
            if at > 0 {
                assert(entries[0].machine@ != machine);
                assert(rest[at - 1] == entries[at]);
                assert forall|j: int| 0 <= j < at - 1 implies (#[trigger] rest[j]).machine@
                    != machine by {
                    assert(rest[j] == entries[j + 1]);
                }
                assert(first_entry(rest, machine, at - 1));
            }
        }
        if no_entry(entries, machine) {
            assert(entries[0].machine@ != machine);
            assert forall|j: int| 0 <= j < rest.len() implies (#[trigger] rest[j]).machine@
                != machine by {
                assert(rest[j] == entries[j + 1]);
            }
        }
    }
}

/// A host has the credentials of its first entry; only one without an entry has
/// those of the first default entry, and where there is none of these it has none.
pub proof fn law_hosts_have_their_own_credentials(nrc: Netrc, host: Seq<char>, at: int)
    ensures
        first_entry(nrc.hosts@, host, at) ==> nrc.credentials_for(host) == Some(
            (nrc.hosts@[at].login@, nrc.hosts@[at].password@),
        ),
        no_entry(nrc.hosts@, host) && first_entry(nrc.hosts@, "default"@, at)
            ==> nrc.credentials_for(host) == Some(
            (nrc.hosts@[at].login@, nrc.hosts@[at].password@),
        ),
        no_entry(nrc.hosts@, host) && no_entry(nrc.hosts@, "default"@) ==> nrc.credentials_for(host)
            is None,
{
    lemma_entry_for(nrc.hosts@, host);
    lemma_entry_for(nrc.hosts@, "default"@);
}

/// Credentials are taken for HTTP and HTTPS alone, for the host that the URL names,
/// and only where there is a login; they are then those that the file has.
pub proof fn law_credentials_are_for_web_hosts(
    scheme: Seq<char>,
    host: Option<Seq<char>>,
    query: Seq<(Seq<char>, Seq<char>)>,
    nrc: Netrc,
)
    ensures
        credentials_by_url((scheme, host, query), nrc) is Some <==> {
            &&& scheme == "http"@ || scheme == "https"@
            &&& host matches Some(h) && (nrc.credentials_for(h) matches Some((login, _))
                && login.len() > 0)
        },
        credentials_by_url((scheme, host, query), nrc) matches Some(c) ==> nrc.credentials_for(
            host->0,
        ) == Some(c),
{
}

/// An upstream without a user gets the login that the file has for its host, and
/// the password that comes with it where that is not empty; a password of its own
/// gives way. Nothing else of it changes.
pub proof fn law_netrc_fills_what_is_missing(
    before: UpstreamConfig,
    after: UpstreamConfig,
    nrc: Netrc,
    scheme: Seq<char>,
    host: Seq<char>,
    query: Seq<(Seq<char>, Seq<char>)>,
    at: int,
)
    requires
        with_credentials(before, after, netrc_credentials(before, nrc)),
        before.username@.len() == 0,
        before.s3 is None,
        url_parsed(before.url@) == Ok::<UrlParts, Seq<char>>((scheme, Some(host), query)),
        scheme == "http"@ || scheme == "https"@,
        first_entry(nrc.hosts@, host, at),
        nrc.hosts@[at].login@.len() > 0,
    ensures
        after.username@ == nrc.hosts@[at].login@,
        nrc.hosts@[at].password@.len() > 0 ==> view_opt(after.password) == Some(
            nrc.hosts@[at].password@,
        ),
        nrc.hosts@[at].password@.len() == 0 ==> after.password is None,
        after.url == before.url && after.priority == before.priority && after.filters
            == before.filters && after.public_key == before.public_key && after.public_keys
            == before.public_keys,
{
    law_hosts_have_their_own_credentials(nrc, host, at);
}

/// It is said of an upstream, once and in the order of the upstreams, that its
/// password gives way, where it has one and takes credentials from the file.
pub proof fn law_ignored_passwords_are_reported(list: Seq<UpstreamConfig>, nrc: Netrc)
    ensures
        netrc_warnings(list, nrc) == list.filter(
            |u: UpstreamConfig| u.password is Some && netrc_credentials(u, nrc) is Some,
        ).map_values(|u: UpstreamConfig| ignored_password_warning(u.url@)),
    decreases list.len(),
{
    reveal(Seq::filter);
    if list.len() > 0 {
        law_ignored_passwords_are_reported(list.drop_last(), nrc);
    }
    assert(netrc_warnings(list, nrc) =~= list.filter(
        |u: UpstreamConfig| u.password is Some && netrc_credentials(u, nrc) is Some,
    ).map_values(|u: UpstreamConfig| ignored_password_warning(u.url@)));
}

} // verus!
