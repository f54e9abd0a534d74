//! The configuration as it is used: what the file says, what the environment
//! overrides, and the secrets that come from elsewhere.

use vstd::prelude::*;
use vstd::string::*;

use crate::config::{
    bad_s3_url, law_passwords_lose_one_line_end, overridden, password_in, resolve_password_file,
    s3_resolved, CacheConfig, Config,
    ConfigError, ConfigErrorView, FallbackCacheConfig, LoggingConfig, ServerConfig, UpstreamConfig,
};
use crate::netrc::{netrc_credentials, netrc_warnings, with_credentials, Netrc};
use crate::s3_config::{s3_url_settings, S3ConfigView};
use crate::text::{view_opt, views};
use crate::validate::{
    config_problem, label_of_upstream, lemma_upstream_is_fine, upstream_label,
};

verus! {

/// What the environment overrides.
pub struct Overrides {
    pub listen: Option<String>,
    pub db_path: Option<String>,
    pub log_level: Option<String>,
}

/// The problem that the first `s3://` URL without settings makes, from the
/// `from`th upstream on.
pub open spec fn s3_problem(list: Seq<UpstreamConfig>, from: nat) -> Option<Seq<char>>
    decreases list.len() - from,
{
    if from >= list.len() {
        None
    } else if bad_s3_url(list[from as int]) {
        Some(s3_url_settings(list[from as int].url@)->Err_0)
    } else {
        s3_problem(list, from + 1)
    }
}

proof fn lemma_first_s3_problem(list: Seq<UpstreamConfig>, from: nat, at: int)
    requires
        from <= at < list.len(),
        bad_s3_url(list[at]),
        forall|j: int| from <= j < at ==> !bad_s3_url(#[trigger] list[j]),
    ensures
        s3_problem(list, from) == Some(s3_url_settings(list[at].url@)->Err_0),
    decreases at - from,
{
    if from < at {
        assert(!bad_s3_url(list[from as int]));
        lemma_first_s3_problem(list, from + 1, at);
    }
}

proof fn lemma_no_s3_problem(list: Seq<UpstreamConfig>, from: nat)
    requires
        forall|j: int| from <= j < list.len() ==> !bad_s3_url(#[trigger] list[j]),
    ensures
        s3_problem(list, from) is None,
    decreases list.len() - from,
{
    if from < list.len() {
        assert(!bad_s3_url(list[from as int]));
        lemma_no_s3_problem(list, from + 1);
    }
}

/// The upstreams of a configuration, with the cache of last resort behind them.
pub open spec fn all_upstreams(config: Config) -> Seq<UpstreamConfig> {
    config.upstreams@.push(config.fallback_cache.upstream)
}

/// `after` is `before` with the environment's overrides and the settings of its
/// `s3://` upstreams.
pub open spec fn prepared(before: Config, env: Overrides, after: Config) -> bool {
    &&& after.server.listen@ == overridden(before.server.listen@, view_opt(env.listen))
    &&& after.cache.db_path@ == overridden(before.cache.db_path@, view_opt(env.db_path))
    &&& after.logging.level@ == overridden(before.logging.level@, view_opt(env.log_level))
    &&& after == (Config {
        server: ServerConfig { listen: after.server.listen, ..before.server },
        cache: CacheConfig { db_path: after.cache.db_path, ..before.cache },
        logging: LoggingConfig { level: after.logging.level, ..before.logging },
        upstreams: after.upstreams,
        fallback_cache: FallbackCacheConfig {
            upstream: after.fallback_cache.upstream,
            ..before.fallback_cache
        },
        ..before
    })
    &&& after.upstreams@.len() == before.upstreams@.len()
    &&& forall|i: int|
        0 <= i < before.upstreams@.len() ==> s3_resolved(
            #[trigger] before.upstreams@[i],
            after.upstreams@[i],
        )
    &&& s3_resolved(before.fallback_cache.upstream, after.fallback_cache.upstream)
}

/// What is wrong with the password file of `upstream`, of which `contents` is
/// what reading it gave.
pub open spec fn password_problem(
    upstream: UpstreamConfig,
    label: Seq<char>,
    contents: Result<String, String>,
) -> Option<ConfigErrorView> {
    match upstream.password_file {
        None => None,
        Some(path) => if upstream.password is Some {
            Some(
                ConfigErrorView::Validation(
                    label + ": password and password_file are mutually exclusive"@,
                ),
            )
        } else {
            match contents {
                Ok(_) => None,
                Err(source) => Some(
                    ConfigErrorView::PasswordFile { path: path@, source: source@ },
                ),
            }
        },
    }
}

/// What is wrong with the first bad password file from the `from`th upstream on.
pub open spec fn passwords_problem(
    list: Seq<UpstreamConfig>,
    files: Seq<Result<String, String>>,
    from: nat,
) -> Option<ConfigErrorView>
    decreases list.len() - from,
{
    if from >= list.len() {
        None
    } else {
        match password_problem(list[from as int], upstream_label(from), files[from as int]) {
            Some(problem) => Some(problem),
            None => passwords_problem(list, files, from + 1),
        }
    }
}

/// What is wrong with the password files of a configuration. That of the cache of
/// last resort counts only where the cache is enabled.
pub open spec fn secrets_problem(config: Config, files: Seq<Result<String, String>>) -> Option<
    ConfigErrorView,
> {
    match passwords_problem(config.upstreams@, files, 0) {
        Some(problem) => Some(problem),
        None => if config.fallback_cache.enabled {
            password_problem(config.fallback_cache.upstream, "fallback_cache"@, files.last())
        } else {
            None
        },
    }
}

/// `after` is `before` with the password that its file holds, where it has one.
pub open spec fn with_password(
    before: UpstreamConfig,
    after: UpstreamConfig,
    contents: Result<String, String>,
) -> bool {
    match (before.password_file, contents) {
        (Some(_), Ok(text)) => view_opt(after.password) == Some(password_in(text@)) && after == (
        UpstreamConfig { password: after.password, ..before }),
        (_, _) => after == before,
    }
}

/// `after` is `before` with the passwords that the files hold.
pub open spec fn with_passwords(
    before: Config,
    after: Config,
    files: Seq<Result<String, String>>,
) -> bool {
    &&& after == (Config {
        upstreams: after.upstreams,
        fallback_cache: FallbackCacheConfig {
            upstream: after.fallback_cache.upstream,
            ..before.fallback_cache
        },
        ..before
    })
    &&& after.upstreams@.len() == before.upstreams@.len()
    &&& forall|i: int|
        0 <= i < before.upstreams@.len() ==> with_password(
            #[trigger] before.upstreams@[i],
            after.upstreams@[i],
            files[i],
        )
    &&& if before.fallback_cache.enabled {
        with_password(
            before.fallback_cache.upstream,
            after.fallback_cache.upstream,
            files.last(),
        )
    } else {
        after.fallback_cache.upstream == before.fallback_cache.upstream
    }
}

/// `after` is `before` with the credentials that `nrc` holds, where there is one.
pub open spec fn with_netrc(before: Config, after: Config, nrc: Option<Netrc>) -> bool {
    match nrc {
        None => after == before,
        Some(nrc) => {
            &&& after == (Config {
                upstreams: after.upstreams,
                fallback_cache: FallbackCacheConfig {
                    upstream: after.fallback_cache.upstream,
                    ..before.fallback_cache
                },
                ..before
            })
            &&& after.upstreams@.len() == before.upstreams@.len()
            &&& forall|i: int|
                0 <= i < before.upstreams@.len() ==> with_credentials(
                    #[trigger] before.upstreams@[i],
                    after.upstreams@[i],
                    netrc_credentials(before.upstreams@[i], nrc),
                )
            &&& with_credentials(
                before.fallback_cache.upstream,
                after.fallback_cache.upstream,
                netrc_credentials(before.fallback_cache.upstream, nrc),
            )
        },
    }
}

/// What is said of filling in the credentials of `config`.
pub open spec fn warnings_of(config: Config, nrc: Option<Netrc>) -> Seq<Seq<char>> {
    match nrc {
        Some(nrc) => netrc_warnings(all_upstreams(config), nrc),
        None => seq![],
    }
}

/// `after` is `before` with its secrets, of which `warnings` are said.
pub open spec fn with_secrets(
    before: Config,
    after: Config,
    files: Seq<Result<String, String>>,
    nrc: Option<Netrc>,
    warnings: Seq<Seq<char>>,
) -> bool {
    exists|mid: Config| #[trigger]
        with_passwords(before, mid, files) && with_netrc(mid, after, nrc) && warnings
            == warnings_of(mid, nrc)
}

fn copy_result(r: &Result<String, String>) -> (out: Result<String, String>)
    ensures
        out == *r,
{
    match r {
        Ok(s) => Ok(s.clone()),
        Err(e) => Err(e.clone()),
    }
}

impl Config {
    /// The configuration with the environment's overrides and the settings of its
    /// `s3://` upstreams. The first URL that gives none is the error.
    pub fn prepare(self, env: Overrides) -> (out: Result<Config, ConfigError>)
        ensures
            match out {
                Ok(config) => s3_problem(all_upstreams(self), 0) is None && prepared(
                    self,
                    env,
                    config,
                ),
                Err(e) => match s3_problem(all_upstreams(self), 0) {
                    Some(text) => e@ == ConfigErrorView::Validation(text),
                    None => false,
                },
            },
    {
        let ghost all = all_upstreams(self);
        let ghost n = self.upstreams@.len() as int;
        assert(forall|j: int| 0 <= j < n ==> all[j] == #[trigger] self.upstreams@[j]);
        assert(all[n] == self.fallback_cache.upstream);
        let mut config: Config = self;
        config.apply_overrides(env.listen, env.db_path, env.log_level);
        let ghost before = config;
        match config.resolve_s3() {
            Ok(_) => {
                proof {
                    assert forall|j: int| 0 <= j < all.len() implies !bad_s3_url(
                        #[trigger] all[j],
                    ) by {
                        if j < n {
                            assert(!bad_s3_url(before.upstreams@[j]));
                        }
                    }
                    lemma_no_s3_problem(all, 0);
                }
                Ok(config)
            },
            Err(e) => {
                proof {
                    if exists|i: int|
                        0 <= i < before.upstreams@.len() && bad_s3_url(
                            #[trigger] before.upstreams@[i],
                        ) {
                        let i = choose|i: int|
                            0 <= i < before.upstreams@.len() && bad_s3_url(
                                #[trigger] before.upstreams@[i],
                            ) && e@ == ConfigErrorView::Validation(
                                s3_url_settings(before.upstreams@[i].url@)->Err_0,
                            ) && forall|j: int|
                                0 <= j < i ==> !bad_s3_url(#[trigger] before.upstreams@[j]);
                        assert(all[i] == before.upstreams@[i]);
                        lemma_first_s3_problem(all, 0, i);
                    } else {
                        assert forall|j: int| 0 <= j < n implies !bad_s3_url(
                            #[trigger] all[j],
                        ) by {
                            assert(!bad_s3_url(before.upstreams@[j]));
                        }
                        lemma_first_s3_problem(all, 0, n);
                    }
                }
                Err(e)
            },
        }
    }

    /// Takes the passwords from the files that the upstreams name. `files` is what
    /// reading them gave: one for each upstream, and one for the cache of last
    /// resort.
    fn resolve_passwords(&mut self, files: &Vec<Result<String, String>>) -> (out: Result<
        (),
        ConfigError,
    >)
        requires
            files@.len() == old(self).upstreams@.len() + 1,
        ensures
            match out {
                Ok(_) => secrets_problem(*old(self), files@) is None && with_passwords(
                    *old(self),
                    *final(self),
                    files@,
                ),
                Err(e) => secrets_problem(*old(self), files@) == Some(e@),
            },
    {
        let ghost before = *self;
        let n: usize = self.upstreams.len();
        let mut i: usize = 0;
        while i < n
            invariant
                i <= n,
                n == before.upstreams@.len(),
                files@.len() == n + 1,
                self.upstreams@.len() == n,
                *self == (Config { upstreams: self.upstreams, ..before }),
                forall|j: int|
                    0 <= j < i ==> with_password(
                        #[trigger] before.upstreams@[j],
                        self.upstreams@[j],
                        files@[j],
                    ),
                forall|j: int| i <= j < n ==> #[trigger] before.upstreams@[j] == self.upstreams@[j],
                passwords_problem(before.upstreams@, files@, 0) == passwords_problem(
                    before.upstreams@,
                    files@,
                    i as nat,
                ),
                *old(self) == before,
            decreases n - i,
        {
            assert(before.upstreams@[i as int] == self.upstreams@[i as int]);
            let label: String = label_of_upstream(i);
            let contents: Result<String, String> = copy_result(&files[i]);
            match resolve_password_file(&mut self.upstreams[i], label.as_str(), contents) {
                Ok(_) => {},
                Err(e) => return Err(e),
            }
            i = i + 1;
        }
        if self.fallback_cache.enabled {
            let contents: Result<String, String> = copy_result(&files[n]);
            match resolve_password_file(
                &mut self.fallback_cache.upstream,
                "fallback_cache",
                contents,
            ) {
                Ok(_) => {},
                Err(e) => return Err(e),
            }
        }
        Ok(())
    }

    /// The configuration with its secrets: the passwords in the files that the
    /// upstreams name, and the credentials that a netrc file holds; and what is to
    /// be said of it. `files` is what reading the password files gave: one for each
    /// upstream, and one for the cache of last resort.
    pub fn fill_secrets(self, files: &Vec<Result<String, String>>, nrc: &Option<Netrc>) -> (out:
        Result<(Config, Vec<String>), ConfigError>)
        requires
            files@.len() == self.upstreams@.len() + 1,
        ensures
            match out {
                Ok((config, warnings)) => secrets_problem(self, files@) is None && with_secrets(
                    self,
                    config,
                    files@,
                    *nrc,
                    views(warnings@),
                ),
                Err(e) => secrets_problem(self, files@) == Some(e@),
            },
    {
        let ghost before = self;
        let mut config: Config = self;
        match config.resolve_passwords(files) {
            Ok(_) => {},
            Err(e) => return Err(e),
        }
        let ghost mid = config;
        assert(with_passwords(before, mid, files@));
        match nrc {
            Some(nrc) => {
                let warnings: Vec<String> = config.apply_netrc(nrc);
                Ok((config, warnings))
            },
            None => {
                let warnings: Vec<String> = Vec::new();
                assert(views(warnings@) =~= seq![]);
                Ok((config, warnings))
            },
        }
    }

    /// The configuration as it is used, and what is to be said of it.
    pub fn load(
        self,
        env: Overrides,
        files: &Vec<Result<String, String>>,
        nrc: &Option<Netrc>,
    ) -> (out: Result<(Config, Vec<String>), ConfigError>)
        requires
            files@.len() == self.upstreams@.len() + 1,
        ensures
            match s3_problem(all_upstreams(self), 0) {
                Some(text) => out matches Err(e) && e@ == ConfigErrorView::Validation(text),
                None => exists|mid: Config| #[trigger]
                    prepared(self, env, mid) && match out {
                        Ok((config, warnings)) => secrets_problem(mid, files@) is None
                            && with_secrets(mid, config, files@, *nrc, views(warnings@)),
                        Err(e) => secrets_problem(mid, files@) == Some(e@),
                    },
            },
    {
        let mid: Config = match self.prepare(env) {
            Ok(mid) => mid,
            Err(e) => return Err(e),
        };
        assert(prepared(self, env, mid));
        mid.fill_secrets(files, nrc)
    }

    /// The configuration as it is used, and what is to be said of it, once it has
    /// been checked. What is checked is what was configured, before any secret is
    /// filled in.
    pub fn load_checked(
        self,
        env: Overrides,
        files: &Vec<Result<String, String>>,
        nrc: &Option<Netrc>,
    ) -> (out: Result<(Config, Vec<String>), ConfigError>)
        requires
            files@.len() == self.upstreams@.len() + 1,
        ensures
            match s3_problem(all_upstreams(self), 0) {
                Some(text) => out matches Err(e) && e@ == ConfigErrorView::Validation(text),
                None => exists|mid: Config| #[trigger]
                    prepared(self, env, mid) && match config_problem(mid) {
                        Some(text) => out matches Err(e) && e@ == ConfigErrorView::Validation(text),
                        None => match out {
                            Ok((config, warnings)) => secrets_problem(mid, files@) is None
                                && with_secrets(mid, config, files@, *nrc, views(warnings@)),
                            Err(e) => secrets_problem(mid, files@) == Some(e@),
                        },
                    },
            },
    {
        let mid: Config = match self.prepare(env) {
            Ok(mid) => mid,
            Err(e) => return Err(e),
        };
        assert(prepared(self, env, mid));
        match mid.validate() {
            Ok(_) => {},
            Err(e) => return Err(e),
        }
        mid.fill_secrets(files, nrc)
    }
}

/// A configuration that passes its checks with a password file is not refused for
/// it: the only thing that can go wrong with the file is that it cannot be read.
pub proof fn law_checked_password_files_only_fail_to_read(
    config: Config,
    i: int,
    contents: Result<String, String>,
)
    requires
        config_problem(config) is None,
        0 <= i < config.upstreams@.len(),
    ensures
        match password_problem(config.upstreams@[i], upstream_label(i as nat), contents) {
            None => true,
            Some(problem) => problem is PasswordFile && contents is Err,
        },
{
    lemma_upstream_is_fine(config.upstreams@, 0, i);
}

/// The passwords that files hold go to the upstreams that name the files, each to
/// its own and without the line end behind it; nothing else of the configuration
/// changes, and the cache of last resort counts only where it is enabled.
pub proof fn law_passwords_go_to_their_upstreams(
    before: Config,
    after: Config,
    files: Seq<Result<String, String>>,
    i: int,
    password: Seq<char>,
)
    requires
        with_passwords(before, after, files),
        files.len() == before.upstreams@.len() + 1,
        0 <= i < before.upstreams@.len(),
        !(password.len() > 0 && password.last() == '\r'),
    ensures
        after.server == before.server && after.cache == before.cache && after.mesh == before.mesh
            && after.logging == before.logging && after.discovery == before.discovery,
        ({
            let old_one = before.upstreams@[i];
            let new_one = after.upstreams@[i];
            &&& new_one.url == old_one.url && new_one.username == old_one.username
            &&& old_one.password_file is None ==> new_one == old_one
            &&& files[i] is Err ==> new_one == old_one
            &&& old_one.password_file is Some && (files[i] matches Ok(text) && text@ == password
                + seq!['\n']) ==> view_opt(new_one.password) == Some(password)
        }),
        !before.fallback_cache.enabled ==> after.fallback_cache.upstream
            == before.fallback_cache.upstream,
        before.fallback_cache.enabled && before.fallback_cache.upstream.password_file is Some && (
        files.last() matches Ok(text) && text@ == password + seq!['\n']) ==> view_opt(
            after.fallback_cache.upstream.password,
        ) == Some(password),
{
    law_passwords_lose_one_line_end(password);
    assert(with_password(before.upstreams@[i], after.upstreams@[i], files[i]));
}

proof fn lemma_passwords_fine(
    list: Seq<UpstreamConfig>,
    files: Seq<Result<String, String>>,
    from: nat,
)
    ensures
        passwords_problem(list, files, from) is None <==> forall|i: int|
            from <= i < list.len() && (#[trigger] list[i]).password_file is Some
                ==> list[i].password is None && files[i] is Ok,
    decreases list.len() - from,
{
    if from < list.len() {
        lemma_passwords_fine(list, files, from + 1);
        if passwords_problem(list, files, from) is None {
            assert forall|i: int|
                from <= i < list.len() && (#[trigger] list[i]).password_file is Some implies
                list[i].password is None && files[i] is Ok by {}
        }
        if forall|i: int|
            from <= i < list.len() && (#[trigger] list[i]).password_file is Some
                ==> list[i].password is None && files[i] is Ok {
            assert(list[from as int].password_file is Some ==> list[from as int].password is None
                && files[from as int] is Ok);
        }
    }
}

/// Passwords can be filled in where every upstream that names a file for its
/// password has no other and the file can be read; the cache of last resort has to
/// meet this only where it is enabled.
pub proof fn law_readable_passwords_are_no_problem(
    config: Config,
    files: Seq<Result<String, String>>,
)
    ensures
        secrets_problem(config, files) is None <==> {
            &&& forall|i: int|
                0 <= i < config.upstreams@.len() && (
                #[trigger] config.upstreams@[i]).password_file is Some
                    ==> config.upstreams@[i].password is None && files[i] is Ok
            &&& config.fallback_cache.enabled
                && config.fallback_cache.upstream.password_file is Some
                ==> config.fallback_cache.upstream.password is None && files.last() is Ok
        },
{
    lemma_passwords_fine(config.upstreams@, files, 0);
}

/// What the environment says takes the place of what the file says of the address,
/// the database and the log, and of nothing else; only upstreams on S3 get settings
/// for it.
pub proof fn law_environment_overrides_three_settings(
    before: Config,
    env: Overrides,
    after: Config,
    i: int,
)
    requires
        prepared(before, env, after),
        0 <= i < before.upstreams@.len(),
    ensures
        env.listen is None ==> after.server.listen@ == before.server.listen@,
        env.listen matches Some(s) && s@.len() > 0 ==> after.server.listen@ == env.listen->0@,
        env.db_path is None ==> after.cache.db_path@ == before.cache.db_path@,
        env.db_path matches Some(s) && s@.len() > 0 ==> after.cache.db_path@ == env.db_path->0@,
        env.log_level is None ==> after.logging.level@ == before.logging.level@,
        env.log_level matches Some(s) && s@.len() > 0 ==> after.logging.level@
            == env.log_level->0@,
        after.mesh == before.mesh && after.discovery == before.discovery,
        after.server.read_timeout == before.server.read_timeout,
        after.cache.ttl == before.cache.ttl && after.cache.max_entries == before.cache.max_entries,
        after.upstreams@[i].url == before.upstreams@[i].url,
        after.upstreams@[i].priority == before.upstreams@[i].priority,
        before.upstreams@[i].url@.take(5) != "s3://"@ ==> after.upstreams@[i]
            == before.upstreams@[i],
        before.upstreams@[i].url@.take(5) == "s3://"@ && before.upstreams@[i].url@.len() >= 5
            ==> after.upstreams@[i].s3 is Some && s3_url_settings(before.upstreams@[i].url@) == Ok::<
            S3ConfigView,
            Seq<char>,
        >(after.upstreams@[i].s3->0@),
{
    reveal_strlit("s3://");
    assert(s3_resolved(before.upstreams@[i], after.upstreams@[i]));
}

/// A netrc file reaches every upstream and the cache of last resort, whether or not
/// that is enabled, and nothing but their credentials; without a file nothing
/// changes.
pub proof fn law_netrc_reaches_every_upstream(
    before: Config,
    after: Config,
    nrc: Option<Netrc>,
    i: int,
)
    requires
        with_netrc(before, after, nrc),
        0 <= i < before.upstreams@.len(),
    ensures
        nrc is None ==> after == before,
        after.upstreams@.len() == before.upstreams@.len(),
        after.upstreams@[i].url == before.upstreams@[i].url,
        before.upstreams@[i].username@.len() > 0 ==> after.upstreams@[i] == before.upstreams@[i],
        nrc matches Some(n) ==> (netrc_credentials(before.upstreams@[i], n) matches Some((login, _))
            ==> after.upstreams@[i].username@ == login),
        nrc matches Some(n) ==> (netrc_credentials(
            before.fallback_cache.upstream,
            n,
        ) matches Some((login, _)) ==> after.fallback_cache.upstream.username@ == login),
        after.server == before.server && after.cache == before.cache && after.mesh == before.mesh,
{
    if let Some(n) = nrc {
        assert(with_credentials(
            before.upstreams@[i],
            after.upstreams@[i],
            netrc_credentials(before.upstreams@[i], n),
        ));
    }
}

} // verus!
