//! Upstreams as they are shown to whoever looks for a fault: without the password.

use vstd::prelude::*;
use vstd::string::*;

use crate::config::UpstreamConfig;
use crate::filter::{FilterAction, FilterField, FilterRule, FilterRuleView};
use crate::nar_url::NarUrlMode;
use crate::number::{signed_decimal, signed_text};
use crate::s3_config::{S3AddressingStyle, S3Config, S3ConfigView};
use crate::text::{concat3, debug_text, join, joined, owned, quoted, view_opt, views};
use crate::time::{Duration, HumanDuration, NANOS_PER_SEC};

verus! {

// ---------------------------------------------------------------------------
// Spans of time
// ---------------------------------------------------------------------------
/// A span of so many nanoseconds, as Rust's `{:?}` shows it.
pub uninterp spec fn duration_debug(nanos: nat) -> Seq<char>;

/// `{:?}` of `std::time::Duration`: the span in the largest unit that it fills.
/// The form is named, not stated.
#[verifier::external_body]
fn show_span(secs: u64, nanos: u32) -> (out: String)
    requires
        nanos < NANOS_PER_SEC,
    ensures
        out@ == duration_debug((secs * 1_000_000_000 + nanos) as nat),
{
    format!("{:?}", std::time::Duration::new(secs, nanos))
}

/// A span of time, as it is shown.
fn show_duration(span: &Duration) -> (out: String)
    ensures
        out@ == duration_debug(span@),
{
    show_span(span.as_secs(), span.subsec_nanos())
}

// ---------------------------------------------------------------------------
// Parts
// ---------------------------------------------------------------------------
/// What may be missing, as it is shown.
pub open spec fn option_debug(shown: Option<Seq<char>>) -> Seq<char> {
    match shown {
        Some(s) => "Some("@ + s + ")"@,
        None => "None"@,
    }
}

/// A list, as it is shown.
pub open spec fn list_debug(shown: Seq<Seq<char>>) -> Seq<char> {
    "["@ + joined(shown, ", "@) + "]"@
}

/// A text that may be missing, as it is shown.
pub open spec fn text_option_debug(text: Option<Seq<char>>) -> Seq<char> {
    option_debug(
        match text {
            Some(t) => Some(debug_text(t)),
            None => None,
        },
    )
}

/// A span of time that may be missing, as it is shown.
pub open spec fn span_option_debug(span: Option<HumanDuration>) -> Seq<char> {
    option_debug(
        match span {
            Some(d) => Some("HumanDuration("@ + duration_debug(d.0@) + ")"@),
            None => None,
        },
    )
}

/// An action, as it is shown.
pub open spec fn action_debug(action: FilterAction) -> Seq<char> {
    match action {
        FilterAction::Allow => "Allow"@,
        FilterAction::Deny => "Deny"@,
    }
}

/// A field, as it is shown.
pub open spec fn field_debug(field: FilterField) -> Seq<char> {
    match field {
        FilterField::Name => "Name"@,
        FilterField::StorePath => "StorePath"@,
        FilterField::Reference => "Reference"@,
        FilterField::Deriver => "Deriver"@,
    }
}

/// A rule, as it is shown.
pub open spec fn rule_debug(rule: FilterRuleView) -> Seq<char> {
    "FilterRule { action: "@ + action_debug(rule.action) + ", field: "@ + field_debug(rule.field)
        + ", pattern: "@ + debug_text(rule.pattern) + " }"@
}

/// A mode, as it is shown.
pub open spec fn mode_debug(mode: NarUrlMode) -> Seq<char> {
    match mode {
        NarUrlMode::Keep => "Keep"@,
        NarUrlMode::ToSelf => "ToSelf"@,
        NarUrlMode::ToUpstream => "ToUpstream"@,
    }
}

/// A style, as it is shown.
pub open spec fn style_debug(style: S3AddressingStyle) -> Seq<char> {
    match style {
        S3AddressingStyle::Auto => "Auto"@,
        S3AddressingStyle::Path => "Path"@,
        S3AddressingStyle::Virtual => "Virtual"@,
    }
}

/// The settings of a bucket, as they are shown.
pub open spec fn s3_debug(s3: S3ConfigView) -> Seq<char> {
    "S3Config { bucket: "@ + debug_text(s3.bucket) + ", endpoint: "@ + text_option_debug(
        s3.endpoint,
    ) + ", scheme: "@ + debug_text(s3.scheme) + ", region: "@ + debug_text(s3.region)
        + ", profile: "@ + text_option_debug(s3.profile) + ", addressing_style: "@ + style_debug(
        s3.addressing_style,
    ) + " }"@
}

fn show_option(shown: Option<String>) -> (out: String)
    ensures
        out@ == option_debug(view_opt(shown)),
{
    match shown {
        Some(s) => concat3("Some(", s.as_str(), ")"),
        None => owned("None"),
    }
}

fn show_text_option(text: &Option<String>) -> (out: String)
    ensures
        out@ == text_option_debug(view_opt(*text)),
{
    show_option(
        match text {
            Some(t) => Some(quoted(t.as_str())),
            None => None,
        },
    )
}

fn show_span_option(span: &Option<HumanDuration>) -> (out: String)
    ensures
        out@ == span_option_debug(*span),
{
    show_option(
        match span {
            Some(d) => {
                let shown: String = show_duration(&d.0);
                Some(concat3("HumanDuration(", shown.as_str(), ")"))
            },
            None => None,
        },
    )
}

fn show_list(shown: &Vec<String>) -> (out: String)
    ensures
        out@ == list_debug(views(shown@)),
{
    let inner: String = join(shown, ", ");
    concat3("[", inner.as_str(), "]")
}

/// The texts of `list`, as they are shown.
pub open spec fn texts_debug(list: Seq<Seq<char>>) -> Seq<Seq<char>> {
    Seq::new(list.len(), |i: int| debug_text(list[i]))
}

fn show_texts(list: &Vec<String>) -> (out: Vec<String>)
    ensures
        views(out@) == texts_debug(views(list@)),
{
    let mut out: Vec<String> = Vec::new();
    let mut i: usize = 0;
    while i < list.len()
        invariant
            i <= list@.len(),
            views(out@) == texts_debug(views(list@)).take(i as int),
        decreases list@.len() - i,
    {
        let ghost before = out@;
        out.push(quoted(list[i].as_str()));
        assert(views(out@) =~= views(before).push(debug_text(list@[i as int]@)));
        assert(views(out@) =~= texts_debug(views(list@)).take(i + 1));
        i = i + 1;
    }
    assert(texts_debug(views(list@)).take(i as int) =~= texts_debug(views(list@)));
    out
}

/// The rules of `list`, as they are shown.
pub open spec fn rules_debug(list: Seq<FilterRule>) -> Seq<Seq<char>> {
    Seq::new(list.len(), |i: int| rule_debug(list[i]@))
}

fn show_rule(rule: &FilterRule) -> (out: String)
    ensures
        out@ == rule_debug(rule@),
{
    let mut out: String = owned("FilterRule { action: ");
    out.append(
        match rule.action {
            FilterAction::Allow => "Allow",
            FilterAction::Deny => "Deny",
        },
    );
    out.append(", field: ");
    out.append(
        match rule.field {
            FilterField::Name => "Name",
            FilterField::StorePath => "StorePath",
            FilterField::Reference => "Reference",
            FilterField::Deriver => "Deriver",
        },
    );
    out.append(", pattern: ");
    out.append(quoted(rule.pattern.as_str()).as_str());
    out.append(" }");
    out
}

fn show_rules(list: &Vec<FilterRule>) -> (out: Vec<String>)
    ensures
        views(out@) == rules_debug(list@),
{
    let mut out: Vec<String> = Vec::new();
    let mut i: usize = 0;
    while i < list.len()
        invariant
            i <= list@.len(),
            views(out@) == rules_debug(list@).take(i as int),
        decreases list@.len() - i,
    {
        let ghost before = out@;
        out.push(show_rule(&list[i]));
        assert(views(out@) =~= views(before).push(rule_debug(list@[i as int]@)));
        assert(views(out@) =~= rules_debug(list@).take(i + 1));
        i = i + 1;
    }
    assert(rules_debug(list@).take(i as int) =~= rules_debug(list@));
    out
}

fn show_s3(s3: &S3Config) -> (out: String)
    ensures
        out@ == s3_debug(s3@),
{
    let mut out: String = owned("S3Config { bucket: ");
    out.append(quoted(s3.bucket.as_str()).as_str());
    out.append(", endpoint: ");
    out.append(show_text_option(&s3.endpoint).as_str());
    out.append(", scheme: ");
    out.append(quoted(s3.scheme.as_str()).as_str());
    out.append(", region: ");
    out.append(quoted(s3.region.as_str()).as_str());
    out.append(", profile: ");
    out.append(show_text_option(&s3.profile).as_str());
    out.append(", addressing_style: ");
    out.append(
        match s3.addressing_style {
            S3AddressingStyle::Auto => "Auto",
            S3AddressingStyle::Path => "Path",
            S3AddressingStyle::Virtual => "Virtual",
        },
    );
    out.append(" }");
    out
}

// ---------------------------------------------------------------------------
// Upstreams
// ---------------------------------------------------------------------------
/// A password, as it is shown: that there is one.
pub open spec fn password_debug(password: Option<String>) -> Seq<char> {
    option_debug(
        match password {
            Some(_) => Some("\"<redacted>\""@),
            None => None,
        },
    )
}

/// An upstream, as it is shown.
pub open spec fn upstream_debug(u: UpstreamConfig) -> Seq<char> {
    "UpstreamConfig { url: "@ + debug_text(u.url@) + ", priority: "@ + signed_decimal(
        u.priority as int,
    ) + ", public_key: "@ + debug_text(u.public_key@) + ", public_keys: "@ + list_debug(
        texts_debug(views(u.public_keys@)),
    ) + ", username: "@ + debug_text(u.username@) + ", password: "@ + password_debug(u.password)
        + ", password_file: "@ + text_option_debug(view_opt(u.password_file)) + ", filters: "@
        + list_debug(rules_debug(u.filters@)) + ", nar_url_mode: "@ + mode_debug(u.nar_url_mode)
        + ", narinfo_timeout: "@ + span_option_debug(u.narinfo_timeout) + ", nar_timeout: "@
        + span_option_debug(u.nar_timeout) + ", s3: "@ + option_debug(
        match u.s3 {
            Some(s3) => Some(s3_debug(s3@)),
            None => None,
        },
    ) + " }"@
}

impl UpstreamConfig {
    /// The upstream, as it is shown. Of its password nothing is, but that there is
    /// one.
    pub fn debug(&self) -> (out: String)
        ensures
            out@ == upstream_debug(*self),
    {
        let mut out: String = owned("UpstreamConfig { url: ");
        out.append(quoted(self.url.as_str()).as_str());
        out.append(", priority: ");
        out.append(signed_text(self.priority as i64).as_str());
        out.append(", public_key: ");
        out.append(quoted(self.public_key.as_str()).as_str());
        out.append(", public_keys: ");
        out.append(show_list(&show_texts(&self.public_keys)).as_str());
        out.append(", username: ");
        out.append(quoted(self.username.as_str()).as_str());
        out.append(", password: ");
        out.append(
            show_option(
                match &self.password {
                    Some(_) => Some(owned("\"<redacted>\"")),
                    None => None,
                },
            ).as_str(),
        );
        out.append(", password_file: ");
        out.append(show_text_option(&self.password_file).as_str());
        out.append(", filters: ");
        out.append(show_list(&show_rules(&self.filters)).as_str());
        out.append(", nar_url_mode: ");
        out.append(
            match self.nar_url_mode {
                NarUrlMode::Keep => "Keep",
                NarUrlMode::ToSelf => "ToSelf",
                NarUrlMode::ToUpstream => "ToUpstream",
            },
        );
        out.append(", narinfo_timeout: ");
        out.append(show_span_option(&self.narinfo_timeout).as_str());
        out.append(", nar_timeout: ");
        out.append(show_span_option(&self.nar_timeout).as_str());
        out.append(", s3: ");
        out.append(
            show_option(
                match &self.s3 {
                    Some(s3) => Some(show_s3(s3)),
                    None => None,
                },
            ).as_str(),
        );
        out.append(" }");
        out
    }
}

/// Nothing of a password is shown: upstreams that differ in nothing else are shown
/// alike.
pub proof fn law_passwords_are_not_shown(u: UpstreamConfig, password: String)
    requires
        u.password is Some,
    ensures
        upstream_debug(u) == upstream_debug(UpstreamConfig { password: Some(password), ..u }),
{
}

} // verus!
