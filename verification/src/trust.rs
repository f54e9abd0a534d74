//! Trust: how many signers have to vouch for the contents of a store path before
//! it is served.

use vstd::prelude::*;
use vstd::string::*;

use crate::config::{TrustConfig, TrustMode, UpstreamConfig};
use crate::mesh::{key_views, same_bytes};
use crate::nar_url::{file_name, last_segment, lemma_last_segment};
use crate::narinfo::{
    fingerprint_of, normalize_nar_hash, normalized_hash, parse_public_key, parsed, read_public_key,
    signed_by, NarInfo, NarInfoView,
};
use crate::registry::{narinfo_verifies_any_key, verified_by, verified_by_any, view_bytes};
use crate::signing::ed25519_is_key;
use crate::text::{
    concat2, copy_strings, find, lemma_find_from, lemma_split_once_char, owned, same_text,
    split_at_first, split_once, view_opt, views,
};

verus! {

// ---------------------------------------------------------------------------
// Claims
// ---------------------------------------------------------------------------
/// The contents that a signature binds to a store path.
pub struct Contents {
    pub store_path: Seq<char>,
    pub nar_hash: Seq<char>,
    pub nar_size: nat,
    pub references: Seq<Seq<char>>,
}

/// The contents that a narinfo gives to its store path.
pub open spec fn contents_of(info: NarInfoView) -> Contents {
    Contents {
        store_path: info.store_path,
        nar_hash: normalized_hash(info.nar_hash),
        nar_size: info.nar_size,
        references: info.references,
    }
}

/// The record that a signer vouches for the contents of a store path, and where
/// it came from. What stands behind the references is kept for audit alone: no
/// signature covers it.
pub struct TrustClaim {
    pub signer_name: String,
    pub signer_key: [u8; 32],
    pub upstream_url: String,
    pub store_path: String,
    pub nar_hash: String,
    pub nar_size: u64,
    pub references: Vec<String>,
    pub deriver: String,
    pub ca: String,
    pub file_hash: String,
    pub file_size: u64,
    pub narinfo: Vec<u8>,
}

/// The contents of a claim.
#[verifier::ext_equal]
pub struct ClaimView {
    pub signer_name: Seq<char>,
    pub signer_key: Seq<u8>,
    pub upstream_url: Seq<char>,
    pub contents: Contents,
    pub deriver: Seq<char>,
    pub ca: Seq<char>,
    pub file_hash: Seq<char>,
    pub file_size: nat,
    pub narinfo: Seq<u8>,
}

impl View for TrustClaim {
    type V = ClaimView;

    open spec fn view(&self) -> ClaimView {
        ClaimView {
            signer_name: self.signer_name@,
            signer_key: self.signer_key@,
            upstream_url: self.upstream_url@,
            contents: Contents {
                store_path: self.store_path@,
                nar_hash: self.nar_hash@,
                nar_size: self.nar_size as nat,
                references: views(self.references@),
            },
            deriver: self.deriver@,
            ca: self.ca@,
            file_hash: self.file_hash@,
            file_size: self.file_size as nat,
            narinfo: self.narinfo@,
        }
    }
}

/// The claims of a list.
pub open spec fn claim_views(list: Seq<TrustClaim>) -> Seq<ClaimView> {
    Seq::new(list.len(), |i: int| list[i]@)
}

/// The claim that the key `key` named `name` makes by having signed `info`, which
/// is the narinfo `body` that came from `source`.
pub open spec fn claim_of(
    info: NarInfoView,
    name: Seq<char>,
    key: Seq<u8>,
    source: Seq<char>,
    body: Seq<u8>,
) -> ClaimView {
    ClaimView {
        signer_name: name,
        signer_key: key,
        upstream_url: source,
        contents: contents_of(info),
        deriver: info.deriver,
        ca: info.ca,
        file_hash: info.file_hash,
        file_size: info.file_size,
        narinfo: body,
    }
}

fn make_claim(
    info: &NarInfo,
    name: String,
    key: [u8; 32],
    source: &str,
    body: &Vec<u8>,
) -> (out: TrustClaim)
    ensures
        out@ == claim_of(info@, name@, key@, source@, body@),
{
    let mut narinfo: Vec<u8> = Vec::new();
    narinfo.extend_from_slice(body.as_slice());
    assert(narinfo@ =~= body@);
    TrustClaim {
        signer_name: name,
        signer_key: key,
        upstream_url: owned(source),
        store_path: info.store_path.clone(),
        nar_hash: normalize_nar_hash(info.nar_hash.as_str()),
        nar_size: info.nar_size,
        references: copy_strings(&info.references),
        deriver: info.deriver.clone(),
        ca: info.ca.clone(),
        file_hash: info.file_hash.clone(),
        file_size: info.file_size,
        narinfo,
    }
}

/// The claims that `keys` make by having signed `info`, in order.
pub open spec fn claims_by(
    info: NarInfoView,
    keys: Seq<Seq<char>>,
    source: Seq<char>,
    body: Seq<u8>,
) -> Seq<ClaimView>
    decreases keys.len(),
{
    if keys.len() == 0 {
        seq![]
    } else {
        let rest = claims_by(info, keys.drop_last(), source, body);
        if verified_by(info, keys.last()) {
            let (name, key) = read_public_key(keys.last())->Ok_0;
            rest.push(claim_of(info, name, key, source, body))
        } else {
            rest
        }
    }
}

/// The claims that `keys` make by having signed `info`, which is the narinfo
/// `body` that came from `source`: one for each key that did.
pub fn claims_for(info: &NarInfo, keys: &Vec<String>, source: &str, body: &Vec<u8>) -> (out: Vec<
    TrustClaim,
>)
    ensures
        claim_views(out@) == claims_by(info@, views(keys@), source@, body@),
{
    let ghost all = views(keys@);
    let mut out: Vec<TrustClaim> = Vec::new();
    let n: usize = keys.len();
    let mut i: usize = 0;
    assert(all.take(0) =~= seq![]);
    assert(claim_views(out@) =~= seq![]);
    while i < n
        invariant
            i <= n,
            n == keys@.len(),
            all == views(keys@),
            claim_views(out@) == claims_by(info@, all.take(i as int), source@, body@),
        decreases n - i,
    {
        let ghost said = claim_views(out@);
        let ghost next = all.take(i + 1);
        assert(next.drop_last() =~= all.take(i as int));
        assert(next.last() == keys@[i as int]@);
        if let Ok((name, key)) = parse_public_key(keys[i].as_str()) {
            if let Ok(true) = info.verify(keys[i].as_str()) {
                let claim: TrustClaim = make_claim(info, name, key.to_bytes(), source, body);
                let ghost c = claim@;
                out.push(claim);
                assert(claim_views(out@) =~= said.push(c));
            }
        }
        i = i + 1;
    }
    assert(all.take(n as int) =~= all);
    out
}

/// What is made of a claim that a peer at `relay` passed on: its signer has to be
/// one of `trusted`, and has to have signed the narinfo that comes with it, from
/// which everything is taken anew.
pub open spec fn relayed(
    name: Seq<char>,
    key: Seq<u8>,
    body: Seq<u8>,
    trusted: Seq<Seq<u8>>,
    relay: Seq<char>,
) -> Option<ClaimView> {
    match parsed(body) {
        Ok(info) => if trusted.contains(key) && ed25519_is_key(key) && signed_by(
            info,
            name,
            key,
        ) {
            Some(claim_of(info, name, key, "mesh://"@ + relay, body))
        } else {
            None
        },
        Err(_) => None,
    }
}

/// What is made of a claim that a peer at `relay` passed on. Of the claim itself
/// only the signer and the narinfo count.
pub fn accept_relayed(claim: &TrustClaim, trusted: &Vec<[u8; 32]>, relay: &str) -> (out: Option<
    TrustClaim,
>)
    ensures
        match out {
            Some(c) => relayed(
                claim@.signer_name,
                claim@.signer_key,
                claim@.narinfo,
                key_views(trusted@),
                relay@,
            ) == Some(c@),
            None => relayed(
                claim@.signer_name,
                claim@.signer_key,
                claim@.narinfo,
                key_views(trusted@),
                relay@,
            ) is None,
        },
{
    if !holds_key(trusted, &claim.signer_key) {
        return None;
    }
    let info: NarInfo = match NarInfo::parse(claim.narinfo.as_slice()) {
        Ok(info) => info,
        Err(_) => return None,
    };
    if !info.verify_raw(claim.signer_name.as_str(), &claim.signer_key) {
        return None;
    }
    let source: String = concat2("mesh://", relay);
    Some(
        make_claim(
            &info,
            claim.signer_name.clone(),
            claim.signer_key,
            source.as_str(),
            &claim.narinfo,
        ),
    )
}

/// The hash in a store path: what stands before the first dash of its last
/// segment, where it has one.
pub open spec fn hash_in(store_path: Seq<char>) -> Option<Seq<char>> {
    match split_once(file_name(store_path), "-"@) {
        Some((hash, _)) => Some(hash),
        None => None,
    }
}

/// The store hash that a claim is about, by the store path that its signer signed.
pub fn claimed_hash(claim: &TrustClaim) -> (out: Option<String>)
    ensures
        view_opt(out) == hash_in(claim@.contents.store_path),
{
    match split_at_first(last_segment(claim.store_path.as_str()), "-") {
        Some((hash, _)) => Some(hash),
        None => None,
    }
}

/// Whether `key` is one of `keys`.
fn holds_key(keys: &Vec<[u8; 32]>, key: &[u8; 32]) -> (yes: bool)
    ensures
        yes == key_views(keys@).contains(key@),
{
    let ghost all = key_views(keys@);
    let n: usize = keys.len();
    let mut i: usize = 0;
    while i < n
        invariant
            i <= n,
            n == keys@.len(),
            all == key_views(keys@),
            forall|j: int| 0 <= j < i ==> all[j] != key@,
        decreases n - i,
    {
        assert(all[i as int] == keys@[i as int]@);
        if same_bytes(&keys[i], key) {
            return true;
        }
        i = i + 1;
    }
    false
}

// ---------------------------------------------------------------------------
// Signers
// ---------------------------------------------------------------------------
/// The bytes of the keys among `texts` that are keys.
pub open spec fn key_bytes_of(texts: Seq<Seq<char>>) -> Seq<Seq<u8>>
    decreases texts.len(),
{
    if texts.len() == 0 {
        seq![]
    } else {
        let rest = key_bytes_of(texts.drop_last());
        match read_public_key(texts.last()) {
            Ok((_, key)) => rest.push(key),
            Err(_) => rest,
        }
    }
}

/// The texts of the keys of `upstreams`, in order.
pub open spec fn upstream_key_texts(upstreams: Seq<UpstreamConfig>) -> Seq<Seq<char>>
    decreases upstreams.len(),
{
    if upstreams.len() == 0 {
        seq![]
    } else {
        upstream_key_texts(upstreams.drop_last()) + seq![upstreams.last().public_key@] + views(
            upstreams.last().public_keys@,
        )
    }
}

/// The keys that are trusted to vouch: those of the upstreams, of the cache of
/// last resort, and of the list.
pub open spec fn trusted_set(
    upstreams: Seq<UpstreamConfig>,
    fallback: Option<UpstreamConfig>,
    trusted_keys: Seq<Seq<char>>,
) -> Seq<Seq<u8>> {
    let all = match fallback {
        Some(f) => upstreams.push(f),
        None => upstreams,
    };
    key_bytes_of(upstream_key_texts(all) + trusted_keys)
}

/// Adds the key that `text` writes to `keys`, where it writes one.
fn add_signer(keys: &mut Vec<[u8; 32]>, text: &str, Ghost(done): Ghost<Seq<Seq<char>>>)
    requires
        key_views(old(keys)@) == key_bytes_of(done),
    ensures
        key_views(final(keys)@) == key_bytes_of(done.push(text@)),
{
    let ghost before = key_views(keys@);
    assert(done.push(text@).drop_last() =~= done);
    if let Ok((_, key)) = parse_public_key(text) {
        let bytes: [u8; 32] = key.to_bytes();
        keys.push(bytes);
        assert(key_views(keys@) =~= before.push(bytes@));
    }
}

/// Adds the keys that `texts` write to `keys`.
fn add_signers(keys: &mut Vec<[u8; 32]>, texts: &Vec<String>, Ghost(done): Ghost<Seq<Seq<char>>>)
    requires
        key_views(old(keys)@) == key_bytes_of(done),
    ensures
        key_views(final(keys)@) == key_bytes_of(done + views(texts@)),
{
    let ghost all = views(texts@);
    let n: usize = texts.len();
    let mut i: usize = 0;
    assert(done + all.take(0) =~= done);
    while i < n
        invariant
            i <= n,
            n == texts@.len(),
            all == views(texts@),
            key_views(keys@) == key_bytes_of(done + all.take(i as int)),
        decreases n - i,
    {
        add_signer(keys, texts[i].as_str(), Ghost(done + all.take(i as int)));
        assert((done + all.take(i as int)).push(all[i as int]) =~= done + all.take(i + 1));
        i = i + 1;
    }
    assert(all.take(n as int) =~= all);
}

/// Adds the keys of an upstream to `keys`.
fn add_upstream_signers(keys: &mut Vec<[u8; 32]>, upstream: &UpstreamConfig, Ghost(done): Ghost<
    Seq<UpstreamConfig>,
>)
    requires
        key_views(old(keys)@) == key_bytes_of(upstream_key_texts(done)),
    ensures
        key_views(final(keys)@) == key_bytes_of(
            upstream_key_texts(done.push(*upstream)),
        ),
{
    let ghost texts = upstream_key_texts(done);
    assert(done.push(*upstream).drop_last() =~= done);
    add_signer(keys, upstream.public_key.as_str(), Ghost(texts));
    assert(texts.push(upstream.public_key@) =~= texts + seq![upstream.public_key@]);
    add_signers(keys, &upstream.public_keys, Ghost(texts.push(upstream.public_key@)));
}

/// The keys that are trusted to vouch.
pub fn trusted_signers(
    upstreams: &Vec<UpstreamConfig>,
    fallback: &Option<UpstreamConfig>,
    trusted_keys: &Vec<String>,
) -> (out: Vec<[u8; 32]>)
    ensures
        key_views(out@) == trusted_set(upstreams@, *fallback, views(trusted_keys@)),
{
    let mut out: Vec<[u8; 32]> = Vec::new();
    let n: usize = upstreams.len();
    let mut i: usize = 0;
    assert(upstreams@.take(0) =~= seq![]);
    assert(key_views(out@) =~= seq![]);
    while i < n
        invariant
            i <= n,
            n == upstreams@.len(),
            key_views(out@) == key_bytes_of(
                upstream_key_texts(upstreams@.take(i as int)),
            ),
        decreases n - i,
    {
        add_upstream_signers(&mut out, &upstreams[i], Ghost(upstreams@.take(i as int)));
        assert(upstreams@.take(i as int).push(upstreams@[i as int]) =~= upstreams@.take(i + 1));
        i = i + 1;
    }
    assert(upstreams@.take(n as int) =~= upstreams@);
    let ghost mut all = upstreams@;
    if let Some(f) = fallback {
        add_upstream_signers(&mut out, f, Ghost(upstreams@));
        proof {
            all = upstreams@.push(*f);
        }
    }
    add_signers(&mut out, trusted_keys, Ghost(upstream_key_texts(all)));
    out
}

// ---------------------------------------------------------------------------
// Quorum
// ---------------------------------------------------------------------------
/// `claim` counts toward `contents`: it agrees with them, and its signer is one
/// of `trusted`.
pub open spec fn counts(claim: ClaimView, contents: Contents, trusted: Seq<Seq<u8>>) -> bool {
    claim.contents == contents && trusted.contains(claim.signer_key)
}

/// How many of `claims` count toward `contents`.
pub open spec fn votes(
    claims: Seq<ClaimView>,
    contents: Contents,
    trusted: Seq<Seq<u8>>,
) -> nat
    decreases claims.len(),
{
    if claims.len() == 0 {
        0
    } else {
        votes(claims.drop_last(), contents, trusted) + if counts(
            claims.last(),
            contents,
            trusted,
        ) {
            1nat
        } else {
            0nat
        }
    }
}

/// Who has made a claim that counts toward `contents`.
pub open spec fn voters(
    claims: Seq<ClaimView>,
    contents: Contents,
    trusted: Seq<Seq<u8>>,
) -> Set<Seq<u8>>
    decreases claims.len(),
{
    if claims.len() == 0 {
        Set::empty()
    } else if counts(claims.last(), contents, trusted) {
        voters(claims.drop_last(), contents, trusted).insert(claims.last().signer_key)
    } else {
        voters(claims.drop_last(), contents, trusted)
    }
}

/// What is counted toward a quorum: signers, or else claims.
pub open spec fn support(
    claims: Seq<ClaimView>,
    contents: Contents,
    trusted: Seq<Seq<u8>>,
    distinct: bool,
) -> nat {
    if distinct {
        voters(claims, contents, trusted).len()
    } else {
        votes(claims, contents, trusted)
    }
}

proof fn lemma_voters_finite(claims: Seq<ClaimView>, contents: Contents, trusted: Seq<Seq<u8>>)
    ensures
        voters(claims, contents, trusted).finite(),
        voters(claims, contents, trusted).len() <= claims.len(),
        votes(claims, contents, trusted) <= claims.len(),
    decreases claims.len(),
{
    if claims.len() > 0 {
        lemma_voters_finite(claims.drop_last(), contents, trusted);
    }
}

/// Whether `claim` agrees with the narinfo `info`.
fn agrees(claim: &TrustClaim, info: &NarInfo) -> (yes: bool)
    ensures
        yes == (claim@.contents == contents_of(info@)),
{
    if !same_text(claim.store_path.as_str(), info.store_path.as_str()) {
        return false;
    }
    if !same_text(
        claim.nar_hash.as_str(),
        normalize_nar_hash(info.nar_hash.as_str()).as_str(),
    ) {
        return false;
    }
    if claim.nar_size != info.nar_size {
        return false;
    }
    let n: usize = claim.references.len();
    if n != info.references.len() {
        assert(views(claim.references@).len() != views(info.references@).len());
        return false;
    }
    let mut i: usize = 0;
    while i < n
        invariant
            i <= n,
            n == claim.references@.len(),
            n == info.references@.len(),
            forall|j: int| 0 <= j < i ==> views(claim.references@)[j] == views(info.references@)[j],
        decreases n - i,
    {
        if !same_text(claim.references[i].as_str(), info.references[i].as_str()) {
            assert(views(claim.references@)[i as int] != views(info.references@)[i as int]);
            return false;
        }
        i = i + 1;
    }
    assert(views(claim.references@) =~= views(info.references@));
    true
}

/// How far `claims` support the contents that `info` gives to its store path.
pub fn count_support(
    claims: &Vec<TrustClaim>,
    info: &NarInfo,
    trusted: &Vec<[u8; 32]>,
    distinct: bool,
) -> (out: usize)
    ensures
        out == support(
            claim_views(claims@),
            contents_of(info@),
            key_views(trusted@),
            distinct,
        ),
{
    let ghost all = claim_views(claims@);
    let ghost contents = contents_of(info@);
    let ghost keys = key_views(trusted@);
    let mut seen: Vec<[u8; 32]> = Vec::new();
    let mut total: usize = 0;
    let mut signers: usize = 0;
    let n: usize = claims.len();
    let mut i: usize = 0;
    assert(all.take(0) =~= seq![]);
    while i < n
        invariant
            i <= n,
            n == claims@.len(),
            all == claim_views(claims@),
            contents == contents_of(info@),
            keys == key_views(trusted@),
            total <= i,
            signers <= i,
            total == votes(all.take(i as int), contents, keys),
            signers == voters(all.take(i as int), contents, keys).len(),
            forall|k: Seq<u8>| #[trigger]
                key_views(seen@).contains(k) <==> voters(
                    all.take(i as int),
                    contents,
                    keys,
                ).contains(k),
        decreases n - i,
    {
        let claim: &TrustClaim = &claims[i];
        let ghost before = all.take(i as int);
        let ghost next = all.take(i + 1);
        let ghost known = key_views(seen@);
        assert(next.drop_last() =~= before);
        assert(next.last() == claim@);
        proof {
            lemma_voters_finite(before, contents, keys);
            lemma_voters_finite(next, contents, keys);
        }
        if agrees(claim, info) && holds_key(trusted, &claim.signer_key) {
            total = total + 1;
            if !holds_key(&seen, &claim.signer_key) {
                assert(!voters(before, contents, keys).contains(claim.signer_key@));
                signers = signers + 1;
                seen.push(claim.signer_key);
                let ghost now = key_views(seen@);
                assert(now =~= known.push(claim.signer_key@));
                assert forall|k: Seq<u8>| #[trigger] now.contains(k) <==> voters(
                    next,
                    contents,
                    keys,
                ).contains(k) by {
                    if known.contains(k) {
                        let j = choose|j: int| 0 <= j < known.len() && known[j] == k;
                        assert(now[j] == k);
                    }
                    if k == claim.signer_key@ {
                        assert(now[known.len() as int] == k);
                    }
                    if now.contains(k) && k != claim.signer_key@ {
                        let j = choose|j: int| 0 <= j < now.len() && now[j] == k;
                        assert(known[j] == k);
                    }
                }
            } else {
                assert(voters(before, contents, keys).contains(claim.signer_key@));
                assert(voters(next, contents, keys) =~= voters(before, contents, keys));
            }
        }
        i = i + 1;
    }
    assert(all.take(n as int) =~= all);
    if distinct {
        signers
    } else {
        total
    }
}

// ---------------------------------------------------------------------------
// Decisions
// ---------------------------------------------------------------------------
/// What a narinfo lacks.
#[derive(Debug, Clone, Copy, PartialEq, Eq, Structural)]
pub enum TrustGap {
    /// No key of its upstream signed it.
    Unsigned,
    /// Too few signers vouch for it.
    BelowQuorum,
}

impl TrustGap {
    /// The label under which serving it nevertheless is counted.
    pub open spec fn text(self) -> Seq<char> {
        match self {
            TrustGap::Unsigned => "unsigned"@,
            TrustGap::BelowQuorum => "below_quorum"@,
        }
    }

    /// The label under which serving it nevertheless is counted.
    pub fn label(&self) -> (out: &'static str)
        ensures
            out@ == self.text(),
    {
        match self {
            TrustGap::Unsigned => "unsigned",
            TrustGap::BelowQuorum => "below_quorum",
        }
    }
}

/// What becomes of a narinfo.
#[derive(Debug, Clone, Copy, PartialEq, Eq, Structural)]
pub enum TrustDecision {
    /// It is served.
    Accept,
    /// It is served, though it lacks something.
    Bypass(TrustGap),
    /// It is not served.
    Reject(TrustGap),
}

/// What a narinfo lacks: `verified` says that a key of its upstream signed it,
/// `count` how far it is supported.
pub open spec fn gap(config: TrustConfig, verified: bool, count: nat) -> Option<TrustGap> {
    match config.mode {
        TrustMode::Off => None,
        TrustMode::Signed => if verified {
            None
        } else {
            Some(TrustGap::Unsigned)
        },
        TrustMode::Quorum => if !verified {
            Some(TrustGap::Unsigned)
        } else if count < config.threshold {
            Some(TrustGap::BelowQuorum)
        } else {
            None
        },
    }
}

/// What becomes of a narinfo.
pub open spec fn decision(config: TrustConfig, verified: bool, count: nat) -> TrustDecision {
    match gap(config, verified, count) {
        None => TrustDecision::Accept,
        Some(g) => if config.fail_closed {
            TrustDecision::Reject(g)
        } else {
            TrustDecision::Bypass(g)
        },
    }
}

/// What becomes of a narinfo: `verified` says that a key of its upstream signed
/// it, `count` how far it is supported.
pub fn decide(config: &TrustConfig, verified: bool, count: usize) -> (out: TrustDecision)
    ensures
        out == decision(*config, verified, count as nat),
{
    let lacking: Option<TrustGap> = match config.mode {
        TrustMode::Off => None,
        TrustMode::Signed => if verified {
            None
        } else {
            Some(TrustGap::Unsigned)
        },
        TrustMode::Quorum => if !verified {
            Some(TrustGap::Unsigned)
        } else if (count as u64) < config.threshold as u64 {
            Some(TrustGap::BelowQuorum)
        } else {
            None
        },
    };
    match lacking {
        None => TrustDecision::Accept,
        Some(g) => if config.fail_closed {
            TrustDecision::Reject(g)
        } else {
            TrustDecision::Bypass(g)
        },
    }
}

/// What becomes of the narinfo `info` of an upstream with the keys `keys`, of
/// whose store path `claims` are made.
pub fn judge(
    config: &TrustConfig,
    info: &NarInfo,
    keys: &Vec<String>,
    claims: &Vec<TrustClaim>,
    trusted: &Vec<[u8; 32]>,
) -> (out: TrustDecision)
    ensures
        out == decision(
            *config,
            verified_by_any(info@, views(keys@)),
            support(
                claim_views(claims@),
                contents_of(info@),
                key_views(trusted@),
                config.require_distinct_signers,
            ),
        ),
{
    let verified: bool = narinfo_verifies_any_key(info, keys.as_slice());
    let count: usize = count_support(claims, info, trusted, config.require_distinct_signers);
    decide(config, verified, count)
}

/// What is known of the trust in a path.
pub struct TrustReport {
    pub mode: &'static str,
    pub threshold: u32,
    /// How far it is supported.
    pub count: usize,
    /// Whether it lacks nothing.
    pub trusted: bool,
}

/// The name of a mode, as it is configured.
pub open spec fn mode_name(mode: TrustMode) -> Seq<char> {
    match mode {
        TrustMode::Off => "off"@,
        TrustMode::Signed => "signed"@,
        TrustMode::Quorum => "quorum"@,
    }
}

/// What is known of the trust in a path whose narinfo is `narinfo`, of an upstream
/// with the keys `keys`. Where there is none to read, nothing supports it.
pub fn report(
    config: &TrustConfig,
    narinfo: &Option<Vec<u8>>,
    keys: &Vec<String>,
    claims: &Vec<TrustClaim>,
    trusted: &Vec<[u8; 32]>,
) -> (out: TrustReport)
    ensures
        out.mode@ == mode_name(config.mode),
        out.threshold == config.threshold,
        match known_narinfo(view_bytes(*narinfo)) {
            None => out.count == 0 && !out.trusted,
            Some(info) => {
                let count = support(
                    claim_views(claims@),
                    contents_of(info),
                    key_views(trusted@),
                    config.require_distinct_signers,
                );
                &&& out.count == count
                &&& out.trusted == (gap(*config, verified_by_any(info, views(keys@)), count)
                    is None)
            },
        },
{
    let mode: &'static str = match config.mode {
        TrustMode::Off => "off",
        TrustMode::Signed => "signed",
        TrustMode::Quorum => "quorum",
    };
    let threshold: u32 = config.threshold;
    if let Some(bytes) = narinfo {
        if let Ok(info) = NarInfo::parse(bytes.as_slice()) {
            let count: usize = count_support(
                claims,
                &info,
                trusted,
                config.require_distinct_signers,
            );
            let decision: TrustDecision = judge(config, &info, keys, claims, trusted);
            return TrustReport {
                mode,
                threshold,
                count,
                trusted: decision == TrustDecision::Accept,
            };
        }
    }
    TrustReport { mode, threshold, count: 0, trusted: false }
}

/// What the narinfo `bytes` says, where there is one to read.
pub open spec fn known_narinfo(bytes: Option<Seq<u8>>) -> Option<NarInfoView> {
    match bytes {
        Some(b) => match parsed(b) {
            Ok(info) => Some(info),
            Err(_) => None,
        },
        None => None,
    }
}

/// Where trust fails open, nothing is refused.
pub proof fn law_open_trust_refuses_nothing(config: TrustConfig, verified: bool, count: nat)
    requires
        !config.fail_closed,
    ensures
        !(decision(config, verified, count) is Reject),
        decision(config, verified, count) is Bypass <==> gap(config, verified, count) is Some,
{
}

/// Where trust fails closed, nothing is served that no key of its upstream
/// signed, nor, by quorum, anything with too little support.
pub proof fn law_closed_trust_serves_nothing_unproved(
    config: TrustConfig,
    verified: bool,
    count: nat,
)
    requires
        config.fail_closed,
        config.mode != TrustMode::Off,
        !(decision(config, verified, count) is Reject),
    ensures
        verified,
        config.mode == TrustMode::Quorum ==> count >= config.threshold,
{
}

/// Where trust is off, everything is served.
pub proof fn law_no_trust_serves_everything(config: TrustConfig, verified: bool, count: nat)
    requires
        config.mode == TrustMode::Off,
    ensures
        decision(config, verified, count) == TrustDecision::Accept,
{
}

/// A claim by a key that is not trusted adds nothing, however it is counted.
pub proof fn law_untrusted_claims_do_not_count(
    claims: Seq<ClaimView>,
    claim: ClaimView,
    contents: Contents,
    trusted: Seq<Seq<u8>>,
    distinct: bool,
)
    requires
        !trusted.contains(claim.signer_key),
    ensures
        support(claims.push(claim), contents, trusted, distinct) == support(
            claims,
            contents,
            trusted,
            distinct,
        ),
{
    assert(claims.push(claim).drop_last() =~= claims);
}

/// A claim about other contents adds nothing, however it is counted.
pub proof fn law_other_contents_do_not_count(
    claims: Seq<ClaimView>,
    claim: ClaimView,
    contents: Contents,
    trusted: Seq<Seq<u8>>,
    distinct: bool,
)
    requires
        claim.contents != contents,
    ensures
        support(claims.push(claim), contents, trusted, distinct) == support(
            claims,
            contents,
            trusted,
            distinct,
        ),
{
    assert(claims.push(claim).drop_last() =~= claims);
}

/// Where signers are counted, one that is seen a second time adds nothing,
/// wherever it was seen.
pub proof fn law_a_signer_counts_once(
    claims: Seq<ClaimView>,
    at: int,
    claim: ClaimView,
    contents: Contents,
    trusted: Seq<Seq<u8>>,
)
    requires
        0 <= at < claims.len(),
        claims[at].signer_key == claim.signer_key,
        claims[at].contents == claim.contents,
    ensures
        support(claims.push(claim), contents, trusted, true) == support(
            claims,
            contents,
            trusted,
            true,
        ),
{
    assert(claims.push(claim).drop_last() =~= claims);
    if counts(claim, contents, trusted) {
        lemma_voter(claims, at, contents, trusted);
        assert(voters(claims, contents, trusted).insert(claim.signer_key) =~= voters(
            claims,
            contents,
            trusted,
        ));
    }
}

proof fn lemma_voter(
    claims: Seq<ClaimView>,
    at: int,
    contents: Contents,
    trusted: Seq<Seq<u8>>,
)
    requires
        0 <= at < claims.len(),
        counts(claims[at], contents, trusted),
    ensures
        voters(claims, contents, trusted).contains(claims[at].signer_key),
    decreases claims.len(),
{
    if at < claims.len() - 1 {
        lemma_voter(claims.drop_last(), at, contents, trusted);
    }
}

// ---------------------------------------------------------------------------
// Gossip
// ---------------------------------------------------------------------------
/// Which of the claims whose sizes are `sizes` fit into a packet that has room for
/// `room` bytes.
pub open spec fn fitting(sizes: Seq<usize>, room: usize) -> Seq<usize>
    decreases sizes.len(),
{
    if sizes.len() == 0 {
        seq![]
    } else {
        let rest = fitting(sizes.drop_last(), room);
        if sizes.last() <= room {
            rest.push((sizes.len() - 1) as usize)
        } else {
            rest
        }
    }
}

/// The batches one behind the other.
pub open spec fn joined_batches(batches: Seq<Vec<usize>>) -> Seq<usize>
    decreases batches.len(),
{
    if batches.len() == 0 {
        seq![]
    } else {
        joined_batches(batches.drop_last()) + batches.last()@
    }
}

/// How many bytes the claims of a batch have together.
pub open spec fn batch_size(sizes: Seq<usize>, batch: Seq<usize>) -> nat
    decreases batch.len(),
{
    if batch.len() == 0 {
        0
    } else {
        batch_size(sizes, batch.drop_last()) + sizes[batch.last() as int] as nat
    }
}

/// Divides the claims whose sizes are `sizes` into batches of at most `room`
/// bytes, in order. A claim that is larger by itself is left out.
pub fn batches(sizes: &Vec<usize>, room: usize) -> (out: Vec<Vec<usize>>)
    ensures
        joined_batches(out@) == fitting(sizes@, room),
        forall|k: int|
            0 <= k < out@.len() ==> (#[trigger] out@[k])@.len() > 0 && batch_size(sizes@, out@[k]@)
                <= room,
{
    let mut out: Vec<Vec<usize>> = Vec::new();
    let mut batch: Vec<usize> = Vec::new();
    let mut used: usize = 0;
    let n: usize = sizes.len();
    let mut i: usize = 0;
    assert(sizes@.take(0) =~= seq![]);
    assert(joined_batches(out@) + batch@ =~= fitting(sizes@.take(0), room));
    while i < n
        invariant
            i <= n,
            n == sizes@.len(),
            used <= room,
            used == batch_size(sizes@, batch@),
            joined_batches(out@) + batch@ == fitting(sizes@.take(i as int), room),
            forall|k: int|
                0 <= k < out@.len() ==> (#[trigger] out@[k])@.len() > 0 && batch_size(
                    sizes@,
                    out@[k]@,
                ) <= room,
        decreases n - i,
    {
        let size: usize = sizes[i];
        let ghost next = sizes@.take(i + 1);
        assert(next.drop_last() =~= sizes@.take(i as int));
        assert(next.last() == size);
        if size <= room {
            if size > room - used {
                let ghost done = out@;
                let ghost full = batch@;
                assert(full.len() > 0);
                out.push(batch);
                assert(out@.drop_last() =~= done);
                assert(joined_batches(out@) == joined_batches(done) + full);
                batch = Vec::new();
                used = 0;
                assert(joined_batches(out@) + batch@ =~= joined_batches(out@));
            }
            let ghost before = batch@;
            assert(used == batch_size(sizes@, before));
            batch.push(i);
            used = used + size;
            assert(batch@.drop_last() =~= before);
            assert(batch@.last() == i);
            assert(batch_size(sizes@, batch@) == batch_size(sizes@, before) + sizes@[i as int]);
            assert(joined_batches(out@) + batch@ =~= (joined_batches(out@) + before).push(i));
        }
        i = i + 1;
    }
    assert(sizes@.take(n as int) =~= sizes@);
    if batch.len() > 0 {
        let ghost done = out@;
        out.push(batch);
        assert(out@.drop_last() =~= done);
    } else {
        assert(joined_batches(out@) + batch@ =~= joined_batches(out@));
    }
    out
}

// ---------------------------------------------------------------------------
// What trust asks for
// ---------------------------------------------------------------------------
/// A narinfo is accepted where nothing is asked for, where a signature is asked
/// for and it has one, and where a quorum is asked for and it has both a signature
/// and enough support; in every other case it is refused where trust fails closed
/// and served nevertheless where it fails open. What it lacks first is the
/// signature.
pub proof fn law_trust_asks_for_signature_and_quorum(
    config: TrustConfig,
    verified: bool,
    count: nat,
)
    ensures
        ({
            let enough = match config.mode {
                TrustMode::Off => true,
                TrustMode::Signed => verified,
                TrustMode::Quorum => verified && count >= config.threshold,
            };
            let lacks = if verified {
                TrustGap::BelowQuorum
            } else {
                TrustGap::Unsigned
            };
            &&& decision(config, verified, count) == TrustDecision::Accept <==> enough
            &&& !enough && config.fail_closed ==> decision(config, verified, count)
                == TrustDecision::Reject(lacks)
            &&& !enough && !config.fail_closed ==> decision(config, verified, count)
                == TrustDecision::Bypass(lacks)
        }),
{
}

/// More support never costs a narinfo its trust, nor does a signature.
pub proof fn law_support_only_helps(
    config: TrustConfig,
    verified: bool,
    count: nat,
    more: nat,
)
    requires
        count <= more,
        decision(config, verified, count) == TrustDecision::Accept,
    ensures
        decision(config, verified, more) == TrustDecision::Accept,
        decision(config, true, more) == TrustDecision::Accept,
{
}

/// The claim is by one of `trusted`, and for `contents`.
pub open spec fn speaks_for(contents: Contents, trusted: Seq<Seq<u8>>) -> spec_fn(
    ClaimView,
) -> bool {
    |claim: ClaimView|
        {
            &&& claim.contents.store_path == contents.store_path
            &&& claim.contents.nar_hash == contents.nar_hash
            &&& claim.contents.nar_size == contents.nar_size
            &&& claim.contents.references == contents.references
            &&& trusted.contains(claim.signer_key)
        }
}

proof fn lemma_votes(claims: Seq<ClaimView>, contents: Contents, trusted: Seq<Seq<u8>>)
    ensures
        votes(claims, contents, trusted) == claims.filter(speaks_for(contents, trusted)).len(),
        forall|key: Seq<u8>| #[trigger]
            voters(claims, contents, trusted).contains(key) <==> exists|i: int|
                0 <= i < claims.len() && (#[trigger] claims[i]).signer_key == key && speaks_for(
                    contents,
                    trusted,
                )(claims[i]),
    decreases claims.len(),
{
    reveal(Seq::filter);
    if claims.len() > 0 {
        let front = claims.drop_last();
        let keep = speaks_for(contents, trusted);
        lemma_votes(front, contents, trusted);
        assert(counts(claims.last(), contents, trusted) == keep(claims.last()));
        assert forall|key: Seq<u8>| #[trigger]
            voters(claims, contents, trusted).contains(key) <==> exists|i: int|
                0 <= i < claims.len() && (#[trigger] claims[i]).signer_key == key && keep(
                    claims[i],
                ) by {
            assert(claims[claims.len() - 1] == claims.last());
            if voters(front, contents, trusted).contains(key) {
                let i = choose|i: int|
                    0 <= i < front.len() && (#[trigger] front[i]).signer_key == key && keep(
                        front[i],
                    );
                assert(claims[i] == front[i]);
            }
            if exists|i: int|
                0 <= i < claims.len() && (#[trigger] claims[i]).signer_key == key && keep(
                    claims[i],
                ) {
                let i = choose|i: int|
                    0 <= i < claims.len() && (#[trigger] claims[i]).signer_key == key && keep(
                        claims[i],
                    );
                if i < front.len() {
                    assert(front[i] == claims[i]);
                }
            }
        }
    }
}

/// Support is what the claims of trusted signers for the very same contents make:
/// as many as there are such claims, or as many as there are signers of such
/// claims where each is to be another.
pub proof fn law_support_is_counted(
    claims: Seq<ClaimView>,
    contents: Contents,
    trusted: Seq<Seq<u8>>,
)
    ensures
        support(claims, contents, trusted, false) == claims.filter(
            speaks_for(contents, trusted),
        ).len(),
        support(claims, contents, trusted, true) == Set::new(
            |key: Seq<u8>|
                exists|i: int|
                    0 <= i < claims.len() && (#[trigger] claims[i]).signer_key == key && speaks_for(
                        contents,
                        trusted,
                    )(claims[i]),
        ).len(),
{
    lemma_votes(claims, contents, trusted);
    assert(voters(claims, contents, trusted) =~= Set::new(
        |key: Seq<u8>|
            exists|i: int|
                0 <= i < claims.len() && (#[trigger] claims[i]).signer_key == key && speaks_for(
                    contents,
                    trusted,
                )(claims[i]),
    ));
}

/// A trusted signer that has not been seen adds one, however support is counted.
pub proof fn law_a_new_signer_adds_one(
    claims: Seq<ClaimView>,
    claim: ClaimView,
    contents: Contents,
    trusted: Seq<Seq<u8>>,
    distinct: bool,
)
    requires
        trusted.contains(claim.signer_key),
        claim.contents == contents,
        forall|i: int|
            0 <= i < claims.len() ==> (#[trigger] claims[i]).signer_key != claim.signer_key,
    ensures
        support(claims.push(claim), contents, trusted, distinct) == support(
            claims,
            contents,
            trusted,
            distinct,
        ) + 1,
{
    assert(claims.push(claim).drop_last() =~= claims);
    lemma_votes(claims, contents, trusted);
    lemma_voters_finite(claims, contents, trusted);
    if voters(claims, contents, trusted).contains(claim.signer_key) {
        let i = choose|i: int|
            0 <= i < claims.len() && (#[trigger] claims[i]).signer_key == claim.signer_key
                && speaks_for(contents, trusted)(claims[i]);
        assert(claims[i].signer_key != claim.signer_key);
    }
}

/// A claim binds what its signature covers: narinfos with the same contents have
/// the same fingerprint, and agree in the store path, the size and the references
/// of the archive and, up to the way in which it is written, its hash.
pub proof fn law_contents_are_what_is_signed(a: NarInfoView, b: NarInfoView)
    ensures
        contents_of(a) == contents_of(b) ==> fingerprint_of(a) == fingerprint_of(b),
        contents_of(a) == contents_of(b) <==> a.store_path == b.store_path && normalized_hash(
            a.nar_hash,
        ) == normalized_hash(b.nar_hash) && a.nar_size == b.nar_size && a.references
            == b.references,
{
}

/// The claim that the key written `key` makes.
pub open spec fn claim_by(info: NarInfoView, source: Seq<char>, body: Seq<u8>) -> spec_fn(
    Seq<char>,
) -> ClaimView {
    |key: Seq<char>|
        ClaimView {
            signer_name: read_public_key(key)->Ok_0.0,
            signer_key: read_public_key(key)->Ok_0.1,
            upstream_url: source,
            contents: contents_of(info),
            deriver: info.deriver,
            ca: info.ca,
            file_hash: info.file_hash,
            file_size: info.file_size,
            narinfo: body,
        }
}

/// Each key that signed a narinfo makes one claim, in the order of the keys, and
/// no other key makes any.
pub proof fn law_each_signer_makes_a_claim(
    info: NarInfoView,
    keys: Seq<Seq<char>>,
    source: Seq<char>,
    body: Seq<u8>,
)
    ensures
        claims_by(info, keys, source, body) == keys.filter(
            |key: Seq<char>| verified_by(info, key),
        ).map_values(claim_by(info, source, body)),
    decreases keys.len(),
{
    reveal(Seq::filter);
    if keys.len() > 0 {
        law_each_signer_makes_a_claim(info, keys.drop_last(), source, body);
    }
    assert(claims_by(info, keys, source, body) =~= keys.filter(
        |key: Seq<char>| verified_by(info, key),
    ).map_values(claim_by(info, source, body)));
}

/// A claim that a peer passed on is taken where its signer is trusted and has
/// signed the narinfo that came with it, and only there. What it says is what that
/// narinfo says, whatever the peer made of it, and it names the peer as its source.
pub proof fn law_relayed_claims_are_checked(
    name: Seq<char>,
    key: Seq<u8>,
    body: Seq<u8>,
    trusted: Seq<Seq<u8>>,
    relay: Seq<char>,
)
    ensures
        relayed(name, key, body, trusted, relay) is Some <==> {
            &&& trusted.contains(key)
            &&& ed25519_is_key(key)
            &&& parsed(body) is Ok
            &&& signed_by(parsed(body)->Ok_0, name, key)
        },
        relayed(name, key, body, trusted, relay) matches Some(claim) ==> {
            &&& claim.signer_name == name
            &&& claim.signer_key == key
            &&& claim.contents == contents_of(parsed(body)->Ok_0)
            &&& claim.narinfo == body
            &&& claim.upstream_url == "mesh://"@ + relay
        },
{
}

/// The store hash in a store path is what stands between its last slash and the
/// first dash behind it.
pub proof fn law_claims_are_filed_under_their_hash(
    dir: Seq<char>,
    hash: Seq<char>,
    name: Seq<char>,
)
    requires
        !hash.contains('-') && !hash.contains('/'),
        !name.contains('/'),
    ensures
        hash_in(dir + seq!['/'] + hash + seq!['-'] + name) == Some(hash),
        hash_in(dir + seq!['/'] + hash) is None,
{
    reveal_strlit("-");
    assert("-"@ =~= seq!['-']);
    let base = hash + seq!['-'] + name;
    assert forall|i: int| 0 <= i < base.len() implies base[i] != '/' by {
        if i < hash.len() {
            assert(base[i] == hash[i]);
        } else if i > hash.len() {
            assert(base[i] == name[i - hash.len() - 1]);
        }
    }
    assert(dir + seq!['/'] + hash + seq!['-'] + name =~= dir + seq!['/'] + base);
    lemma_last_segment(dir, base);
    lemma_split_once_char(hash, "-"@, name);
    assert forall|i: int| 0 <= i < hash.len() implies hash[i] != '/' by {
        assert(hash.contains(hash[i]));
    }
    lemma_last_segment(dir, hash);
    lemma_find_from(hash, "-"@, 0);
    if let Some(i) = find(hash, "-"@) {
        assert(hash.subrange(i as int, i as int + 1)[0] == hash[i as int]);
        assert(hash.contains('-'));
    }
}

proof fn lemma_key_bytes(texts: Seq<Seq<char>>, key: Seq<u8>)
    ensures
        key_bytes_of(texts).contains(key) <==> exists|i: int|
            0 <= i < texts.len() && (read_public_key(#[trigger] texts[i]) matches Ok((_, bytes))
                && bytes == key),
    decreases texts.len(),
{
    if texts.len() > 0 {
        let front = texts.drop_last();
        let rest = key_bytes_of(front);
        let out = key_bytes_of(texts);
        lemma_key_bytes(front, key);
        assert(texts[texts.len() - 1] == texts.last());
        if out.contains(key) {
            let k = choose|k: int| 0 <= k < out.len() && out[k] == key;
            if k < rest.len() {
                assert(rest[k] == key);
                let i = choose|i: int|
                    0 <= i < front.len() && (read_public_key(#[trigger] front[i]) matches Ok(
                        (_, bytes),
                    ) && bytes == key);
                assert(texts[i] == front[i]);
            }
        }
        if exists|i: int|
            0 <= i < texts.len() && (read_public_key(#[trigger] texts[i]) matches Ok((_, bytes))
                && bytes == key) {
            let i = choose|i: int|
                0 <= i < texts.len() && (read_public_key(#[trigger] texts[i]) matches Ok((_, bytes))
                    && bytes == key);
            if i < front.len() {
                assert(front[i] == texts[i]);
                assert(rest.contains(key));
                let k = choose|k: int| 0 <= k < rest.len() && rest[k] == key;
                assert(out[k] == key);
            } else {
                assert(out[rest.len() as int] == key);
            }
        }
    }
}

proof fn lemma_upstream_texts(upstreams: Seq<UpstreamConfig>, text: Seq<char>)
    ensures
        upstream_key_texts(upstreams).contains(text) <==> exists|i: int|
            0 <= i < upstreams.len() && ((#[trigger] upstreams[i]).public_key@ == text || views(
                upstreams[i].public_keys@,
            ).contains(text)),
    decreases upstreams.len(),
{
    if upstreams.len() > 0 {
        let front = upstreams.drop_last();
        let last = upstreams.last();
        let rest = upstream_key_texts(front);
        let out = upstream_key_texts(upstreams);
        let listed = views(last.public_keys@);
        lemma_upstream_texts(front, text);
        assert(upstreams[upstreams.len() - 1] == last);
        if out.contains(text) {
            let k = choose|k: int| 0 <= k < out.len() && out[k] == text;
            if k < rest.len() {
                assert(rest[k] == text);
                assert(rest.contains(text));
                let i = choose|i: int|
                    0 <= i < front.len() && ((#[trigger] front[i]).public_key@ == text || views(
                        front[i].public_keys@,
                    ).contains(text));
                assert(upstreams[i] == front[i]);
            } else if k > rest.len() {
                assert(listed[k - rest.len() - 1] == text);
                assert(listed.contains(text));
            }
        }
        if exists|i: int|
            0 <= i < upstreams.len() && ((#[trigger] upstreams[i]).public_key@ == text || views(
                upstreams[i].public_keys@,
            ).contains(text)) {
            let i = choose|i: int|
                0 <= i < upstreams.len() && ((#[trigger] upstreams[i]).public_key@ == text || views(
                    upstreams[i].public_keys@,
                ).contains(text));
            if i < front.len() {
                assert(front[i] == upstreams[i]);
                assert(rest.contains(text));
                let k = choose|k: int| 0 <= k < rest.len() && rest[k] == text;
                assert(out[k] == text);
            } else if last.public_key@ == text {
                assert(out[rest.len() as int] == text);
            } else {
                let k = choose|k: int| 0 <= k < listed.len() && listed[k] == text;
                assert(out[rest.len() + 1 + k] == text);
            }
        }
    }
}

/// A key is trusted to vouch where a key of an upstream, of the cache of last
/// resort or of the list of trusted keys writes it, and nowhere else.
pub proof fn law_trusted_signers_are_the_configured_ones(
    upstreams: Seq<UpstreamConfig>,
    fallback: Option<UpstreamConfig>,
    trusted_keys: Seq<Seq<char>>,
    key: Seq<u8>,
)
    ensures
        trusted_set(upstreams, fallback, trusted_keys).contains(key) <==> exists|text: Seq<char>|
            (#[trigger] read_public_key(text) matches Ok((_, bytes)) && bytes == key) && {
                ||| trusted_keys.contains(text)
                ||| exists|i: int|
                    0 <= i < upstreams.len() && ((#[trigger] upstreams[i]).public_key@ == text
                        || views(upstreams[i].public_keys@).contains(text))
                ||| fallback matches Some(f) && (f.public_key@ == text || views(
                    f.public_keys@,
                ).contains(text))
            },
{
    let all = match fallback {
        Some(f) => upstreams.push(f),
        None => upstreams,
    };
    let own = upstream_key_texts(all);
    let texts = own + trusted_keys;
    lemma_key_bytes(texts, key);
    assert forall|text: Seq<char>| own.contains(text) <==> {
        ||| exists|i: int|
            0 <= i < upstreams.len() && ((#[trigger] upstreams[i]).public_key@ == text || views(
                upstreams[i].public_keys@,
            ).contains(text))
        ||| fallback matches Some(f) && (f.public_key@ == text || views(f.public_keys@).contains(
            text,
        ))
    } by {
        lemma_upstream_texts(all, text);
        if own.contains(text) {
            let i = choose|i: int|
                0 <= i < all.len() && ((#[trigger] all[i]).public_key@ == text || views(
                    all[i].public_keys@,
                ).contains(text));
            if i < upstreams.len() {
                assert(upstreams[i] == all[i]);
            }
        }
        if exists|i: int|
            0 <= i < upstreams.len() && ((#[trigger] upstreams[i]).public_key@ == text || views(
                upstreams[i].public_keys@,
            ).contains(text)) {
            let i = choose|i: int|
                0 <= i < upstreams.len() && ((#[trigger] upstreams[i]).public_key@ == text || views(
                    upstreams[i].public_keys@,
                ).contains(text));
            assert(all[i] == upstreams[i]);
        }
        if let Some(f) = fallback {
            assert(all[upstreams.len() as int] == f);
        }
    }
    assert forall|text: Seq<char>| texts.contains(text) <==> own.contains(text)
        || trusted_keys.contains(text) by {
        if own.contains(text) {
            let k = choose|k: int| 0 <= k < own.len() && own[k] == text;
            assert(texts[k] == text);
        }
        if trusted_keys.contains(text) {
            let k = choose|k: int| 0 <= k < trusted_keys.len() && trusted_keys[k] == text;
            assert(texts[own.len() + k] == text);
        }
        if texts.contains(text) {
            let k = choose|k: int| 0 <= k < texts.len() && texts[k] == text;
            if k < own.len() {
                assert(own[k] == text);
            } else {
                assert(trusted_keys[k - own.len()] == text);
            }
        }
    }
    if trusted_set(upstreams, fallback, trusted_keys).contains(key) {
        let i = choose|i: int|
            0 <= i < texts.len() && (read_public_key(#[trigger] texts[i]) matches Ok((_, bytes))
                && bytes == key);
        let text = texts[i];
        assert(texts.contains(text));
        assert(own.contains(text) || trusted_keys.contains(text));
        assert(read_public_key(text) is Ok);
    }
    if exists|text: Seq<char>|
        (#[trigger] read_public_key(text) matches Ok((_, bytes)) && bytes == key) && {
            ||| trusted_keys.contains(text)
            ||| exists|i: int|
                0 <= i < upstreams.len() && ((#[trigger] upstreams[i]).public_key@ == text || views(
                    upstreams[i].public_keys@,
                ).contains(text))
            ||| fallback matches Some(f) && (f.public_key@ == text || views(
                f.public_keys@,
            ).contains(text))
        } {
        let text = choose|text: Seq<char>|
            (#[trigger] read_public_key(text) matches Ok((_, bytes)) && bytes == key) && {
                ||| trusted_keys.contains(text)
                ||| exists|i: int|
                    0 <= i < upstreams.len() && ((#[trigger] upstreams[i]).public_key@ == text
                        || views(upstreams[i].public_keys@).contains(text))
                ||| fallback matches Some(f) && (f.public_key@ == text || views(
                    f.public_keys@,
                ).contains(text))
            };
        assert(own.contains(text) || trusted_keys.contains(text));
        assert(texts.contains(text));
        let k = choose|k: int| 0 <= k < texts.len() && texts[k] == text;
        assert(read_public_key(texts[k]) is Ok);
    }
}

/// The claims that are gossiped are those that fit into a packet, each once and in
/// order.
pub proof fn law_claims_that_fit_are_gossiped(sizes: Seq<usize>, room: usize)
    requires
        sizes.len() <= usize::MAX,
    ensures
        forall|k: int, l: int|
            0 <= k < l < fitting(sizes, room).len() ==> #[trigger] fitting(sizes, room)[k]
                < #[trigger] fitting(sizes, room)[l],
        forall|i: usize| #[trigger]
            fitting(sizes, room).contains(i) <==> i < sizes.len() && sizes[i as int] <= room,
    decreases sizes.len(),
{
    if sizes.len() > 0 {
        let front = sizes.drop_last();
        let rest = fitting(front, room);
        let out = fitting(sizes, room);
        law_claims_that_fit_are_gossiped(front, room);
        assert forall|i: usize| #[trigger] out.contains(i) <==> i < sizes.len() && sizes[i as int]
            <= room by {
            if out.contains(i) {
                let k = choose|k: int| 0 <= k < out.len() && out[k] == i;
                if k < rest.len() {
                    assert(rest[k] == i);
                    assert(rest.contains(i));
                }
            }
            if i < sizes.len() && sizes[i as int] <= room {
                if i < front.len() {
                    assert(rest.contains(i));
                    let k = choose|k: int| 0 <= k < rest.len() && rest[k] == i;
                    assert(out[k] == i);
                } else {
                    assert(out[rest.len() as int] == i);
                }
            }
        }
        assert forall|k: int, l: int| 0 <= k < l < out.len() implies #[trigger] out[k]
            < #[trigger] out[l] by {
            assert(out[k] == rest[k]);
            assert(rest.contains(rest[k]));
            if l < rest.len() {
                assert(out[l] == rest[l]);
            }
        }
    }
}

/// The batches one behind the other, and the bytes of a batch together.
pub proof fn law_batches_are_summed_up(
    batches: Seq<Vec<usize>>,
    sizes: Seq<usize>,
    batch: Seq<usize>,
    next: usize,
)
    ensures
        joined_batches(batches) == batches.map_values(|b: Vec<usize>| b@).flatten(),
        batch_size(sizes, seq![]) == 0,
        next < sizes.len() ==> batch_size(sizes, batch.push(next)) == batch_size(sizes, batch)
            + sizes[next as int],
    decreases batches.len(),
{
    let parts = batches.map_values(|b: Vec<usize>| b@);
    assert(batch.push(next).drop_last() =~= batch);
    if batches.len() > 0 {
        law_batches_are_summed_up(batches.drop_last(), sizes, batch, next);
        assert(parts.drop_last() =~= batches.drop_last().map_values(|b: Vec<usize>| b@));
        parts.lemma_flatten_and_flatten_alt_are_equivalent();
        parts.drop_last().lemma_flatten_and_flatten_alt_are_equivalent();
        assert(parts.last() == batches.last()@);
    } else {
        assert(joined_batches(batches) =~= parts.flatten());
    }
}

} // verus!
