//! Narinfo files: what a binary cache says of one store path, the fingerprint
//! that it signs, and the keys that check the signature.

use vstd::prelude::*;
use vstd::string::*;
use vstd::utf8::{
    decode_utf8, encode_utf8, encode_utf8_decode_utf8, encode_utf8_valid_utf8, valid_utf8,
};

use crate::base32::{encoded, nix_base32_encode};
use crate::codec::{
    all_hex, base64, base64_bytes, base64_bytes_any_padding, base64_error, base64_symbols,
    decode_base64, decode_base64_any_padding, hex_bytes, hex_decode, hex_text, is_all_hex,
    law_base64_reads_back, law_hex_reads_back, lemma_encode_ascii, lemma_encode_avoids,
    lemma_encode_concat, utf8_bytes, utf8_text,
};
use crate::number::{
    decimal, law_decimals_write_their_number, parse_decimal, push_decimal, read_decimal, ParseIntError,
};
use crate::signing::{accepts, ed25519_accepts, ed25519_is_key, is_key, key_from, signature_from};
use crate::text::{
    concat2, concat3, copy_strings, debug_text, find, has_prefix, join, joined, lemma_find_from,
    lemma_run_before, lemma_split_once_char, owned, quoted, run_before, same_text, split_at_first, split_once, split_words, starts_with, strip_suffix,
    views, words,
};

verus! {

/// What a narinfo file says.
#[derive(Debug, PartialEq, Eq)]
pub struct NarInfo {
    pub store_path: String,
    pub url: String,
    pub compression: String,
    pub file_hash: String,
    pub file_size: u64,
    pub nar_hash: String,
    pub nar_size: u64,
    pub references: Vec<String>,
    pub deriver: String,
    pub sig: Vec<String>,
    pub ca: String,
}

/// The contents of a narinfo.
#[verifier::ext_equal]
pub struct NarInfoView {
    pub store_path: Seq<char>,
    pub url: Seq<char>,
    pub compression: Seq<char>,
    pub file_hash: Seq<char>,
    pub file_size: nat,
    pub nar_hash: Seq<char>,
    pub nar_size: nat,
    pub references: Seq<Seq<char>>,
    pub deriver: Seq<char>,
    pub sig: Seq<Seq<char>>,
    pub ca: Seq<char>,
}

impl View for NarInfo {
    type V = NarInfoView;

    open spec fn view(&self) -> NarInfoView {
        NarInfoView {
            store_path: self.store_path@,
            url: self.url@,
            compression: self.compression@,
            file_hash: self.file_hash@,
            file_size: self.file_size as nat,
            nar_hash: self.nar_hash@,
            nar_size: self.nar_size as nat,
            references: views(self.references@),
            deriver: self.deriver@,
            sig: views(self.sig@),
            ca: self.ca@,
        }
    }
}

impl Clone for NarInfo {
    fn clone(&self) -> (out: Self)
        ensures
            out@ == self@,
    {
        NarInfo {
            store_path: self.store_path.clone(),
            url: self.url.clone(),
            compression: self.compression.clone(),
            file_hash: self.file_hash.clone(),
            file_size: self.file_size,
            nar_hash: self.nar_hash.clone(),
            nar_size: self.nar_size,
            references: copy_strings(&self.references),
            deriver: self.deriver.clone(),
            sig: copy_strings(&self.sig),
            ca: self.ca.clone(),
        }
    }
}

/// The narinfo of which nothing has been said.
pub open spec fn blank_narinfo() -> NarInfoView {
    NarInfoView {
        store_path: seq![],
        url: seq![],
        compression: seq![],
        file_hash: seq![],
        file_size: 0,
        nar_hash: seq![],
        nar_size: 0,
        references: seq![],
        deriver: seq![],
        sig: seq![],
        ca: seq![],
    }
}

impl Default for NarInfo {
    fn default() -> (info: Self)
        ensures
            info@ == blank_narinfo(),
    {
        let info = NarInfo {
            store_path: String::new(),
            url: String::new(),
            compression: String::new(),
            file_hash: String::new(),
            file_size: 0,
            nar_hash: String::new(),
            nar_size: 0,
            references: Vec::new(),
            deriver: String::new(),
            sig: Vec::new(),
            ca: String::new(),
        };
        assert(info@ =~= blank_narinfo());
        info
    }
}

/// Why a narinfo or a public key cannot be read.
#[derive(Debug, PartialEq, Eq)]
#[allow(inconsistent_fields)]
pub enum NarInfoError {
    /// A line is no UTF-8.
    Io(String),
    /// A line has no `: ` in it.
    MalformedLine(String),
    /// There is no store path.
    MissingStorePath,
    /// A size is no number.
    ParseInt { field: &'static str, source: ParseIntError },
    /// A public key has no name.
    MissingPublicKeySeparator { input: String },
    /// The bytes of a public key are no base64.
    InvalidPublicKeyBase64 { input: String, source: String },
    /// A public key is no 32 bytes, or no point of the curve.
    InvalidPublicKeySize { got: usize },
}

/// The contents of an error.
#[allow(inconsistent_fields)]
pub enum NarInfoErrorView {
    Io(Seq<char>),
    MalformedLine(Seq<char>),
    MissingStorePath,
    ParseInt { field: Seq<char>, source: ParseIntError },
    MissingPublicKeySeparator { input: Seq<char> },
    InvalidPublicKeyBase64 { input: Seq<char>, source: Seq<char> },
    InvalidPublicKeySize { got: nat },
}

impl View for NarInfoError {
    type V = NarInfoErrorView;

    open spec fn view(&self) -> NarInfoErrorView {
        match self {
            NarInfoError::Io(s) => NarInfoErrorView::Io(s@),
            NarInfoError::MalformedLine(s) => NarInfoErrorView::MalformedLine(s@),
            NarInfoError::MissingStorePath => NarInfoErrorView::MissingStorePath,
            NarInfoError::ParseInt { field, source } => NarInfoErrorView::ParseInt {
                field: field@,
                source: *source,
            },
            NarInfoError::MissingPublicKeySeparator { input } =>
                NarInfoErrorView::MissingPublicKeySeparator { input: input@ },
            NarInfoError::InvalidPublicKeyBase64 { input, source } =>
                NarInfoErrorView::InvalidPublicKeyBase64 { input: input@, source: source@ },
            NarInfoError::InvalidPublicKeySize { got } => NarInfoErrorView::InvalidPublicKeySize {
                got: *got as nat,
            },
        }
    }
}

impl NarInfoErrorView {
    /// What the error says of itself.
    pub open spec fn text(self) -> Seq<char> {
        match self {
            NarInfoErrorView::Io(s) => "read narinfo: "@ + s,
            NarInfoErrorView::MalformedLine(s) => "malformed line: "@ + debug_text(s),
            NarInfoErrorView::MissingStorePath => "missing StorePath"@,
            NarInfoErrorView::ParseInt { field, source } => field + ": "@ + source.text(),
            NarInfoErrorView::MissingPublicKeySeparator { input } => "invalid public key "@
                + debug_text(input) + ": missing ':'"@,
            NarInfoErrorView::InvalidPublicKeyBase64 { input, source } => "invalid public key "@
                + debug_text(input) + ": "@ + source,
            NarInfoErrorView::InvalidPublicKeySize { got } => "invalid public key size "@ + decimal(
                got,
            ) + ", want 32"@,
        }
    }
}

impl NarInfoError {
    /// What the error says of itself.
    pub fn message(&self) -> (out: String)
        ensures
            out@ == self@.text(),
    {
        match self {
            NarInfoError::Io(s) => concat2("read narinfo: ", s.as_str()),
            NarInfoError::MalformedLine(s) => concat2(
                "malformed line: ",
                quoted(s.as_str()).as_str(),
            ),
            NarInfoError::MissingStorePath => owned("missing StorePath"),
            NarInfoError::ParseInt { field, source } => concat3(field, ": ", source.message()),
            NarInfoError::MissingPublicKeySeparator { input } => concat3(
                "invalid public key ",
                quoted(input.as_str()).as_str(),
                ": missing ':'",
            ),
            NarInfoError::InvalidPublicKeyBase64 { input, source } => {
                let mut out: String = concat3(
                    "invalid public key ",
                    quoted(input.as_str()).as_str(),
                    ": ",
                );
                out.append(source.as_str());
                out
            },
            NarInfoError::InvalidPublicKeySize { got } => {
                let mut out: String = owned("invalid public key size ");
                push_decimal(&mut out, *got as u64);
                out.append(", want 32");
                out
            },
        }
    }
}

// ---------------------------------------------------------------------------
// Lines
// ---------------------------------------------------------------------------
/// How many bytes of `b` stand before its first line feed.
pub open spec fn bytes_before_lf(b: Seq<u8>) -> nat
    decreases b.len(),
{
    if b.len() == 0 || b[0] == 10 {
        0
    } else {
        1 + bytes_before_lf(b.skip(1))
    }
}

/// `s` without a carriage return at its end.
pub open spec fn without_cr(s: Seq<char>) -> Seq<char> {
    if s.len() > 0 && s.last() == '\r' {
        s.drop_last()
    } else {
        s
    }
}

proof fn lemma_bytes_before_lf(b: Seq<u8>, n: nat)
    requires
        n <= b.len(),
        forall|i: int| 0 <= i < n ==> b[i] != 10,
        n < b.len() ==> b[n as int] == 10,
    ensures
        bytes_before_lf(b) == n,
    decreases n,
{
    if n > 0 {
        assert(b[0] != 10);
        assert forall|i: int| 0 <= i < n - 1 implies b.skip(1)[i] != 10 by {
            assert(b.skip(1)[i] == b[i + 1]);
        }
        lemma_bytes_before_lf(b.skip(1), (n - 1) as nat);
    }
}

/// The position of the first line feed at or after `from`, or the length of `b`.
fn end_of_line(b: &[u8], from: usize) -> (end: usize)
    requires
        from <= b@.len(),
    ensures
        from <= end <= b@.len(),
        end - from == bytes_before_lf(b@.skip(from as int)),
{
    let mut i: usize = from;
    while i < b.len() && b[i] != 10
        invariant
            from <= i <= b@.len(),
            forall|j: int| from <= j < i ==> b@[j] != 10,
        decreases b@.len() - i,
    {
        i = i + 1;
    }
    proof {
        lemma_bytes_before_lf(b@.skip(from as int), (i - from) as nat);
    }
    i
}

/// `s` without a carriage return at its end.
fn strip_cr(s: String) -> (out: String)
    ensures
        out@ == without_cr(s@),
{
    proof {
        reveal_strlit("\r");
    }
    assert("\r"@ =~= seq!['\r']);
    assert(s@.len() > 0 ==> s@.skip(s@.len() - 1) =~= seq![s@.last()]);
    match strip_suffix(s.as_str(), "\r") {
        Some(rest) => {
            assert(s@.skip(s@.len() - 1)[0] == '\r');
            assert(s@.take(s@.len() - 1) =~= s@.drop_last());
            rest
        },
        None => s,
    }
}

// ---------------------------------------------------------------------------
// Parsing
// ---------------------------------------------------------------------------
/// What `info` becomes when the field `key` is said to be `value`. A later value
/// replaces an earlier one, signatures add up, an empty list of references and
/// unknown fields change nothing.
pub open spec fn with_field(info: NarInfoView, key: Seq<char>, value: Seq<char>) -> Result<
    NarInfoView,
    NarInfoErrorView,
> {
    if key == "StorePath"@ {
        Ok(NarInfoView { store_path: value, ..info })
    } else if key == "URL"@ {
        Ok(NarInfoView { url: value, ..info })
    } else if key == "Compression"@ {
        Ok(NarInfoView { compression: value, ..info })
    } else if key == "FileHash"@ {
        Ok(NarInfoView { file_hash: value, ..info })
    } else if key == "FileSize"@ {
        match read_decimal(value, u64::MAX as nat) {
            Ok(n) => Ok(NarInfoView { file_size: n, ..info }),
            Err(source) => Err(NarInfoErrorView::ParseInt { field: "FileSize"@, source }),
        }
    } else if key == "NarHash"@ {
        Ok(NarInfoView { nar_hash: value, ..info })
    } else if key == "NarSize"@ {
        match read_decimal(value, u64::MAX as nat) {
            Ok(n) => Ok(NarInfoView { nar_size: n, ..info }),
            Err(source) => Err(NarInfoErrorView::ParseInt { field: "NarSize"@, source }),
        }
    } else if key == "References"@ && value.len() > 0 {
        Ok(NarInfoView { references: words(value), ..info })
    } else if key == "Deriver"@ {
        Ok(NarInfoView { deriver: value, ..info })
    } else if key == "Sig"@ {
        Ok(NarInfoView { sig: info.sig.push(value), ..info })
    } else if key == "CA"@ {
        Ok(NarInfoView { ca: value, ..info })
    } else {
        Ok(info)
    }
}

/// What `info` becomes with one more line: an empty line says nothing, any other
/// is `key: value`.
pub open spec fn with_line(info: NarInfoView, line: Seq<char>) -> Result<
    NarInfoView,
    NarInfoErrorView,
> {
    if line.len() == 0 {
        Ok(info)
    } else {
        match split_once(line, ": "@) {
            Some((key, value)) => with_field(info, key, value),
            None => Err(NarInfoErrorView::MalformedLine(line)),
        }
    }
}

/// What `info` becomes with the lines of `b`, one after the other. The first
/// line that is no UTF-8 or says nonsense decides.
pub open spec fn with_lines(info: NarInfoView, b: Seq<u8>) -> Result<NarInfoView, NarInfoErrorView>
    decreases b.len(),
{
    let n = bytes_before_lf(b);
    if b.len() == 0 {
        Ok(info)
    } else if n >= b.len() {
        if !valid_utf8(b) {
            Err(NarInfoErrorView::Io("stream did not contain valid UTF-8"@))
        } else {
            with_line(info, decode_utf8(b))
        }
    } else if !valid_utf8(b.take(n as int)) {
        Err(NarInfoErrorView::Io("stream did not contain valid UTF-8"@))
    } else {
        match with_line(info, without_cr(decode_utf8(b.take(n as int)))) {
            Ok(next) => with_lines(next, b.skip(n as int + 1)),
            Err(e) => Err(e),
        }
    }
}

/// A narinfo needs a store path.
pub open spec fn complete(info: Result<NarInfoView, NarInfoErrorView>) -> Result<
    NarInfoView,
    NarInfoErrorView,
> {
    match info {
        Ok(i) => if i.store_path.len() == 0 {
            Err(NarInfoErrorView::MissingStorePath)
        } else {
            Ok(i)
        },
        Err(e) => Err(e),
    }
}

/// The narinfo that the bytes `b` write.
pub open spec fn parsed(b: Seq<u8>) -> Result<NarInfoView, NarInfoErrorView> {
    complete(with_lines(blank_narinfo(), b))
}

/// What `info` becomes with the lines of the text `s`, one after the other.
pub open spec fn with_text(info: NarInfoView, s: Seq<char>) -> Result<NarInfoView, NarInfoErrorView>
    decreases s.len(),
{
    let n = run_before(s, '\n');
    if s.len() == 0 {
        Ok(info)
    } else if n >= s.len() {
        with_line(info, s)
    } else {
        match with_line(info, without_cr(s.take(n as int))) {
            Ok(next) => with_text(next, s.skip(n as int + 1)),
            Err(e) => Err(e),
        }
    }
}

/// The lines of the bytes of a text are those of the text.
pub proof fn lemma_lines_of_text(info: NarInfoView, s: Seq<char>)
    ensures
        with_lines(info, encode_utf8(s)) == with_text(info, s),
    decreases s.len(),
{
    let n = run_before(s, '\n');
    lemma_run_before(s, '\n');
    encode_utf8_valid_utf8(s);
    encode_utf8_decode_utf8(s);
    if s.len() == 0 {
    } else if n >= s.len() {
        lemma_encode_avoids(s, '\n');
        lemma_bytes_before_lf(encode_utf8(s), encode_utf8(s).len());
        if encode_utf8(s).len() == 0 {
            assert(decode_utf8(encode_utf8(s)).len() == 0);
        }
    } else {
        let a = s.take(n as int);
        let b = s.skip(n as int + 1);
        let bytes = encode_utf8(s);
        let m = encode_utf8(a).len();
        assert(s =~= a + (seq!['\n'] + b));
        lemma_encode_concat(a, seq!['\n'] + b);
        lemma_encode_concat(seq!['\n'], b);
        lemma_encode_ascii('\n');
        assert(bytes =~= encode_utf8(a) + (seq![10u8] + encode_utf8(b)));
        lemma_encode_avoids(a, '\n');
        assert(bytes[m as int] == 10);
        assert forall|i: int| 0 <= i < m implies bytes[i] != 10 by {
            assert(bytes[i] == encode_utf8(a)[i]);
        }
        lemma_bytes_before_lf(bytes, m);
        assert(bytes.take(m as int) =~= encode_utf8(a));
        assert(bytes.skip(m as int + 1) =~= encode_utf8(b));
        encode_utf8_valid_utf8(a);
        encode_utf8_decode_utf8(a);
        if let Ok(next) = with_line(info, without_cr(a)) {
            lemma_lines_of_text(next, b);
        }
    }
}

fn parse_size(field: &'static str, value: &str) -> (out: Result<u64, NarInfoError>)
    ensures
        match out {
            Ok(n) => read_decimal(value@, u64::MAX as nat) == Ok::<nat, ParseIntError>(n as nat),
            Err(e) => read_decimal(value@, u64::MAX as nat) is Err && e@
                == (NarInfoErrorView::ParseInt {
                field: field@,
                source: read_decimal(value@, u64::MAX as nat)->Err_0,
            }),
        },
{
    match parse_decimal(value, u64::MAX) {
        Ok(n) => Ok(n),
        Err(source) => Err(NarInfoError::ParseInt { field, source }),
    }
}

impl NarInfo {
    fn set_field(&mut self, key: &str, value: String) -> (out: Result<(), NarInfoError>)
        ensures
            match out {
                Ok(_) => with_field(old(self)@, key@, value@) == Ok::<
                    NarInfoView,
                    NarInfoErrorView,
                >(final(self)@),
                Err(e) => with_field(old(self)@, key@, value@) == Err::<
                    NarInfoView,
                    NarInfoErrorView,
                >(e@),
            },
    {
        let ghost before = self@;
        if same_text(key, "StorePath") {
            self.store_path = value;
        } else if same_text(key, "URL") {
            self.url = value;
        } else if same_text(key, "Compression") {
            self.compression = value;
        } else if same_text(key, "FileHash") {
            self.file_hash = value;
        } else if same_text(key, "FileSize") {
            match parse_size("FileSize", value.as_str()) {
                Ok(n) => self.file_size = n,
                Err(e) => return Err(e),
            }
        } else if same_text(key, "NarHash") {
            self.nar_hash = value;
        } else if same_text(key, "NarSize") {
            match parse_size("NarSize", value.as_str()) {
                Ok(n) => self.nar_size = n,
                Err(e) => return Err(e),
            }
        } else if same_text(key, "References") && value.as_str().unicode_len() > 0 {
            self.references = split_words(value.as_str());
        } else if same_text(key, "Deriver") {
            self.deriver = value;
        } else if same_text(key, "Sig") {
            self.sig.push(value);
            assert(self@.sig =~= before.sig.push(value@));
        } else if same_text(key, "CA") {
            self.ca = value;
        }
        Ok(())
    }

    fn set_line(&mut self, line: &str) -> (out: Result<(), NarInfoError>)
        ensures
            match out {
                Ok(_) => with_line(old(self)@, line@) == Ok::<NarInfoView, NarInfoErrorView>(
                    final(self)@,
                ),
                Err(e) => with_line(old(self)@, line@) == Err::<NarInfoView, NarInfoErrorView>(e@),
            },
    {
        if line.unicode_len() == 0 {
            return Ok(());
        }
        match split_at_first(line, ": ") {
            Some((key, value)) => self.set_field(key.as_str(), value),
            None => Err(NarInfoError::MalformedLine(owned(line))),
        }
    }

    /// Reads a narinfo.
    pub fn parse(input: &[u8]) -> (out: Result<Self, NarInfoError>)
        ensures
            match out {
                Ok(info) => parsed(input@) == Ok::<NarInfoView, NarInfoErrorView>(info@),
                Err(e) => parsed(input@) == Err::<NarInfoView, NarInfoErrorView>(e@),
            },
    {
        let mut info = NarInfo::default();
        let mut start: usize = 0;
        let n: usize = input.len();
        assert(input@.skip(0) =~= input@);
        while start < n
            invariant
                start <= n,
                n == input@.len(),
                with_lines(blank_narinfo(), input@) == with_lines(info@, input@.skip(start as int)),
            decreases n - start,
        {
            let ghost rest = input@.skip(start as int);
            let end: usize = end_of_line(input, start);
            let ended: bool = end < n;
            let line: &[u8] = &input[start..end];
            assert(line@ =~= rest.take(end - start));
            assert(!ended ==> line@ =~= rest);
            let text: String = match utf8_text(line) {
                Some(text) => text,
                None => {
                    return Err(NarInfoError::Io(owned("stream did not contain valid UTF-8")));
                },
            };
            let text: String = if ended {
                strip_cr(text)
            } else {
                text
            };
            match info.set_line(text.as_str()) {
                Ok(_) => {},
                Err(e) => return Err(e),
            }
            if ended {
                assert(rest.skip(end - start + 1) =~= input@.skip(end + 1));
                start = end + 1;
            } else {
                start = n;
                assert(with_lines(info@, input@.skip(n as int)) == Ok::<
                    NarInfoView,
                    NarInfoErrorView,
                >(info@));
            }
        }
        if info.store_path.as_str().unicode_len() == 0 {
            return Err(NarInfoError::MissingStorePath);
        }
        Ok(info)
    }
}

// ---------------------------------------------------------------------------
// Fingerprint
// ---------------------------------------------------------------------------
/// A hash in the form that is signed: a sha256 in hexadecimal digits becomes
/// base32, everything else stays.
pub open spec fn normalized_hash(s: Seq<char>) -> Seq<char> {
    match split_once(s, ":"@) {
        Some((algo, digest)) => if algo == "sha256"@ && digest.len() == 64 && all_hex(digest) {
            "sha256:"@ + encoded(hex_bytes(digest))
        } else {
            s
        },
        None => s,
    }
}

/// A hash in the form that is signed.
pub fn normalize_nar_hash(s: &str) -> (out: String)
    ensures
        out@ == normalized_hash(s@),
{
    let (algo, digest): (String, String) = match split_at_first(s, ":") {
        Some(parts) => parts,
        None => return owned(s),
    };
    if same_text(algo.as_str(), "sha256") && digest.as_str().unicode_len() == 64 && is_all_hex(
        digest.as_str(),
    ) {
        if let Some(bytes) = hex_decode(digest.as_str()) {
            return concat2("sha256:", nix_base32_encode(bytes.as_slice()).as_str());
        }
    }
    owned(s)
}

/// A reference as a path in the store.
pub open spec fn full_reference(reference: Seq<char>) -> Seq<char> {
    if has_prefix(reference, "/nix/store/"@) {
        reference
    } else {
        "/nix/store/"@ + reference
    }
}

/// The references of a narinfo as paths in the store.
pub open spec fn full_references(references: Seq<Seq<char>>) -> Seq<Seq<char>> {
    Seq::new(references.len(), |i: int| full_reference(references[i]))
}

/// What is signed of a narinfo: the store path, the hash and the size of the
/// archive, and the references.
pub open spec fn fingerprint_of(info: NarInfoView) -> Seq<char> {
    "1;"@ + info.store_path + ";"@ + normalized_hash(info.nar_hash) + ";"@ + decimal(info.nar_size)
        + ";"@ + joined(full_references(info.references), ","@)
}

impl NarInfo {
    /// What is signed of this narinfo.
    pub fn fingerprint(&self) -> (out: String)
        ensures
            out@ == fingerprint_of(self@),
    {
        let mut refs: Vec<String> = Vec::new();
        let mut i: usize = 0;
        let n: usize = self.references.len();
        while i < n
            invariant
                i <= n,
                n == self.references@.len(),
                views(refs@) == full_references(self@.references).take(i as int),
            decreases n - i,
        {
            let ghost before = views(refs@);
            let reference: &str = self.references[i].as_str();
            let full: String = if starts_with(reference, "/nix/store/") {
                owned(reference)
            } else {
                concat2("/nix/store/", reference)
            };
            assert(full@ == full_references(self@.references)[i as int]);
            refs.push(full);
            assert(views(refs@) =~= before.push(full@));
            i = i + 1;
            assert(full_references(self@.references).take(i as int) =~= before.push(full@));
        }
        assert(views(refs@) =~= full_references(self@.references));
        let mut out: String = owned("1;");
        out.append(self.store_path.as_str());
        out.append(";");
        out.append(normalize_nar_hash(self.nar_hash.as_str()).as_str());
        out.append(";");
        push_decimal(&mut out, self.nar_size);
        out.append(";");
        out.append(join(&refs, ",").as_str());
        out
    }
}

// ---------------------------------------------------------------------------
// Signatures
// ---------------------------------------------------------------------------
/// A public key of ed25519.
#[derive(Debug, Clone, Copy, PartialEq, Eq)]
pub struct PublicKey {
    bytes: [u8; 32],
}

impl View for PublicKey {
    type V = Seq<u8>;

    closed spec fn view(&self) -> Seq<u8> {
        self.bytes@
    }
}

impl PublicKey {
    /// The bytes of the key.
    pub fn to_bytes(&self) -> (out: [u8; 32])
        ensures
            out@ == self@,
    {
        self.bytes
    }
}

/// The name and the bytes of a public key that is written `name:base64`.
pub open spec fn read_public_key(input: Seq<char>) -> Result<
    (Seq<char>, Seq<u8>),
    NarInfoErrorView,
> {
    match split_once(input, ":"@) {
        Some((name, text)) => if name.len() == 0 {
            Err(NarInfoErrorView::MissingPublicKeySeparator { input })
        } else {
            match base64_bytes_any_padding(text) {
                Some(bytes) => if bytes.len() != 32 {
                    Err(NarInfoErrorView::InvalidPublicKeySize { got: bytes.len() })
                } else if !ed25519_is_key(bytes) {
                    Err(NarInfoErrorView::InvalidPublicKeySize { got: 32 })
                } else {
                    Ok((name, bytes))
                },
                None => Err(
                    NarInfoErrorView::InvalidPublicKeyBase64 { input, source: base64_error(text) },
                ),
            }
        },
        None => Err(NarInfoErrorView::MissingPublicKeySeparator { input }),
    }
}

/// Reads a public key that is written `name:base64`, with or without padding.
pub fn parse_public_key(input: &str) -> (out: Result<(String, PublicKey), NarInfoError>)
    ensures
        match out {
            Ok((name, key)) => read_public_key(input@) == Ok::<
                (Seq<char>, Seq<u8>),
                NarInfoErrorView,
            >((name@, key@)),
            Err(e) => read_public_key(input@) == Err::<(Seq<char>, Seq<u8>), NarInfoErrorView>(e@),
        },
{
    let (name, text): (String, String) = match split_at_first(input, ":") {
        Some(parts) => parts,
        None => {
            return Err(NarInfoError::MissingPublicKeySeparator { input: owned(input) });
        },
    };
    if name.as_str().unicode_len() == 0 {
        return Err(NarInfoError::MissingPublicKeySeparator { input: owned(input) });
    }
    let raw: Vec<u8> = match decode_base64_any_padding(text.as_str()) {
        Ok(raw) => raw,
        Err(source) => {
            return Err(NarInfoError::InvalidPublicKeyBase64 { input: owned(input), source });
        },
    };
    if raw.len() != 32 {
        return Err(NarInfoError::InvalidPublicKeySize { got: raw.len() });
    }
    let bytes: [u8; 32] = key_from(raw.as_slice());
    assert(bytes@ =~= raw@);
    if !is_key(&bytes) {
        return Err(NarInfoError::InvalidPublicKeySize { got: 32 });
    }
    Ok((name, PublicKey { bytes }))
}

/// The line `line` is a signature by the key `key` named `name` over `message`.
pub open spec fn signature_holds(
    line: Seq<char>,
    name: Seq<char>,
    key: Seq<u8>,
    message: Seq<u8>,
) -> bool {
    match split_once(line, ":"@) {
        Some((signer, text)) => signer == name && match base64_bytes(text) {
            Some(raw) => raw.len() == 64 && ed25519_accepts(key, message, raw),
            None => false,
        },
        None => false,
    }
}

/// One of the signatures of `info` is by the key `key` named `name`.
pub open spec fn signed_by(info: NarInfoView, name: Seq<char>, key: Seq<u8>) -> bool {
    exists|i: int|
        0 <= i < info.sig.len() && #[trigger] signature_holds(
            info.sig[i],
            name,
            key,
            encode_utf8(fingerprint_of(info)),
        )
}

fn check_signature(line: &str, name: &str, key: &PublicKey, message: &[u8]) -> (yes: bool)
    requires
        ed25519_is_key(key@),
    ensures
        yes == signature_holds(line@, name@, key@, message@),
{
    let (signer, text): (String, String) = match split_at_first(line, ":") {
        Some(parts) => parts,
        None => return false,
    };
    if !same_text(signer.as_str(), name) {
        return false;
    }
    let raw: Vec<u8> = match decode_base64(text.as_str()) {
        Some(raw) => raw,
        None => return false,
    };
    if raw.len() != 64 {
        return false;
    }
    let signature: [u8; 64] = signature_from(raw.as_slice());
    assert(signature@ =~= raw@);
    accepts(&key.bytes, message, &signature)
}

impl NarInfo {
    /// Whether one of the signatures is by `public_key`, which is written
    /// `name:base64`.
    pub fn verify(&self, public_key: &str) -> (out: Result<bool, NarInfoError>)
        ensures
            match out {
                Ok(yes) => match read_public_key(public_key@) {
                    Ok((name, key)) => yes == signed_by(self@, name, key),
                    Err(_) => false,
                },
                Err(e) => read_public_key(public_key@) == Err::<
                    (Seq<char>, Seq<u8>),
                    NarInfoErrorView,
                >(e@),
            },
    {
        let (name, key): (String, PublicKey) = match parse_public_key(public_key) {
            Ok(parts) => parts,
            Err(e) => return Err(e),
        };
        Ok(self.is_signed_by(name.as_str(), &key))
    }

    /// Whether one of the signatures is by the key `key` named `name`.
    fn is_signed_by(&self, name: &str, key: &PublicKey) -> (yes: bool)
        requires
            ed25519_is_key(key@),
        ensures
            yes == signed_by(self@, name@, key@),
    {
        let fingerprint: String = self.fingerprint();
        let message: Vec<u8> = utf8_bytes(fingerprint.as_str());
        let mut i: usize = 0;
        let n: usize = self.sig.len();
        while i < n
            invariant
                i <= n,
                n == self.sig@.len(),
                ed25519_is_key(key@),
                message@ == encode_utf8(fingerprint_of(self@)),
                forall|j: int|
                    0 <= j < i ==> !#[trigger] signature_holds(
                        self@.sig[j],
                        name@,
                        key@,
                        message@,
                    ),
            decreases n - i,
        {
            if check_signature(self.sig[i].as_str(), name, key, message.as_slice()) {
                assert(signature_holds(self@.sig[i as int], name@, key@, message@));
                return true;
            }
            assert(self@.sig[i as int] == self.sig@[i as int]@);
            i = i + 1;
        }
        false
    }

    /// Whether one of the signatures is by the key with these bytes and this name.
    pub fn verify_raw(&self, name: &str, key: &[u8; 32]) -> (yes: bool)
        ensures
            yes == (ed25519_is_key(key@) && signed_by(self@, name@, key@)),
    {
        is_key(key) && self.is_signed_by(name, &PublicKey { bytes: *key })
    }
}

// ---------------------------------------------------------------------------
// Laws
// ---------------------------------------------------------------------------
/// Narinfos that agree in store path, hash, size and references have the same
/// fingerprint, whatever their other fields say.
pub proof fn law_fingerprint_covers(a: NarInfoView, b: NarInfoView)
    requires
        a.store_path == b.store_path,
        normalized_hash(a.nar_hash) == normalized_hash(b.nar_hash),
        a.nar_size == b.nar_size,
        a.references == b.references,
    ensures
        fingerprint_of(a) == fingerprint_of(b),
{
}

proof fn lemma_sha256_hash(digest: Seq<char>)
    ensures
        split_once("sha256:"@ + digest, ":"@) == Some(("sha256"@, digest)),
{
    reveal_strlit("sha256:");
    reveal_strlit("sha256");
    reveal_strlit(":");
    assert("sha256:"@ =~= "sha256"@ + ":"@);
    assert(!"sha256"@.contains(':'));
    lemma_split_once_char("sha256"@, ":"@, digest);
}

/// A sha256 written in hexadecimal digits and the same sha256 written in base32
/// are signed in one form.
pub proof fn law_hash_forms_agree(digest: Seq<u8>)
    requires
        digest.len() == 32,
    ensures
        normalized_hash("sha256:"@ + hex_text(digest)) == "sha256:"@ + encoded(digest),
        normalized_hash("sha256:"@ + encoded(digest)) == "sha256:"@ + encoded(digest),
{
    law_hex_reads_back(digest);
    lemma_sha256_hash(hex_text(digest));
    lemma_sha256_hash(encoded(digest));
    assert(encoded(digest).len() == 52);
}

/// Normalizing a hash twice is normalizing it once.
pub proof fn law_hash_normalizes_once(s: Seq<char>)
    ensures
        normalized_hash(normalized_hash(s)) == normalized_hash(s),
{
    if normalized_hash(s) != s {
        let (_, digest) = split_once(s, ":"@)->0;
        lemma_sha256_hash(encoded(hex_bytes(digest)));
        assert(encoded(hex_bytes(digest)).len() == 52);
    }
}

/// A public key reads the same with its padding and without.
pub proof fn law_key_padding_is_optional(name: Seq<char>, key: Seq<u8>)
    requires
        name.len() > 0,
        !name.contains(':'),
        key.len() == 32,
        ed25519_is_key(key),
    ensures
        read_public_key(name + ":"@ + base64(key)) == Ok::<
            (Seq<char>, Seq<u8>),
            NarInfoErrorView,
        >((name, key)),
        read_public_key(name + ":"@ + base64_symbols(key)) == Ok::<
            (Seq<char>, Seq<u8>),
            NarInfoErrorView,
        >((name, key)),
{
    reveal_strlit(":");
    lemma_split_once_char(name, ":"@, base64(key));
    lemma_split_once_char(name, ":"@, base64_symbols(key));
    law_base64_reads_back(key);
}

/// A narinfo with the signature of its fingerprint among its signatures verifies
/// under the key that made it, and only the fingerprint counts: whatever has the
/// same fingerprint and signatures verifies too.
pub proof fn law_signature_verifies(
    info: NarInfoView,
    other: NarInfoView,
    name: Seq<char>,
    key: Seq<u8>,
    signature: Seq<u8>,
    at: int,
)
    requires
        !name.contains(':'),
        signature.len() == 64,
        ed25519_accepts(key, encode_utf8(fingerprint_of(info)), signature),
        0 <= at < info.sig.len(),
        info.sig[at] == name + ":"@ + base64(signature),
        fingerprint_of(other) == fingerprint_of(info),
        other.sig == info.sig,
    ensures
        signed_by(info, name, key),
        signed_by(other, name, key),
{
    reveal_strlit(":");
    lemma_split_once_char(name, ":"@, base64(signature));
    law_base64_reads_back(signature);
    assert(signature_holds(info.sig[at], name, key, encode_utf8(fingerprint_of(info))));
}

proof fn lemma_same_split(a: Seq<char>, b: Seq<char>, x: Seq<char>, y: Seq<char>, c: Seq<char>)
    requires
        c.len() == 1,
        !a.contains(c[0]),
        !b.contains(c[0]),
        a + c + x == b + c + y,
    ensures
        a == b,
        x == y,
{
    lemma_split_once_char(a, c, x);
    lemma_split_once_char(b, c, y);
}

/// A signature binds the store path, the hash and the size of the archive, and the
/// references: narinfos with the same fingerprint agree in all of them, up to the
/// way in which a hash and a reference are written.
pub proof fn law_fingerprint_binds(a: NarInfoView, b: NarInfoView)
    requires
        fingerprint_of(a) == fingerprint_of(b),
        !a.store_path.contains(';') && !b.store_path.contains(';'),
        !normalized_hash(a.nar_hash).contains(';') && !normalized_hash(b.nar_hash).contains(';'),
    ensures
        a.store_path == b.store_path,
        normalized_hash(a.nar_hash) == normalized_hash(b.nar_hash),
        a.nar_size == b.nar_size,
        joined(full_references(a.references), ","@) == joined(full_references(b.references), ","@),
{
    reveal_strlit(";");
    reveal_strlit("1;");
    let c = ";"@;
    let ra = joined(full_references(a.references), ","@);
    let rb = joined(full_references(b.references), ","@);
    let da = decimal(a.nar_size);
    let db = decimal(b.nar_size);
    let ha = normalized_hash(a.nar_hash);
    let hb = normalized_hash(b.nar_hash);
    let sa = da + c + ra;
    let sb = db + c + rb;
    let ta = ha + c + sa;
    let tb = hb + c + sb;
    let ua = a.store_path + c + ta;
    let ub = b.store_path + c + tb;
    assert(fingerprint_of(a) =~= "1;"@ + ua);
    assert(fingerprint_of(b) =~= "1;"@ + ub);
    assert(ua =~= ("1;"@ + ua).skip(2));
    assert(ub =~= ("1;"@ + ub).skip(2));
    lemma_same_split(a.store_path, b.store_path, ta, tb, c);
    lemma_same_split(ha, hb, sa, sb, c);
    law_decimals_write_their_number(a.nar_size);
    law_decimals_write_their_number(b.nar_size);
    assert(!da.contains(';')) by {
        if da.contains(';') {
            let i = choose|i: int| 0 <= i < da.len() && da[i] == ';';
            assert('0' <= da[i] <= '9');
        }
    }
    assert(!db.contains(';')) by {
        if db.contains(';') {
            let i = choose|i: int| 0 <= i < db.len() && db[i] == ';';
            assert('0' <= db[i] <= '9');
        }
    }
    lemma_same_split(da, db, ra, rb, c);
}

/// References are signed as paths of the store, however they are written: with the
/// directory before them or without.
pub proof fn law_references_are_signed_in_full(name: Seq<char>)
    requires
        !has_prefix(name, "/nix/store/"@),
    ensures
        full_reference(name) == "/nix/store/"@ + name,
        full_reference("/nix/store/"@ + name) == "/nix/store/"@ + name,
        forall|reference: Seq<char>| full_reference(#[trigger] full_reference(reference))
            == full_reference(reference),
{
    let dir = "/nix/store/"@;
    assert((dir + name).take(dir.len() as int) =~= dir);
    assert forall|reference: Seq<char>| full_reference(#[trigger] full_reference(reference))
        == full_reference(reference) by {
        assert((dir + reference).take(dir.len() as int) =~= dir);
    }
}

/// A hash that is no sha256 in 64 hexadecimal digits is signed as it is written.
pub proof fn law_other_hashes_stay(algorithm: Seq<char>, digest: Seq<char>, plain: Seq<char>)
    requires
        !algorithm.contains(':'),
        !plain.contains(':'),
    ensures
        algorithm != "sha256"@ || digest.len() != 64 || !all_hex(digest) ==> normalized_hash(
            algorithm + ":"@ + digest,
        ) == algorithm + ":"@ + digest,
        normalized_hash(plain) == plain,
{
    reveal_strlit(":");
    lemma_split_once_char(algorithm, ":"@, digest);
    lemma_find_from(plain, ":"@, 0);
    if let Some(i) = find(plain, ":"@) {
        assert(plain.subrange(i as int, i as int + 1)[0] == plain[i as int]);
        assert(plain.contains(':'));
    }
}

/// A narinfo is signed by a key only where one of its lines is a signature of its
/// own fingerprint under the name of that key.
pub proof fn law_only_the_fingerprint_is_signed(info: NarInfoView, name: Seq<char>, key: Seq<u8>)
    requires
        signed_by(info, name, key),
    ensures
        exists|i: int, signature: Seq<u8>|
            0 <= i < info.sig.len() && info.sig[i] == name + ":"@ + #[trigger] base64(signature)
                && signature.len() == 64 && #[trigger] ed25519_accepts(
                key,
                encode_utf8(fingerprint_of(info)),
                signature,
            ) && #[trigger] signature_holds(
                info.sig[i],
                name,
                key,
                encode_utf8(fingerprint_of(info)),
            ),
{
    reveal_strlit(":");
    let message = encode_utf8(fingerprint_of(info));
    let i = choose|i: int|
        0 <= i < info.sig.len() && #[trigger] signature_holds(info.sig[i], name, key, message);
    let line = info.sig[i];
    let (signer, text) = split_once(line, ":"@)->0;
    let signature = base64_bytes(text)->0;
    assert(text == base64(signature));
    lemma_find_from(line, ":"@, 0);
    let at = find(line, ":"@)->0 as int;
    assert(line.subrange(at, at + 1) =~= ":"@);
    assert(line =~= signer + ":"@ + text);
    assert(ed25519_accepts(key, message, signature));
}

/// A public key has a name and, in base64, 32 bytes that are a point of the curve;
/// what is read of it is that name and these bytes, and everything else is refused
/// for what is wrong with it.
pub proof fn law_public_keys_have_a_name_and_a_point(name: Seq<char>, bytes: Seq<u8>)
    requires
        !name.contains(':'),
    ensures
        ({
            let key = name + ":"@ + base64(bytes);
            &&& read_public_key(key) is Ok <==> name.len() > 0 && bytes.len() == 32
                && ed25519_is_key(bytes)
            &&& name.len() == 0 ==> read_public_key(key) == Err::<
                (Seq<char>, Seq<u8>),
                NarInfoErrorView,
            >(NarInfoErrorView::MissingPublicKeySeparator { input: key })
            &&& name.len() > 0 && bytes.len() != 32 ==> read_public_key(key) == Err::<
                (Seq<char>, Seq<u8>),
                NarInfoErrorView,
            >(NarInfoErrorView::InvalidPublicKeySize { got: bytes.len() })
        }),
        read_public_key(name) == Err::<(Seq<char>, Seq<u8>), NarInfoErrorView>(
            NarInfoErrorView::MissingPublicKeySeparator { input: name },
        ),
{
    reveal_strlit(":");
    lemma_split_once_char(name, ":"@, base64(bytes));
    law_base64_reads_back(bytes);
    lemma_find_from(name, ":"@, 0);
    if let Some(i) = find(name, ":"@) {
        assert(name.subrange(i as int, i as int + 1)[0] == name[i as int]);
        assert(name.contains(':'));
    }
}

} // verus!
