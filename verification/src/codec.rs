//! Bytes as text: UTF-8, hexadecimal digits and base64.

use base64::alphabet;
use base64::engine::general_purpose::{GeneralPurpose, GeneralPurposeConfig, STANDARD};
use base64::engine::DecodePaddingMode;
use base64::Engine;
use vstd::prelude::*;
use vstd::string::*;
use vstd::utf8::{
    decode_utf8, encode_scalar, encode_utf8, encode_utf8_decode_utf8, has_width_1_encoding,
    is_ascii_chars_encode_utf8, valid_utf8,
};

use crate::text::chars_of;

verus! {

// ---------------------------------------------------------------------------
// UTF-8
// ---------------------------------------------------------------------------
/// What `std::str::from_utf8` reports of bytes that are no UTF-8.
#[verifier::external_type_specification]
#[verifier::external_body]
pub struct ExUtf8Error(std::str::Utf8Error);

/// `std::str::from_utf8` accepts exactly the valid UTF-8 and hands the same
/// bytes back as a string.
pub assume_specification<'a>[ std::str::from_utf8 ](bytes: &'a [u8]) -> (out: Result<
    &'a str,
    std::str::Utf8Error,
>)
    ensures
        out is Ok <==> valid_utf8(bytes@),
        out matches Ok(s) ==> s.spec_bytes() == bytes@,
;

/// The text that `bytes` encode in UTF-8, where they do.
pub fn utf8_text(bytes: &[u8]) -> (out: Option<String>)
    ensures
        match out {
            Some(s) => valid_utf8(bytes@) && s@ == decode_utf8(bytes@),
            None => !valid_utf8(bytes@),
        },
{
    match std::str::from_utf8(bytes) {
        Ok(s) => {
            proof {
                encode_utf8_decode_utf8(s@);
            }
            Some(s.to_owned())
        },
        Err(_) => None,
    }
}

/// The UTF-8 bytes of `s`.
pub fn utf8_bytes(s: &str) -> (out: Vec<u8>)
    ensures
        out@ == encode_utf8(s@),
{
    let bytes: &[u8] = s.as_bytes();
    let mut out: Vec<u8> = Vec::new();
    out.extend_from_slice(bytes);
    assert(out@ =~= bytes@);
    out
}

/// The UTF-8 bytes of a text are those of its two parts.
pub proof fn lemma_encode_concat(a: Seq<char>, b: Seq<char>)
    ensures
        encode_utf8(a + b) == encode_utf8(a) + encode_utf8(b),
    decreases a.len(),
{
    if a.len() == 0 {
        assert(a + b =~= b);
        assert(encode_utf8(a) + encode_utf8(b) =~= encode_utf8(b));
    } else {
        lemma_encode_concat(a.drop_first(), b);
        assert((a + b).drop_first() =~= a.drop_first() + b);
        assert(encode_utf8(a + b) =~= encode_utf8(a) + encode_utf8(b));
    }
}

/// An ASCII character is one byte, its code.
pub proof fn lemma_encode_ascii(c: char)
    requires
        c <= '\u{7f}',
    ensures
        encode_utf8(seq![c]) == seq![c as u8],
{
    is_ascii_chars_encode_utf8(seq![c]);
    assert(seq![c][0] == c);
    assert(encode_utf8(seq![c]) =~= seq![c as u8]);
}

proof fn lemma_keeps_high_bit(a: u8, b: u8)
    by (bit_vector)
    requires
        a >= 0x80,
    ensures
        a | b >= 0x80,
{
}

/// The bytes of a character that is no ASCII are all above ASCII.
proof fn lemma_encode_scalar_high(u: u32)
    requires
        !has_width_1_encoding(u),
    ensures
        forall|i: int| 0 <= i < encode_scalar(u).len() ==> #[trigger] encode_scalar(u)[i] >= 0x80,
{
    lemma_keeps_high_bit(0x80, (u & 0x3F) as u8);
    lemma_keeps_high_bit(0x80, ((u >> 6) & 0x3F) as u8);
    lemma_keeps_high_bit(0x80, ((u >> 12) & 0x3F) as u8);
    lemma_keeps_high_bit(0xC0, ((u >> 6) & 0x1F) as u8);
    lemma_keeps_high_bit(0xE0, ((u >> 12) & 0x0F) as u8);
    lemma_keeps_high_bit(0xF0, ((u >> 18) & 0x7) as u8);
}

proof fn lemma_encode_scalar_avoids(d: char, c: char)
    requires
        c <= '\u{7f}',
        d != c,
    ensures
        forall|i: int|
            0 <= i < encode_scalar(d as u32).len() ==> #[trigger] encode_scalar(d as u32)[i]
                != c as u8,
{
    if has_width_1_encoding(d as u32) {
        lemma_encode_ascii(d);
        assert(seq![d].drop_first() =~= Seq::empty());
        assert(encode_utf8(seq![d]) =~= encode_scalar(d as u32));
    } else {
        lemma_encode_scalar_high(d as u32);
    }
}

/// A text without the ASCII character `c` has no byte `c`.
pub proof fn lemma_encode_avoids(s: Seq<char>, c: char)
    requires
        c <= '\u{7f}',
        forall|i: int| 0 <= i < s.len() ==> s[i] != c,
    ensures
        forall|i: int| 0 <= i < encode_utf8(s).len() ==> #[trigger] encode_utf8(s)[i] != c as u8,
    decreases s.len(),
{
    if s.len() > 0 {
        let rest = s.drop_first();
        assert forall|i: int| 0 <= i < rest.len() implies rest[i] != c by {
            assert(rest[i] == s[i + 1]);
        }
        lemma_encode_avoids(rest, c);
        let head = encode_scalar(s[0] as u32);
        lemma_encode_scalar_avoids(s[0], c);
        assert forall|i: int| 0 <= i < encode_utf8(s).len() implies #[trigger] encode_utf8(s)[i]
            != c as u8 by {
            if i < head.len() {
                assert(encode_utf8(s)[i] == head[i]);
            } else {
                assert(encode_utf8(s)[i] == encode_utf8(rest)[i - head.len()]);
            }
        }
    }
}

// ---------------------------------------------------------------------------
// Hexadecimal digits
// ---------------------------------------------------------------------------
/// `c` is a hexadecimal digit, in either case.
pub open spec fn is_hex_digit(c: char) -> bool {
    '0' <= c <= '9' || 'a' <= c <= 'f' || 'A' <= c <= 'F'
}

/// The value of a hexadecimal digit.
pub open spec fn hex_value(c: char) -> int {
    if c <= '9' {
        c as int - 48
    } else if c <= 'F' {
        c as int - 55
    } else {
        c as int - 87
    }
}

/// Every character of `s` is a hexadecimal digit.
pub open spec fn all_hex(s: Seq<char>) -> bool {
    forall|i: int| 0 <= i < s.len() ==> is_hex_digit(#[trigger] s[i])
}

/// The bytes whose digits are `s`, two to a byte.
pub open spec fn hex_bytes(s: Seq<char>) -> Seq<u8> {
    Seq::new(s.len() / 2, |i: int| (16 * hex_value(s[2 * i]) + hex_value(s[2 * i + 1])) as u8)
}

/// The lower-case hexadecimal digit of value `d`.
pub open spec fn hex_digit(d: int) -> char {
    if d < 10 {
        (48 + d) as char
    } else {
        (87 + d) as char
    }
}

/// `bytes` in lower-case hexadecimal digits, two to a byte.
pub open spec fn hex_text(bytes: Seq<u8>) -> Seq<char> {
    Seq::new(
        2 * bytes.len(),
        |i: int|
            hex_digit(
                if i % 2 == 0 {
                    bytes[i / 2] as int / 16
                } else {
                    bytes[i / 2] as int % 16
                },
            ),
    )
}

/// `hex::decode` takes an even number of hexadecimal digits and gives the bytes
/// that they write; it refuses everything else.
#[verifier::external_body]
pub(crate) fn hex_decode(s: &str) -> (out: Option<Vec<u8>>)
    ensures
        match out {
            Some(bytes) => s@.len() % 2 == 0 && all_hex(s@) && bytes@ == hex_bytes(s@),
            None => !(s@.len() % 2 == 0 && all_hex(s@)),
        },
{
    hex::decode(s).ok()
}

/// `hex::encode` writes each byte as two lower-case hexadecimal digits.
#[verifier::external_body]
pub(crate) fn hex_encode(bytes: &[u8]) -> (out: String)
    requires
        bytes@.len() <= usize::MAX / 2,
    ensures
        out@ == hex_text(bytes@),
{
    hex::encode(bytes)
}

/// Whether every character of `s` is a hexadecimal digit.
pub fn is_all_hex(s: &str) -> (yes: bool)
    ensures
        yes == all_hex(s@),
{
    let v: Vec<char> = chars_of(s);
    let mut i: usize = 0;
    while i < v.len()
        invariant
            i <= v@.len(),
            v@ == s@,
            forall|j: int| 0 <= j < i ==> is_hex_digit(#[trigger] s@[j]),
        decreases v@.len() - i,
    {
        let c: char = v[i];
        if !(('0' <= c && c <= '9') || ('a' <= c && c <= 'f') || ('A' <= c && c <= 'F')) {
            assert(!is_hex_digit(s@[i as int]));
            return false;
        }
        i = i + 1;
    }
    true
}

proof fn lemma_hex_digit_value(d: int)
    requires
        0 <= d < 16,
    ensures
        is_hex_digit(hex_digit(d)),
        hex_value(hex_digit(d)) == d,
{
}

/// Bytes written in hexadecimal digits read back as the same bytes.
pub proof fn law_hex_reads_back(bytes: Seq<u8>)
    ensures
        all_hex(hex_text(bytes)),
        hex_text(bytes).len() == 2 * bytes.len(),
        hex_bytes(hex_text(bytes)) == bytes,
{
    let s = hex_text(bytes);
    assert forall|i: int| 0 <= i < s.len() implies is_hex_digit(#[trigger] s[i]) by {
        lemma_hex_digit_value(bytes[i / 2] as int / 16);
        lemma_hex_digit_value(bytes[i / 2] as int % 16);
    }
    assert forall|i: int| 0 <= i < bytes.len() implies #[trigger] hex_bytes(s)[i] == bytes[i] by {
        lemma_hex_digit_value(bytes[i] as int / 16);
        lemma_hex_digit_value(bytes[i] as int % 16);
        assert((2 * i) / 2 == i && (2 * i) % 2 == 0);
        assert((2 * i + 1) / 2 == i && (2 * i + 1) % 2 == 1);
        assert(s[2 * i] == hex_digit(bytes[i] as int / 16));
        assert(s[2 * i + 1] == hex_digit(bytes[i] as int % 16));
    }
    assert(hex_bytes(s) =~= bytes);
}

// ---------------------------------------------------------------------------
// Base64
// ---------------------------------------------------------------------------
/// The characters that stand for 0 to 63.
pub open spec fn base64_alphabet() -> Seq<char> {
    "ABCDEFGHIJKLMNOPQRSTUVWXYZabcdefghijklmnopqrstuvwxyz0123456789+/"@
}

/// The character that stands for `d`.
pub open spec fn base64_symbol(d: int) -> char {
    base64_alphabet()[d]
}

/// The four characters for the bits of three bytes, six to a character.
pub open spec fn base64_group(b0: u8, b1: u8, b2: u8) -> Seq<char> {
    seq![
        base64_symbol(b0 as int / 4),
        base64_symbol(b0 as int % 4 * 16 + b1 as int / 16),
        base64_symbol(b1 as int % 16 * 4 + b2 as int / 64),
        base64_symbol(b2 as int % 64),
    ]
}

/// The base64 characters of `bytes` without padding: four for each three bytes,
/// two or three for what is left.
pub open spec fn base64_symbols(bytes: Seq<u8>) -> Seq<char>
    decreases bytes.len(),
{
    if bytes.len() == 0 {
        seq![]
    } else if bytes.len() == 1 {
        base64_group(bytes[0], 0, 0).take(2)
    } else if bytes.len() == 2 {
        base64_group(bytes[0], bytes[1], 0).take(3)
    } else {
        base64_group(bytes[0], bytes[1], bytes[2]) + base64_symbols(bytes.skip(3))
    }
}

/// How many `=` complete the last group of `len` bytes.
pub open spec fn base64_padding(len: nat) -> nat {
    if len % 3 == 1 {
        2
    } else if len % 3 == 2 {
        1
    } else {
        0
    }
}

/// `bytes` in base64 with `pad` signs of padding.
pub open spec fn base64_padded(bytes: Seq<u8>, pad: nat) -> Seq<char> {
    base64_symbols(bytes) + Seq::new(pad, |i: int| '=')
}

/// `bytes` in base64.
pub open spec fn base64(bytes: Seq<u8>) -> Seq<char> {
    base64_padded(bytes, base64_padding(bytes.len()))
}

/// `s` is `bytes` in base64, with all, some or none of its padding.
pub open spec fn base64_any_padding(s: Seq<char>, bytes: Seq<u8>) -> bool {
    exists|pad: nat|
        pad <= base64_padding(bytes.len()) && s == #[trigger] base64_padded(bytes, pad)
}

/// What base64's `DecodeError` says of `s` where the padding is optional.
pub uninterp spec fn base64_error(s: Seq<char>) -> Seq<char>;

/// `decode` of base64's `STANDARD` engine takes exactly the canonical base64 of
/// some bytes, padding included, and gives those bytes.
#[verifier::external_body]
pub(crate) fn base64_decode(s: &str) -> (out: Option<Vec<u8>>)
    ensures
        match out {
            Some(bytes) => s@ == base64(bytes@),
            None => forall|bytes: Seq<u8>| s@ != #[trigger] base64(bytes),
        },
{
    STANDARD.decode(s).ok()
}

/// `decode` of a base64 engine with the standard alphabet whose padding mode is
/// `Indifferent` takes exactly the base64 of some bytes with any part of its
/// padding, and gives those bytes. What the error says is named, not stated.
#[verifier::external_body]
pub(crate) fn base64_decode_lenient(s: &str) -> (out: Result<Vec<u8>, String>)
    ensures
        match out {
            Ok(bytes) => base64_any_padding(s@, bytes@),
            Err(e) => e@ == base64_error(s@) && forall|bytes: Seq<u8>|
                !#[trigger] base64_any_padding(s@, bytes),
        },
{
    let padding = GeneralPurposeConfig::new()
        .with_decode_padding_mode(DecodePaddingMode::Indifferent);
    let engine = GeneralPurpose::new(&alphabet::STANDARD, padding);
    engine.decode(s).map_err(|e| e.to_string())
}

/// The number that a base64 character stands for.
spec fn base64_rank(c: char) -> int {
    if 'A' <= c <= 'Z' {
        c as int - 65
    } else if 'a' <= c <= 'z' {
        c as int - 71
    } else if '0' <= c <= '9' {
        c as int + 4
    } else if c == '+' {
        62
    } else {
        63
    }
}

proof fn lemma_base64_rank(d: int)
    requires
        0 <= d < 64,
    ensures
        base64_rank(base64_alphabet()[d]) == d,
        base64_alphabet()[d] != '=',
{
    reveal_strlit("ABCDEFGHIJKLMNOPQRSTUVWXYZabcdefghijklmnopqrstuvwxyz0123456789+/");
}

proof fn lemma_base64_group(b0: u8, b1: u8, b2: u8)
    ensures
        base64_rank(base64_group(b0, b1, b2)[0]) == b0 as int / 4,
        base64_rank(base64_group(b0, b1, b2)[1]) == b0 as int % 4 * 16 + b1 as int / 16,
        base64_rank(base64_group(b0, b1, b2)[2]) == b1 as int % 16 * 4 + b2 as int / 64,
        base64_rank(base64_group(b0, b1, b2)[3]) == b2 as int % 64,
        forall|i: int| 0 <= i < 4 ==> base64_group(b0, b1, b2)[i] != '=',
{
    lemma_base64_rank(b0 as int / 4);
    lemma_base64_rank(b0 as int % 4 * 16 + b1 as int / 16);
    lemma_base64_rank(b1 as int % 16 * 4 + b2 as int / 64);
    lemma_base64_rank(b2 as int % 64);
}

proof fn lemma_symbols_free_of_padding(bytes: Seq<u8>)
    ensures
        forall|i: int| 0 <= i < base64_symbols(bytes).len() ==> base64_symbols(bytes)[i] != '=',
    decreases bytes.len(),
{
    let s = base64_symbols(bytes);
    if bytes.len() == 1 {
        let g = base64_group(bytes[0], 0, 0);
        lemma_base64_group(bytes[0], 0, 0);
        assert forall|i: int| 0 <= i < s.len() implies s[i] != '=' by {
            assert(s[i] == g[i]);
        }
    } else if bytes.len() == 2 {
        let g = base64_group(bytes[0], bytes[1], 0);
        lemma_base64_group(bytes[0], bytes[1], 0);
        assert forall|i: int| 0 <= i < s.len() implies s[i] != '=' by {
            assert(s[i] == g[i]);
        }
    } else if bytes.len() >= 3 {
        let g = base64_group(bytes[0], bytes[1], bytes[2]);
        let rest = base64_symbols(bytes.skip(3));
        lemma_base64_group(bytes[0], bytes[1], bytes[2]);
        lemma_symbols_free_of_padding(bytes.skip(3));
        assert forall|i: int| 0 <= i < s.len() implies s[i] != '=' by {
            if i < 4 {
                assert(s[i] == g[i]);
            } else {
                assert(s[i] == rest[i - 4]);
            }
        }
    }
}

/// The group of which only `n` characters are given fixes what they hold.
proof fn lemma_group_determines(a0: u8, a1: u8, a2: u8, b0: u8, b1: u8, b2: u8, n: int)
    requires
        2 <= n <= 4,
        base64_group(a0, a1, a2).take(n) == base64_group(b0, b1, b2).take(n),
        n == 2 ==> a1 == 0 && b1 == 0,
        n == 3 ==> a2 == 0 && b2 == 0,
    ensures
        a0 == b0,
        n >= 3 ==> a1 == b1,
        n == 4 ==> a2 == b2,
{
    let x = base64_group(a0, a1, a2);
    let y = base64_group(b0, b1, b2);
    lemma_base64_group(a0, a1, a2);
    lemma_base64_group(b0, b1, b2);
    assert(x.take(n)[0] == y.take(n)[0]);
    assert(x.take(n)[1] == y.take(n)[1]);
    assert(x[0] == y[0] && x[1] == y[1]);
    if n >= 3 {
        assert(x.take(n)[2] == y.take(n)[2]);
        assert(x[2] == y[2]);
    }
    if n == 4 {
        assert(x.take(n)[3] == y.take(n)[3]);
        assert(x[3] == y[3]);
    }
}

proof fn lemma_symbols_len(a: Seq<u8>)
    ensures
        a.len() == 0 ==> base64_symbols(a).len() == 0,
        a.len() == 1 ==> base64_symbols(a).len() == 2,
        a.len() == 2 ==> base64_symbols(a).len() == 3,
        a.len() >= 3 ==> base64_symbols(a).len() >= 4,
{
}

proof fn lemma_symbols_injective(a: Seq<u8>, b: Seq<u8>)
    requires
        base64_symbols(a) == base64_symbols(b),
    ensures
        a == b,
    decreases a.len(),
{
    let s = base64_symbols(a);
    lemma_symbols_len(a);
    lemma_symbols_len(b);
    if a.len() >= 3 {
        let x = base64_group(a[0], a[1], a[2]);
        let y = base64_group(b[0], b[1], b[2]);
        assert(x.take(4) =~= s.take(4));
        assert(y.take(4) =~= s.take(4));
        lemma_group_determines(a[0], a[1], a[2], b[0], b[1], b[2], 4);
        assert(s.skip(4) =~= base64_symbols(a.skip(3)));
        assert(s.skip(4) =~= base64_symbols(b.skip(3)));
        lemma_symbols_injective(a.skip(3), b.skip(3));
        assert(a.take(3) =~= b.take(3));
        assert(a =~= a.take(3) + a.skip(3));
        assert(b =~= b.take(3) + b.skip(3));
    } else if a.len() == 2 {
        lemma_group_determines(a[0], a[1], 0, b[0], b[1], 0, 3);
        assert(a =~= b);
    } else if a.len() == 1 {
        lemma_group_determines(a[0], 0, 0, b[0], 0, 0, 2);
        assert(a =~= b);
    } else {
        assert(a =~= b);
    }
}

/// No two byte sequences share a base64 form, whatever padding it has.
pub proof fn law_base64_injective(s: Seq<char>, a: Seq<u8>, b: Seq<u8>)
    requires
        base64_any_padding(s, a),
        base64_any_padding(s, b),
    ensures
        a == b,
{
    let x = base64_symbols(a);
    let y = base64_symbols(b);
    lemma_symbols_free_of_padding(a);
    lemma_symbols_free_of_padding(b);
    let j = choose|pad: nat|
        pad <= base64_padding(a.len()) && s == #[trigger] base64_padded(a, pad);
    let k = choose|pad: nat|
        pad <= base64_padding(b.len()) && s == #[trigger] base64_padded(b, pad);
    assert(s == base64_padded(a, j));
    assert(s == base64_padded(b, k));
    assert(s.len() == x.len() + j);
    assert(s.len() == y.len() + k);
    if x.len() < y.len() {
        assert(s[x.len() as int] == '=');
        assert(s[x.len() as int] == y[x.len() as int]);
    } else if y.len() < x.len() {
        assert(s[y.len() as int] == '=');
        assert(s[y.len() as int] == x[y.len() as int]);
    }
    assert(x =~= s.take(x.len() as int));
    assert(y =~= s.take(y.len() as int));
    lemma_symbols_injective(a, b);
}

/// The bytes whose canonical base64 is `s`, where there are such.
pub open spec fn base64_bytes(s: Seq<char>) -> Option<Seq<u8>> {
    if exists|bytes: Seq<u8>| s == #[trigger] base64(bytes) {
        Some(choose|bytes: Seq<u8>| s == #[trigger] base64(bytes))
    } else {
        None
    }
}

/// The bytes whose base64 with any part of its padding is `s`, where there are
/// such.
pub open spec fn base64_bytes_any_padding(s: Seq<char>) -> Option<Seq<u8>> {
    if exists|bytes: Seq<u8>| #[trigger] base64_any_padding(s, bytes) {
        Some(choose|bytes: Seq<u8>| #[trigger] base64_any_padding(s, bytes))
    } else {
        None
    }
}

proof fn lemma_full_padding(bytes: Seq<u8>)
    ensures
        base64_any_padding(base64(bytes), bytes),
{
    assert(base64(bytes) == base64_padded(bytes, base64_padding(bytes.len())));
}

/// Base64 reads back: the bytes of `base64(bytes)` are `bytes`, with all its
/// padding or with none of it.
pub proof fn law_base64_reads_back(bytes: Seq<u8>)
    ensures
        base64_bytes(base64(bytes)) == Some(bytes),
        base64_bytes_any_padding(base64(bytes)) == Some(bytes),
        base64_bytes_any_padding(base64_symbols(bytes)) == Some(bytes),
{
    let s = base64(bytes);
    lemma_full_padding(bytes);
    let a = base64_bytes(s)->0;
    lemma_full_padding(a);
    law_base64_injective(s, a, bytes);
    law_base64_injective(s, base64_bytes_any_padding(s)->0, bytes);
    let t = base64_symbols(bytes);
    assert(t =~= base64_padded(bytes, 0));
    assert(base64_any_padding(t, bytes));
    law_base64_injective(t, base64_bytes_any_padding(t)->0, bytes);
}

/// The bytes whose canonical base64 is `s`.
pub fn decode_base64(s: &str) -> (out: Option<Vec<u8>>)
    ensures
        match out {
            Some(bytes) => base64_bytes(s@) == Some(bytes@),
            None => base64_bytes(s@) is None,
        },
{
    let out: Option<Vec<u8>> = base64_decode(s);
    proof {
        if let Some(bytes) = &out {
            law_base64_reads_back(bytes@);
        }
    }
    out
}

/// The bytes whose base64 with any part of its padding is `s`, or what is wrong.
pub fn decode_base64_any_padding(s: &str) -> (out: Result<Vec<u8>, String>)
    ensures
        match out {
            Ok(bytes) => base64_bytes_any_padding(s@) == Some(bytes@),
            Err(e) => base64_bytes_any_padding(s@) is None && e@ == base64_error(s@),
        },
{
    let out: Result<Vec<u8>, String> = base64_decode_lenient(s);
    proof {
        if let Ok(bytes) = &out {
            law_base64_injective(s@, base64_bytes_any_padding(s@)->0, bytes@);
        }
    }
    out
}

} // verus!
