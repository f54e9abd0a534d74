//! Nix's base32: five bits to a character, the last group first.

use vstd::arithmetic::div_mod::{
    lemma_div_denominator, lemma_hoist_over_denominator, lemma_mod_multiples_vanish,
};
use vstd::arithmetic::power2::{
    lemma2_to64, lemma_pow2_adds, lemma_pow2_pos, lemma_pow2_strictly_increases, pow2,
};
use vstd::prelude::*;

use crate::text::chars_of;

verus! {

/// The characters that stand for 0 to 31: digits and letters without `e`, `o`,
/// `u` and `t`.
pub open spec fn alphabet() -> Seq<char> {
    "0123456789abcdfghijklmnpqrsvwxyz"@
}

/// The number whose little-endian bytes are `bytes`.
pub open spec fn le_value(bytes: Seq<u8>) -> nat
    decreases bytes.len(),
{
    if bytes.len() == 0 {
        0
    } else {
        bytes[0] as nat + 256 * le_value(bytes.skip(1))
    }
}

/// The `n`th group of five bits of a number, the lowest bits being group 0.
pub open spec fn group(value: nat, n: nat) -> nat {
    value / pow2(5 * n) % 32
}

/// How many groups of five bits cover `bytes` bytes.
pub open spec fn group_count(bytes: nat) -> nat {
    (bytes * 8 + 4) / 5
}

/// `bytes` in Nix's base32: the groups of five bits of the little-endian
/// number, from the highest to the lowest.
pub open spec fn encoded(bytes: Seq<u8>) -> Seq<char> {
    let count = group_count(bytes.len());
    Seq::new(
        count,
        |k: int| alphabet()[group(le_value(bytes), (count - 1 - k) as nat) as int],
    )
}

proof fn lemma_skip_bytes(bytes: Seq<u8>, i: nat)
    requires
        i <= bytes.len(),
    ensures
        le_value(bytes) / pow2(8 * i) == le_value(bytes.skip(i as int)),
    decreases i,
{
    lemma2_to64();
    if i == 0 {
        assert(bytes.skip(0) =~= bytes);
        assert(le_value(bytes) / 1 == le_value(bytes));
    } else {
        let rest = bytes.skip(1);
        lemma_skip_bytes(rest, (i - 1) as nat);
        assert(rest.skip(i - 1) =~= bytes.skip(i as int));
        lemma_pow2_adds(8, (8 * (i - 1)) as nat);
        lemma_pow2_pos((8 * (i - 1)) as nat);
        assert(pow2(8 * i) == pow2(8) * pow2((8 * (i - 1)) as nat));
        lemma_div_denominator(
            le_value(bytes) as int,
            pow2(8) as int,
            pow2((8 * (i - 1)) as nat) as int,
        );
        assert(le_value(bytes) / 256 == le_value(rest));
    }
}

/// The lowest two bytes of a number, and what is above them.
proof fn lemma_low_window(s: Seq<u8>) -> (rest: nat)
    requires
        s.len() > 0,
    ensures
        le_value(s) == s[0] + 256 * (if s.len() > 1 {
            s[1] as int
        } else {
            0
        }) + 65536 * rest,
{
    let tail = s.skip(1);
    if s.len() > 1 {
        assert(tail[0] == s[1]);
        assert(le_value(tail) == tail[0] as nat + 256 * le_value(tail.skip(1)));
        le_value(tail.skip(1))
    } else {
        assert(le_value(tail) == 0);
        0
    }
}

/// What is above two bytes does not reach a group that starts in the first.
proof fn lemma_window_suffices(rest: nat, w: nat, j: nat)
    requires
        j < 8,
    ensures
        (65536 * rest + w) / pow2(j) % 32 == w / pow2(j) % 32,
{
    lemma2_to64();
    let p = pow2(j) as int;
    let k = pow2((11 - j) as nat) as int;
    lemma_pow2_adds(j, (11 - j) as nat);
    lemma_pow2_pos(j);
    assert(65536 * rest == (32 * k * rest) * p) by (nonlinear_arith)
        requires
            p * k == 2048,
    ;
    lemma_hoist_over_denominator(w as int, 32 * k * rest, p as nat);
    assert(32 * k * rest == (k * rest) * 32) by (nonlinear_arith);
    lemma_mod_multiples_vanish(k * rest, w as int / p, 32);
}

/// A group of five bits lies within two neighbouring bytes.
proof fn lemma_group_in_window(bytes: Seq<u8>, n: nat, i: nat, j: nat, low: u32, high: u32)
    requires
        5 * n == 8 * i + j,
        j < 8,
        i < bytes.len(),
        low == bytes[i as int],
        high == if i + 1 < bytes.len() {
            bytes[i as int + 1] as int
        } else {
            0
        },
    ensures
        group(le_value(bytes), n) == ((low + 256 * high) as nat / pow2(j)) % 32,
{
    let value = le_value(bytes);
    lemma_pow2_adds(8 * i, j);
    lemma_pow2_pos(8 * i);
    lemma_pow2_pos(j);
    lemma_div_denominator(value as int, pow2(8 * i) as int, pow2(j) as int);
    lemma_skip_bytes(bytes, i);
    let s = bytes.skip(i as int);
    let rest = lemma_low_window(s);
    lemma_window_suffices(rest, (low + 256 * high) as nat, j);
}

/// The five bits at offset `j` of the window made of `low` and `high`.
fn window_bits(low: u32, high: u32, j: u32) -> (bits: u32)
    requires
        low < 256,
        high < 256,
        j < 8,
    ensures
        bits == ((low + 256 * high) as nat / pow2(j as nat)) % 32,
        bits < 32,
{
    let c: u32 = ((low >> j) | (high << (8 - j))) & 0x1F;
    let w: u32 = low + 256 * high;
    proof {
        lemma2_to64();
        assert(c == (w >> j) & 0x1F && c < 32) by (bit_vector)
            requires
                c == ((low >> j) | (high << ((8 - j) as u32))) & 0x1F,
                w == low + 256 * high,
                low < 256,
                high < 256,
                j < 8,
        ;
        vstd::bits::lemma_u32_shr_is_div(w, j);
        let s: u32 = w >> j;
        assert(s & 0x1F == s % 32) by (bit_vector);
    }
    c
}

/// `bytes` in Nix's base32. A 32-byte digest gives 52 characters.
pub fn nix_base32_encode(bytes: &[u8]) -> (out: String)
    requires
        bytes@.len() <= usize::MAX / 8,
    ensures
        out@ == encoded(bytes@),
{
    let mut out: String = String::new();
    if bytes.len() == 0 {
        assert(out@ =~= encoded(bytes@));
        return out;
    }
    let digits: Vec<char> = chars_of("0123456789abcdfghijklmnpqrsvwxyz");
    proof {
        reveal_strlit("0123456789abcdfghijklmnpqrsvwxyz");
    }
    let len: usize = (bytes.len() * 8 - 1) / 5 + 1;
    assert(len == group_count(bytes@.len()));
    let mut n: usize = len;
    while n > 0
        invariant
            n <= len,
            len == group_count(bytes@.len()),
            bytes@.len() <= usize::MAX / 8,
            bytes@.len() > 0,
            digits@ == alphabet(),
            digits@.len() == 32,
            out@ == encoded(bytes@).take(len - n),
        decreases n,
    {
        n = n - 1;
        let b: usize = n * 5;
        let i: usize = b / 8;
        let j: u32 = (b % 8) as u32;
        assert(i < bytes@.len());
        let low: u32 = bytes[i] as u32;
        let high: u32 = if i + 1 < bytes.len() {
            bytes[i + 1] as u32
        } else {
            0
        };
        let c: u32 = window_bits(low, high, j);
        proof {
            lemma_group_in_window(bytes@, n as nat, i as nat, j as nat, low, high);
        }
        out.push(digits[c as usize]);
        assert(out@ =~= encoded(bytes@).take(len - n));
    }
    assert(encoded(bytes@).take(len as int) =~= encoded(bytes@));
    out
}

proof fn lemma_le_value_bound(bytes: Seq<u8>)
    ensures
        le_value(bytes) < pow2(8 * bytes.len()),
    decreases bytes.len(),
{
    lemma2_to64();
    if bytes.len() > 0 {
        lemma_le_value_bound(bytes.skip(1));
        lemma_pow2_adds(8, (8 * (bytes.len() - 1)) as nat);
    }
}

proof fn lemma_le_value_injective(a: Seq<u8>, b: Seq<u8>)
    requires
        a.len() == b.len(),
        le_value(a) == le_value(b),
    ensures
        a == b,
    decreases a.len(),
{
    if a.len() > 0 {
        assert(a[0] == b[0]);
        lemma_le_value_injective(a.skip(1), b.skip(1));
        assert(a =~= seq![a[0]] + a.skip(1));
        assert(b =~= seq![b[0]] + b.skip(1));
    } else {
        assert(a =~= b);
    }
}

proof fn lemma_next_group(v: nat, n: nat)
    ensures
        group(v, n + 1) == group(v / 32, n),
{
    lemma2_to64();
    lemma_pow2_adds(5, 5 * n);
    lemma_pow2_pos(5 * n);
    lemma_div_denominator(v as int, 32, pow2(5 * n) as int);
}

proof fn lemma_groups_determine(v: nat, w: nat, count: nat)
    requires
        v < pow2(5 * count),
        w < pow2(5 * count),
        forall|n: nat| n < count ==> group(v, n) == #[trigger] group(w, n),
    ensures
        v == w,
    decreases count,
{
    lemma2_to64();
    if count > 0 {
        let rest = (count - 1) as nat;
        lemma_pow2_adds(5, 5 * rest);
        assert forall|n: nat| n < rest implies group(v / 32, n) == #[trigger] group(w / 32, n) by {
            lemma_next_group(v, n);
            lemma_next_group(w, n);
            assert(group(v, n + 1) == group(w, n + 1));
        }
        lemma_groups_determine(v / 32, w / 32, rest);
        assert(group(v, 0) == group(w, 0));
        assert(v / 1 == v && w / 1 == w);
    }
}

/// Which five bits a character of the alphabet stands for.
spec fn rank(c: char) -> int {
    if c <= '9' {
        c as int - '0' as int
    } else if c <= 'd' {
        c as int - 'a' as int + 10
    } else if c <= 'n' {
        c as int - 'f' as int + 14
    } else if c <= 's' {
        c as int - 'p' as int + 23
    } else {
        c as int - 'v' as int + 27
    }
}

proof fn lemma_rank(d: int)
    requires
        0 <= d < 32,
    ensures
        rank(alphabet()[d]) == d,
{
    reveal_strlit("0123456789abcdfghijklmnpqrsvwxyz");
}

/// Base32 loses nothing: two byte strings of one length with the same encoding
/// are the same.
pub proof fn law_base32_injective(a: Seq<u8>, b: Seq<u8>)
    requires
        a.len() == b.len(),
        encoded(a) == encoded(b),
    ensures
        a == b,
{
    let count = group_count(a.len());
    let v = le_value(a);
    let w = le_value(b);
    assert forall|n: nat| n < count implies group(v, n) == #[trigger] group(w, n) by {
        let k = count - 1 - n;
        assert(encoded(a)[k] == alphabet()[group(v, n) as int]);
        assert(encoded(b)[k] == alphabet()[group(w, n) as int]);
        lemma_rank(group(v, n) as int);
        lemma_rank(group(w, n) as int);
    }
    lemma_le_value_bound(a);
    lemma_le_value_bound(b);
    if 8 * a.len() < 5 * count {
        lemma_pow2_strictly_increases(8 * a.len(), 5 * count);
    }
    lemma_groups_determine(v, w, count);
    lemma_le_value_injective(a, b);
}

} // verus!
