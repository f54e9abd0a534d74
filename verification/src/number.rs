//! Whole numbers in decimal: how they are written and how they are read.

use vstd::prelude::*;

use crate::text::chars_of;

verus! {

/// The decimal digit of value `d`.
pub open spec fn digit(d: int) -> char {
    (48 + d) as char
}

/// `c` is one of `0` to `9`.
pub open spec fn is_digit(c: char) -> bool {
    '0' <= c <= '9'
}

/// The value of a decimal digit.
pub open spec fn digit_value(c: char) -> nat {
    (c as int - 48) as nat
}

/// `n` in decimal, without leading zeros.
pub open spec fn decimal(n: nat) -> Seq<char>
    decreases n,
{
    if n < 10 {
        seq![digit(n as int)]
    } else {
        decimal(n / 10).push(digit(n as int % 10))
    }
}

/// `n` in decimal, with a minus sign where it is negative.
pub open spec fn signed_decimal(n: int) -> Seq<char> {
    if n < 0 {
        seq!['-'] + decimal((-n) as nat)
    } else {
        decimal(n as nat)
    }
}

/// Appends `n` in decimal.
pub fn push_decimal(out: &mut String, n: u64)
    ensures
        final(out)@ == old(out)@ + decimal(n as nat),
    decreases n,
{
    let low: u8 = (n % 10) as u8;
    let c: char = (48u8 + low) as char;
    assert(c == digit(n as int % 10));
    if n >= 10 {
        push_decimal(out, n / 10);
    }
    let ghost before = out@;
    out.push(c);
    assert(out@ =~= old(out)@ + decimal(n as nat));
}

/// `n` in decimal.
pub fn decimal_text(n: u64) -> (out: String)
    ensures
        out@ == decimal(n as nat),
{
    let mut out: String = String::new();
    push_decimal(&mut out, n);
    assert(out@ =~= decimal(n as nat));
    out
}

/// `n` in decimal, with a minus sign where it is negative.
pub fn signed_text(n: i64) -> (out: String)
    ensures
        out@ == signed_decimal(n as int),
{
    let mut out: String = String::new();
    if n < 0 {
        out.push('-');
        let m: u64 = (-(n as i128)) as u64;
        push_decimal(&mut out, m);
        assert(out@ =~= seq!['-'] + decimal((-n) as nat));
    } else {
        push_decimal(&mut out, n as u64);
        assert(out@ =~= decimal(n as nat));
    }
    out
}

/// Why a text is no number.
#[derive(Debug, Clone, Copy, PartialEq, Eq, Structural)]
pub enum ParseIntError {
    /// There is nothing to read.
    Empty,
    /// A character is no digit, or a sign stands alone.
    InvalidDigit,
    /// The number is too large for its type.
    PosOverflow,
}

impl ParseIntError {
    /// What the error says of itself.
    pub open spec fn text(self) -> Seq<char> {
        match self {
            ParseIntError::Empty => "cannot parse integer from empty string"@,
            ParseIntError::InvalidDigit => "invalid digit found in string"@,
            ParseIntError::PosOverflow => "number too large to fit in target type"@,
        }
    }

    /// What the error says of itself.
    pub fn message(&self) -> (out: &'static str)
        ensures
            out@ == self.text(),
    {
        match self {
            ParseIntError::Empty => "cannot parse integer from empty string",
            ParseIntError::InvalidDigit => "invalid digit found in string",
            ParseIntError::PosOverflow => "number too large to fit in target type",
        }
    }
}

/// What the digits of `s` make of `acc`, read from the left: the first
/// character that is no digit, or that takes the number above `max`, decides.
pub open spec fn read_digits(s: Seq<char>, acc: nat, max: nat) -> Result<nat, ParseIntError>
    decreases s.len(),
{
    if s.len() == 0 {
        Ok(acc)
    } else if !is_digit(s[0]) {
        Err(ParseIntError::InvalidDigit)
    } else if acc * 10 + digit_value(s[0]) > max {
        Err(ParseIntError::PosOverflow)
    } else {
        read_digits(s.skip(1), acc * 10 + digit_value(s[0]), max)
    }
}

/// The number up to `max` that `s` writes in decimal, after an optional `+`.
pub open spec fn read_decimal(s: Seq<char>, max: nat) -> Result<nat, ParseIntError> {
    if s.len() == 0 {
        Err(ParseIntError::Empty)
    } else if s[0] == '+' {
        if s.len() == 1 {
            Err(ParseIntError::InvalidDigit)
        } else {
            read_digits(s.skip(1), 0, max)
        }
    } else {
        read_digits(s, 0, max)
    }
}

/// The number up to `max` that `s` writes in decimal, after an optional `+`.
pub fn parse_decimal(s: &str, max: u64) -> (out: Result<u64, ParseIntError>)
    ensures
        match out {
            Ok(n) => read_decimal(s@, max as nat) == Ok::<nat, ParseIntError>(n as nat),
            Err(e) => read_decimal(s@, max as nat) == Err::<nat, ParseIntError>(e),
        },
        out matches Ok(n) ==> n <= max,
{
    let v: Vec<char> = chars_of(s);
    if v.len() == 0 {
        return Err(ParseIntError::Empty);
    }
    let mut i: usize = 0;
    if v[0] == '+' {
        if v.len() == 1 {
            return Err(ParseIntError::InvalidDigit);
        }
        i = 1;
    }
    let mut acc: u64 = 0;
    assert(v@.skip(0) =~= v@);
    while i < v.len()
        invariant
            v@ == s@,
            i <= v@.len(),
            acc <= max,
            read_decimal(s@, max as nat) == read_digits(v@.skip(i as int), acc as nat, max as nat),
        decreases v@.len() - i,
    {
        let c: char = v[i];
        let ghost rest = v@.skip(i as int);
        assert(rest.skip(1) =~= v@.skip(i + 1));
        assert(rest[0] == c);
        if !('0' <= c && c <= '9') {
            return Err(ParseIntError::InvalidDigit);
        }
        let d: u64 = c as u64 - 48;
        assert(d == digit_value(c));
        if acc > (u64::MAX - d) / 10 || acc * 10 + d > max {
            assert(acc * 10 + d > max);
            return Err(ParseIntError::PosOverflow);
        }
        acc = acc * 10 + d;
        i = i + 1;
    }
    Ok(acc)
}

proof fn lemma_read_digits_append(s: Seq<char>, c: char, acc: nat, max: nat, n: nat)
    requires
        read_digits(s, acc, max) == Ok::<nat, ParseIntError>(n),
        is_digit(c),
        n * 10 + digit_value(c) <= max,
    ensures
        read_digits(s.push(c), acc, max) == Ok::<nat, ParseIntError>(n * 10 + digit_value(c)),
    decreases s.len(),
{
    if s.len() == 0 {
        assert(s.push(c).skip(1) =~= Seq::empty());
        assert(read_digits(s.push(c).skip(1), n * 10 + digit_value(c), max) == Ok::<
            nat,
            ParseIntError,
        >(n * 10 + digit_value(c)));
    } else {
        assert(s.push(c).skip(1) =~= s.skip(1).push(c));
        lemma_read_digits_append(s.skip(1), c, acc * 10 + digit_value(s[0]), max, n);
    }
}

proof fn lemma_read_digits_of_decimal(n: nat, max: nat)
    requires
        n <= max,
    ensures
        read_digits(decimal(n), 0, max) == Ok::<nat, ParseIntError>(n),
        decimal(n).len() > 0,
        is_digit(decimal(n)[0]),
    decreases n,
{
    if n < 10 {
        let c = digit(n as int);
        assert(decimal(n).skip(1) =~= Seq::empty());
        assert(is_digit(c) && digit_value(c) == n);
        assert(read_digits(decimal(n).skip(1), n, max) == Ok::<nat, ParseIntError>(n));
    } else {
        lemma_read_digits_of_decimal(n / 10, max);
        let c = digit(n as int % 10);
        assert(is_digit(c) && digit_value(c) == n % 10);
        lemma_read_digits_append(decimal(n / 10), c, 0, max, n / 10);
    }
}

/// Reading a number back from its decimal form gives the number.
pub proof fn law_decimal_reads_back(n: nat, max: nat)
    requires
        n <= max,
    ensures
        read_decimal(decimal(n), max) == Ok::<nat, ParseIntError>(n),
{
    lemma_read_digits_of_decimal(n, max);
}

/// Every character of `s` is a digit.
pub open spec fn all_digits(s: Seq<char>) -> bool {
    forall|i: int| 0 <= i < s.len() ==> '0' <= #[trigger] s[i] <= '9'
}

/// The number that the digits of `s` write: each counts ten times as much as the
/// one behind it.
pub open spec fn positional_value(s: Seq<char>) -> nat
    decreases s.len(),
{
    if s.len() == 0 {
        0
    } else {
        (10 * positional_value(s.drop_last()) + (s.last() as int - '0' as int)) as nat
    }
}

proof fn lemma_read_digits_value(s: Seq<char>, k: int, max: nat)
    requires
        all_digits(s),
        0 <= k <= s.len(),
        positional_value(s.take(k)) <= max,
    ensures
        read_digits(s.skip(k), positional_value(s.take(k)), max) == if positional_value(s) <= max {
            Ok::<nat, ParseIntError>(positional_value(s))
        } else {
            Err::<nat, ParseIntError>(ParseIntError::PosOverflow)
        },
    decreases s.len() - k,
{
    let rest = s.skip(k);
    if k == s.len() {
        assert(s.take(k) =~= s);
    } else {
        let next = s.take(k + 1);
        assert(next.drop_last() =~= s.take(k));
        assert(next.last() == s[k] && rest[0] == s[k]);
        assert(rest.skip(1) =~= s.skip(k + 1));
        assert('0' <= s[k] <= '9');
        if positional_value(next) <= max {
            lemma_read_digits_value(s, k + 1, max);
        } else {
            lemma_value_grows(s, k + 1);
        }
    }
}

proof fn lemma_value_grows(s: Seq<char>, k: int)
    requires
        all_digits(s),
        0 <= k <= s.len(),
    ensures
        positional_value(s.take(k)) <= positional_value(s),
    decreases s.len() - k,
{
    if k == s.len() {
        assert(s.take(k) =~= s);
    } else {
        let next = s.take(k + 1);
        assert(next.drop_last() =~= s.take(k));
        assert(next.last() == s[k]);
        assert('0' <= s[k] <= '9');
        lemma_value_grows(s, k + 1);
    }
}

/// Digits are read for the number that they write in the decimal system, with or
/// without a plus before them, as long as it is not too large; nothing that is not
/// a row of digits is read at all.
pub proof fn law_digits_are_read_for_their_value(s: Seq<char>, max: nat)
    requires
        s.len() > 0,
    ensures
        all_digits(s) ==> read_decimal(s, max) == (if positional_value(s) <= max {
            Ok::<nat, ParseIntError>(positional_value(s))
        } else {
            Err::<nat, ParseIntError>(ParseIntError::PosOverflow)
        }) && read_decimal(seq!['+'] + s, max) == read_decimal(s, max),
        read_decimal(s, max) is Ok ==> all_digits(s) || (s[0] == '+' && s.len() > 1 && all_digits(
            s.skip(1),
        )),
{
    let plus = seq!['+'] + s;
    assert(plus.skip(1) =~= s);
    if all_digits(s) {
        assert('0' <= s[0] <= '9');
        assert(s.take(0) =~= seq![]);
        assert(s.skip(0) =~= s);
        lemma_read_digits_value(s, 0, max);
    }
    if s[0] == '+' {
        lemma_only_digits_are_read(s.skip(1), 0, max);
    } else {
        lemma_only_digits_are_read(s, 0, max);
    }
}

proof fn lemma_only_digits_are_read(s: Seq<char>, acc: nat, max: nat)
    ensures
        read_digits(s, acc, max) is Ok ==> all_digits(s),
    decreases s.len(),
{
    if s.len() > 0 && is_digit(s[0]) {
        let rest = s.skip(1);
        lemma_only_digits_are_read(rest, acc * 10 + digit_value(s[0]), max);
        if all_digits(rest) {
            assert forall|i: int| 0 <= i < s.len() implies '0' <= #[trigger] s[i] <= '9' by {
                if i > 0 {
                    assert(rest[i - 1] == s[i]);
                }
            }
        }
    }
}

/// A number in decimal is a row of digits of which the first is no zero, unless
/// the number is zero, and which write the number.
pub proof fn law_decimals_write_their_number(n: nat)
    ensures
        all_digits(decimal(n)),
        decimal(n).len() > 0,
        positional_value(decimal(n)) == n,
        n > 0 ==> decimal(n)[0] != '0',
        forall|m: nat| #[trigger] decimal(m) == decimal(n) ==> m == n,
{
    lemma_decimal_digits(n);
    assert forall|m: nat| #[trigger] decimal(m) == decimal(n) implies m == n by {
        lemma_decimal_digits(m);
    }
}

proof fn lemma_decimal_digits(n: nat)
    ensures
        all_digits(decimal(n)),
        decimal(n).len() > 0,
        positional_value(decimal(n)) == n,
        n > 0 ==> decimal(n)[0] != '0',
    decreases n,
{
    let out = decimal(n);
    if n >= 10 {
        let front = decimal(n / 10);
        lemma_decimal_digits(n / 10);
        assert(out.drop_last() =~= front);
        assert(out[0] == front[0]);
        assert forall|i: int| 0 <= i < out.len() implies '0' <= #[trigger] out[i] <= '9' by {
            if i < front.len() {
                assert(out[i] == front[i]);
            }
        }
    } else {
        assert(out.drop_last() =~= seq![]);
        assert(positional_value(out.drop_last()) == 0);
    }
}

} // verus!
