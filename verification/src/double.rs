//! Double-precision numbers by their IEEE 754 bits: what comparing two of them
//! says, without any arithmetic on them.

use vstd::prelude::*;

verus! {

/// A double-precision number.
#[derive(Debug, Clone, Copy, PartialEq, Eq, Structural)]
pub struct Double {
    pub bits: u64,
}

/// The bit that says that a number is negative.
pub const SIGN: u64 = 0x8000_0000_0000_0000;

/// The bits of infinity; the bits of no number are above them.
pub const INFINITY: u64 = 0x7FF0_0000_0000_0000;

/// The bits of one.
pub const ONE: u64 = 0x3FF0_0000_0000_0000;

impl Double {
    /// The bits without the sign.
    pub open spec fn magnitude(self) -> int {
        if self.bits < SIGN {
            self.bits as int
        } else {
            self.bits - SIGN
        }
    }

    /// This is no number.
    pub open spec fn is_nan(self) -> bool {
        self.magnitude() > INFINITY
    }

    /// Where the number stands among the numbers; the two zeros stand together.
    pub open spec fn rank(self) -> int {
        if self.bits < SIGN {
            self.magnitude()
        } else {
            -self.magnitude()
        }
    }

    /// This number is less than `other`. What is no number is less than nothing.
    pub open spec fn lt_spec(self, other: Double) -> bool {
        !self.is_nan() && !other.is_nan() && self.rank() < other.rank()
    }

    /// This number is `other`, zero being zero whatever its sign.
    pub open spec fn same_spec(self, other: Double) -> bool {
        !self.is_nan() && !other.is_nan() && self.rank() == other.rank()
    }

    /// Zero.
    pub fn zero() -> (out: Double)
        ensures
            out.bits == 0,
    {
        Double { bits: 0 }
    }

    fn order(&self) -> (out: i128)
        ensures
            out == self.rank(),
    {
        if self.bits < SIGN {
            self.bits as i128
        } else {
            -((self.bits - SIGN) as i128)
        }
    }

    fn not_a_number(&self) -> (yes: bool)
        ensures
            yes == self.is_nan(),
    {
        if self.bits < SIGN {
            self.bits > INFINITY
        } else {
            self.bits - SIGN > INFINITY
        }
    }

    /// Whether this number is less than `other`.
    pub fn less_than(&self, other: &Double) -> (yes: bool)
        ensures
            yes == self.lt_spec(*other),
    {
        !self.not_a_number() && !other.not_a_number() && self.order() < other.order()
    }

    /// Whether this number is `other`.
    pub fn same_as(&self, other: &Double) -> (yes: bool)
        ensures
            yes == self.same_spec(*other),
    {
        !self.not_a_number() && !other.not_a_number() && self.order() == other.order()
    }

    /// Whether the number lies strictly between 0 and 1. What is no number does
    /// not.
    pub fn in_unit_interval(&self) -> (yes: bool)
        ensures
            yes == self.inside_unit(),
    {
        let zero = Double { bits: 0 };
        let one = Double { bits: ONE };
        zero.less_than(self) && self.less_than(&one)
    }

    /// This is a number strictly between 0 and 1.
    pub open spec fn inside_unit(self) -> bool {
        !self.is_nan() && 0 < self.rank() < ONE
    }
}

/// Numbers compare by value: those above zero by their bits, those below zero the
/// other way round, the latter are less than the former, the two zeros are the
/// same, and what is no number is less than nothing and the same as nothing.
pub proof fn law_doubles_compare_by_value(a: Double, b: Double)
    ensures
        a.bits <= 0x7FF0_0000_0000_0000 && b.bits <= 0x7FF0_0000_0000_0000 ==> {
            &&& a.lt_spec(b) <==> a.bits < b.bits
            &&& a.same_spec(b) <==> a.bits == b.bits
        },
        0x8000_0000_0000_0000 <= a.bits <= 0xFFF0_0000_0000_0000 && 0x8000_0000_0000_0000 <= b.bits
            <= 0xFFF0_0000_0000_0000 ==> {
            &&& a.lt_spec(b) <==> a.bits > b.bits
            &&& a.same_spec(b) <==> a.bits == b.bits
        },
        0x8000_0000_0000_0000 <= a.bits <= 0xFFF0_0000_0000_0000 && b.bits <= 0x7FF0_0000_0000_0000
            ==> {
            &&& !b.lt_spec(a)
            &&& a.same_spec(b) <==> a.bits == 0x8000_0000_0000_0000 && b.bits == 0
            &&& a.lt_spec(b) <==> !a.same_spec(b)
        },
        0x7FF0_0000_0000_0000 < a.bits < 0x8000_0000_0000_0000 || 0xFFF0_0000_0000_0000 < a.bits
            ==> !a.lt_spec(b) && !b.lt_spec(a) && !a.same_spec(b) && !b.same_spec(a),
        a.inside_unit() <==> 0 < a.bits < 0x3FF0_0000_0000_0000,
{
}

} // verus!
