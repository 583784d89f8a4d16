//! Numbers in the IEEE 754 binary64 interchange format, handled through
//! their 64-bit encodings.

use vstd::arithmetic::power2::{
    lemma2_to64, lemma2_to64_rest, lemma_pow2_adds, lemma_pow2_pos, lemma_pow2_strictly_increases,
    lemma_pow2_unfold, pow2,
};
use vstd::prelude::*;

verus! {

/// Encoding of the sign bit.
pub const SIGN_BIT: u64 = 0x8000_0000_0000_0000;

/// Encoding of positive infinity: every larger magnitude is not a number.
pub const INFINITY_BITS: u64 = 0x7FF0_0000_0000_0000;

/// Encoding of the number one.
pub const ONE_BITS: u64 = 0x3FF0_0000_0000_0000;

/// Weight of the lowest exponent bit: two to the power 52.
pub const HIDDEN_BIT: u64 = 0x0010_0000_0000_0000;

/// Encoding that the quotient of zero by zero has: it is not a number.
pub const NAN_BITS: u64 = 0x7FF8_0000_0000_0000;

/// The power of two that is `exponent` doublings of one.
pub fn power_of_two(exponent: u32) -> (power: u128)
    requires
        exponent < 128,
    ensures
        power == pow2(exponent as nat),
{
    let mut power: u128 = 1;
    let mut done: u32 = 0;
    proof {
        lemma2_to64();
    }
    while done < exponent
        invariant
            done <= exponent < 128,
            power == pow2(done as nat),
        decreases exponent - done,
    {
        proof {
            lemma_pow2_unfold((done + 1) as nat);
            if done + 1 < 127 {
                lemma_pow2_strictly_increases((done + 1) as nat, 127);
            }
            lemma_pow2_adds(64, 63);
            lemma2_to64_rest();
            assert(pow2(127) == 0x8000_0000_0000_0000_0000_0000_0000_0000);
        }
        power = power * 2;
        done = done + 1;
    }
    power
}

/// A binary64 number, held as its encoding: one sign bit, eleven exponent
/// bits and fifty-two fraction bits, from the most significant bit down.
#[derive(Clone, Copy, Debug)]
pub struct Binary64 {
    pub bits: u64,
}

impl Binary64 {
    /// The encoding with the sign bit cleared.
    pub open spec fn magnitude(self) -> int {
        if self.bits >= SIGN_BIT {
            self.bits - SIGN_BIT
        } else {
            self.bits as int
        }
    }

    /// Whether the sign bit is set.
    pub open spec fn sign(self) -> bool {
        self.bits >= SIGN_BIT
    }

    /// Whether the encoding stands for no number at all.
    pub open spec fn is_nan(self) -> bool {
        self.magnitude() > INFINITY_BITS
    }

    /// An integer that orders the numbers as their values do: among
    /// encodings of numbers, a larger value has a larger key, and the two
    /// zeros share the key 0.
    pub open spec fn key(self) -> int {
        if self.sign() {
            -self.magnitude()
        } else {
            self.magnitude()
        }
    }

    /// `self < other` as the format defines it: false whenever either side
    /// is not a number.
    pub open spec fn lt(self, other: Binary64) -> bool {
        !self.is_nan() && !other.is_nan() && self.key() < other.key()
    }

    /// `self <= other` as the format defines it: false whenever either side
    /// is not a number.
    pub open spec fn le(self, other: Binary64) -> bool {
        !self.is_nan() && !other.is_nan() && self.key() <= other.key()
    }

    /// Whether the encoding stands for a number other than an infinity.
    pub open spec fn is_finite(self) -> bool {
        self.magnitude() < INFINITY_BITS
    }

    /// The significand `m` of a finite number, whose absolute value is
    /// `m` times two to the power `exponent() - 1075`.
    pub open spec fn significand(self) -> int {
        if self.magnitude() < HIDDEN_BIT {
            self.magnitude()
        } else {
            HIDDEN_BIT + self.magnitude() % (HIDDEN_BIT as int)
        }
    }

    /// The exponent `e` of a finite number, whose absolute value is
    /// `significand()` times two to the power `e - 1075`.
    pub open spec fn exponent(self) -> int {
        if self.magnitude() < HIDDEN_BIT {
            1
        } else {
            self.magnitude() / (HIDDEN_BIT as int)
        }
    }

    /// The value of a finite number that is not negative, times two to the
    /// power 1074: an integer.
    pub open spec fn scaled_value(self) -> int {
        self.significand() * pow2((self.exponent() - 1) as nat)
    }

    /// The nearest number between zero and one: zero for a number less than
    /// zero, one for a number greater than one, the number itself otherwise.
    /// What is not a number stays as it is.
    pub open spec fn clamped_to_unit(self) -> Binary64 {
        if self.lt(Binary64 { bits: 0 }) {
            Binary64 { bits: 0 }
        } else if (Binary64 { bits: ONE_BITS }).lt(self) {
            Binary64 { bits: ONE_BITS }
        } else {
            self
        }
    }

    /// The number with the given encoding.
    pub fn from_bits(bits: u64) -> (x: Binary64)
        ensures
            x.bits == bits,
    {
        Binary64 { bits }
    }

    /// The encoding of this number.
    pub fn to_bits(self) -> (bits: u64)
        ensures
            bits == self.bits,
    {
        self.bits
    }

    /// Tells whether the encoding stands for no number.
    pub fn is_not_a_number(self) -> (r: bool)
        ensures
            r == self.is_nan(),
    {
        let magnitude: u64 = if self.bits >= SIGN_BIT {
            self.bits - SIGN_BIT
        } else {
            self.bits
        };
        magnitude > INFINITY_BITS
    }

    /// Tells whether `self < other`.
    pub fn less_than(self, other: Binary64) -> (r: bool)
        ensures
            r == self.lt(other),
    {
        if self.is_not_a_number() || other.is_not_a_number() {
            return false;
        }
        let a_sign: bool = self.bits >= SIGN_BIT;
        let b_sign: bool = other.bits >= SIGN_BIT;
        let a: u64 = if a_sign { self.bits - SIGN_BIT } else { self.bits };
        let b: u64 = if b_sign { other.bits - SIGN_BIT } else { other.bits };
        if a_sign && b_sign {
            b < a
        } else if a_sign {
            a > 0 || b > 0
        } else if b_sign {
            false
        } else {
            a < b
        }
    }

    /// Tells whether `self <= other`.
    pub fn at_most(self, other: Binary64) -> (r: bool)
        ensures
            r == self.le(other),
    {
        !self.is_not_a_number() && !other.is_not_a_number() && !other.less_than(self)
    }

    /// This number clamped to the range from zero to one.
    pub fn clamp_to_unit(self) -> (r: Binary64)
        ensures
            r == self.clamped_to_unit(),
    {
        if self.less_than(Binary64 { bits: 0 }) {
            Binary64 { bits: 0 }
        } else if (Binary64 { bits: ONE_BITS }).less_than(self) {
            Binary64 { bits: ONE_BITS }
        } else {
            self
        }
    }
}

/// Among numbers, `lt` is a strict order: no number is less than itself,
/// of two numbers at most one is less than the other, and a number less
/// than one that is less than a third is less than the third.
pub proof fn lemma_lt_is_strict_order(a: Binary64, b: Binary64, c: Binary64)
    ensures
        !a.lt(a),
        !(a.lt(b) && b.lt(a)),
        a.lt(b) && b.lt(c) ==> a.lt(c),
{
}

/// A number clamped to the range from zero to one is neither less than
/// zero nor greater than one, and clamping it again changes nothing.
pub proof fn lemma_clamped_is_in_unit(x: Binary64)
    ensures
        !x.clamped_to_unit().lt(Binary64 { bits: 0 }),
        !(Binary64 { bits: ONE_BITS }).lt(x.clamped_to_unit()),
        x.clamped_to_unit().clamped_to_unit() == x.clamped_to_unit(),
        x.is_nan() <==> x.clamped_to_unit().is_nan(),
{
}

/// Among finite numbers that are not negative, one with the smaller
/// encoding has the smaller value.
pub proof fn lemma_value_grows_with_encoding(a: Binary64, b: Binary64)
    requires
        a.bits < b.bits < INFINITY_BITS,
    ensures
        a.scaled_value() < b.scaled_value(),
{
    let ma = a.significand();
    let mb = b.significand();
    let ea = a.exponent();
    let eb = b.exponent();
    let low = pow2((ea - 1) as nat);
    let high = pow2((eb - 1) as nat);
    lemma_pow2_pos((ea - 1) as nat);
    if ea == eb {
        assert(ma < mb);
        assert(ma * low < mb * low) by (nonlinear_arith)
            requires
                ma < mb,
                low > 0,
        ;
    } else {
        assert(ea < eb);
        assert(ma < 0x20_0000_0000_0000);
        assert(mb >= 0x10_0000_0000_0000);
        lemma_pow2_unfold(ea as nat);
        if ea < eb - 1 {
            lemma_pow2_strictly_increases(ea as nat, (eb - 1) as nat);
        }
        assert(2 * low <= high);
        assert(ma * low < mb * high) by (nonlinear_arith)
            requires
                0 <= ma < 0x20_0000_0000_0000,
                mb >= 0x10_0000_0000_0000,
                2 * low <= high,
                low > 0,
        ;
    }
}

/// The number with the exponent field `field + 1` and the 53 binary digits
/// `digits` is finite and not negative, and its value is `digits` times two
/// to the power `field - 1074`. Where `digits` reaches two to the power 53,
/// the encoding is that of the next exponent.
pub proof fn lemma_value_of_digits(field: int, digits: int)
    requires
        0 <= field <= 2044,
        HIDDEN_BIT <= digits <= 2 * HIDDEN_BIT,
    ensures
        ({
            let x = Binary64 { bits: (field * HIDDEN_BIT + digits) as u64 };
            &&& x.bits == field * HIDDEN_BIT + digits
            &&& !x.sign()
            &&& x.is_finite()
            &&& x.scaled_value() == digits * pow2(field as nat)
        }),
{
    let x = Binary64 { bits: (field * HIDDEN_BIT + digits) as u64 };
    if digits < 2 * HIDDEN_BIT {
        assert(x.exponent() == field + 1);
        assert(x.significand() == digits);
    } else {
        assert(x.exponent() == field + 2);
        assert(x.significand() == HIDDEN_BIT);
        lemma_pow2_unfold((field + 1) as nat);
        assert(HIDDEN_BIT * (2 * pow2(field as nat)) == (2 * HIDDEN_BIT) * pow2(field as nat))
            by (nonlinear_arith);
    }
}

} // verus!
