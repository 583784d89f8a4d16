//! The share that a count has of a total, as the binary64 number that a
//! division of the two in binary64 arithmetic gives: each of the two is
//! rounded to the nearest binary64 number, and so is their quotient, a tie
//! going to the number whose last bit is zero.

use crate::binary64::{
    lemma_value_grows_with_encoding, lemma_value_of_digits, Binary64, HIDDEN_BIT, INFINITY_BITS,
    NAN_BITS,
};
use vstd::arithmetic::div_mod::lemma_fundamental_div_mod;
use vstd::arithmetic::power2::{
    lemma2_to64, lemma2_to64_rest, lemma_pow2_adds, lemma_pow2_pos, lemma_pow2_strictly_increases,
    lemma_pow2_unfold, pow2,
};
use vstd::prelude::*;

verus! {

/// Two to the power 53: up to it, every integer is a binary64 number.
pub const EXACT_LIMIT: u128 = 0x20_0000_0000_0000;

/// Two to the power 64: no count is greater once it is rounded.
pub const COUNT_LIMIT: u128 = 0x1_0000_0000_0000_0000;

/// Whether `units` is to be raised by one when `rest / span` is cut off
/// from it: when the rest is more than half the span, or is half the span
/// and `units` is odd.
pub open spec fn rounds_up(units: int, rest: int, span: int) -> bool {
    2 * rest > span || (2 * rest == span && units % 2 == 1)
}

/// `n` has `53 + shift` binary digits, or fewer than 53 where `shift` is
/// zero.
pub open spec fn has_shift(n: nat, shift: nat) -> bool {
    n < pow2(53 + shift) && (shift > 0 ==> pow2(52 + shift) <= n)
}

/// The number of low binary digits that `n` loses when it is rounded to 53
/// digits.
pub open spec fn integer_shift(n: nat) -> nat {
    choose|shift: nat| has_shift(n, shift)
}

/// The value of the binary64 number nearest to the integer `n`: `n` rounded
/// to 53 binary digits.
pub open spec fn nearest_integer(n: nat) -> nat {
    let span = pow2(integer_shift(n));
    let units = n / span;
    if rounds_up(units as int, (n % span) as int, span as int) {
        (units + 1) * span
    } else {
        units * span
    }
}

/// `a / b` lies from two to the power `e` up to, but not at, two to the
/// power `e + 1`.
pub open spec fn in_binade(a: nat, b: nat, e: int) -> bool {
    if e >= 0 {
        b * pow2(e as nat) <= a < 2 * (b * pow2(e as nat))
    } else {
        b <= a * pow2((-e) as nat) < 2 * b
    }
}

/// The exponent `e` of the power of two next below or at `a / b`, for
/// positive `a` and `b`.
pub open spec fn quotient_exponent(a: nat, b: nat) -> int {
    choose|e: int| in_binade(a, b, e)
}

/// Numerator and denominator of `a / b` times two to the power `52 - e`:
/// where `e` is the exponent of `a / b`, their quotient has 53 binary
/// digits.
pub open spec fn scaled_quotient(a: nat, b: nat, e: int) -> (nat, nat) {
    if e >= 0 {
        (a * pow2(52), b * pow2(e as nat))
    } else {
        (a * pow2((-e) as nat) * pow2(52), b)
    }
}

/// The binary64 number nearest to `a / b`: for positive `a` and `b` the
/// number with exponent `e` and the 53 digits of the scaled quotient, raised
/// by one in the last digit where the rest asks for it. Zero by a positive
/// number is zero, a positive number by zero is infinite, and zero by zero
/// is not a number.
pub open spec fn nearest_quotient(a: nat, b: nat) -> Binary64 {
    if b == 0 {
        if a == 0 {
            Binary64 { bits: NAN_BITS }
        } else {
            Binary64 { bits: INFINITY_BITS }
        }
    } else if a == 0 {
        Binary64 { bits: 0 }
    } else {
        let e = quotient_exponent(a, b);
        let (numerator, denominator) = scaled_quotient(a, b, e);
        let units = numerator / denominator;
        let rest = numerator % denominator;
        let raise: int = if rounds_up(units as int, rest as int, denominator as int) {
            1
        } else {
            0
        };
        Binary64 { bits: ((e + 1022) * HIDDEN_BIT + units + raise) as u64 }
    }
}

/// The share that `count` has of `total`, as binary64 arithmetic computes
/// it: the quotient of the two, each rounded to the nearest binary64 number,
/// rounded to the nearest binary64 number.
pub open spec fn nearest_share(count: nat, total: nat) -> Binary64 {
    nearest_quotient(nearest_integer(count), nearest_integer(total))
}

/// An integer has one shift only.
pub proof fn lemma_shift_unique(n: nat, first: nat, second: nat)
    requires
        has_shift(n, first),
        has_shift(n, second),
    ensures
        first == second,
{
    if first < second {
        if 53 + first < 52 + second {
            lemma_pow2_strictly_increases(53 + first, 52 + second);
        }
    } else if second < first {
        if 53 + second < 52 + first {
            lemma_pow2_strictly_increases(53 + second, 52 + first);
        }
    }
}

/// Every integer has a shift.
pub proof fn lemma_shift_exists(n: nat) -> (shift: nat)
    ensures
        has_shift(n, shift),
    decreases n,
{
    lemma2_to64_rest();
    if n < pow2(53) {
        0
    } else {
        let below = lemma_shift_exists(n / 2);
        lemma_pow2_unfold(53 + below + 1);
        lemma_pow2_unfold(52 + below + 1);
        below + 1
    }
}

/// The integer that `nearest_integer` gives is a binary64 number nearest
/// to `n`: it is `n` itself below two to the power 53, and otherwise a
/// multiple of the span with at most 53 binary digits that lies at most
/// half a span from `n`, the even multiple where two lie as near.
pub proof fn lemma_nearest_integer_is_nearest(n: nat)
    ensures
        n < pow2(53) ==> nearest_integer(n) == n,
        ({
            let span = pow2(integer_shift(n));
            let digits = nearest_integer(n) / span;
            &&& span > 0
            &&& nearest_integer(n) == digits * span
            &&& digits <= pow2(53)
            &&& 2 * (nearest_integer(n) - n) <= span
            &&& 2 * (n - nearest_integer(n)) <= span
            &&& (2 * (nearest_integer(n) - n) == span || 2 * (n - nearest_integer(n)) == span)
                ==> digits % 2 == 0
        }),
{
    let witness = lemma_shift_exists(n);
    let shift = integer_shift(n);
    assert(has_shift(n, shift));
    let span = pow2(shift);
    let units = n / span;
    let rest = n % span;
    lemma_pow2_pos(shift);
    lemma_pow2_adds(53, shift);
    lemma_fundamental_div_mod(n as int, span as int);
    lemma2_to64();
    lemma2_to64_rest();
    if n < pow2(53) {
        if shift > 0 {
            lemma_pow2_strictly_increases(53, 52 + shift + 1);
            lemma_pow2_unfold(52 + shift + 1);
        }
        assert(shift == 0);
    }
    let raised: nat = if rounds_up(units as int, rest as int, span as int) {
        units + 1
    } else {
        units
    };
    assert(units < pow2(53)) by (nonlinear_arith)
        requires
            n == span * units + rest,
            rest >= 0,
            span > 0,
            n < pow2(53) * span,
    ;
    let nearest = nearest_integer(n);
    assert(nearest == raised * span);
    assert(nearest / span == raised) by (nonlinear_arith)
        requires
            nearest == raised * span,
            span > 0,
            raised >= 0,
    ;
    if raised == units {
        assert(n - nearest == rest) by (nonlinear_arith)
            requires
                nearest == units * span,
                n == span * units + rest,
        ;
    } else {
        assert(nearest - n == span - rest) by (nonlinear_arith)
            requires
                nearest == (units + 1) * span,
                n == span * units + rest,
        ;
    }
}

/// A quotient of positive integers has one exponent only.
pub proof fn lemma_binade_unique(a: nat, b: nat, first: int, second: int)
    requires
        a > 0,
        b > 0,
        in_binade(a, b, first),
        in_binade(a, b, second),
    ensures
        first == second,
{
    if first < second {
        lemma_binade_ordered(a, a, b, first, second);
    } else if second < first {
        lemma_binade_ordered(a, a, b, second, first);
    }
}

/// Of two quotients with one denominator, the one with the smaller
/// exponent has the smaller numerator.
pub proof fn lemma_binade_ordered(small: nat, large: nat, b: nat, low: int, high: int)
    requires
        small > 0,
        large > 0,
        b > 0,
        low < high,
        in_binade(small, b, low),
        in_binade(large, b, high),
    ensures
        small < large,
{
    if low >= 0 {
        let near = pow2(low as nat);
        let far = pow2(high as nat);
        lemma_pow2_unfold((low + 1) as nat);
        if low + 1 < high {
            lemma_pow2_strictly_increases((low + 1) as nat, high as nat);
        }
        assert(2 * (b * near) <= b * far) by (nonlinear_arith)
            requires
                2 * near <= far,
                b > 0,
        ;
    } else if high < 0 {
        let near = pow2((-high) as nat);
        let far = pow2((-low) as nat);
        lemma_pow2_unfold((-high + 1) as nat);
        lemma_pow2_pos((-high) as nat);
        if -high + 1 < -low {
            lemma_pow2_strictly_increases((-high + 1) as nat, (-low) as nat);
        }
        assert(small < large) by (nonlinear_arith)
            requires
                small * far < 2 * b,
                b <= large * near,
                2 * near <= far,
                near > 0,
                small > 0,
        ;
    } else {
        let shrink = pow2((-low) as nat);
        let grow = pow2(high as nat);
        lemma_pow2_unfold(1);
        lemma2_to64();
        if 1 < -low {
            lemma_pow2_strictly_increases(1, (-low) as nat);
        }
        lemma_pow2_pos(high as nat);
        assert(2 * small <= small * shrink) by (nonlinear_arith)
            requires
                2 <= shrink,
                small > 0,
        ;
        assert(b <= b * grow) by (nonlinear_arith)
            requires
                1 <= grow,
                b > 0,
        ;
    }
}

/// A quotient of positive integers has an exponent: none below zero where
/// the numerator is not less than the denominator.
pub proof fn lemma_binade_exists(a: nat, b: nat) -> (e: int)
    requires
        a > 0,
        b > 0,
    ensures
        in_binade(a, b, e),
        a >= b <==> e >= 0,
    decreases
            (if a >= b {
                a as int
            } else {
                b - a
            }),
{
    lemma2_to64();
    if a >= b {
        if a < 2 * b {
            assert(b * pow2(0) == b) by (nonlinear_arith)
                requires
                    pow2(0) == 1,
            ;
            0
        } else {
            let half = a / 2;
            let below = lemma_binade_exists(half, b);
            let step = pow2(below as nat);
            lemma_pow2_unfold((below + 1) as nat);
            assert(b * (2 * step) == 2 * (b * step)) by (nonlinear_arith);
            below + 1
        }
    } else if 2 * a >= b {
        assert(a * pow2(1) == 2 * a) by (nonlinear_arith)
            requires
                pow2(1) == 2,
        ;
        -1
    } else {
        let above = lemma_binade_exists(2 * a, b);
        let step = pow2((-above) as nat);
        lemma_pow2_unfold((-above + 1) as nat);
        assert((2 * a) * step == a * (2 * step)) by (nonlinear_arith);
        above - 1
    }
}

/// The exponent of a quotient of positive integers up to `COUNT_LIMIT` lies
/// from -64 to 64.
pub proof fn lemma_exponent_bounds(a: nat, b: nat, e: int)
    requires
        0 < a <= COUNT_LIMIT,
        0 < b <= COUNT_LIMIT,
        in_binade(a, b, e),
    ensures
        -64 <= e <= 64,
{
    lemma2_to64();
    lemma2_to64_rest();
    if e > 64 {
        lemma_pow2_strictly_increases(64, e as nat);
        assert(b * pow2(e as nat) >= pow2(e as nat)) by (nonlinear_arith)
            requires
                b >= 1,
                pow2(e as nat) >= 0,
        ;
    }
    if e < -64 {
        lemma_pow2_unfold(65);
        if 65 < -e {
            lemma_pow2_strictly_increases(65, (-e) as nat);
        }
        assert(a * pow2((-e) as nat) >= pow2((-e) as nat)) by (nonlinear_arith)
            requires
                a >= 1,
                pow2((-e) as nat) >= 0,
        ;
    }
}

/// How far the value of `x` lies from `a / b`, times `b` and two to the
/// power 1074: an integer, for a finite `x` that is not negative.
pub open spec fn distance(x: Binary64, a: nat, b: nat) -> int {
    let gap = x.scaled_value() * b - a * pow2(1074);
    if gap >= 0 {
        gap
    } else {
        -gap
    }
}

/// The scaled quotient of positive integers has 53 binary digits, and
/// value and distance of a number with the exponent of the quotient are
/// multiples of one factor: with `field` for `e + 1022`, a number of value
/// `digits * 2^(field - 1074)` lies `|digits * d - n| * factor` from the
/// quotient, where `n / d` is the scaled quotient.
proof fn lemma_scaled_quotient(a: nat, b: nat, e: int) -> (factor: nat)
    requires
        0 < a <= COUNT_LIMIT,
        0 < b <= COUNT_LIMIT,
        in_binade(a, b, e),
    ensures
        -64 <= e <= 64,
        factor > 0,
        scaled_quotient(a, b, e).1 > 0,
        HIDDEN_BIT * scaled_quotient(a, b, e).1 <= scaled_quotient(a, b, e).0,
        scaled_quotient(a, b, e).0 < 2 * HIDDEN_BIT * scaled_quotient(a, b, e).1,
        pow2((e + 1022) as nat) * b == scaled_quotient(a, b, e).1 * factor,
        a * pow2(1074) == scaled_quotient(a, b, e).0 * factor,
{
    lemma_exponent_bounds(a, b, e);
    lemma2_to64_rest();
    let (n, d) = scaled_quotient(a, b, e);
    let weight = pow2((e + 1022) as nat);
    let whole = pow2(1074);
    let hidden = pow2(52);
    lemma_pow2_adds(52, 1022);
    lemma_pow2_pos(1022);
    if e >= 0 {
        let step = pow2(e as nat);
        lemma_pow2_pos(e as nat);
        lemma_pow2_adds(e as nat, 1022);
        let factor = pow2(1022);
        assert(d > 0 && hidden * d <= n && n < 2 * hidden * d) by (nonlinear_arith)
            requires
                d == b * step,
                n == a * hidden,
                b * step <= a,
                a < 2 * (b * step),
                hidden > 0,
                b > 0,
        ;
        assert(weight * b == d * factor && a * whole == n * factor) by (nonlinear_arith)
            requires
                weight == step * factor,
                whole == hidden * factor,
                d == b * step,
                n == a * hidden,
        ;
        factor
    } else {
        let step = pow2((-e) as nat);
        lemma_pow2_adds((-e) as nat, 52);
        lemma_pow2_adds((52 - e) as nat, (e + 1022) as nat);
        lemma_pow2_pos((e + 1022) as nat);
        let factor = weight;
        assert(hidden * d <= n && n < 2 * hidden * d) by (nonlinear_arith)
            requires
                d == b,
                n == a * step * hidden,
                b <= a * step,
                a * step < 2 * b,
                hidden > 0,
        ;
        assert(a * whole == n * factor) by (nonlinear_arith)
            requires
                whole == (step * hidden) * factor,
                n == a * step * hidden,
        ;
        factor
    }
}

/// The quotient that `nearest_quotient` gives for positive integers up to
/// `COUNT_LIMIT` is the binary64 number nearest to `a / b`: it is finite and
/// not negative, no such number lies nearer to `a / b`, and where another
/// lies as near, the last bit of the quotient is zero.
pub proof fn lemma_nearest_quotient_is_nearest(a: nat, b: nat, y: Binary64)
    requires
        0 < a <= COUNT_LIMIT,
        0 < b <= COUNT_LIMIT,
        !y.sign(),
        y.is_finite(),
    ensures
        !nearest_quotient(a, b).sign(),
        nearest_quotient(a, b).is_finite(),
        distance(nearest_quotient(a, b), a, b) <= distance(y, a, b),
        distance(nearest_quotient(a, b), a, b) == distance(y, a, b) && y != nearest_quotient(a, b)
            ==> nearest_quotient(a, b).bits % 2 == 0,
{
    let witness = lemma_binade_exists(a, b);
    let e = quotient_exponent(a, b);
    assert(in_binade(a, b, e));
    let factor = lemma_scaled_quotient(a, b, e);
    let (n, d) = scaled_quotient(a, b, e);
    let units = n / d;
    let rest = n % d;
    let field = e + 1022;
    let weight = pow2(field as nat);
    let whole = pow2(1074);
    lemma_fundamental_div_mod(n as int, d as int);
    assert(HIDDEN_BIT <= units < 2 * HIDDEN_BIT) by (nonlinear_arith)
        requires
            n == d * units + rest,
            0 <= rest < d,
            HIDDEN_BIT * d <= n,
            n < 2 * HIDDEN_BIT * d,
    ;
    lemma_value_of_digits(field, units as int);
    lemma_value_of_digits(field, (units + 1) as int);
    let low = Binary64 { bits: (field * HIDDEN_BIT + units) as u64 };
    let high = Binary64 { bits: (field * HIDDEN_BIT + units + 1) as u64 };
    let x = nearest_quotient(a, b);
    let raise = rounds_up(units as int, rest as int, d as int);
    assert(x == if raise {
        high
    } else {
        low
    });
    // The neighbours lie on either side of the quotient.
    let below = low.scaled_value() * b;
    let above = high.scaled_value() * b;
    let target = a * whole;
    assert(below == units * d * factor && above == (units + 1) * d * factor) by (nonlinear_arith)
        requires
            below == (units * weight) * b,
            above == ((units + 1) * weight) * b,
            weight * b == d * factor,
    ;
    assert(target - below == rest * factor && above - target == (d - rest) * factor)
        by (nonlinear_arith)
        requires
            below == units * d * factor,
            above == (units + 1) * d * factor,
            target == n * factor,
            n == d * units + rest,
    ;
    assert(rest * factor >= 0 && (d - rest) * factor > 0) by (nonlinear_arith)
        requires
            0 <= rest < d,
            factor > 0,
    ;
    assert(distance(low, a, b) == rest * factor);
    assert(distance(high, a, b) == (d - rest) * factor);
    assert((rest * factor <= (d - rest) * factor <==> 2 * rest <= d) && (rest * factor == (d - rest)
        * factor <==> 2 * rest == d)) by (nonlinear_arith)
        requires
            factor > 0,
    ;
    // Every other number lies beyond one of the neighbours.
    let other = y.scaled_value() * b;
    if y.bits <= low.bits {
        if y.bits < low.bits {
            lemma_value_grows_with_encoding(y, low);
            assert(other < below) by (nonlinear_arith)
                requires
                    other == y.scaled_value() * b,
                    below == low.scaled_value() * b,
                    y.scaled_value() < low.scaled_value(),
                    b > 0,
            ;
        }
        assert(distance(y, a, b) >= rest * factor);
    } else {
        if y.bits > high.bits {
            lemma_value_grows_with_encoding(high, y);
            assert(above < other) by (nonlinear_arith)
                requires
                    other == y.scaled_value() * b,
                    above == high.scaled_value() * b,
                    high.scaled_value() < y.scaled_value(),
                    b > 0,
            ;
        }
        assert(distance(y, a, b) >= (d - rest) * factor);
    }
}

/// Of two cuts with one span, the one with no fewer units and no smaller
/// rest is raised to no less.
proof fn lemma_raise_grows(first: int, first_rest: int, second: int, second_rest: int, span: int)
    requires
        0 <= first_rest < span,
        0 <= second_rest < span,
        first * span + first_rest <= second * span + second_rest,
    ensures
        first + (if rounds_up(first, first_rest, span) {
            1int
        } else {
            0int
        }) <= second + (if rounds_up(second, second_rest, span) {
            1int
        } else {
            0int
        }),
{
    assert(first <= second) by (nonlinear_arith)
        requires
            0 <= first_rest < span,
            0 <= second_rest < span,
            first * span + first_rest <= second * span + second_rest,
    ;
    if first == second {
        assert(first_rest <= second_rest) by (nonlinear_arith)
            requires
                first == second,
                first * span + first_rest <= second * span + second_rest,
        ;
    }
}

/// A greater integer is rounded to no smaller one.
pub proof fn lemma_nearest_integer_grows(small: nat, large: nat)
    requires
        small <= large,
    ensures
        nearest_integer(small) <= nearest_integer(large),
{
    let first_witness = lemma_shift_exists(small);
    let second_witness = lemma_shift_exists(large);
    let first = integer_shift(small);
    let second = integer_shift(large);
    assert(has_shift(small, first) && has_shift(large, second));
    let near = pow2(first);
    let far = pow2(second);
    lemma_pow2_pos(first);
    lemma_pow2_pos(second);
    lemma_fundamental_div_mod(small as int, near as int);
    lemma_fundamental_div_mod(large as int, far as int);
    let units = small / near;
    let rest = small % near;
    let more_units = large / far;
    let more_rest = large % far;
    if first > second {
        if 53 + second < 52 + first {
            lemma_pow2_strictly_increases(53 + second, 52 + first);
        }
        assert(false);
    } else if first == second {
        lemma_raise_grows(
            units as int,
            rest as int,
            more_units as int,
            more_rest as int,
            near as int,
        );
        let raised: int = if rounds_up(units as int, rest as int, near as int) {
            (units + 1) as int
        } else {
            units as int
        };
        let more_raised: int = if rounds_up(more_units as int, more_rest as int, near as int) {
            (more_units + 1) as int
        } else {
            more_units as int
        };
        assert(raised * near <= more_raised * near) by (nonlinear_arith)
            requires
                raised <= more_raised,
                near >= 0,
        ;
    } else {
        lemma_pow2_adds(53, first);
        lemma_pow2_adds(52, second);
        if 53 + first < 52 + second {
            lemma_pow2_strictly_increases(53 + first, 52 + second);
        }
        assert(units * near <= (units + 1) * near && more_units * far <= (more_units + 1) * far)
            by (nonlinear_arith)
            requires
                near >= 0,
                far >= 0,
        ;
        assert(nearest_integer(small) <= pow2(53) * near) by (nonlinear_arith)
            requires
                nearest_integer(small) <= (units + 1) * near,
                small == near * units + rest,
                rest >= 0,
                near > 0,
                small < pow2(53) * near,
        ;
        assert(pow2(52) * far <= nearest_integer(large)) by (nonlinear_arith)
            requires
                nearest_integer(large) >= more_units * far,
                large == far * more_units + more_rest,
                more_rest < far,
                far > 0,
                pow2(52) * far <= large,
        ;
    }
}

/// The quotient of a greater numerator by the same denominator is rounded
/// to no smaller number.
pub proof fn lemma_nearest_quotient_grows(small: nat, large: nat, b: nat)
    requires
        small <= large <= COUNT_LIMIT,
        0 < b <= COUNT_LIMIT,
    ensures
        nearest_quotient(small, b).le(nearest_quotient(large, b)),
{
    if large == 0 {
    } else if small == 0 {
        let witness = lemma_binade_exists(large, b);
        let e = quotient_exponent(large, b);
        assert(in_binade(large, b, e));
        let factor = lemma_scaled_quotient(large, b, e);
        let (n, d) = scaled_quotient(large, b, e);
        lemma_fundamental_div_mod(n as int, d as int);
        assert(HIDDEN_BIT <= n / d < 2 * HIDDEN_BIT) by (nonlinear_arith)
            requires
                n == d * (n / d) + n % d,
                0 <= n % d < d,
                HIDDEN_BIT * d <= n,
                n < 2 * HIDDEN_BIT * d,
        ;
        lemma_value_of_digits(e + 1022, (n / d) as int);
        lemma_value_of_digits(e + 1022, (n / d + 1) as int);
    } else {
        let first_witness = lemma_binade_exists(small, b);
        let second_witness = lemma_binade_exists(large, b);
        let low = quotient_exponent(small, b);
        let high = quotient_exponent(large, b);
        assert(in_binade(small, b, low) && in_binade(large, b, high));
        if high < low {
            lemma_binade_ordered(large, small, b, high, low);
        }
        let factor = lemma_scaled_quotient(small, b, low);
        let more_factor = lemma_scaled_quotient(large, b, high);
        let (n, d) = scaled_quotient(small, b, low);
        let (more_n, more_d) = scaled_quotient(large, b, high);
        lemma_fundamental_div_mod(n as int, d as int);
        lemma_fundamental_div_mod(more_n as int, more_d as int);
        let units = n / d;
        let more_units = more_n / more_d;
        assert(HIDDEN_BIT <= units < 2 * HIDDEN_BIT) by (nonlinear_arith)
            requires
                n == d * units + n % d,
                0 <= n % d < d,
                HIDDEN_BIT * d <= n,
                n < 2 * HIDDEN_BIT * d,
        ;
        assert(HIDDEN_BIT <= more_units < 2 * HIDDEN_BIT) by (nonlinear_arith)
            requires
                more_n == more_d * more_units + more_n % more_d,
                0 <= more_n % more_d < more_d,
                HIDDEN_BIT * more_d <= more_n,
                more_n < 2 * HIDDEN_BIT * more_d,
        ;
        lemma_value_of_digits(low + 1022, units as int);
        lemma_value_of_digits(low + 1022, (units + 1) as int);
        lemma_value_of_digits(high + 1022, more_units as int);
        lemma_value_of_digits(high + 1022, (more_units + 1) as int);
        if low == high {
            assert(n <= more_n) by {
                if low >= 0 {
                    assert(small * pow2(52) <= large * pow2(52)) by (nonlinear_arith)
                        requires
                            small <= large,
                    ;
                } else {
                    assert(small * pow2((-low) as nat) * pow2(52) <= large * pow2((-low) as nat)
                        * pow2(52)) by (nonlinear_arith)
                        requires
                            small <= large,
                    ;
                }
            }
            assert(units * d == d * units && more_units * d == d * more_units)
                by (nonlinear_arith);
            lemma_raise_grows(
                units as int,
                (n % d) as int,
                more_units as int,
                (more_n % more_d) as int,
                d as int,
            );
        }
    }
}

/// A greater count has no smaller share of the same total.
pub proof fn lemma_share_grows_with_count(small: nat, large: nat, total: nat)
    requires
        small <= large <= usize::MAX,
        0 < total <= usize::MAX,
    ensures
        nearest_share(small, total).le(nearest_share(large, total)),
{
    lemma2_to64();
    lemma2_to64_rest();
    lemma_nearest_integer_grows(small, large);
    lemma_nearest_integer_grows(large, 0xFFFF_FFFF_FFFF_FFFF);
    lemma_nearest_integer_grows(total, 0xFFFF_FFFF_FFFF_FFFF);
    lemma_nearest_integer_grows(1, total);
    lemma_nearest_integer_is_nearest(1);
    lemma_rounded_limit();
    lemma_nearest_quotient_grows(
        nearest_integer(small),
        nearest_integer(large),
        nearest_integer(total),
    );
}

/// The greatest count is rounded to two to the power 64.
proof fn lemma_rounded_limit()
    ensures
        nearest_integer(0xFFFF_FFFF_FFFF_FFFF) == COUNT_LIMIT,
{
    let n: nat = 0xFFFF_FFFF_FFFF_FFFF;
    lemma2_to64();
    lemma2_to64_rest();
    assert(has_shift(n, 11));
    let witness = integer_shift(n);
    lemma_shift_unique(n, 11, witness);
    assert(pow2(11) == 0x800);
    assert(n / 0x800 == 0x1F_FFFF_FFFF_FFFF);
    assert(n % 0x800 == 0x7FF);
}

/// The value of the binary64 number nearest to `n`.
pub fn round_integer(n: usize) -> (rounded: u128)
    ensures
        rounded == nearest_integer(n as nat),
        rounded <= COUNT_LIMIT,
        n > 0 ==> rounded > 0,
{
    let wide: u128 = n as u128;
    let mut span: u128 = 1;
    let mut shift: u32 = 0;
    proof {
        lemma2_to64();
        lemma2_to64_rest();
    }
    while wide >= EXACT_LIMIT * span
        invariant
            wide == n,
            shift <= 11,
            span == pow2(shift as nat),
            span <= 0x800,
            shift > 0 ==> pow2(52 + shift as nat) <= wide,
        decreases 11 - shift,
    {
        proof {
            lemma2_to64();
            lemma2_to64_rest();
            lemma_pow2_adds(53, shift as nat);
            lemma_pow2_unfold((shift + 1) as nat);
            assert(shift < 11) by {
                if shift >= 11 {
                    if shift > 11 {
                        lemma_pow2_strictly_increases(11, shift as nat);
                    }
                    assert(EXACT_LIMIT * span >= EXACT_LIMIT * 0x800) by (nonlinear_arith)
                        requires
                            span >= 0x800,
                    ;
                }
            }
            if shift + 1 < 11 {
                lemma_pow2_strictly_increases((shift + 1) as nat, 11);
            }
        }
        span = span * 2;
        shift = shift + 1;
    }
    proof {
        lemma_pow2_adds(53, shift as nat);
        assert(has_shift(n as nat, shift as nat));
        lemma_shift_unique(n as nat, shift as nat, integer_shift(n as nat));
        lemma_fundamental_div_mod(wide as int, span as int);
    }
    let units: u128 = wide / span;
    let rest: u128 = wide % span;
    assert(units < EXACT_LIMIT) by (nonlinear_arith)
        requires
            wide == span * units + rest,
            rest >= 0,
            span > 0,
            wide < EXACT_LIMIT * span,
    ;
    let raised: u128 = if 2 * rest > span || (2 * rest == span && units % 2 == 1) {
        units + 1
    } else {
        units
    };
    proof {
        if shift > 0 {
            lemma_pow2_adds(52, shift as nat);
            assert(span <= wide) by (nonlinear_arith)
                requires
                    0x10_0000_0000_0000 * span <= wide,
                    span > 0,
            ;
        }
        assert(wide > 0 ==> units > 0) by (nonlinear_arith)
            requires
                wide == span * units + rest,
                rest < span,
                span <= wide || span == 1,
                units >= 0,
        ;
    }
    assert(raised * span <= EXACT_LIMIT * 0x800 && (wide > 0 ==> raised * span > 0))
        by (nonlinear_arith)
        requires
            units <= raised <= EXACT_LIMIT,
            0 < span <= 0x800,
            wide > 0 ==> raised > 0,
    ;
    raised * span
}

/// The binary64 number nearest to `a / b`, for integers up to two to the
/// power 64: the range of rounded counts, within which the scaled quotient
/// fits the machine's widest integer.
fn round_quotient(a: u128, b: u128) -> (quotient: Binary64)
    requires
        a <= COUNT_LIMIT,
        b <= COUNT_LIMIT,
    ensures
        quotient == nearest_quotient(a as nat, b as nat),
{
    if b == 0 {
        if a == 0 {
            return Binary64 { bits: NAN_BITS };
        }
        return Binary64 { bits: INFINITY_BITS };
    }
    if a == 0 {
        return Binary64 { bits: 0 };
    }
    let mut numerator: u128 = a;
    let mut denominator: u128 = b;
    let mut lowered: u64 = 0;
    let mut raised: u64 = 0;
    proof {
        lemma2_to64();
        lemma2_to64_rest();
    }
    if a < b {
        while numerator < denominator
            invariant
                0 < a,
                denominator == b,
                b <= COUNT_LIMIT,
                raised == 0,
                lowered <= 64,
                numerator == a * pow2(lowered as nat),
                numerator > 0,
                lowered == 0 || numerator < 2 * denominator,
            decreases 64 - lowered,
        {
            proof {
                lemma2_to64();
                lemma2_to64_rest();
                let step = pow2(lowered as nat);
                lemma_pow2_unfold((lowered + 1) as nat);
                assert(a * (2 * step) == 2 * (a * step)) by (nonlinear_arith);
                assert(lowered < 64) by {
                    if lowered >= 64 {
                        if lowered > 64 {
                            lemma_pow2_strictly_increases(64, lowered as nat);
                        }
                        assert(a * step >= step) by (nonlinear_arith)
                            requires
                                a >= 1,
                                step >= 0,
                        ;
                    }
                }
            }
            numerator = numerator * 2;
            lowered = lowered + 1;
        }
    } else {
        while numerator >= 2 * denominator
            invariant
                0 < b,
                numerator == a,
                a <= COUNT_LIMIT,
                lowered == 0,
                raised <= 64,
                denominator == b * pow2(raised as nat),
                0 < denominator <= numerator,
            decreases numerator - denominator,
        {
            proof {
                lemma2_to64();
                lemma2_to64_rest();
                let step = pow2(raised as nat);
                lemma_pow2_unfold((raised + 1) as nat);
                assert(b * (2 * step) == 2 * (b * step)) by (nonlinear_arith);
                assert(raised < 64) by {
                    if raised >= 64 {
                        if raised > 64 {
                            lemma_pow2_strictly_increases(64, raised as nat);
                        }
                        assert(b * step >= step) by (nonlinear_arith)
                            requires
                                b >= 1,
                                step >= 0,
                        ;
                    }
                }
            }
            denominator = denominator * 2;
            raised = raised + 1;
        }
    }
    let ghost e: int = raised - lowered;
    proof {
        assert(in_binade(a as nat, b as nat, e));
        lemma_binade_unique(a as nat, b as nat, e, quotient_exponent(a as nat, b as nat));
    }
    let scaled: u128 = numerator * HIDDEN_BIT as u128;
    proof {
        let (n, d) = scaled_quotient(a as nat, b as nat, e);
        assert(n == scaled && d == denominator);
        lemma_fundamental_div_mod(scaled as int, denominator as int);
    }
    let units: u128 = scaled / denominator;
    let rest: u128 = scaled % denominator;
    assert(units < EXACT_LIMIT) by (nonlinear_arith)
        requires
            scaled == denominator * units + rest,
            rest >= 0,
            denominator > 0,
            scaled == numerator * 0x10_0000_0000_0000,
            numerator < 2 * denominator,
    ;
    let raise: u64 = if 2 * rest > denominator || (2 * rest == denominator && units % 2 == 1) {
        1
    } else {
        0
    };
    let biased: u64 = 1022 + raised - lowered;
    Binary64 { bits: biased * HIDDEN_BIT + units as u64 + raise }
}

/// The share that `count` has of `total`, as binary64 arithmetic computes
/// it.
pub fn share_of(count: usize, total: usize) -> (share: Binary64)
    ensures
        share == nearest_share(count as nat, total as nat),
{
    round_quotient(round_integer(count), round_integer(total))
}

impl Binary64 {
    /// Tells whether this number is at most the share that `count` has of
    /// `total`, as binary64 arithmetic computes the share.
    pub fn is_at_most_rounded_share(self, count: usize, total: usize) -> (r: bool)
        ensures
            r == self.le(nearest_share(count as nat, total as nat)),
    {
        self.at_most(share_of(count, total))
    }
}

} // verus!
