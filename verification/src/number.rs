//! Double-precision numbers, held as their IEEE 754 bit patterns.
//!
//! A number is a `u64`: one sign bit, eleven exponent bits, fifty-two fraction
//! bits. Everything the language asks of numbers is defined here over those
//! bits, in integer arithmetic: classification, order, and the four
//! operations with round-to-nearest, ties-to-even.
//!
//! Every bit pattern above infinity is a NaN, and all of them behave alike;
//! an operation that yields NaN yields the one quiet NaN named here.
use vstd::prelude::*;
use vstd::arithmetic::power2::{lemma_pow2_pos, pow2};
use crate::rounding::{
    lemma_absorbs_added, lemma_absorbs_taken, lemma_pow2_increases, lemma_pow2_values,
    lemma_round_representable, power_of_two, round,
};

verus! {

/// The sign bit.
pub const SIGN: u64 = 0x8000_0000_0000_0000;

/// Positive infinity; also the least magnitude that is not finite.
pub const INFINITY: u64 = 0x7ff0_0000_0000_0000;

/// The quiet not-a-number that every operation here produces.
pub const NAN: u64 = 0x7ff8_0000_0000_0000;

/// Two to the fifty-second: the implicit leading bit of a normal significand.
pub const HIDDEN: u64 = 0x0010_0000_0000_0000;

/// Minus one.
pub const MINUS_ONE: u64 = 0xbff0_0000_0000_0000;

/// The exponent of the least positive double, two to the minus 1074.
pub open spec fn least_exponent() -> int {
    -1074
}

/// The bits without the sign.
pub open spec fn magnitude(x: u64) -> u64 {
    if x >= SIGN {
        (x - SIGN) as u64
    } else {
        x
    }
}

/// Whether the sign bit is set.
pub open spec fn negative(x: u64) -> bool {
    x >= SIGN
}

/// The bits of the given magnitude under the given sign.
pub open spec fn with_sign(neg: bool, mag: u64) -> u64 {
    if neg && mag < SIGN {
        (mag + SIGN) as u64
    } else {
        mag
    }
}

/// The same number with the opposite sign.
pub open spec fn opposite(x: u64) -> u64 {
    with_sign(!negative(x), magnitude(x))
}

/// Whether the bits are a NaN.
pub open spec fn is_nan(x: u64) -> bool {
    magnitude(x) > INFINITY
}

/// Whether the bits are an infinity.
pub open spec fn is_infinite(x: u64) -> bool {
    magnitude(x) == INFINITY
}

/// Whether the bits are neither an infinity nor a NaN.
pub open spec fn is_finite(x: u64) -> bool {
    magnitude(x) < INFINITY
}

/// Whether the bits are one of the two zeros.
pub open spec fn is_zero(x: u64) -> bool {
    magnitude(x) == 0
}

/// The significand of a finite number: its absolute value is
/// `significand(x) * 2^exponent(x)`.
pub open spec fn significand(x: u64) -> nat {
    let m = magnitude(x);
    if m < HIDDEN {
        m as nat
    } else {
        (m % HIDDEN + HIDDEN) as nat
    }
}

/// The exponent of a finite number, for its significand taken as an integer.
pub open spec fn exponent(x: u64) -> int {
    let m = magnitude(x);
    if m < HIDDEN {
        least_exponent()
    } else {
        m / HIDDEN - 1075
    }
}

/// Where a number that is not NaN stands in the order of all such numbers.
/// Magnitudes of doubles grow with their bit patterns, so the key is the
/// magnitude's bits, negated under a minus sign; both zeros have key zero.
pub open spec fn order_key(x: u64) -> int {
    if negative(x) {
        -(magnitude(x) as int)
    } else {
        magnitude(x) as int
    }
}

/// `a < b` as numbers: false whenever either is NaN.
pub open spec fn less(a: u64, b: u64) -> bool {
    !is_nan(a) && !is_nan(b) && order_key(a) < order_key(b)
}

/// `a <= b` as numbers: false whenever either is NaN.
pub open spec fn less_or_equal(a: u64, b: u64) -> bool {
    !is_nan(a) && !is_nan(b) && order_key(a) <= order_key(b)
}

/// `a == b` as numbers: NaN equals nothing, the two zeros are equal.
pub open spec fn same(a: u64, b: u64) -> bool {
    !is_nan(a) && !is_nan(b) && order_key(a) == order_key(b)
}

/// How many binary digits `m` has.
pub open spec fn bit_length(m: nat) -> nat
    decreases m,
{
    if m == 0 {
        0
    } else {
        1 + bit_length(m / 2)
    }
}

/// The integer nearest to `num / den`; of two equally near, the even one.
pub open spec fn nearest_even(num: nat, den: nat) -> nat {
    let q = num / den;
    let r = num % den;
    if 2 * r < den || (2 * r == den && q % 2 == 0) {
        q
    } else {
        q + 1
    }
}

/// The integer nearest to `num / den * 2^shift`, ties to even.
pub open spec fn nearest_even_scaled(num: nat, den: nat, shift: int) -> nat {
    if shift >= 0 {
        nearest_even(num * pow2(shift as nat), den)
    } else {
        nearest_even(num, den * pow2((-shift) as nat))
    }
}

/// Whether `num / den >= 2^k`.
pub open spec fn reaches(num: nat, den: nat, k: int) -> bool {
    if k >= 0 {
        num >= den * pow2(k as nat)
    } else {
        num * pow2((-k) as nat) >= den
    }
}

/// The integer part of the binary logarithm of `num / den`, both positive.
pub open spec fn floor_log2(num: nat, den: nat) -> int {
    let k = bit_length(num) - bit_length(den);
    if reaches(num, den, k) {
        k
    } else {
        k - 1
    }
}

/// The exponent of the last significand bit of the double nearest to
/// `num / den * 2^exp`: fifty-two below the value's own binary exponent, but
/// never below the least exponent.
pub open spec fn unit_exponent(num: nat, den: nat, exp: int) -> int {
    let e = floor_log2(num, den) + exp - 52;
    if e < least_exponent() {
        least_exponent()
    } else {
        e
    }
}

/// The magnitude bits of the double nearest to the positive value
/// `num / den * 2^exp`, ties to the even significand; infinity where the
/// rounded value is beyond the largest finite double.
///
/// With `t` the unit exponent and `q` the value rounded to a multiple of
/// `2^t`, the bits are `(t + 1074) * 2^52 + q`: for `q` below `2^52` a
/// subnormal, from there on exponent field and fraction, and for `q` equal to
/// `2^53` the next power of two.
pub open spec fn round_magnitude(num: nat, den: nat, exp: int) -> u64 {
    let t = unit_exponent(num, den, exp);
    let q = nearest_even_scaled(num, den, exp - t);
    let bits = (t - least_exponent()) * HIDDEN + q;
    if bits >= INFINITY {
        INFINITY
    } else {
        bits as u64
    }
}

/// A finite number as a signed count of units `2^e`, for `e` no greater than
/// its exponent.
pub open spec fn signed_units(x: u64, e: int) -> int {
    let units = significand(x) * pow2((exponent(x) - e) as nat);
    if negative(x) {
        -units
    } else {
        units as int
    }
}

/// `a + b`: the exact sum, rounded.
pub open spec fn sum(a: u64, b: u64) -> u64 {
    if is_nan(a) || is_nan(b) {
        NAN
    } else if is_infinite(a) {
        if is_infinite(b) && negative(a) != negative(b) {
            NAN
        } else {
            a
        }
    } else if is_infinite(b) {
        b
    } else {
        let e = if exponent(a) <= exponent(b) {
            exponent(a)
        } else {
            exponent(b)
        };
        let total = signed_units(a, e) + signed_units(b, e);
        if total == 0 {
            with_sign(negative(a) && negative(b), 0)
        } else if total > 0 {
            round_magnitude(total as nat, 1, e)
        } else {
            with_sign(true, round_magnitude((-total) as nat, 1, e))
        }
    }
}

/// `a - b`: the sum of `a` and the opposite of `b`.
pub open spec fn difference(a: u64, b: u64) -> u64 {
    sum(a, opposite(b))
}

/// `a * b`: the exact product, rounded.
pub open spec fn product(a: u64, b: u64) -> u64 {
    let neg = negative(a) != negative(b);
    if is_nan(a) || is_nan(b) {
        NAN
    } else if is_infinite(a) || is_infinite(b) {
        if is_zero(a) || is_zero(b) {
            NAN
        } else {
            with_sign(neg, INFINITY)
        }
    } else if is_zero(a) || is_zero(b) {
        with_sign(neg, 0)
    } else {
        with_sign(
            neg,
            round_magnitude(significand(a) * significand(b), 1, exponent(a) + exponent(b)),
        )
    }
}

/// `a / b`: the exact quotient, rounded.
pub open spec fn quotient(a: u64, b: u64) -> u64 {
    let neg = negative(a) != negative(b);
    if is_nan(a) || is_nan(b) {
        NAN
    } else if is_infinite(a) {
        if is_infinite(b) {
            NAN
        } else {
            with_sign(neg, INFINITY)
        }
    } else if is_infinite(b) {
        with_sign(neg, 0)
    } else if is_zero(b) {
        if is_zero(a) {
            NAN
        } else {
            with_sign(neg, INFINITY)
        }
    } else if is_zero(a) {
        with_sign(neg, 0)
    } else {
        with_sign(neg, round_magnitude(significand(a), significand(b), exponent(a) - exponent(b)))
    }
}

/// `-x`, computed as minus one times `x`.
pub open spec fn negation(x: u64) -> u64 {
    product(MINUS_ONE, x)
}

/// Splits off the sign: the magnitude bits, and whether the sign bit was set.
pub fn split_sign(x: u64) -> (parts: (bool, u64))
    ensures
        parts.0 == negative(x),
        parts.1 == magnitude(x),
        parts.1 < SIGN,
{
    if x >= SIGN {
        (true, x - SIGN)
    } else {
        (false, x)
    }
}

/// Puts a sign on a magnitude.
pub fn apply_sign(neg: bool, mag: u64) -> (x: u64)
    requires
        mag < SIGN,
    ensures
        x == with_sign(neg, mag),
        magnitude(x) == mag,
        negative(x) == neg,
{
    if neg {
        mag + SIGN
    } else {
        mag
    }
}

/// `a < b`.
pub fn less_than(a: u64, b: u64) -> (lt: bool)
    ensures
        lt == less(a, b),
{
    let (na, ma) = split_sign(a);
    let (nb, mb) = split_sign(b);
    if ma > INFINITY || mb > INFINITY {
        false
    } else if na {
        if nb {
            mb < ma
        } else {
            ma != 0 || mb != 0
        }
    } else {
        !nb && ma < mb
    }
}

/// `a <= b`.
pub fn at_most(a: u64, b: u64) -> (le: bool)
    ensures
        le == less_or_equal(a, b),
{
    let (na, ma) = split_sign(a);
    let (nb, mb) = split_sign(b);
    if ma > INFINITY || mb > INFINITY {
        false
    } else if na {
        if nb {
            mb <= ma
        } else {
            true
        }
    } else if nb {
        ma == 0 && mb == 0
    } else {
        ma <= mb
    }
}

/// `a == b` as numbers.
pub fn equal(a: u64, b: u64) -> (eq: bool)
    ensures
        eq == same(a, b),
{
    let (na, ma) = split_sign(a);
    let (nb, mb) = split_sign(b);
    if ma > INFINITY || mb > INFINITY {
        false
    } else if na == nb {
        ma == mb
    } else {
        ma == 0 && mb == 0
    }
}

/// The significand and the exponent of a finite magnitude.
pub fn decompose(mag: u64) -> (parts: (u64, i32))
    requires
        mag < INFINITY,
    ensures
        parts.0 == significand(mag),
        parts.1 == exponent(mag),
        parts.0 < 2 * HIDDEN,
        -1074 <= parts.1 <= 971,
        mag >= HIDDEN ==> parts.0 >= HIDDEN,
        mag > 0 ==> parts.0 > 0,
        mag == (parts.1 + 1074) * HIDDEN + parts.0,
{
    if mag < HIDDEN {
        (mag, -1074)
    } else {
        (mag % HIDDEN + HIDDEN, (mag / HIDDEN) as i32 - 1075)
    }
}

/// The same number with the opposite sign.
pub fn flip(x: u64) -> (r: u64)
    ensures
        r == opposite(x),
{
    if x >= SIGN {
        x - SIGN
    } else {
        x + SIGN
    }
}

/// `a * b`.
pub fn multiply(a: u64, b: u64) -> (r: u64)
    ensures
        r == product(a, b),
{
    let (na, ma) = split_sign(a);
    let (nb, mb) = split_sign(b);
    let neg = na != nb;
    if ma > INFINITY || mb > INFINITY {
        NAN
    } else if ma == INFINITY || mb == INFINITY {
        if ma == 0 || mb == 0 {
            NAN
        } else {
            apply_sign(neg, INFINITY)
        }
    } else if ma == 0 || mb == 0 {
        apply_sign(neg, 0)
    } else {
        let (sa, ea) = decompose(ma);
        let (sb, eb) = decompose(mb);
        proof {
            lemma_pow2_values();
            assert(0 < sa * sb < 0x400_0000_0000_0000_0000_0000_0000) by (nonlinear_arith)
                requires
                    0 < sa < 0x20_0000_0000_0000,
                    0 < sb < 0x20_0000_0000_0000,
            ;
        }
        apply_sign(neg, round((sa as u128) * (sb as u128), 1, ea + eb))
    }
}

/// `a / b`.
pub fn divide(a: u64, b: u64) -> (r: u64)
    ensures
        r == quotient(a, b),
{
    let (na, ma) = split_sign(a);
    let (nb, mb) = split_sign(b);
    let neg = na != nb;
    if ma > INFINITY || mb > INFINITY {
        NAN
    } else if ma == INFINITY {
        if mb == INFINITY {
            NAN
        } else {
            apply_sign(neg, INFINITY)
        }
    } else if mb == INFINITY {
        apply_sign(neg, 0)
    } else if mb == 0 {
        if ma == 0 {
            NAN
        } else {
            apply_sign(neg, INFINITY)
        }
    } else if ma == 0 {
        apply_sign(neg, 0)
    } else {
        let (sa, ea) = decompose(ma);
        let (sb, eb) = decompose(mb);
        proof {
            lemma_pow2_values();
        }
        apply_sign(neg, round(sa as u128, sb as u128, ea - eb))
    }
}

/// The bits of a finite magnitude, from its exponent and significand.
pub proof fn lemma_magnitude(x: u64)
    requires
        is_finite(x),
    ensures
        magnitude(x) == (exponent(x) - least_exponent()) * HIDDEN + significand(x),
        significand(x) < 2 * HIDDEN,
        magnitude(x) >= HIDDEN ==> significand(x) >= HIDDEN,
        least_exponent() <= exponent(x) <= 971,
        exponent(x) > least_exponent() ==> magnitude(x) >= HIDDEN,
{
}

/// The magnitudes of finite numbers are ordered as the absolute values they
/// stand for, counted in units of the smaller exponent.
pub proof fn lemma_magnitudes_ordered(a: u64, b: u64)
    requires
        is_finite(a),
        is_finite(b),
        exponent(a) <= exponent(b),
    ensures
        magnitude(a) < magnitude(b) <==> significand(a) < significand(b) * pow2(
            (exponent(b) - exponent(a)) as nat,
        ),
        magnitude(a) == magnitude(b) <==> significand(a) == significand(b) * pow2(
            (exponent(b) - exponent(a)) as nat,
        ),
{
    lemma_pow2_values();
    lemma_magnitude(a);
    lemma_magnitude(b);
    let k = (exponent(b) - exponent(a)) as nat;
    let sb = significand(b);
    if k == 0 {
        assert(sb * pow2(0) == sb) by (nonlinear_arith)
            requires
                pow2(0) == 1,
        ;
    } else {
        lemma_pow2_increases(1, k);
        assert(sb * pow2(k) >= 2 * HIDDEN) by (nonlinear_arith)
            requires
                sb >= HIDDEN,
                pow2(k) >= 2,
        ;
    }
}

/// The order of finite numbers is the order of the values they stand for:
/// counted in units of the smaller exponent, the lesser number has fewer.
pub proof fn lemma_order_is_numeric(a: u64, b: u64)
    requires
        is_finite(a),
        is_finite(b),
    ensures
        ({
            let e = if exponent(a) <= exponent(b) {
                exponent(a)
            } else {
                exponent(b)
            };
            &&& less(a, b) <==> signed_units(a, e) < signed_units(b, e)
            &&& less_or_equal(a, b) <==> signed_units(a, e) <= signed_units(b, e)
            &&& same(a, b) <==> signed_units(a, e) == signed_units(b, e)
        }),
{
    lemma_pow2_values();
    lemma_magnitude(a);
    lemma_magnitude(b);
    assert(significand(a) * pow2(0) == significand(a)) by (nonlinear_arith)
        requires
            pow2(0) == 1,
    ;
    assert(significand(b) * pow2(0) == significand(b)) by (nonlinear_arith)
        requires
            pow2(0) == 1,
    ;
    if exponent(a) <= exponent(b) {
        lemma_magnitudes_ordered(a, b);
        let k = (exponent(b) - exponent(a)) as nat;
        lemma_pow2_pos(k);
        assert(significand(b) == 0 <==> significand(b) * pow2(k) == 0) by (nonlinear_arith)
            requires
                pow2(k) > 0,
                significand(b) >= 0,
        ;
    } else {
        lemma_magnitudes_ordered(b, a);
        let k = (exponent(a) - exponent(b)) as nat;
        lemma_pow2_pos(k);
        assert(significand(a) == 0 <==> significand(a) * pow2(k) == 0) by (nonlinear_arith)
            requires
                pow2(k) > 0,
                significand(a) >= 0,
        ;
    }
}

/// A double rounds to itself.
pub proof fn lemma_round_exact(x: u64)
    requires
        is_finite(x),
        !is_zero(x),
    ensures
        round_magnitude(significand(x), 1, exponent(x)) == magnitude(x),
{
    lemma_pow2_values();
    assert(significand(x) * pow2(0) == significand(x)) by (nonlinear_arith)
        requires
            pow2(0) == 1,
    ;
    lemma_round_representable(x, 0);
}

/// The negation of a number is the number under the opposite sign; that of
/// NaN is NaN.
pub proof fn lemma_negation(x: u64)
    ensures
        negation(x) == if is_nan(x) {
            NAN
        } else {
            opposite(x)
        },
{
    lemma_pow2_values();
    if is_finite(x) && !is_zero(x) {
        assert(significand(MINUS_ONE) == pow2(52));
        assert(exponent(MINUS_ONE) == -52);
        assert(pow2(52) * significand(x) == significand(x) * pow2(52)) by (nonlinear_arith);
        lemma_round_representable(x, 52);
    }
}

/// Adding zero to a number that is not zero leaves the number.
pub proof fn lemma_sum_with_zero(x: u64, zero: u64)
    requires
        is_zero(zero),
        !is_nan(x),
        !is_zero(x),
    ensures
        sum(x, zero) == x,
        sum(zero, x) == x,
{
    lemma_pow2_values();
    if is_finite(x) {
        let e = exponent(zero);
        let j = (exponent(x) - e) as nat;
        assert(0 * pow2(0) == 0) by (nonlinear_arith);
        lemma_pow2_pos(j);
        assert(significand(x) * pow2(j) > 0) by (nonlinear_arith)
            requires
                significand(x) > 0,
                pow2(j) > 0,
        ;
        lemma_round_representable(x, j);
    }
}

/// Neither a sum nor a product depends on the order of its operands.
pub proof fn lemma_commutative(a: u64, b: u64)
    ensures
        sum(a, b) == sum(b, a),
        product(a, b) == product(b, a),
{
    assert(significand(a) * significand(b) == significand(b) * significand(a))
        by (nonlinear_arith);
}

/// A finite number added to one whose exponent is more than 64 below its own
/// is unchanged: the smaller is less than half a unit of its last place.
pub proof fn lemma_far_apart(hi: u64, lo: u64)
    requires
        is_finite(hi),
        is_finite(lo),
        exponent(hi) - exponent(lo) > 64,
    ensures
        sum(hi, lo) == hi,
{
    lemma_pow2_values();
    let sh = significand(hi);
    let sl = significand(lo);
    let el = exponent(lo);
    let d = (exponent(hi) - el) as nat;
    assert(pow2(0) == 1);
    assert(sl * pow2(0) == sl) by (nonlinear_arith)
        requires
            pow2(0) == 1,
    ;
    assert(magnitude(hi) == (el + d + 1074) * HIDDEN + sh);
    if negative(hi) == negative(lo) {
        lemma_absorbs_added(sh, sl, d, el);
    } else {
        lemma_absorbs_taken(sh, sl, d, el);
    }
}

/// The sum of two finite numbers in units of the smaller exponent: with
/// `big` units from the first and `small` from the second, the sum is the
/// rounded total under the common sign, or the rounded difference under the
/// sign of the greater.
pub proof fn lemma_sum_in_units(hi: u64, lo: u64, big: nat, small: nat)
    requires
        is_finite(hi),
        is_finite(lo),
        exponent(hi) >= exponent(lo),
        big == significand(hi) * pow2((exponent(hi) - exponent(lo)) as nat),
        small == significand(lo),
    ensures
        sum(hi, lo) == if negative(hi) == negative(lo) {
            if big + small == 0 {
                with_sign(negative(hi), 0)
            } else {
                with_sign(negative(hi), round_magnitude(big + small, 1, exponent(lo)))
            }
        } else if big == small {
            0
        } else if big > small {
            with_sign(negative(hi), round_magnitude((big - small) as nat, 1, exponent(lo)))
        } else {
            with_sign(negative(lo), round_magnitude((small - big) as nat, 1, exponent(lo)))
        },
{
    lemma_pow2_values();
    assert(significand(lo) * pow2(0) == significand(lo)) by (nonlinear_arith)
        requires
            pow2(0) == 1,
    ;
}

/// The sum of two finite numbers of which the first has the exponent that is
/// not the smaller.
fn add_ordered(hi: u64, lo: u64) -> (r: u64)
    requires
        is_finite(hi),
        is_finite(lo),
        exponent(hi) >= exponent(lo),
    ensures
        r == sum(hi, lo),
{
    let (nh, mh) = split_sign(hi);
    let (nl, ml) = split_sign(lo);
    let (sh, eh) = decompose(mh);
    let (sl, el) = decompose(ml);
    let d: i32 = eh - el;
    if d > 64 {
        proof {
            lemma_far_apart(hi, lo);
        }
        hi
    } else {
        let p = power_of_two(d as u32);
        proof {
            lemma_pow2_values();
            lemma_pow2_increases(d as nat, 64);
            lemma_pow2_pos(d as nat);
            assert(sh * p < 0x20_0000_0000_0000 * 0x1_0000_0000_0000_0000) by (nonlinear_arith)
                requires
                    0 <= sh < 0x20_0000_0000_0000,
                    0 < p <= 0x1_0000_0000_0000_0000,
            ;
        }
        let big: u128 = (sh as u128) * p;
        let small: u128 = sl as u128;
        proof {
            lemma_sum_in_units(hi, lo, big as nat, small as nat);
        }
        if nh == nl {
            let total = big + small;
            if total == 0 {
                apply_sign(nh, 0)
            } else {
                apply_sign(nh, round(total, 1, el))
            }
        } else if big == small {
            0
        } else if big > small {
            apply_sign(nh, round(big - small, 1, el))
        } else {
            apply_sign(nl, round(small - big, 1, el))
        }
    }
}

/// `a + b`.
pub fn add(a: u64, b: u64) -> (r: u64)
    ensures
        r == sum(a, b),
{
    let (na, ma) = split_sign(a);
    let (nb, mb) = split_sign(b);
    if ma > INFINITY || mb > INFINITY {
        NAN
    } else if ma == INFINITY {
        if mb == INFINITY && na != nb {
            NAN
        } else {
            a
        }
    } else if mb == INFINITY {
        b
    } else {
        let (_, ea) = decompose(ma);
        let (_, eb) = decompose(mb);
        if ea >= eb {
            add_ordered(a, b)
        } else {
            proof {
                lemma_commutative(a, b);
            }
            add_ordered(b, a)
        }
    }
}

/// `a - b`.
pub fn subtract(a: u64, b: u64) -> (r: u64)
    ensures
        r == difference(a, b),
{
    self::add(a, flip(b))
}

/// `-x`.
pub fn negate(x: u64) -> (r: u64)
    ensures
        r == negation(x),
{
    multiply(MINUS_ONE, x)
}

} // verus!
