//! Rounding an exact positive value to the nearest double, in integer
//! arithmetic.
use vstd::prelude::*;
use vstd::arithmetic::div_mod::{
    lemma_basic_div, lemma_fundamental_div_mod, lemma_fundamental_div_mod_converse,
    lemma_small_mod,
};
use vstd::arithmetic::mul::{lemma_mul_inequality, lemma_mul_strict_inequality};
use vstd::arithmetic::power2::{
    lemma2_to64, lemma2_to64_rest, lemma_pow2_adds, lemma_pow2_pos, lemma_pow2_strictly_increases,
    lemma_pow2_unfold, pow2,
};
use crate::number::{
    bit_length, exponent, floor_log2, is_finite, is_zero, magnitude, nearest_even,
    nearest_even_scaled, reaches, round_magnitude, significand, unit_exponent, HIDDEN, INFINITY,
};

verus! {

/// Powers of two grow with their exponents.
pub proof fn lemma_pow2_increases(a: nat, b: nat)
    requires
        a <= b,
    ensures
        pow2(a) <= pow2(b),
{
    if a < b {
        lemma_pow2_strictly_increases(a, b);
    }
}

/// The powers of two that the formats of this module are made of.
pub proof fn lemma_pow2_values()
    ensures
        pow2(0) == 1,
        pow2(1) == 2,
        pow2(52) == 0x10_0000_0000_0000,
        pow2(53) == 0x20_0000_0000_0000,
        pow2(64) == 0x1_0000_0000_0000_0000,
        pow2(106) == 0x400_0000_0000_0000_0000_0000_0000,
        pow2(118) == 0x40_0000_0000_0000_0000_0000_0000_0000,
        pow2(119) == 0x80_0000_0000_0000_0000_0000_0000_0000,
        pow2(127) == 0x8000_0000_0000_0000_0000_0000_0000_0000,
        pow2(128) == 0x1_0000_0000_0000_0000_0000_0000_0000_0000,
{
    lemma_pow2_adds(64, 64);
    lemma2_to64();
    lemma2_to64_rest();
    lemma_pow2_adds(53, 53);
    lemma_pow2_adds(64, 54);
    lemma_pow2_adds(64, 55);
    lemma_pow2_adds(64, 63);
}

/// A value below `2^x`, scaled by `2^y`, is below `2^(x + y)`.
pub proof fn lemma_scaled_below(a: nat, x: nat, y: nat)
    requires
        a < pow2(x),
    ensures
        a * pow2(y) < pow2(x + y),
{
    lemma_pow2_pos(y);
    lemma_mul_strict_inequality(a as int, pow2(x) as int, pow2(y) as int);
    lemma_pow2_adds(x, y);
}

/// A value of at least `2^x`, scaled by `2^y`, is at least `2^(x + y)`.
pub proof fn lemma_scaled_reaches(a: nat, x: nat, y: nat)
    requires
        a >= pow2(x),
    ensures
        a * pow2(y) >= pow2(x + y),
{
    lemma_pow2_pos(y);
    lemma_mul_inequality(pow2(x) as int, a as int, pow2(y) as int);
    lemma_pow2_adds(x, y);
}

/// A positive number with `n` binary digits is at least `2^(n - 1)` and
/// below `2^n`.
pub proof fn lemma_bit_length_bounds(m: nat)
    requires
        m > 0,
    ensures
        bit_length(m) >= 1,
        pow2((bit_length(m) - 1) as nat) <= m < pow2(bit_length(m)),
    decreases m,
{
    lemma2_to64();
    if m == 1 {
        assert(bit_length(1) == 1 + bit_length(0));
    } else {
        let half = m / 2;
        lemma_bit_length_bounds(half);
        lemma_pow2_unfold(bit_length(m));
        lemma_pow2_unfold(bit_length(half));
    }
}

/// The number of binary digits of a number between `2^(k - 1)` and `2^k` is
/// `k`.
pub proof fn lemma_bit_length_is(m: nat, k: nat)
    requires
        k >= 1,
        pow2((k - 1) as nat) <= m < pow2(k),
    ensures
        bit_length(m) == k,
{
    lemma_pow2_pos((k - 1) as nat);
    lemma_bit_length_bounds(m);
    let n = bit_length(m);
    if n < k {
        lemma_pow2_increases(n, (k - 1) as nat);
    } else if n > k {
        lemma_pow2_increases(k, (n - 1) as nat);
    }
}

/// A number below `2^k` has at most `k` binary digits.
pub proof fn lemma_bit_length_at_most(m: nat, k: nat)
    requires
        m < pow2(k),
    ensures
        bit_length(m) <= k,
{
    if m > 0 {
        lemma_bit_length_bounds(m);
        if bit_length(m) > k {
            lemma_pow2_increases(k, (bit_length(m) - 1) as nat);
        }
    }
}

/// Two to the power `n`.
pub fn power_of_two(n: u32) -> (p: u128)
    requires
        n < 128,
    ensures
        p == pow2(n as nat),
{
    let mut p: u128 = 1;
    let mut i: u32 = 0;
    proof {
        lemma_pow2_values();
    }
    while i < n
        invariant
            i <= n,
            n < 128,
            p == pow2(i as nat),
            pow2(127) == 0x8000_0000_0000_0000_0000_0000_0000_0000,
        decreases n - i,
    {
        proof {
            lemma_pow2_increases(i as nat, 126);
            lemma_pow2_unfold(127);
            lemma_pow2_unfold((i + 1) as nat);
        }
        p = p * 2;
        i = i + 1;
    }
    p
}

/// The number of binary digits of `m`.
pub fn count_bits(m: u128) -> (n: u32)
    ensures
        n == bit_length(m as nat),
        n <= 128,
{
    let mut n: u32 = 0;
    let mut rest: u128 = m;
    proof {
        lemma_pow2_values();
        lemma_bit_length_at_most(m as nat, 128);
    }
    while rest > 0
        invariant
            n <= 128,
            n + bit_length(rest as nat) == bit_length(m as nat),
            n + bit_length(rest as nat) <= 128,
        decreases rest,
    {
        rest = rest / 2;
        n = n + 1;
    }
    n
}

/// The integer nearest to `num / den`, ties to even.
pub fn nearest(num: u128, den: u128) -> (q: u128)
    requires
        den > 0,
        num < pow2(127),
    ensures
        q == nearest_even(num as nat, den as nat),
        q <= num + 1,
{
    proof {
        lemma_pow2_values();
    }
    let q = num / den;
    let r = num % den;
    assert(q <= num) by (nonlinear_arith)
        requires
            q == num / den,
            den > 0,
    ;
    if r > den - r || (r == den - r && q % 2 == 1) {
        q + 1
    } else {
        q
    }
}

/// The nearest integer is at most one half away, and where two integers are
/// equally near, it is the even one.
pub proof fn lemma_nearest_even_is_nearest(num: nat, den: nat)
    requires
        den > 0,
    ensures
        2 * (num - nearest_even(num, den) * den) <= den,
        2 * (nearest_even(num, den) * den - num) <= den,
        2 * (num - nearest_even(num, den) * den) == den ==> nearest_even(num, den) % 2 == 0,
        2 * (nearest_even(num, den) * den - num) == den ==> nearest_even(num, den) % 2 == 0,
{
    let q = num / den;
    let r = num % den;
    lemma_fundamental_div_mod(num as int, den as int);
    assert(den * q == q * den) by (nonlinear_arith);
    assert((q + 1) * den == q * den + den) by (nonlinear_arith);
}

/// A value below one half rounds to zero.
pub proof fn lemma_rounds_to_zero(num: nat, den: nat)
    requires
        2 * num < den,
    ensures
        nearest_even(num, den) == 0,
{
    lemma_basic_div(num as int, den as int);
    lemma_small_mod(num, den);
}

/// The magnitude bits of the double nearest to `num / den * 2^exp`.
pub fn round(num: u128, den: u128, exp: i32) -> (bits: u64)
    requires
        0 < num < pow2(118),
        0 < den < pow2(53),
        -2200 <= exp <= 2200,
    ensures
        bits == round_magnitude(num as nat, den as nat, exp as int),
        bits <= INFINITY,
{
    proof {
        lemma_pow2_values();
        lemma_bit_length_bounds(num as nat);
        lemma_bit_length_bounds(den as nat);
        lemma_bit_length_at_most(num as nat, 118);
        lemma_bit_length_at_most(den as nat, 53);
    }
    let ln: i32 = count_bits(num) as i32;
    let ld: i32 = count_bits(den) as i32;
    let k: i32 = ln - ld;
    let reach: bool;
    if k >= 0 {
        let p = power_of_two(k as u32);
        proof {
            lemma_scaled_below(den as nat, ld as nat, k as nat);
            lemma_pow2_increases(ln as nat, 118);
        }
        reach = num >= den * p;
    } else {
        let p = power_of_two((-k) as u32);
        proof {
            lemma_scaled_below(num as nat, ln as nat, (-k) as nat);
            lemma_pow2_increases(ld as nat, 53);
        }
        reach = num * p >= den;
    }
    assert(reach == reaches(num as nat, den as nat, k as int));
    let fl: i32 = if reach {
        k
    } else {
        k - 1
    };
    assert(fl == floor_log2(num as nat, den as nat));
    let unclamped: i32 = fl + exp - 52;
    let t: i32 = if unclamped < -1074 {
        -1074
    } else {
        unclamped
    };
    assert(t == unit_exponent(num as nat, den as nat, exp as int));
    let shift: i32 = exp - t;
    let q: u128;
    if shift >= 0 {
        let p = power_of_two(shift as u32);
        proof {
            lemma_scaled_below(num as nat, ln as nat, shift as nat);
            lemma_pow2_increases((ln + shift) as nat, 106);
        }
        q = nearest(num * p, den);
    } else {
        let down: i32 = -shift;
        if down >= k + 2 {
            proof {
                // den * 2^down is at least 2^(ld - 1 + down), which is above 2 * num
                lemma_scaled_reaches(den as nat, (ld - 1) as nat, down as nat);
                lemma_pow2_increases((ln + 1) as nat, (ld - 1 + down) as nat);
                lemma_pow2_unfold((ln + 1) as nat);
                lemma_rounds_to_zero(num as nat, den as nat * pow2(down as nat));
            }
            q = 0;
        } else {
            let p = power_of_two(down as u32);
            proof {
                lemma_scaled_below(den as nat, ld as nat, down as nat);
                lemma_pow2_increases((ld + down) as nat, 119);
                lemma_scaled_reaches(den as nat, 0, down as nat);
                lemma_pow2_pos(down as nat);
            }
            q = nearest(num, den * p);
        }
    }
    assert(q == nearest_even_scaled(num as nat, den as nat, shift as int));
    let steps: u128 = (t + 1074) as u128;
    let bits: u128 = steps * 0x10_0000_0000_0000u128 + q;
    if bits >= INFINITY as u128 {
        INFINITY
    } else {
        bits as u64
    }
}

/// The exponent of the last significand bit of a whole number of units:
/// fifty-three below the number's bit length, from the units' exponent.
pub proof fn lemma_unit_exponent_of_integer(m: nat, n: nat, exp: int)
    requires
        n >= 1,
        pow2((n - 1) as nat) <= m < pow2(n),
        n + exp - 53 >= -1074,
    ensures
        unit_exponent(m, 1, exp) == n + exp - 53,
{
    lemma2_to64();
    lemma_bit_length_is(m, n);
    assert(bit_length(1) == 1 + bit_length(0));
    assert(reaches(m, 1, n - 1)) by {
        assert(1 * pow2((n - 1) as nat) == pow2((n - 1) as nat));
    }
}

/// Rounding to a multiple of `2^d` a value that is `sl` above the multiple
/// `sh`, with `sl` below half of `2^d`, gives `sh`.
pub proof fn lemma_nearest_below_half(sh: nat, sl: nat, d: nat)
    requires
        2 * sl < pow2(d),
    ensures
        nearest_even(sh * pow2(d) + sl, pow2(d)) == sh,
{
    lemma_fundamental_div_mod_converse(
        (sh * pow2(d) + sl) as int,
        pow2(d) as int,
        sh as int,
        sl as int,
    );
}

/// Rounding to a multiple of `2^d` a value that is `sl` below the multiple
/// `sh`, with `sl` positive and below half of `2^d`, gives `sh`.
pub proof fn lemma_nearest_above_half(sh: nat, sl: nat, d: nat)
    requires
        sh >= 1,
        0 < sl,
        2 * sl < pow2(d),
    ensures
        sh * pow2(d) - sl >= 0,
        nearest_even((sh * pow2(d) - sl) as nat, pow2(d)) == sh,
{
    let p = pow2(d);
    assert(sh * p - sl == (sh - 1) * p + (p - sl)) by (nonlinear_arith);
    assert((sh - 1) * p >= 0) by (nonlinear_arith)
        requires
            sh >= 1,
            p >= 0,
    ;
    lemma_fundamental_div_mod_converse(
        sh * p - sl,
        p as int,
        sh - 1,
        p - sl,
    );
}

/// A double's own value, written in units of any smaller power of two, rounds
/// to that double.
pub proof fn lemma_round_representable(x: u64, j: nat)
    requires
        is_finite(x),
        !is_zero(x),
    ensures
        round_magnitude(significand(x) * pow2(j), 1, exponent(x) - j) == magnitude(x),
{
    lemma_pow2_values();
    let s = significand(x);
    let e = exponent(x);
    let big = s * pow2(j);
    lemma_bit_length_bounds(s);
    let n = bit_length(s);
    if magnitude(x) >= HIDDEN {
        lemma_bit_length_is(s, 53);
    } else {
        lemma_bit_length_at_most(s, 52);
    }
    lemma_scaled_reaches(s, (n - 1) as nat, j);
    lemma_scaled_below(s, n, j);
    lemma_bit_length_is(big, n + j);
    assert(bit_length(1) == 1 + bit_length(0));
    assert(1 * pow2((n + j - 1) as nat) == pow2((n + j - 1) as nat));
    assert(floor_log2(big, 1) == n + j - 1);
    assert(unit_exponent(big, 1, e - j) == e);
    if j == 0 {
        assert(big * pow2(0) == big) by (nonlinear_arith)
            requires
                pow2(0) == 1,
        ;
        assert(s * pow2(0) == s) by (nonlinear_arith)
            requires
                pow2(0) == 1,
        ;
        assert(nearest_even(s, 1) == s);
    } else {
        assert(1 * pow2(j) == pow2(j));
        lemma_pow2_pos(j);
        lemma_nearest_below_half(s, 0, j);
    }
}

/// A normal significand at exponent `el + d`, plus less than `2^53` units of
/// `2^el`, with `d` above 64, rounds to itself.
pub proof fn lemma_absorbs_added(sh: nat, sl: nat, d: nat, el: int)
    requires
        pow2(52) <= sh < pow2(53),
        sl < pow2(53),
        d > 64,
        -1074 <= el,
        el + d <= 971,
    ensures
        round_magnitude(sh * pow2(d) + sl, 1, el) == (el + d + 1074) * HIDDEN + sh,
{
    lemma_pow2_values();
    let p = pow2(d);
    let m = sh * p + sl;
    lemma_pow2_increases(65, d);
    lemma_pow2_adds(64, 1);
    lemma_scaled_reaches(sh, 52, d);
    assert(m < pow2(53 + d)) by {
        lemma_pow2_adds(53, d);
        assert(sh * p <= (pow2(53) - 1) * p) by (nonlinear_arith)
            requires
                sh <= pow2(53) - 1,
                p >= 0,
        ;
        assert((pow2(53) - 1) * p == pow2(53) * p - p) by (nonlinear_arith);
    }
    lemma_unit_exponent_of_integer(m, 53 + d, el);
    assert(1 * p == p);
    lemma_nearest_below_half(sh, sl, d);
}

/// A normal significand at exponent `el + d`, less fewer than `2^53` units of
/// `2^el`, with `d` above 64, rounds to itself.
pub proof fn lemma_absorbs_taken(sh: nat, sl: nat, d: nat, el: int)
    requires
        pow2(52) <= sh < pow2(53),
        sl < pow2(53),
        d > 64,
        -1074 <= el,
        el + d <= 971,
    ensures
        sh * pow2(d) - sl > 0,
        round_magnitude((sh * pow2(d) - sl) as nat, 1, el) == (el + d + 1074) * HIDDEN + sh,
{
    lemma_pow2_values();
    let p = pow2(d);
    lemma_pow2_increases(65, d);
    lemma_pow2_adds(64, 1);
    lemma_scaled_reaches(sh, 52, d);
    lemma_scaled_below(sh, 53, d);
    lemma_pow2_increases(65, 52 + d);
    if sl == 0 {
        lemma_absorbs_added(sh, 0, d, el);
    } else if sh > pow2(52) {
        let m = (sh * p - sl) as nat;
        assert(sh * p - sl >= pow2(52 + d)) by {
            lemma_scaled_reaches((sh - 1) as nat, 52, d);
            assert(sh * p - sl == (sh - 1) * p + (p - sl)) by (nonlinear_arith);
        }
        lemma_unit_exponent_of_integer(m, 53 + d, el);
        assert(1 * p == p);
        lemma_nearest_above_half(sh, sl, d);
    } else {
        let half = pow2((d - 1) as nat);
        lemma_pow2_unfold(d);
        lemma_pow2_increases(64, (d - 1) as nat);
        lemma_pow2_unfold(52 + d);
        let m = (sh * p - sl) as nat;
        assert(sh * p == pow2(52 + d)) by {
            lemma_pow2_adds(52, d);
        }
        lemma_unit_exponent_of_integer(m, 52 + d, el);
        assert(1 * half == half);
        assert(sh * p == pow2(53) * half) by (nonlinear_arith)
            requires
                sh == pow2(52),
                pow2(53) == 2 * pow2(52),
                p == 2 * half,
        ;
        lemma_nearest_above_half(pow2(53), sl, (d - 1) as nat);
    }
}

} // verus!
