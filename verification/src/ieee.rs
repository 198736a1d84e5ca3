//! Binary floating-point values, carried as their IEEE 754 bit patterns.
//!
//! A single-precision value is a `u32`, a double-precision value a `u64`. The
//! functions here convert between the two widths and integers, and order
//! values, on the bit patterns alone.
use vstd::prelude::*;

verus! {

/// Two to the power `k`.
pub open spec fn two(k: nat) -> nat
    decreases k,
{
    if k == 0 {
        1
    } else {
        2 * two((k - 1) as nat)
    }
}

proof fn lemma_two_positive(k: nat)
    ensures
        two(k) >= 1,
    decreases k,
{
    if k > 0 {
        lemma_two_positive((k - 1) as nat);
    }
}

proof fn lemma_two_grows(a: nat, b: nat)
    requires
        a <= b,
    ensures
        1 <= two(a) <= two(b),
    decreases b,
{
    lemma_two_positive(a);
    if a < b {
        lemma_two_grows(a, (b - 1) as nat);
    }
}

proof fn lemma_two_sum(a: nat, b: nat)
    ensures
        two(a + b) == two(a) * two(b),
    decreases b,
{
    if b > 0 {
        lemma_two_sum(a, (b - 1) as nat);
        assert(two(a) * (2 * two((b - 1) as nat)) == 2 * (two(a) * two((b - 1) as nat)))
            by (nonlinear_arith);
    } else {
        assert(two(a) * two(0) == two(a)) by (nonlinear_arith)
            requires
                two(0) == 1,
        ;
    }
}

proof fn lemma_two_values()
    ensures
        two(23) == 0x80_0000,
        two(29) == 0x2000_0000,
        two(52) == 0x10_0000_0000_0000,
        two(53) == 0x20_0000_0000_0000,
        two(64) == 0x1_0000_0000_0000_0000,
{
    reveal_with_fuel(two, 30);
    assert(two(29) == 0x2000_0000);
    assert(two(52) == 0x10_0000_0000_0000) by {
        lemma_two_sum(29, 23);
    }
    assert(two(64) == 0x1_0000_0000_0000_0000) by {
        lemma_two_sum(52, 12);
    }
}

fn power(k: u32) -> (r: u128)
    requires
        k <= 64,
    ensures
        r == two(k as nat),
{
    let mut i: u32 = 0;
    let mut value: u128 = 1;
    while i < k
        invariant
            i <= k <= 64,
            value == two(i as nat),
        decreases k - i,
    {
        proof {
            lemma_two_values();
            lemma_two_grows(i as nat, 64);
        }
        value = value * 2;
        i += 1;
    }
    value
}

/// `n / d` rounded to the nearest integer, a tie to the even one.
pub open spec fn round_even(n: nat, d: nat) -> nat {
    let q = n / d;
    let twice = 2 * (n % d);
    if twice > d || (twice == d && q % 2 == 1) {
        q + 1
    } else {
        q
    }
}

fn rounded(n: u128, d: u128) -> (r: u128)
    requires
        0 < d <= 0x1_0000_0000_0000_0000,
        n <= 0x1_0000_0000_0000_0000_0000,
    ensures
        r == round_even(n as nat, d as nat),
        r <= n + 1,
{
    let q: u128 = n / d;
    let rest: u128 = n % d;
    proof {
        assert(q <= n && rest < d) by (nonlinear_arith)
            requires
                q == n / d,
                rest == n % d,
                d > 0,
        ;
    }
    if 2 * rest > d || (2 * rest == d && q % 2 == 1) {
        q + 1
    } else {
        q
    }
}

/// The single-precision value nearest to a double-precision one, ties to the
/// even pattern; too large a magnitude becomes infinite.
pub open spec fn narrow(bits: u64) -> u32 {
    let sign = bits as nat / 0x8000_0000_0000_0000;
    let e = (bits as nat / 0x10_0000_0000_0000) % 2048;
    let m = bits as nat % 0x10_0000_0000_0000;
    let magnitude: nat = if e == 2047 {
        if m == 0 {
            0x7f80_0000
        } else {
            0x7fc0_0000
        }
    } else if e >= 897 {
        let q = round_even(((e - 896) * 0x10_0000_0000_0000 + m) as nat, 0x2000_0000);
        if q >= 0x7f80_0000 {
            0x7f80_0000
        } else {
            q
        }
    } else if e >= 872 {
        round_even(0x10_0000_0000_0000 + m, two((926 - e) as nat))
    } else {
        0
    };
    (sign * 0x8000_0000 + magnitude) as u32
}

proof fn lemma_small_quotient(n: nat, k: nat)
    requires
        n < 0x20_0000_0000_0000,
        30 <= k,
    ensures
        round_even(n, two(k)) <= 0x80_0000,
{
    lemma_two_values();
    lemma_two_grows(30, k);
    assert(two(30) == 2 * two(29));
    let d = two(k);
    assert(n / d <= 0x7f_ffff) by (nonlinear_arith)
        requires
            n < 0x20_0000_0000_0000,
            d >= 0x4000_0000,
    ;
}

pub fn to_single(bits: u64) -> (r: u32)
    ensures
        r == narrow(bits),
{
    let sign: u64 = bits / 0x8000_0000_0000_0000;
    let e: u64 = (bits / 0x10_0000_0000_0000) % 2048;
    let m: u64 = bits % 0x10_0000_0000_0000;
    let magnitude: u32 = if e == 2047 {
        if m == 0 {
            0x7f80_0000
        } else {
            0x7fc0_0000
        }
    } else if e >= 897 {
        let q: u128 = rounded(
            ((e - 896) as u128) * 0x10_0000_0000_0000 + (m as u128),
            0x2000_0000,
        );
        if q >= 0x7f80_0000 {
            0x7f80_0000
        } else {
            q as u32
        }
    } else if e >= 872 {
        proof {
            lemma_two_values();
            lemma_two_grows((926 - e) as nat, 64);
            lemma_small_quotient(0x10_0000_0000_0000 + m as nat, (926 - e) as nat);
        }
        rounded(0x10_0000_0000_0000 + (m as u128), power((926 - e) as u32)) as u32
    } else {
        0
    };
    if sign == 1 {
        0x8000_0000 + magnitude
    } else {
        magnitude
    }
}

/// The position of the highest set bit of a positive number.
pub open spec fn top(n: nat) -> nat
    decreases n,
{
    if n < 2 {
        0
    } else {
        1 + top(n / 2)
    }
}

proof fn lemma_top(n: nat)
    requires
        n >= 1,
    ensures
        two(top(n)) <= n < two(top(n) + 1),
    decreases n,
{
    if n >= 2 {
        lemma_top(n / 2);
        assert(two(top(n)) == 2 * two(top(n / 2)));
        assert(two(top(n) + 1) == 2 * two(top(n / 2) + 1));
    } else {
        assert(two(1) == 2 * two(0));
    }
}

proof fn lemma_top_bound(n: nat)
    requires
        1 <= n <= u64::MAX,
    ensures
        top(n) <= 63,
{
    lemma_top(n);
    lemma_two_values();
    if top(n) >= 64 {
        lemma_two_grows(64, top(n));
    }
}

/// The double-precision value nearest to an integer, ties to even.
pub open spec fn double_of(n: nat) -> u64 {
    if n == 0 {
        0
    } else {
        let k = top(n);
        let scaled = if k <= 52 {
            n * two((52 - k) as nat)
        } else {
            round_even(n, two((k - 52) as nat))
        };
        ((1022 + k) * 0x10_0000_0000_0000 + scaled) as u64
    }
}

fn highest(n: u64) -> (r: u32)
    requires
        n >= 1,
    ensures
        r == top(n as nat),
        r <= 63,
    decreases n,
{
    proof {
        lemma_top_bound(n as nat);
    }
    if n < 2 {
        0
    } else {
        1 + highest(n / 2)
    }
}

proof fn lemma_scaled(n: nat, k: nat)
    requires
        k == top(n),
        1 <= n <= u64::MAX,
    ensures
        k <= 52 ==> n * two((52 - k) as nat) < two(53),
        k > 52 ==> round_even(n, two((k - 52) as nat)) <= two(53),
{
    lemma_top(n);
    lemma_top_bound(n);
    lemma_two_values();
    if k <= 52 {
        lemma_two_sum(k + 1, (52 - k) as nat);
        lemma_two_positive((52 - k) as nat);
        let d = two((52 - k) as nat);
        let t = two(k + 1);
        assert(n * d < t * d) by (nonlinear_arith)
            requires
                n < t,
                d >= 1,
        ;
    } else {
        lemma_two_sum(53, (k - 52) as nat);
        lemma_two_positive((k - 52) as nat);
        let d = two((k - 52) as nat);
        let t = two(k + 1);
        assert(n / d < 0x20_0000_0000_0000) by (nonlinear_arith)
            requires
                n < t,
                t == 0x20_0000_0000_0000 * d,
                d >= 1,
        ;
    }
}

/// The double-precision value nearest to an unsigned integer.
pub fn double_of_unsigned(n: u64) -> (r: u64)
    ensures
        r == double_of(n as nat),
        r < 0x8000_0000_0000_0000,
{
    if n == 0 {
        return 0;
    }
    let k: u32 = highest(n);
    proof {
        lemma_scaled(n as nat, k as nat);
        lemma_two_values();
    }
    let scaled: u128 = if k <= 52 {
        proof {
            lemma_two_grows((52 - k) as nat, 52);
            let d = two((52 - k) as nat);
            assert(n * d <= 0xffff_ffff_ffff_ffff * 0x10_0000_0000_0000) by (nonlinear_arith)
                requires
                    n <= 0xffff_ffff_ffff_ffff,
                    d <= 0x10_0000_0000_0000,
            ;
        }
        (n as u128) * power(52 - k)
    } else {
        proof {
            lemma_two_grows((k - 52) as nat, 64);
        }
        rounded(n as u128, power(k - 52))
    };
    ((1022 + k) as u64) * 0x10_0000_0000_0000 + (scaled as u64)
}

/// The integer part of a single-precision value, clamped to `0..=max`; not a
/// number gives zero.
pub open spec fn clamped(bits: u32, max: nat) -> nat {
    let e = bits as nat / 0x80_0000;
    let m = bits as nat % 0x80_0000;
    if e < 127 || e >= 256 || (e == 255 && m != 0) {
        0
    } else if e >= 127 + 64 {
        max
    } else {
        let whole = (0x80_0000 + m) * two((e - 127) as nat) / 0x80_0000;
        if whole > max {
            max
        } else {
            whole
        }
    }
}

fn clamp(bits: u32, max: u64) -> (r: u64)
    ensures
        r == clamped(bits, max as nat),
{
    let e: u32 = bits / 0x80_0000;
    let m: u32 = bits % 0x80_0000;
    if e < 127 || e >= 256 || (e == 255 && m != 0) {
        0
    } else if e >= 127 + 64 {
        max
    } else {
        proof {
            lemma_two_values();
            lemma_two_grows((e - 127) as nat, 64);
            let d = two((e - 127) as nat);
            assert((0x80_0000 + m) * d <= 0x100_0000 * 0x1_0000_0000_0000_0000)
                by (nonlinear_arith)
                requires
                    m < 0x80_0000,
                    d <= 0x1_0000_0000_0000_0000,
            ;
        }
        let whole: u128 = ((0x80_0000 + m) as u128) * power(e - 127) / 0x80_0000;
        if whole > max as u128 {
            max
        } else {
            whole as u64
        }
    }
}

/// The integer part of a single-precision value as a 32-bit number.
pub fn to_u32(bits: u32) -> (r: u32)
    ensures
        r == clamped(bits, u32::MAX as nat),
{
    let r: u64 = clamp(bits, 0xffff_ffff);
    r as u32
}

/// The integer part of a single-precision value as a 64-bit number.
pub fn to_u64(bits: u32) -> (r: u64)
    ensures
        r == clamped(bits, u64::MAX as nat),
{
    clamp(bits, u64::MAX)
}

/// Whether a single-precision pattern denotes no number.
pub open spec fn is_nan(bits: u32) -> bool {
    bits as int % 0x8000_0000 > 0x7f80_0000
}

/// The position of a single-precision value in the order of values.
pub open spec fn rank(bits: u32) -> int {
    if bits >= 0x8000_0000 {
        -(bits - 0x8000_0000)
    } else {
        bits as int
    }
}

/// Whether `a` is at least `b`; false when either is no number.
pub open spec fn at_least(a: u32, b: u32) -> bool {
    !is_nan(a) && !is_nan(b) && rank(a) >= rank(b)
}

/// The position of a single-precision value in the order of values.
pub fn position(bits: u32) -> (r: i64)
    ensures
        r == rank(bits),
{
    if bits >= 0x8000_0000 {
        0 - ((bits - 0x8000_0000) as i64)
    } else {
        bits as i64
    }
}

pub fn not_a_number(bits: u32) -> (r: bool)
    ensures
        r == is_nan(bits),
{
    bits % 0x8000_0000 > 0x7f80_0000
}

/// Whether `a >= b` as single-precision values.
pub fn ge(a: u32, b: u32) -> (r: bool)
    ensures
        r == at_least(a, b),
{
    !not_a_number(a) && !not_a_number(b) && position(a) >= position(b)
}

/// Whether `a` is less than `b`; false when either is no number.
pub open spec fn below(a: u32, b: u32) -> bool {
    !is_nan(a) && !is_nan(b) && rank(a) < rank(b)
}

/// Whether `a < b` as single-precision values.
pub fn lt(a: u32, b: u32) -> (r: bool)
    ensures
        r == below(a, b),
{
    !not_a_number(a) && !not_a_number(b) && position(a) < position(b)
}

/// The position of a double-precision value in the order of values.
pub open spec fn rank_double(bits: u64) -> int {
    if bits >= 0x8000_0000_0000_0000 {
        -(bits - 0x8000_0000_0000_0000)
    } else {
        bits as int
    }
}

/// The position of a double-precision value in the order of values.
pub fn position_double(bits: u64) -> (r: i128)
    ensures
        r == rank_double(bits),
{
    if bits >= 0x8000_0000_0000_0000 {
        0 - ((bits - 0x8000_0000_0000_0000) as i128)
    } else {
        bits as i128
    }
}

/// Whether `a` is less than `b`; false when either is no number.
pub open spec fn below_double(a: u64, b: u64) -> bool {
    !is_nan_double(a) && !is_nan_double(b) && rank_double(a) < rank_double(b)
}

/// Whether `a < b` as double-precision values.
pub fn lt_double(a: u64, b: u64) -> (r: bool)
    ensures
        r == below_double(a, b),
{
    let m: u64 = 0x8000_0000_0000_0000;
    a % m <= 0x7ff0_0000_0000_0000 && b % m <= 0x7ff0_0000_0000_0000 && position_double(a)
        < position_double(b)
}

/// Whether a double-precision pattern denotes zero.
pub open spec fn is_zero(bits: u64) -> bool {
    bits as int % 0x8000_0000_0000_0000 == 0
}

/// Whether a double-precision pattern denotes no number.
pub open spec fn is_nan_double(bits: u64) -> bool {
    bits as int % 0x8000_0000_0000_0000 > 0x7ff0_0000_0000_0000
}

/// Whether two double-precision patterns denote equal values.
pub open spec fn equal_double(a: u64, b: u64) -> bool {
    !is_nan_double(a) && !is_nan_double(b) && (a == b || (is_zero(a) && is_zero(b)))
}

/// Whether `a == b` as double-precision values.
pub fn same_double(a: u64, b: u64) -> (r: bool)
    ensures
        r == equal_double(a, b),
{
    let m: u64 = 0x8000_0000_0000_0000;
    a % m <= 0x7ff0_0000_0000_0000 && b % m <= 0x7ff0_0000_0000_0000 && (a == b || (a % m == 0 && b
        % m == 0))
}

/// Whether double-precision bits stand for a number that is neither infinite
/// nor no number at all.
pub open spec fn is_finite(bits: u64) -> bool {
    (bits as nat) % 0x8000_0000_0000_0000 < 0x7FF0_0000_0000_0000
}

pub fn finite(bits: u64) -> (r: bool)
    ensures
        r == is_finite(bits),
{
    bits % 0x8000_0000_0000_0000 < 0x7FF0_0000_0000_0000
}

/// Whether single-precision bits stand for a number that is neither infinite
/// nor no number at all.
pub open spec fn is_finite_single(bits: u32) -> bool {
    (bits as nat) % 0x8000_0000 < 0x7F80_0000
}

pub fn finite_single(bits: u32) -> (r: bool)
    ensures
        r == is_finite_single(bits),
{
    bits % 0x8000_0000 < 0x7F80_0000
}

/// Some powers of two.
pub proof fn lemma_two_small()
    ensures
        two(52) == 0x10_0000_0000_0000,
        two(51) == 0x8_0000_0000_0000,
        two(50) == 0x4_0000_0000_0000,
        two(47) == 0x8000_0000_0000,
{
    reveal_with_fuel(two, 14);
    assert(two(13) == 8192);
    assert(two(26) == 8192 * two(13));
    assert(two(39) == 8192 * two(26));
    assert(two(47) == 256 * two(39));
}

/// Some more powers of two.
pub proof fn lemma_two_more()
    ensures
        two(49) == 0x2_0000_0000_0000,
        two(46) == 0x4000_0000_0000,
{
    lemma_two_small();
    reveal_with_fuel(two, 4);
    assert(two(50) == 2 * two(49));
    assert(two(47) == 2 * two(46));
}

/// Integers below two to the power of 24 are exact: a natural number that is
/// carried as a fraction is the same number when it is read again.
pub proof fn small_integers_are_exact(n: nat, max: nat)
    requires
        n < 0x100_0000,
        n <= max,
    ensures
        clamped(narrow(double_of(n)), max) == n,
{
    if n > 0 {
        let k = top(n);
        lemma_top(n);
        lemma_two_values();
        if k >= 24 {
            lemma_two_grows(24, k);
            reveal_with_fuel(two, 2);
            assert(two(24) == 2 * two(23));
        }
        let d = two((23 - k) as nat);
        let x = n * d;
        lemma_two_positive((23 - k) as nat);
        lemma_two_sum(k, (23 - k) as nat);
        lemma_two_sum((23 - k) as nat, 29);
        lemma_two_sum(k + 1, (23 - k) as nat);
        assert(two(24) == 0x100_0000) by {
            reveal_with_fuel(two, 2);
        }
        let low = two(k);
        let high = two(k + 1);
        assert(low * d <= x < high * d) by (nonlinear_arith)
            requires
                low <= n < high,
                d >= 1,
                x == n * d,
        ;
        assert(0x80_0000 <= x < 0x100_0000);
        let scaled = n * two((52 - k) as nat);
        assert(scaled == x * 0x2000_0000) by (nonlinear_arith)
            requires
                two((52 - k) as nat) == d * 0x2000_0000,
                scaled == n * two((52 - k) as nat),
                x == n * d,
        ;
        let bits = double_of(n);
        assert(bits == (1022 + k) * 0x10_0000_0000_0000 + x * 0x2000_0000);
        let m = (x - 0x80_0000) * 0x2000_0000;
        assert(bits == (1023 + k) * 0x10_0000_0000_0000 + m);
        assert(0 <= m < 0x10_0000_0000_0000);
        assert(bits as nat / 0x10_0000_0000_0000 == 1023 + k);
        assert(bits as nat % 0x10_0000_0000_0000 == m);
        assert(bits as nat / 0x8000_0000_0000_0000 == 0);
        let q = (127 + k) * 0x80_0000 + (x - 0x80_0000);
        let whole = ((127 + k) * 0x10_0000_0000_0000 + m) as nat;
        assert(whole == q * 0x2000_0000);
        assert(whole / 0x2000_0000 == q && whole % 0x2000_0000 == 0);
        assert(round_even(whole, 0x2000_0000) == q);
        assert(narrow(bits) == q);
        assert(q as nat / 0x80_0000 == 127 + k);
        assert(q as nat % 0x80_0000 == x - 0x80_0000);
        assert(x * low == n * 0x80_0000) by (nonlinear_arith)
            requires
                low * d == 0x80_0000,
                x == n * d,
        ;
    } else {
        assert(narrow(0) == 0);
    }
}

/// What a single-precision pattern denotes, in units of the smallest one.
#[verifier::opaque]
pub open spec fn worth(bits: u32) -> int {
    let e = (bits as int / 0x80_0000) % 256;
    let m = bits as int % 0x80_0000;
    let size = if e == 0 {
        m
    } else {
        (0x80_0000 + m) * two((e - 1) as nat)
    };
    if bits >= 0x8000_0000 {
        -size
    } else {
        size
    }
}

proof fn lemma_worth_step(x: u32)
    requires
        x < 0x7f80_0000,
    ensures
        0 <= worth(x) < worth((x + 1) as u32),
{
    reveal(worth);
    let y = (x + 1) as u32;
    let e = (x as int / 0x80_0000) % 256;
    let m = x as int % 0x80_0000;
    assert(x as int == e * 0x80_0000 + m);
    if e > 0 {
        lemma_two_positive((e - 1) as nat);
        lemma_two_positive(e as nat);
    }
    if m < 0x7f_ffff {
        assert((y as int / 0x80_0000) % 256 == e);
        assert(y as int % 0x80_0000 == m + 1);
        if e > 0 {
            let t = two((e - 1) as nat);
            assert((0x80_0000 + m) * t < (0x80_0000 + m + 1) * t) by (nonlinear_arith)
                requires
                    t >= 1,
                    m >= 0,
            ;
            assert((0x80_0000 + m) * t >= 0) by (nonlinear_arith)
                requires
                    t >= 1,
                    m >= 0,
            ;
        }
    } else {
        assert((y as int / 0x80_0000) % 256 == e + 1);
        assert(y as int % 0x80_0000 == 0);
        if e > 0 {
            let t = two((e - 1) as nat);
            assert(two(e as nat) == 2 * t);
            assert((0x80_0000 + m) * t < 0x80_0000 * (2 * t)) by (nonlinear_arith)
                requires
                    t >= 1,
                    m < 0x80_0000,
            ;
            assert((0x80_0000 + m) * t >= 0) by (nonlinear_arith)
                requires
                    t >= 1,
                    m >= 0,
            ;
        } else {
            assert(two(0) == 1);
        }
    }
}

proof fn lemma_worth_grows(x: u32, y: u32)
    requires
        x < y <= 0x7f80_0000,
    ensures
        0 <= worth(x) < worth(y),
    decreases y - x,
{
    lemma_worth_step((y - 1) as u32);
    if x < y - 1 {
        lemma_worth_grows(x, (y - 1) as u32);
    }
}

proof fn lemma_worth_mirrored(x: u32)
    requires
        x >= 0x8000_0000,
    ensures
        worth(x) == -worth((x - 0x8000_0000) as u32),
{
    reveal(worth);
    let y = (x - 0x8000_0000) as u32;
    assert((x as int / 0x80_0000) % 256 == (y as int / 0x80_0000) % 256);
    assert(x as int % 0x80_0000 == y as int % 0x80_0000);
}

/// The pattern without its sign.
spec fn size_bits(bits: u32) -> u32 {
    if bits >= 0x8000_0000 {
        (bits - 0x8000_0000) as u32
    } else {
        bits
    }
}

/// Patterns are ordered by what they denote; what is no number is neither below
/// nor above anything.
pub proof fn patterns_are_ordered_by_worth(a: u32, b: u32)
    ensures
        !is_nan(a) && !is_nan(b) ==> (below(a, b) <==> worth(a) < worth(b)),
        !is_nan(a) && !is_nan(b) ==> (at_least(a, b) <==> worth(a) >= worth(b)),
        is_nan(a) || is_nan(b) ==> !below(a, b) && !at_least(a, b),
        is_nan(a) <==> a as int % 0x8000_0000 > 0x7f80_0000,
{
    if !is_nan(a) && !is_nan(b) {
        let x = size_bits(a);
        let y = size_bits(b);
        assert(worth(0) == 0) by {
            reveal(worth);
        }
        if x > 0 {
            lemma_worth_grows(0, x);
        }
        if y > 0 {
            lemma_worth_grows(0, y);
        }
        if x < y {
            lemma_worth_grows(x, y);
        } else if y < x {
            lemma_worth_grows(y, x);
        }
        if a >= 0x8000_0000 {
            lemma_worth_mirrored(a);
        }
        if b >= 0x8000_0000 {
            lemma_worth_mirrored(b);
        }
    }
}

/// Two double-precision patterns are the same number where they are the same
/// pattern or both zero; what is no number equals nothing.
pub proof fn equal_patterns_are_equal_numbers(a: u64, b: u64)
    ensures
        a % 0x8000_0000_0000_0000 > 0x7ff0_0000_0000_0000 ==> !equal_double(a, b)
            && !below_double(a, b) && !below_double(b, a),
        a % 0x8000_0000_0000_0000 <= 0x7ff0_0000_0000_0000 ==> equal_double(a, a),
        equal_double(0, 0x8000_0000_0000_0000),
        equal_double(a, b) ==> a == b || a % 0x8000_0000_0000_0000 == 0 && b
            % 0x8000_0000_0000_0000 == 0,
        is_zero(a) <==> a == 0 || a == 0x8000_0000_0000_0000,
{
}

/// Rounding goes to the nearest integer, and between two to the even one.
pub proof fn rounding_goes_to_the_nearest(n: nat, d: nat)
    requires
        d > 0,
    ensures
        2 * (round_even(n, d) * d - n) <= d,
        2 * (n - round_even(n, d) * d) <= d,
        2 * (round_even(n, d) * d - n) == d || 2 * (n - round_even(n, d) * d) == d ==> round_even(
            n,
            d,
        ) % 2 == 0,
{
    let q = n / d;
    let r = n % d;
    assert(n == q * d + r && 0 <= r < d) by (nonlinear_arith)
        requires
            q == n / d,
            r == n % d,
            d > 0,
    ;
    assert((q + 1) * d == q * d + d) by (nonlinear_arith);
}

/// Narrowing keeps the sign.
pub proof fn narrowing_keeps_the_sign(bits: u64)
    requires
        bits < 0x8000_0000_0000_0000,
    ensures
        narrow((bits + 0x8000_0000_0000_0000) as u64) == narrow(bits) + 0x8000_0000,
{
    let other = (bits + 0x8000_0000_0000_0000) as u64;
    assert((other as nat / 0x10_0000_0000_0000) % 2048 == (bits as nat / 0x10_0000_0000_0000) % 2048);
    assert(other as nat % 0x10_0000_0000_0000 == bits as nat % 0x10_0000_0000_0000);
    assert(other as nat / 0x8000_0000_0000_0000 == 1);
    assert(bits as nat / 0x8000_0000_0000_0000 == 0);
    let e = (bits as nat / 0x10_0000_0000_0000) % 2048;
    let m = bits as nat % 0x10_0000_0000_0000;
    if 872 <= e < 897 {
        lemma_two_values();
        lemma_small_quotient(0x10_0000_0000_0000 + m, (926 - e) as nat);
    }
}

} // verus!
