//! What decimal arithmetic computes, over integers that count units of 10^-28.
use vstd::arithmetic::div_mod::lemma_fundamental_div_mod;
use vstd::arithmetic::div_mod::lemma_fundamental_div_mod_converse;
use vstd::arithmetic::mul::lemma_mul_is_associative;
use vstd::prelude::*;

verus! {

/// The largest mantissa a decimal can hold, 2^96 - 1.
pub const MAX_MANTISSA: i128 = 79_228_162_514_264_337_593_543_950_335;

/// The largest number of digits after the point.
pub const MAX_SCALE: u32 = 28;

/// Powers of ten.
pub open spec fn pow10(n: nat) -> int
    decreases n,
{
    if n == 0 {
        1
    } else {
        10 * pow10((n - 1) as nat)
    }
}

/// The number one, 10^28 units.
pub open spec fn unit() -> int {
    10_000_000_000_000_000_000_000_000_000
}

/// A whole number in units.
pub open spec fn whole(n: int) -> int {
    n * unit()
}

/// So many hundredths in units.
pub open spec fn cents(n: int) -> int {
    n * pow10(26)
}

pub open spec fn magnitude(n: int) -> int {
    if n < 0 {
        -n
    } else {
        n
    }
}

/// The smaller of two numbers.
pub open spec fn lesser(a: int, b: int) -> int {
    if a > b {
        b
    } else {
        a
    }
}

/// The larger of two numbers.
pub open spec fn greater(a: int, b: int) -> int {
    if a < b {
        b
    } else {
        a
    }
}

/// The integer nearest to `n / d`, the even one of two that are equally near.
pub open spec fn nearest(n: int, d: int) -> int
    recommends
        d > 0,
{
    let q = magnitude(n) / d;
    let r = magnitude(n) % d;
    let m = if 2 * r > d || (2 * r == d && q % 2 == 1) {
        q + 1
    } else {
        q
    };
    if n < 0 {
        -m
    } else {
        m
    }
}

/// `n / d` in units, with as many digits after the point, up to `digits`, as leave a mantissa that
/// fits.
pub open spec fn rounded_to(n: int, d: int, digits: nat) -> int
    decreases digits,
{
    let m = nearest(n * pow10(digits), d);
    if digits == 0 || magnitude(m) <= MAX_MANTISSA {
        m * pow10((28 - digits) as nat)
    } else {
        rounded_to(n, d, (digits - 1) as nat)
    }
}

/// The decimal that stands for `n / d`: the nearest one with the most digits that fit, ties to
/// even; none where the integer nearest to `n / d` does not fit.
#[verifier::opaque]
pub open spec fn rounded(n: int, d: int) -> Option<int> {
    if magnitude(nearest(n, d)) <= MAX_MANTISSA {
        Some(rounded_to(n, d, 28))
    } else {
        None
    }
}

/// `v` is `m * 10^-s`, with a mantissa and a scale that fit.
pub open spec fn written_as(v: int, m: int, s: nat) -> bool {
    magnitude(m) <= MAX_MANTISSA && s <= 28 && v == m * pow10((28 - s) as nat)
}

/// A value that a decimal can hold.
pub open spec fn representable(v: int) -> bool {
    exists|m: int, s: nat| written_as(v, m, s)
}

/// `a + b` as decimals.
#[verifier::opaque]
pub open spec fn sum(a: int, b: int) -> Option<int> {
    rounded(a + b, unit())
}

/// `a - b` as decimals.
#[verifier::opaque]
pub open spec fn difference(a: int, b: int) -> Option<int> {
    rounded(a - b, unit())
}

/// `a * b` as decimals.
#[verifier::opaque]
pub open spec fn product(a: int, b: int) -> Option<int> {
    rounded(a * b, unit() * unit())
}

/// `a / b` as decimals; none for a zero divisor.
#[verifier::opaque]
pub open spec fn quotient(a: int, b: int) -> Option<int> {
    if b > 0 {
        rounded(a, b)
    } else if b < 0 {
        rounded(-a, -b)
    } else {
        None
    }
}

/// `a + b` where both could be computed.
pub open spec fn plus(a: Option<int>, b: Option<int>) -> Option<int> {
    match (a, b) {
        (Some(x), Some(y)) => sum(x, y),
        _ => None,
    }
}

/// `a - b` where both could be computed.
pub open spec fn minus(a: Option<int>, b: Option<int>) -> Option<int> {
    match (a, b) {
        (Some(x), Some(y)) => difference(x, y),
        _ => None,
    }
}

/// `a * b` where both could be computed.
pub open spec fn times(a: Option<int>, b: Option<int>) -> Option<int> {
    match (a, b) {
        (Some(x), Some(y)) => product(x, y),
        _ => None,
    }
}

/// `a / b` where both could be computed.
pub open spec fn over(a: Option<int>, b: Option<int>) -> Option<int> {
    match (a, b) {
        (Some(x), Some(y)) => quotient(x, y),
        _ => None,
    }
}

/// The smaller of two results that could both be computed.
pub open spec fn at_most(a: Option<int>, b: Option<int>) -> Option<int> {
    match (a, b) {
        (Some(x), Some(y)) => Some(lesser(x, y)),
        _ => None,
    }
}

/// The larger of two results that could both be computed.
pub open spec fn at_least(a: Option<int>, b: Option<int>) -> Option<int> {
    match (a, b) {
        (Some(x), Some(y)) => Some(greater(x, y)),
        _ => None,
    }
}

/// The largest whole number that is not above `v`.
#[verifier::opaque]
pub open spec fn floor_of(v: int) -> int {
    (v / unit()) * unit()
}

/// The smallest whole number that is not below `v`.
#[verifier::opaque]
pub open spec fn ceil_of(v: int) -> int {
    -((-v) / unit()) * unit()
}

/// `v` rounded to `dp` digits after the point, ties to even.
#[verifier::opaque]
pub open spec fn round_dp_of(v: int, dp: nat) -> int {
    if dp >= 28 {
        v
    } else {
        nearest(v, pow10((28 - dp) as nat)) * pow10((28 - dp) as nat)
    }
}

/// The whole part of `v`, its fraction dropped.
pub open spec fn whole_part(v: int) -> int {
    if v < 0 {
        -((-v) / unit())
    } else {
        v / unit()
    }
}

/// The whole part of `v` as an unsigned count; none for a negative value or a count above `limit`.
pub open spec fn count_of(v: int, limit: int) -> Option<int> {
    if v >= 0 && v / unit() <= limit {
        Some(v / unit())
    } else {
        None
    }
}

/// `v` rounded up, as an unsigned count; none for a negative value or a count above `limit`.
pub open spec fn ceil_count_of(v: int, limit: int) -> Option<int> {
    if v < 0 {
        None
    } else {
        count_of(ceil_of(v), limit)
    }
}

/// The count, or what stands in for one that is missing.
pub open spec fn count_or(count: Option<int>, default: int) -> int {
    match count {
        Some(n) => n,
        None => default,
    }
}

pub proof fn lemma_pow10_positive(n: nat)
    ensures
        pow10(n) > 0,
    decreases n,
{
    if n > 0 {
        lemma_pow10_positive((n - 1) as nat);
    }
}

pub proof fn lemma_pow10_sum(a: nat, b: nat)
    ensures
        pow10(a + b) == pow10(a) * pow10(b),
    decreases a,
{
    if a > 0 {
        lemma_pow10_sum((a - 1) as nat, b);
        lemma_mul_is_associative(10, pow10((a - 1) as nat), pow10(b));
    }
}

pub proof fn lemma_pow10_unit()
    ensures
        pow10(28) == unit(),
        pow10(0) == 1,
{
    assert(pow10(28) == unit()) by {
        reveal_with_fuel(pow10, 29);
    }
}

proof fn lemma_nearest_between(n: int, d: int)
    requires
        d > 0,
    ensures
        2 * (n - d * nearest(n, d)) <= d,
        2 * (d * nearest(n, d) - n) <= d,
{
    let a = magnitude(n);
    lemma_fundamental_div_mod(a, d);
    let q = a / d;
    assert(d * (q + 1) == d * q + d) by (nonlinear_arith);
    assert(d * (-q) == -(d * q)) by (nonlinear_arith);
    assert(d * (-(q + 1)) == -(d * (q + 1))) by (nonlinear_arith);
}

/// Rounding a whole multiple changes nothing.
pub proof fn lemma_nearest_exact(k: int, d: int)
    requires
        d > 0,
    ensures
        nearest(k * d, d) == k,
{
    let m = magnitude(k);
    assert(magnitude(k * d) == m * d) by (nonlinear_arith)
        requires
            d > 0,
            m == magnitude(k),
    ;
    lemma_fundamental_div_mod_converse(m * d, d, m, 0);
    assert(k * d < 0 <==> k < 0) by (nonlinear_arith)
        requires
            d > 0,
    ;
}

proof fn lemma_nearest_sign(n: int, d: int)
    requires
        d > 0,
    ensures
        n >= 0 ==> nearest(n, d) >= 0,
        n <= 0 ==> nearest(n, d) <= 0,
        nearest(-n, d) == -nearest(n, d),
{
    lemma_fundamental_div_mod(magnitude(n), d);
    assert(magnitude(n) / d >= 0) by (nonlinear_arith)
        requires
            magnitude(n) >= 0,
            d > 0,
    ;
    if n == 0 {
        lemma_nearest_exact(0, d);
    }
}

/// Rounding to the nearest integer keeps an integer bound.
proof fn lemma_nearest_bound(n: int, d: int, k: int)
    requires
        d > 0,
    ensures
        n <= k * d ==> nearest(n, d) <= k,
        n >= k * d ==> nearest(n, d) >= k,
{
    let m = nearest(n, d);
    lemma_nearest_between(n, d);
    if n <= k * d && m > k {
        assert(d * m >= d * k + d) by (nonlinear_arith)
            requires
                m >= k + 1,
                d > 0,
        ;
        assert(d * k == k * d) by (nonlinear_arith);
        assert(false);
    }
    if n >= k * d && m < k {
        assert(d * m <= d * k - d) by (nonlinear_arith)
            requires
                m <= k - 1,
                d > 0,
        ;
        assert(d * k == k * d) by (nonlinear_arith);
        assert(false);
    }
}

/// A quotient that is no larger than the largest mantissa has a decimal.
pub proof fn lemma_rounded_defined(n: int, d: int)
    requires
        d > 0,
        magnitude(n) <= MAX_MANTISSA * d,
    ensures
        rounded(n, d) is Some,
{
    reveal(rounded);
    let k = MAX_MANTISSA as int;
    lemma_nearest_bound(n, d, k);
    lemma_nearest_bound(n, d, -k);
    assert((-k) * d == -(k * d)) by (nonlinear_arith);
}

/// Once a quotient does not fit with `digits + 1` digits, what it becomes with `digits` digits is no
/// nearer to zero than the largest mantissa with `digits + 1` digits.
proof fn lemma_step_keeps_size(n: int, d: int, digits: nat)
    requires
        d > 0,
        n >= 0,
        nearest(n * pow10(digits + 1), d) > MAX_MANTISSA,
    ensures
        nearest(n * pow10(digits), d) * 10 >= MAX_MANTISSA,
{
    let big = n * pow10(digits + 1);
    let small = n * pow10(digits);
    assert(big == 10 * small) by {
        assert(pow10(digits + 1) == 10 * pow10(digits));
        assert(n * (10 * pow10(digits)) == 10 * (n * pow10(digits))) by (nonlinear_arith);
    }
    lemma_nearest_between(big, d);
    // The quotient is above the largest mantissa less one half.
    let m = nearest(big, d);
    assert(d * m >= d * (MAX_MANTISSA + 1)) by (nonlinear_arith)
        requires
            m >= MAX_MANTISSA + 1,
            d > 0,
    ;
    assert(2 * big >= 2 * (d * (MAX_MANTISSA + 1)) - d);
    // A tenth of it, rounded, is at least the tenth of the largest mantissa, rounded up.
    let k: int = 7_922_816_251_426_433_759_354_395_034;
    let s = nearest(small, d);
    lemma_nearest_between(small, d);
    if s < k {
        assert(d * s <= d * (k - 1)) by (nonlinear_arith)
            requires
                s <= k - 1,
                d > 0,
        ;
        assert(d * (MAX_MANTISSA + 1) == 79_228_162_514_264_337_593_543_950_336 * d)
            by (nonlinear_arith);
        assert(d * (k - 1) == 7_922_816_251_426_433_759_354_395_033 * d) by (nonlinear_arith)
            requires
                k == 7_922_816_251_426_433_759_354_395_034,
        ;
        assert(2 * small <= 2 * (d * (k - 1)) + d);
        assert(false);
    }
}

/// The magnitude of `rounded_to` is at least that of the largest mantissa with one digit more, once
/// that did not fit.
proof fn lemma_rounded_to_size(n: int, d: int, digits: nat)
    requires
        d > 0,
        n >= 0,
        digits < 28,
        nearest(n * pow10(digits + 1), d) > MAX_MANTISSA,
    ensures
        rounded_to(n, d, digits) >= MAX_MANTISSA * pow10((27 - digits) as nat),
    decreases digits,
{
    let m = nearest(n * pow10(digits), d);
    lemma_pow10_positive(digits);
    assert(n * pow10(digits) >= 0) by (nonlinear_arith)
        requires
            n >= 0,
            pow10(digits) > 0,
    ;
    lemma_nearest_sign(n * pow10(digits), d);
    lemma_step_keeps_size(n, d, digits);
    lemma_pow10_positive((27 - digits) as nat);
    let p = pow10((27 - digits) as nat);
    assert(pow10((28 - digits) as nat) == 10 * p);
    if digits == 0 || magnitude(m) <= MAX_MANTISSA {
        assert(m * (10 * p) >= MAX_MANTISSA * p) by (nonlinear_arith)
            requires
                m * 10 >= MAX_MANTISSA,
                p > 0,
        ;
    } else {
        lemma_rounded_to_size(n, d, (digits - 1) as nat);
        assert(pow10((27 - (digits - 1)) as nat) == 10 * p);
        assert(MAX_MANTISSA * (10 * p) >= MAX_MANTISSA * p) by (nonlinear_arith)
            requires
                p > 0,
        ;
    }
}

proof fn lemma_rounded_to_negated(n: int, d: int, digits: nat)
    requires
        d > 0,
        digits <= 28,
    ensures
        rounded_to(-n, d, digits) == -rounded_to(n, d, digits),
    decreases digits,
{
    let x = n * pow10(digits);
    assert((-n) * pow10(digits) == -x) by (nonlinear_arith)
        requires
            x == n * pow10(digits),
    ;
    lemma_nearest_sign(x, d);
    let m = nearest(x, d);
    let p = pow10((28 - digits) as nat);
    assert((-m) * p == -(m * p)) by (nonlinear_arith);
    if !(digits == 0 || magnitude(m) <= MAX_MANTISSA) {
        lemma_rounded_to_negated(n, d, (digits - 1) as nat);
    }
}

/// A quotient that is not below zero rounds to a number that is not below zero.
proof fn lemma_rounded_to_sign(n: int, d: int, digits: nat)
    requires
        d > 0,
        n >= 0,
        digits <= 28,
    ensures
        rounded_to(n, d, digits) >= 0,
    decreases digits,
{
    lemma_pow10_positive(digits);
    lemma_pow10_positive((28 - digits) as nat);
    assert(n * pow10(digits) >= 0) by (nonlinear_arith)
        requires
            n >= 0,
            pow10(digits) > 0,
    ;
    lemma_nearest_sign(n * pow10(digits), d);
    let m = nearest(n * pow10(digits), d);
    let p = pow10((28 - digits) as nat);
    assert(m * p >= 0) by (nonlinear_arith)
        requires
            m >= 0,
            p > 0,
    ;
    if !(digits == 0 || magnitude(m) <= MAX_MANTISSA) {
        lemma_rounded_to_sign(n, d, (digits - 1) as nat);
    }
}

/// Rounding does not cross a number that a decimal can hold, for quotients from zero on.
proof fn lemma_rounded_to_order(n: int, d: int, digits: nat, v: int, m: int, s: nat)
    requires
        d > 0,
        n >= 0,
        digits <= 28,
        s <= digits || nearest(n * pow10(digits + 1), d) > MAX_MANTISSA,
        written_as(v, m, s),
    ensures
        n * unit() <= v * d ==> rounded_to(n, d, digits) <= v,
        n * unit() >= v * d ==> rounded_to(n, d, digits) >= v,
    decreases digits,
{
    lemma_pow10_unit();
    let p = pow10((28 - digits) as nat);
    let t = pow10(digits);
    lemma_pow10_positive((28 - digits) as nat);
    lemma_pow10_positive(digits);
    let q = nearest(n * t, d);
    assert(n * t >= 0) by (nonlinear_arith)
        requires
            n >= 0,
            t > 0,
    ;
    lemma_nearest_sign(n * t, d);
    if s <= digits {
        let w = m * pow10((digits - s) as nat);
        assert(v == w * p) by {
            lemma_pow10_sum((digits - s) as nat, (28 - digits) as nat);
            assert((digits - s) as nat + (28 - digits) as nat == (28 - s) as nat);
            lemma_mul_is_associative(m, pow10((digits - s) as nat), p);
        }
        assert(t * p == unit()) by {
            lemma_pow10_sum(digits, (28 - digits) as nat);
            assert(digits + (28 - digits) as nat == 28);
        }
        assert(n * unit() <= v * d ==> n * t <= w * d) by (nonlinear_arith)
            requires
                t * p == unit(),
                v == w * p,
                p > 0,
        {
            if n * unit() <= v * d {
                assert(n * unit() == (n * t) * p);
                assert(v * d == (w * d) * p);
                assert((n * t) * p <= (w * d) * p);
            }
        }
        assert(n * unit() >= v * d ==> n * t >= w * d) by (nonlinear_arith)
            requires
                t * p == unit(),
                v == w * p,
                p > 0,
        {
            if n * unit() >= v * d {
                assert(n * unit() == (n * t) * p);
                assert(v * d == (w * d) * p);
                assert((n * t) * p >= (w * d) * p);
            }
        }
        lemma_nearest_bound(n * t, d, w);
        if digits == 0 || magnitude(q) <= MAX_MANTISSA {
            assert(q <= w ==> q * p <= w * p) by (nonlinear_arith)
                requires
                    p > 0,
            ;
            assert(q >= w ==> q * p >= w * p) by (nonlinear_arith)
                requires
                    p > 0,
            ;
        } else if s < digits {
            lemma_rounded_to_order(n, d, (digits - 1) as nat, v, m, s);
        } else {
            // At its own scale the bound fits and the quotient does not.
            assert(pow10(0) == 1);
            lemma_rounded_to_order(n, d, (digits - 1) as nat, v, m, s);
        }
    } else {
        // The quotient did not fit with one digit more: it lies above every number that does.
        if digits < 28 {
            lemma_rounded_to_size(n, d, digits);
            let z = pow10((28 - s) as nat);
            let y = pow10((27 - digits) as nat);
            lemma_pow10_positive((28 - s) as nat);
            lemma_pow10_sum((28 - s) as nat, (27 - digits - (28 - s)) as nat);
            lemma_pow10_positive((27 - digits - (28 - s)) as nat);
            let x = pow10((27 - digits - (28 - s)) as nat);
            assert((28 - s) as nat + (27 - digits - (28 - s)) as nat == (27 - digits) as nat);
            assert(m * z <= MAX_MANTISSA * y) by (nonlinear_arith)
                requires
                    m <= MAX_MANTISSA,
                    y == z * x,
                    z > 0,
                    x >= 1,
            ;
            // So the bound cannot be above it.
            lemma_rounded_to_excess(n, d, digits, v, m, s);
        }
    }
}

/// A quotient that did not fit with `digits + 1` digits is above every number with more digits.
proof fn lemma_rounded_to_excess(n: int, d: int, digits: nat, v: int, m: int, s: nat)
    requires
        d > 0,
        n >= 0,
        digits < s <= 28,
        nearest(n * pow10(digits + 1), d) > MAX_MANTISSA,
        written_as(v, m, s),
    ensures
        n * unit() > v * d,
{
    lemma_pow10_unit();
    let t = pow10(digits + 1);
    let p = pow10((27 - digits) as nat);
    lemma_pow10_positive((27 - digits) as nat);
    lemma_nearest_bound(n * t, d, MAX_MANTISSA as int);
    assert(n * t > MAX_MANTISSA * d);
    assert(t * p == unit()) by {
        lemma_pow10_sum(digits + 1, (27 - digits) as nat);
        assert(digits + 1 + (27 - digits) as nat == 28);
    }
    let z = pow10((28 - s) as nat);
    let x = pow10((s - digits - 1) as nat);
    lemma_pow10_positive((28 - s) as nat);
    lemma_pow10_positive((s - digits - 1) as nat);
    assert(p == z * x) by {
        lemma_pow10_sum((28 - s) as nat, (s - digits - 1) as nat);
        assert((28 - s) as nat + (s - digits - 1) as nat == (27 - digits) as nat);
    }
    assert(v <= MAX_MANTISSA * p) by (nonlinear_arith)
        requires
            v == m * z,
            m <= MAX_MANTISSA,
            p == z * x,
            z > 0,
            x >= 1,
    ;
    assert(n * unit() > v * d) by (nonlinear_arith)
        requires
            n * t > MAX_MANTISSA * d,
            t * p == unit(),
            p > 0,
            d > 0,
            v <= MAX_MANTISSA * p,
    {
        assert(n * unit() == (n * t) * p);
        assert((n * t) * p > (MAX_MANTISSA * d) * p);
        assert((MAX_MANTISSA * d) * p == (MAX_MANTISSA * p) * d);
        assert((MAX_MANTISSA * p) * d >= v * d);
    }
}

/// Rounding does not cross a number that a decimal can hold.
pub proof fn lemma_rounded_order(n: int, d: int, v: int)
    requires
        d > 0,
        representable(v),
        rounded(n, d) is Some,
    ensures
        n * unit() <= v * d ==> rounded(n, d)->0 <= v,
        n * unit() >= v * d ==> rounded(n, d)->0 >= v,
{
    reveal(rounded);
    let (m, s) = choose|m: int, s: nat| written_as(v, m, s);
    if n >= 0 {
        lemma_rounded_to_order(n, d, 28, v, m, s);
    } else {
        let p = pow10((28 - s) as nat);
        assert((-m) * p == -(m * p)) by (nonlinear_arith);
        assert(written_as(-v, -m, s));
        lemma_rounded_to_order(-n, d, 28, -v, -m, s);
        lemma_rounded_to_negated(n, d, 28);
        assert((-n) * unit() == -(n * unit())) by (nonlinear_arith);
        assert((-v) * d == -(v * d)) by (nonlinear_arith);
    }
}

proof fn lemma_rounded_to_representable(n: int, d: int, digits: nat)
    requires
        digits <= 28,
        magnitude(nearest(n, d)) <= MAX_MANTISSA,
    ensures
        representable(rounded_to(n, d, digits)),
    decreases digits,
{
    let m = nearest(n * pow10(digits), d);
    if digits == 0 {
        assert(pow10(0) == 1);
        assert(n * 1 == n);
    }
    if digits == 0 || magnitude(m) <= MAX_MANTISSA {
        assert(written_as(rounded_to(n, d, digits), m, digits));
    } else {
        lemma_rounded_to_representable(n, d, (digits - 1) as nat);
    }
}

/// What rounding gives is a number that a decimal can hold.
pub proof fn lemma_rounded_representable(n: int, d: int)
    requires
        rounded(n, d) is Some,
    ensures
        representable(rounded(n, d)->0),
{
    reveal(rounded);
    lemma_rounded_to_representable(n, d, 28);
}

/// A quotient that a decimal can hold is not changed by rounding.
pub proof fn lemma_rounded_exact(n: int, d: int, v: int)
    requires
        d > 0,
        representable(v),
        n * unit() == v * d,
    ensures
        rounded(n, d) == Some(v),
{
    lemma_pow10_unit();
    let (m, s) = choose|m: int, s: nat| written_as(v, m, s);
    let p = pow10((28 - s) as nat);
    lemma_pow10_positive((28 - s) as nat);
    lemma_pow10_positive(s);
    lemma_pow10_sum(s, (28 - s) as nat);
    assert(s + (28 - s) as nat == 28);
    let t = pow10(s);
    assert(magnitude(n) <= MAX_MANTISSA * d) by (nonlinear_arith)
        requires
            n * unit() == v * d,
            v == m * p,
            magnitude(m) <= MAX_MANTISSA,
            t * p == unit(),
            t >= 1,
            p > 0,
            d > 0,
    {
        assert((n * t) * p == (m * d) * p);
        assert(n * t == m * d);
        assert(magnitude(n * t) == magnitude(n) * t);
        assert(magnitude(m * d) == magnitude(m) * d);
        assert(magnitude(n) <= magnitude(n) * t);
    }
    lemma_rounded_defined(n, d);
    lemma_rounded_order(n, d, v);
}

/// The difference, where a decimal can hold it, is exact.
pub proof fn lemma_difference_exact(a: int, b: int)
    requires
        representable(a - b),
    ensures
        difference(a, b) == Some(a - b),
{
    reveal(difference);
    lemma_rounded_exact(a - b, unit(), a - b);
}

/// The product with the negated number is the negated product: rounding treats both signs alike.
pub proof fn lemma_product_negated(a: int, b: int)
    ensures
        product(a, b) is Some <==> product(-a, b) is Some,
        product(a, b) is Some ==> product(-a, b)->0 == -product(a, b)->0,
{
    reveal(product);
    reveal(rounded);
    let d = unit() * unit();
    assert(d > 0) by (nonlinear_arith)
        requires
            d == unit() * unit(),
            unit() > 0,
    ;
    assert((-a) * b == -(a * b)) by (nonlinear_arith);
    lemma_nearest_sign(a * b, d);
    lemma_rounded_to_negated(a * b, d, 28);
}

/// A product with a factor between zero and one is no larger than the other factor, and keeps its
/// sign.
pub proof fn lemma_product_shrinks(a: int, f: int)
    requires
        representable(a),
        0 <= a,
        0 <= f <= unit(),
    ensures
        product(a, f) is Some,
        0 <= product(a, f)->0 <= a,
{
    reveal(product);
    let d = unit() * unit();
    lemma_representable_bound(a);
    assert(0 <= a * f <= a * unit()) by (nonlinear_arith)
        requires
            0 <= a,
            0 <= f <= unit(),
    ;
    assert(a * unit() <= MAX_MANTISSA * d) by (nonlinear_arith)
        requires
            a <= whole(MAX_MANTISSA as int),
            d == unit() * unit(),
            unit() > 0,
    ;
    lemma_rounded_defined(a * f, d);
    lemma_rounded_order(a * f, d, a);
    lemma_rounded_order(a * f, d, 0);
    assert((a * f) * unit() <= a * d) by (nonlinear_arith)
        requires
            a * f <= a * unit(),
            d == unit() * unit(),
            unit() > 0,
    ;
    assert((a * f) * unit() >= 0) by (nonlinear_arith)
        requires
            a * f >= 0,
            unit() > 0,
    ;
}

/// A decimal is no larger than the largest one.
pub proof fn lemma_representable_bound(v: int)
    requires
        representable(v),
    ensures
        magnitude(v) <= whole(MAX_MANTISSA as int),
        representable(0),
        representable(-v),
{
    lemma_pow10_unit();
    let (m, s) = choose|m: int, s: nat| written_as(v, m, s);
    let p = pow10((28 - s) as nat);
    lemma_pow10_positive((28 - s) as nat);
    lemma_pow10_positive(s);
    lemma_pow10_sum(s, (28 - s) as nat);
    assert(s + (28 - s) as nat == 28);
    let t = pow10(s);
    assert(magnitude(v) <= MAX_MANTISSA * unit()) by (nonlinear_arith)
        requires
            v == m * p,
            magnitude(m) <= MAX_MANTISSA,
            t * p == unit(),
            t >= 1,
            p > 0,
    {
        assert(magnitude(m * p) == magnitude(m) * p);
        assert(p <= t * p);
        assert(magnitude(m) * p <= MAX_MANTISSA * p);
        assert(MAX_MANTISSA * p <= MAX_MANTISSA * (t * p));
    }
    assert(written_as(0, 0, 0));
    assert((-m) * p == -(m * p)) by (nonlinear_arith);
    assert(written_as(-v, -m, s));
}

/// A product of factors that are not below zero can be reckoned where the product of their bounds
/// stays in range, and is not below zero.
pub proof fn lemma_product_bounded(a: int, b: int, limit: int)
    requires
        0 <= a <= limit,
        0 <= b <= unit(),
        limit <= whole(MAX_MANTISSA as int),
    ensures
        product(a, b) is Some,
        product(a, b)->0 >= 0,
{
    reveal(product);
    let d = unit() * unit();
    assert(0 <= a * b <= MAX_MANTISSA * d) by (nonlinear_arith)
        requires
            0 <= a <= MAX_MANTISSA * unit(),
            0 <= b <= unit(),
            d == unit() * unit(),
    {
        assert(a * b <= a * unit());
        assert(a * unit() <= (MAX_MANTISSA * unit()) * unit());
        assert((MAX_MANTISSA * unit()) * unit() == MAX_MANTISSA * d);
    }
    lemma_rounded_defined(a * b, d);
    assert(written_as(0, 0, 0));
    lemma_rounded_order(a * b, d, 0);
    assert((a * b) * unit() >= 0) by (nonlinear_arith)
        requires
            a * b >= 0,
            unit() > 0,
    ;
}

pub proof fn lemma_product_swap(a: int, b: int)
    ensures
        product(a, b) == product(b, a),
{
    reveal(product);
    assert(a * b == b * a) by (nonlinear_arith);
}

/// What a decimal between zero and one leaves of one is a decimal too.
pub proof fn lemma_complement(v: int)
    requires
        representable(v),
        0 <= v <= unit(),
    ensures
        representable(unit() - v),
        difference(unit(), v) == Some(unit() - v),
{
    lemma_pow10_unit();
    let (m, s) = choose|m: int, s: nat| written_as(v, m, s);
    let p = pow10((28 - s) as nat);
    lemma_pow10_positive((28 - s) as nat);
    lemma_pow10_positive(s);
    lemma_pow10_sum(s, (28 - s) as nat);
    assert(s + (28 - s) as nat == 28);
    let t = pow10(s);
    assert(unit() - v == (t - m) * p) by (nonlinear_arith)
        requires
            v == m * p,
            t * p == unit(),
    ;
    assert(0 <= t - m <= unit()) by (nonlinear_arith)
        requires
            v == m * p,
            t * p == unit(),
            0 <= v <= unit(),
            p >= 1,
            t >= 1,
    {
        assert((t - m) * p == unit() - v);
        assert(m * p >= 0);
    }
    assert(written_as(unit() - v, t - m, s));
    lemma_difference_exact(unit(), v);
}

/// Rounding to so many digits never crosses a number that has no more.
pub proof fn lemma_round_dp_below(v: int, dp: nat, k: int)
    requires
        dp < 28,
        0 <= v <= k * pow10((28 - dp) as nat),
    ensures
        0 <= round_dp_of(v, dp) <= k * pow10((28 - dp) as nat),
{
    reveal(round_dp_of);
    let d = pow10((28 - dp) as nat);
    lemma_pow10_positive((28 - dp) as nat);
    let m = nearest(v, d);
    if v == k * d {
        lemma_nearest_exact(k, d);
    } else {
        let q = v / d;
        assert(0 <= q < k) by (nonlinear_arith)
            requires
                q == v / d,
                d > 0,
                0 <= v < k * d,
        ;
        assert(0 <= m <= k);
        assert(0 <= m * d <= k * d) by (nonlinear_arith)
            requires
                0 <= m <= k,
                d > 0,
        ;
    }
}

/// Zero is a decimal.
pub proof fn lemma_zero_representable()
    ensures
        representable(0),
{
    assert(written_as(0, 0, 0));
}

pub proof fn lemma_quotient_of_zero(b: int)
    requires
        b != 0,
    ensures
        quotient(0, b) == Some(0int),
{
    reveal(quotient);
    lemma_zero_representable();
    if b > 0 {
        lemma_rounded_exact(0, b, 0);
    } else {
        lemma_rounded_exact(0, -b, 0);
    }
}

pub proof fn lemma_product_of_zero(b: int)
    ensures
        product(0, b) == Some(0int),
{
    reveal(product);
    lemma_zero_representable();
    assert(0 * b == 0) by (nonlinear_arith);
    lemma_rounded_exact(0, unit() * unit(), 0);
}

proof fn lemma_nearest_monotone(a: int, b: int, d: int)
    requires
        d > 0,
        a <= b,
    ensures
        nearest(a, d) <= nearest(b, d),
{
    lemma_nearest_between(a, d);
    lemma_nearest_between(b, d);
    let m = nearest(a, d);
    let k = nearest(b, d);
    if m > k {
        assert(d * m >= d * k + d) by (nonlinear_arith)
            requires
                m >= k + 1,
                d > 0,
        ;
    }
}

proof fn lemma_rounded_to_monotone(a: int, b: int, d: int, digits: nat)
    requires
        d > 0,
        0 <= a <= b,
        digits <= 28,
    ensures
        rounded_to(a, d, digits) <= rounded_to(b, d, digits),
    decreases digits,
{
    let t = pow10(digits);
    let p = pow10((28 - digits) as nat);
    lemma_pow10_positive(digits);
    lemma_pow10_positive((28 - digits) as nat);
    assert(0 <= a * t <= b * t) by (nonlinear_arith)
        requires
            0 <= a <= b,
            t > 0,
    ;
    lemma_nearest_monotone(a * t, b * t, d);
    lemma_nearest_sign(a * t, d);
    let m = nearest(a * t, d);
    let k = nearest(b * t, d);
    if digits == 0 || k <= MAX_MANTISSA {
        assert(m * p <= k * p) by (nonlinear_arith)
            requires
                m <= k,
                p > 0,
        ;
    } else if m <= MAX_MANTISSA {
        assert((digits - 1) as nat + 1 == digits);
        lemma_rounded_to_size(b, d, (digits - 1) as nat);
        assert((27 - (digits - 1)) as nat == (28 - digits) as nat);
        assert(m * p <= MAX_MANTISSA * p) by (nonlinear_arith)
            requires
                m <= MAX_MANTISSA,
                p > 0,
        ;
    } else {
        lemma_rounded_to_monotone(a, b, d, (digits - 1) as nat);
    }
}

/// Rounding keeps the order.
pub proof fn lemma_rounded_monotone(a: int, b: int, d: int)
    requires
        d > 0,
        a <= b,
        rounded(a, d) is Some,
        rounded(b, d) is Some,
    ensures
        rounded(a, d)->0 <= rounded(b, d)->0,
{
    reveal(rounded);
    if a >= 0 {
        lemma_rounded_to_monotone(a, b, d, 28);
    } else if b <= 0 {
        lemma_rounded_to_monotone(-b, -a, d, 28);
        lemma_rounded_to_negated(-a, d, 28);
        lemma_rounded_to_negated(-b, d, 28);
    } else {
        lemma_rounded_to_sign(b, d, 28);
        lemma_rounded_to_sign(-a, d, 28);
        lemma_rounded_to_negated(-a, d, 28);
    }
}

/// A larger number added gives no smaller a sum, and taken away no larger a difference.
pub proof fn lemma_sum_monotone(a: int, b: int, c: int)
    requires
        b <= c,
    ensures
        sum(a, b) is Some && sum(a, c) is Some ==> sum(a, b)->0 <= sum(a, c)->0,
        difference(a, b) is Some && difference(a, c) is Some ==> difference(a, c)->0 <= difference(
            a,
            b,
        )->0,
{
    reveal(sum);
    reveal(difference);
    if sum(a, b) is Some && sum(a, c) is Some {
        lemma_rounded_monotone(a + b, a + c, unit());
    }
    if difference(a, b) is Some && difference(a, c) is Some {
        lemma_rounded_monotone(a - c, a - b, unit());
    }
}

/// A factor that is not below zero keeps the order.
pub proof fn lemma_product_monotone(a: int, b: int, f: int)
    requires
        a <= b,
        f >= 0,
        product(a, f) is Some,
        product(b, f) is Some,
    ensures
        product(a, f)->0 <= product(b, f)->0,
{
    reveal(product);
    assert(a * f <= b * f) by (nonlinear_arith)
        requires
            a <= b,
            f >= 0,
    ;
    lemma_rounded_monotone(a * f, b * f, unit() * unit());
}

/// A divisor above zero keeps the order.
pub proof fn lemma_quotient_monotone(a: int, b: int, d: int)
    requires
        a <= b,
        d > 0,
        quotient(a, d) is Some,
        quotient(b, d) is Some,
    ensures
        quotient(a, d)->0 <= quotient(b, d)->0,
{
    reveal(quotient);
    lemma_rounded_monotone(a, b, d);
}

/// Rounding to whole numbers and to digits after the point keeps the order.
pub proof fn lemma_steps_monotone(a: int, b: int, dp: nat)
    requires
        a <= b,
    ensures
        floor_of(a) <= floor_of(b),
        ceil_of(a) <= ceil_of(b),
        round_dp_of(a, dp) <= round_dp_of(b, dp),
{
    reveal(floor_of);
    reveal(ceil_of);
    reveal(round_dp_of);
    assert(a / unit() <= b / unit());
    assert((-b) / unit() <= (-a) / unit());
    if dp < 28 {
        let d = pow10((28 - dp) as nat);
        lemma_pow10_positive((28 - dp) as nat);
        lemma_nearest_monotone(a, b, d);
        let m = nearest(a, d);
        let k = nearest(b, d);
        assert(m * d <= k * d) by (nonlinear_arith)
            requires
                m <= k,
                d > 0,
        ;
    }
}

/// Decimal arithmetic is exact wherever a decimal can hold the exact result.
pub proof fn law_arithmetic_is_exact(a: int, b: int, v: int)
    requires
        representable(v),
    ensures
        a + b == v ==> sum(a, b) == Some(v),
        a - b == v ==> difference(a, b) == Some(v),
        a * b == v * unit() ==> product(a, b) == Some(v),
        b != 0 && a * unit() == v * b ==> quotient(a, b) == Some(v),
{
    reveal(sum);
    reveal(product);
    reveal(quotient);
    if a + b == v {
        lemma_rounded_exact(a + b, unit(), v);
    }
    if a - b == v {
        lemma_difference_exact(a, b);
    }
    if a * b == v * unit() {
        assert((a * b) * unit() == v * (unit() * unit())) by (nonlinear_arith)
            requires
                a * b == v * unit(),
        ;
        lemma_rounded_exact(a * b, unit() * unit(), v);
    }
    if b != 0 && a * unit() == v * b {
        if b > 0 {
            lemma_rounded_exact(a, b, v);
        } else {
            assert((-a) * unit() == v * (-b)) by (nonlinear_arith)
                requires
                    a * unit() == v * b,
            ;
            lemma_rounded_exact(-a, -b, v);
        }
    }
}

/// A computed value no further from zero than a whole number.
pub open spec fn within(v: Option<int>, n: int) -> bool {
    v is Some && magnitude(v->0) <= whole(n) && representable(v->0)
}

pub proof fn lemma_whole_representable(n: int)
    requires
        magnitude(n) <= MAX_MANTISSA,
    ensures
        representable(whole(n)),
{
    lemma_pow10_unit();
    assert(written_as(whole(n), n, 0));
}

proof fn lemma_rounded_within(n: int, d: int, k: int)
    requires
        d > 0,
        0 <= k <= MAX_MANTISSA,
        magnitude(n) <= k * d,
    ensures
        within(rounded(n, d), k),
{
    assert(k * d <= MAX_MANTISSA * d) by (nonlinear_arith)
        requires
            k <= MAX_MANTISSA,
            d > 0,
    ;
    lemma_rounded_defined(n, d);
    lemma_rounded_representable(n, d);
    lemma_whole_representable(k);
    lemma_whole_representable(-k);
    lemma_rounded_order(n, d, whole(k));
    lemma_rounded_order(n, d, whole(-k));
    assert(n * unit() <= whole(k) * d && n * unit() >= whole(-k) * d) by (nonlinear_arith)
        requires
            magnitude(n) <= k * d,
            unit() > 0,
    {
        assert(n * unit() <= (k * d) * unit());
        assert(n * unit() >= -(k * d) * unit());
        assert(whole(k) * d == (k * d) * unit());
        assert(whole(-k) * d == -(k * d) * unit());
    }
}

/// Every number of units up to one is a decimal.
pub proof fn lemma_fraction_representable(v: int)
    requires
        -unit() <= v <= unit(),
    ensures
        within(Some(v), 1),
{
    lemma_pow10_unit();
    assert(written_as(v, v, 28));
}

/// Rounding to whole numbers stays within whole bounds.
pub proof fn lemma_steps_within(v: int, n: int)
    requires
        within(Some(v), n),
        n <= MAX_MANTISSA,
    ensures
        within(Some(floor_of(v)), n),
        within(Some(ceil_of(v)), n),
{
    reveal(floor_of);
    reveal(ceil_of);
    lemma_whole_representable(v / unit());
    lemma_whole_representable(-((-v) / unit()));
}

/// Decimal arithmetic can be carried out, and stays within the bounds of its operands, as long as
/// these do not lead out of the range. A divisor has to be at least `1 / q`.
pub proof fn law_arithmetic_stays_in_range(a: Option<int>, b: Option<int>, m: int, n: int, q: int)
    requires
        within(a, m),
        within(b, n),
    ensures
        m + n <= MAX_MANTISSA ==> within(plus(a, b), m + n),
        m + n <= MAX_MANTISSA ==> within(minus(a, b), m + n),
        m * n <= MAX_MANTISSA ==> within(times(a, b), m * n),
        q > 0 && m * q <= MAX_MANTISSA && magnitude(b->0) * q >= unit() ==> within(
            over(a, b),
            m * q,
        ),
{
    let x = a->0;
    let y = b->0;
    assert(m >= 0 && n >= 0) by (nonlinear_arith)
        requires
            0 <= magnitude(x) <= m * unit(),
            0 <= magnitude(y) <= n * unit(),
            unit() > 0,
    ;
    if m + n <= MAX_MANTISSA {
        reveal(sum);
        reveal(difference);
        assert(whole(m) + whole(n) == (m + n) * unit()) by (nonlinear_arith);
        lemma_rounded_within(x + y, unit(), m + n);
        lemma_rounded_within(x - y, unit(), m + n);
    }
    if m * n <= MAX_MANTISSA {
        reveal(product);
        assert(m * n >= 0) by (nonlinear_arith)
            requires
                m >= 0,
                n >= 0,
        ;
        assert(magnitude(x * y) <= (m * n) * (unit() * unit())) by (nonlinear_arith)
            requires
                0 <= magnitude(x) <= m * unit(),
                0 <= magnitude(y) <= n * unit(),
                m >= 0,
                n >= 0,
        {
            assert(magnitude(x * y) == magnitude(x) * magnitude(y));
            assert(magnitude(x) * magnitude(y) <= (m * unit()) * (n * unit()));
        }
        lemma_rounded_within(x * y, unit() * unit(), m * n);
    }
    if q > 0 && m * q <= MAX_MANTISSA && magnitude(y) * q >= unit() {
        reveal(quotient);
        assert(m * q >= 0) by (nonlinear_arith)
            requires
                m >= 0,
                q > 0,
        ;
        assert(magnitude(y) > 0) by (nonlinear_arith)
            requires
                magnitude(y) * q >= unit(),
                q > 0,
                unit() > 0,
        ;
        assert(magnitude(x) <= (m * q) * magnitude(y)) by (nonlinear_arith)
            requires
                magnitude(x) <= m * unit(),
                magnitude(y) * q >= unit(),
                m >= 0,
                q > 0,
        {
            assert(m * unit() <= m * (magnitude(y) * q));
        }
        if y > 0 {
            lemma_rounded_within(x, y, m * q);
        } else {
            lemma_rounded_within(-x, -y, m * q);
        }
    }
}

/// `v` is no further than `e` from `n / d`.
pub open spec fn close(v: int, n: int, d: int, e: int) -> bool {
    &&& v * d - n <= e * d
    &&& n - v * d <= e * d
}

proof fn lemma_rounded_to_close(n: int, d: int, digits: nat, k: nat)
    requires
        d > 0,
        k <= 28,
        28 - k <= digits <= 28,
        magnitude(n) <= 7 * pow10(k) * d,
    ensures
        2 * (rounded_to(n, d, digits) * d - n * unit()) <= pow10(k) * d,
        2 * (n * unit() - rounded_to(n, d, digits) * d) <= pow10(k) * d,
    decreases digits,
{
    lemma_pow10_unit();
    let t = pow10(digits);
    let f = pow10((28 - digits) as nat);
    let x = n * t;
    let m = nearest(x, d);
    lemma_pow10_positive(digits);
    lemma_pow10_positive((28 - digits) as nat);
    lemma_pow10_sum(digits, (28 - digits) as nat);
    if digits == 0 || magnitude(m) <= MAX_MANTISSA {
        lemma_nearest_between(x, d);
        lemma_pow10_sum((28 - digits) as nat, (k - (28 - digits)) as nat);
        lemma_pow10_positive((k - (28 - digits)) as nat);
        let g = pow10((k - (28 - digits)) as nat);
        let r = x - d * m;
        assert((m * f) * d - n * (t * f) == -(r * f)) by (nonlinear_arith)
            requires
                x == n * t,
                r == x - d * m,
        ;
        assert(2 * (r * f) <= d * f && 2 * (-(r * f)) <= d * f) by (nonlinear_arith)
            requires
                2 * r <= d,
                -2 * r <= d,
                f > 0,
        ;
        assert(d * f <= (f * g) * d) by (nonlinear_arith)
            requires
                d > 0,
                f > 0,
                g >= 1,
        {
            assert(f * d <= (f * d) * g);
        }
    } else {
        if digits == 28 - k {
            lemma_pow10_sum(digits, k);
            lemma_nearest_bound(x, d, MAX_MANTISSA as int);
            lemma_nearest_bound(x, d, -MAX_MANTISSA);
            let p = pow10(k);
            assert(magnitude(x) <= 7 * unit() * d) by (nonlinear_arith)
                requires
                    magnitude(n) <= 7 * p * d,
                    x == n * t,
                    unit() == t * p,
                    t > 0,
            {
                assert(magnitude(x) == magnitude(n) * t);
                assert(magnitude(n) * t <= 7 * p * d * t);
            }
            assert(7 * unit() * d <= MAX_MANTISSA * d && -MAX_MANTISSA * d <= -(7 * unit() * d))
                by (nonlinear_arith)
                requires
                    d > 0,
            ;
        }
        lemma_rounded_to_close(n, d, (digits - 1) as nat, k);
    }
}

/// A rounded quotient is close to the exact one: below seven times ten to the power of `k`, by half
/// of a step in the last of `28 - k` places.
pub proof fn lemma_rounded_close(n: int, d: int, k: nat)
    requires
        d > 0,
        k <= 28,
        magnitude(n) <= 7 * pow10(k) * d,
    ensures
        rounded(n, d) is Some,
        2 * (rounded(n, d)->0 * d - n * unit()) <= pow10(k) * d,
        2 * (n * unit() - rounded(n, d)->0 * d) <= pow10(k) * d,
{
    lemma_rounded_to_close(n, d, 28, k);
    assert(rounded(n, d) is Some) by {
        reveal(rounded);
        let bound = MAX_MANTISSA as int;
        lemma_pow10_unit();
        lemma_pow10_sum(k, (28 - k) as nat);
        lemma_pow10_positive((28 - k) as nat);
        lemma_pow10_positive(k);
        assert(7 * pow10(k) <= 7 * unit()) by (nonlinear_arith)
            requires
                unit() == pow10(k) * pow10((28 - k) as nat),
                pow10((28 - k) as nat) >= 1,
                pow10(k) > 0,
        ;
        assert(7 * pow10(k) * d <= bound * d && -bound * d <= -(7 * pow10(k) * d))
            by (nonlinear_arith)
            requires
                7 * pow10(k) <= bound,
                d > 0,
        ;
        lemma_nearest_bound(n, d, bound);
        lemma_nearest_bound(n, d, -bound);
    }
    reveal(rounded);
}

/// Sums and differences below seven are exact; larger ones are close.
pub proof fn lemma_sum_close(a: int, b: int, k: nat)
    requires
        k <= 28,
    ensures
        magnitude(a + b) <= 7 * pow10(k) * unit() ==> {
            &&& sum(a, b) is Some
            &&& 2 * magnitude(sum(a, b)->0 - (a + b)) <= pow10(k)
            &&& k == 0 ==> sum(a, b) == Some(a + b)
        },
        magnitude(a - b) <= 7 * pow10(k) * unit() ==> {
            &&& difference(a, b) is Some
            &&& 2 * magnitude(difference(a, b)->0 - (a - b)) <= pow10(k)
            &&& k == 0 ==> difference(a, b) == Some(a - b)
        },
{
    reveal(sum);
    reveal(difference);
    lemma_pow10_unit();
    let u = unit();
    let p = pow10(k);
    if magnitude(a + b) <= 7 * p * u {
        lemma_rounded_close(a + b, u, k);
        lemma_unscale(sum(a, b)->0 - (a + b), p);
        let v = sum(a, b)->0;
        assert(v * u - (a + b) * u == (v - (a + b)) * u) by (nonlinear_arith);
    }
    if magnitude(a - b) <= 7 * p * u {
        lemma_rounded_close(a - b, u, k);
        lemma_unscale(difference(a, b)->0 - (a - b), p);
        let v = difference(a, b)->0;
        assert(v * u - (a - b) * u == (v - (a - b)) * u) by (nonlinear_arith);
    }
}

proof fn lemma_unscale(x: int, p: int)
    ensures
        2 * (x * unit()) <= p * unit() && 2 * (-(x * unit())) <= p * unit() ==> 2 * magnitude(x)
            <= p,
{
    let u = unit();
    if 2 * (x * u) <= p * u && 2 * (-(x * u)) <= p * u {
        assert(2 * x <= p && -2 * x <= p) by (nonlinear_arith)
            requires
                2 * (x * u) <= p * u,
                2 * (-(x * u)) <= p * u,
                u > 0,
        ;
    }
}

/// A product is close to the exact one.
pub proof fn lemma_product_close(a: int, b: int, k: nat)
    requires
        k <= 28,
        magnitude(a * b) <= 7 * pow10(k) * (unit() * unit()),
    ensures
        product(a, b) is Some,
        2 * (product(a, b)->0 * unit() - a * b) <= pow10(k) * unit(),
        2 * (a * b - product(a, b)->0 * unit()) <= pow10(k) * unit(),
{
    reveal(product);
    let u = unit();
    let d = u * u;
    assert(d > 0) by (nonlinear_arith)
        requires
            d == u * u,
            u > 0,
    ;
    lemma_rounded_close(a * b, d, k);
    let v = product(a, b)->0;
    let x = v * u - a * b;
    let p = pow10(k);
    assert(v * d - (a * b) * u == x * u) by (nonlinear_arith)
        requires
            d == u * u,
            x == v * u - a * b,
    ;
    assert(p * d == (p * u) * u) by (nonlinear_arith)
        requires
            d == u * u,
    ;
    assert(2 * x <= p * u && -2 * x <= p * u) by (nonlinear_arith)
        requires
            2 * (x * u) <= (p * u) * u,
            2 * (-(x * u)) <= (p * u) * u,
            u > 0,
    ;
}

/// A quotient is close to the exact one.
pub proof fn lemma_quotient_close(a: int, b: int, k: nat)
    requires
        k <= 28,
        b > 0,
        magnitude(a) <= 7 * pow10(k) * b,
    ensures
        quotient(a, b) is Some,
        close(quotient(a, b)->0, a * unit(), b, pow10(k)),
        2 * (quotient(a, b)->0 * b - a * unit()) <= pow10(k) * b,
        2 * (a * unit() - quotient(a, b)->0 * b) <= pow10(k) * b,
{
    reveal(quotient);
    lemma_rounded_close(a, b, k);
    lemma_pow10_positive(k);
    assert(pow10(k) * b >= 0) by (nonlinear_arith)
        requires
            pow10(k) > 0,
            b > 0,
    ;
}

/// What is close stays close when it is multiplied: by at most `m`, where the product is below seven
/// times ten to the power of `k`.
pub proof fn lemma_close_times(v: int, n: int, d: int, e: int, f: int, m: int, k: nat)
    requires
        d > 0,
        e >= 0,
        k <= 28,
        close(v, n, d, e),
        0 <= f <= m * unit(),
        magnitude(v * f) <= 7 * pow10(k) * (unit() * unit()),
    ensures
        product(v, f) is Some,
        close(product(v, f)->0, n * f, d * unit(), e * m + pow10(k)),
{
    lemma_product_close(v, f, k);
    lemma_pow10_positive(k);
    let u = unit();
    let w = product(v, f)->0;
    let p = pow10(k);
    let x = w * u - v * f;
    let y = v * d - n;
    assert(w * (d * u) - n * f == x * d + y * f) by (nonlinear_arith)
        requires
            x == w * u - v * f,
            y == v * d - n,
    ;
    assert(x * d <= (p * u) * d && -(x * d) <= (p * u) * d) by (nonlinear_arith)
        requires
            2 * x <= p * u,
            -2 * x <= p * u,
            p > 0,
            u > 0,
            d > 0,
    {
        assert(x <= p * u);
        assert(-x <= p * u);
    }
    assert(y * f <= (e * d) * (m * u) && -(y * f) <= (e * d) * (m * u)) by (nonlinear_arith)
        requires
            y <= e * d,
            -y <= e * d,
            0 <= f <= m * u,
            e >= 0,
            d > 0,
    {
        assert(y * f <= (e * d) * f);
        assert(-(y * f) <= (e * d) * f);
        assert(e * d >= 0);
        assert((e * d) * f <= (e * d) * (m * u));
    }
    assert((e * m + p) * (d * u) == (e * d) * (m * u) + (p * u) * d) by (nonlinear_arith);
}

/// Decimal arithmetic does not cross a number that a decimal can hold.
pub proof fn law_arithmetic_keeps_order(a: int, b: int, v: int)
    requires
        representable(v),
    ensures
        sum(a, b) matches Some(x) ==> (a + b <= v ==> x <= v) && (a + b >= v ==> x >= v),
        difference(a, b) matches Some(x) ==> (a - b <= v ==> x <= v) && (a - b >= v ==> x >= v),
        product(a, b) matches Some(x) ==> (a * b <= v * unit() ==> x <= v) && (a * b >= v * unit()
            ==> x >= v),
        b > 0 && quotient(a, b) is Some ==> (a * unit() <= v * b ==> quotient(a, b)->0 <= v) && (a
            * unit() >= v * b ==> quotient(a, b)->0 >= v),
{
    reveal(sum);
    reveal(difference);
    reveal(product);
    reveal(quotient);
    let u = unit();
    let d = u * u;
    assert(d > 0) by (nonlinear_arith)
        requires
            d == u * u,
            u > 0,
    ;
    if sum(a, b) is Some {
        lemma_rounded_order(a + b, u, v);
    }
    if difference(a, b) is Some {
        lemma_rounded_order(a - b, u, v);
    }
    if product(a, b) is Some {
        lemma_rounded_order(a * b, d, v);
        assert(v * d == (v * u) * u) by (nonlinear_arith)
            requires
                d == u * u,
        ;
        assert(a * b <= v * u ==> (a * b) * u <= (v * u) * u) by (nonlinear_arith)
            requires
                u > 0,
        ;
        assert(a * b >= v * u ==> (a * b) * u >= (v * u) * u) by (nonlinear_arith)
            requires
                u > 0,
        ;
    }
    if b > 0 && quotient(a, b) is Some {
        lemma_rounded_order(a, b, v);
    }
}

/// A product of two that are bounded is bounded.
pub proof fn lemma_bounded_product(a: int, m: int, b: int, n: int)
    requires
        0 <= a <= m * unit(),
        0 <= b <= n * unit(),
        m >= 0,
        n >= 0,
        m * n <= MAX_MANTISSA,
    ensures
        0 <= a * b <= (m * n) * (unit() * unit()),
        product(a, b) is Some,
        0 <= product(a, b)->0 <= (m * n) * unit(),
{
    let u = unit();
    assert(0 <= a * b <= (m * n) * (u * u)) by (nonlinear_arith)
        requires
            0 <= a <= m * u,
            0 <= b <= n * u,
    {
        assert(a * b <= (m * u) * b);
        assert((m * u) * b <= (m * u) * (n * u));
    }
    assert(m * n >= 0) by (nonlinear_arith)
        requires
            m >= 0,
            n >= 0,
    ;
    assert(u * u > 0) by (nonlinear_arith)
        requires
            u > 0,
    ;
    assert(product(a, b) is Some) by {
        reveal(product);
        let d = u * u;
        assert((m * n) * d <= MAX_MANTISSA * d) by (nonlinear_arith)
            requires
                m * n <= MAX_MANTISSA,
                d >= 0,
        ;
        lemma_rounded_defined(a * b, d);
    }
    lemma_zero_representable();
    lemma_whole_representable(m * n);
    law_arithmetic_keeps_order(a, b, 0);
    law_arithmetic_keeps_order(a, b, (m * n) * u);
    assert((m * n) * (u * u) == ((m * n) * u) * u) by (nonlinear_arith);
}

pub proof fn lemma_scaled(d: int)
    requires
        d > 0,
    ensures
        d * unit() > 0,
{
    assert(d * unit() > 0) by (nonlinear_arith)
        requires
            d > 0,
            unit() > 0,
    ;
}

/// What a quotient comes to is a number that a decimal can hold.
pub proof fn lemma_representable_quotient(a: int, b: int)
    requires
        b > 0,
        quotient(a, b) is Some,
    ensures
        representable(quotient(a, b)->0),
{
    reveal(quotient);
    lemma_rounded_representable(a, b);
}

/// A power of ten that divides the unit is no larger than it.
pub proof fn lemma_pow10_below_unit(k: nat)
    requires
        k <= 28,
    ensures
        0 < pow10(k) <= unit(),
{
    lemma_pow10_unit();
    lemma_pow10_positive(k);
    lemma_pow10_positive((28 - k) as nat);
    lemma_pow10_sum(k, (28 - k) as nat);
    let (a, b) = (pow10(k), pow10((28 - k) as nat));
    assert(a <= a * b) by (nonlinear_arith)
        requires
            a > 0,
            b >= 1,
    ;
}

/// A quotient that is held to at most two is close to the exact one held to at most two.
pub proof fn lemma_share_up_to_two(a: int, b: int)
    requires
        0 <= a,
        0 < b <= unit(),
        quotient(a, b) is Some,
    ensures
        ({
            let share = at_most(quotient(a, b), Some(whole(2)))->0;
            let worth = if a < 2 * b {
                a
            } else {
                2 * b
            };
            &&& 0 <= share <= 2 * unit()
            &&& close(share, worth * unit(), b, 1)
        }),
{
    let u = unit();
    let worth = if a < 2 * b {
        a
    } else {
        2 * b
    };
    lemma_pow10_unit();
    assert(7 * pow10(0) * b == 7 * b) by (nonlinear_arith)
        requires
            pow10(0) == 1,
    ;
    lemma_quotient_close(worth, b, 0);
    lemma_zero_representable();
    lemma_whole_representable(2);
    law_arithmetic_keeps_order(worth, b, 0);
    law_arithmetic_keeps_order(worth, b, 2 * u);
    assert(worth * u <= (2 * u) * b && worth * u >= 0) by (nonlinear_arith)
        requires
            0 <= worth <= 2 * b,
            u > 0,
    ;
    if a >= 2 * b {
        law_arithmetic_keeps_order(a, b, 2 * u);
        assert(a * u >= (2 * u) * b && worth * u == (2 * u) * b) by (nonlinear_arith)
            requires
                a >= 2 * b,
                worth == 2 * b,
                u > 0,
        ;
    }
}

/// A number below seven in ten-thousandths, and how many whole ones there are.
pub proof fn lemma_in_ten_thousandths(v: int)
    requires
        -7 * unit() <= v <= 7 * unit(),
    ensures
        product(v, whole(10000)) == Some(v * 10000),
        v >= 0 ==> count_of(v * 10000, u32::MAX as int) == Some((v * 10000) / unit()),
        v < 0 ==> count_of(v * 10000, u32::MAX as int) is None,
        forall|m: int| (v * 10000) / unit() < m <==> v * 10000 < #[trigger] (m * unit()),
{
    let u = unit();
    let w = whole(10000);
    let x = v * 10000;
    assert(pow10(4) == 10000) by {
        reveal_with_fuel(pow10, 5);
    }
    assert(written_as(x, v, 24));
    assert(v * w == x * u) by (nonlinear_arith)
        requires
            x == v * 10000,
            w == 10000 * u,
    ;
    law_arithmetic_is_exact(v, w, x);
    let n = x / u;
    lemma_fundamental_div_mod(x, u);
    assert(n <= 70000) by (nonlinear_arith)
        requires
            x == u * n + x % u,
            0 <= x % u,
            x <= 70000 * u,
            u > 0,
    ;
    assert forall|m: int| n < m <==> x < #[trigger] (m * u) by {
        assert(n < m <==> x < m * u) by (nonlinear_arith)
            requires
                x == u * n + x % u,
                0 <= x % u < u,
                u > 0,
        ;
    }
}

/// Rounding to `dp` digits gives a number with no more digits, and none of those is nearer.
pub proof fn law_digits_are_dropped_to_the_nearest(v: int, dp: nat)
    requires
        dp <= 28,
    ensures
        round_dp_of(v, dp) % pow10((28 - dp) as nat) == 0,
        2 * magnitude(round_dp_of(v, dp) - v) <= pow10((28 - dp) as nat),
{
    reveal(round_dp_of);
    let d = pow10((28 - dp) as nat);
    lemma_pow10_positive((28 - dp) as nat);
    if dp == 28 {
        assert(pow10(0) == 1);
    } else {
        let m = nearest(v, d);
        lemma_nearest_between(v, d);
        assert(m * d == d * m) by (nonlinear_arith);
        vstd::arithmetic::div_mod::lemma_mod_multiples_basic(m, d);
    }
}

/// Sums and differences of numbers with no more than `s` digits behind the point are exact, as long as
/// they fit.
pub proof fn lemma_even_sum(a: int, b: int, s: nat)
    requires
        s <= 28,
        a % pow10((28 - s) as nat) == 0,
        b % pow10((28 - s) as nat) == 0,
    ensures
        magnitude(a + b) <= MAX_MANTISSA * pow10((28 - s) as nat) ==> sum(a, b) == Some(a + b),
        magnitude(a - b) <= MAX_MANTISSA * pow10((28 - s) as nat) ==> difference(a, b) == Some(
            a - b,
        ),
        (a + b) % pow10((28 - s) as nat) == 0,
        (a - b) % pow10((28 - s) as nat) == 0,
{
    let p = pow10((28 - s) as nat);
    lemma_pow10_positive((28 - s) as nat);
    let (x, y) = (a / p, b / p);
    lemma_fundamental_div_mod(a, p);
    lemma_fundamental_div_mod(b, p);
    assert(a + b == (x + y) * p && a - b == (x - y) * p) by (nonlinear_arith)
        requires
            a == p * x,
            b == p * y,
    ;
    vstd::arithmetic::div_mod::lemma_mod_multiples_basic(x + y, p);
    vstd::arithmetic::div_mod::lemma_mod_multiples_basic(x - y, p);
    if magnitude(a + b) <= MAX_MANTISSA * p {
        lemma_even_representable(x + y, s);
        law_arithmetic_is_exact(a, b, a + b);
    }
    if magnitude(a - b) <= MAX_MANTISSA * p {
        lemma_even_representable(x - y, s);
        law_arithmetic_is_exact(a, b, a - b);
    }
}

proof fn lemma_even_representable(m: int, s: nat)
    requires
        s <= 28,
        magnitude(m * pow10((28 - s) as nat)) <= MAX_MANTISSA * pow10((28 - s) as nat),
    ensures
        representable(m * pow10((28 - s) as nat)),
{
    let p = pow10((28 - s) as nat);
    lemma_pow10_positive((28 - s) as nat);
    let max = MAX_MANTISSA as int;
    assert(-max <= m <= max) by (nonlinear_arith)
        requires
            m * p <= max * p,
            -(m * p) <= max * p,
            p > 0,
    ;
    assert(written_as(m * p, m, s));
}

/// What share of `base` a gap is, in basis points, where the base is at least a hundredth.
pub proof fn lemma_share_in_bps(gap: int, base: int)
    requires
        0 <= gap <= unit(),
        0 < base <= unit(),
        100 * base >= unit(),
    ensures
        quotient(gap, base) is Some,
        product(quotient(gap, base)->0, whole(10000)) is Some,
        close(
            product(quotient(gap, base)->0, whole(10000))->0,
            (gap * unit()) * 10000,
            base,
            10_000_000,
        ),
{
    let u = unit();
    assert(pow10(2) == 100) by {
        reveal_with_fuel(pow10, 3);
    }
    assert(pow10(6) == 1_000_000) by {
        reveal_with_fuel(pow10, 7);
    }
    assert(7 * 100 * base == 700 * base) by (nonlinear_arith);
    lemma_quotient_close(gap, base, 2);
    let share = quotient(gap, base)->0;
    let f = whole(10000);
    assert(f == 10000 * u);
    assert(-100 <= 2 * share <= 200 * u + 100) by (nonlinear_arith)
        requires
            2 * (share * base - gap * u) <= 100 * base,
            2 * (gap * u - share * base) <= 100 * base,
            0 <= gap <= u,
            100 * base >= u,
            u > 0,
    {
        assert(gap * u <= (100 * base) * u);
        assert(gap * u >= 0);
        assert((2 * share) * base <= (200 * u + 100) * base);
        assert((2 * share) * base >= (-100) * base);
    }
    assert(-(7 * 1_000_000 * (u * u)) <= share * f && share * f <= 7 * 1_000_000 * (u * u))
        by (nonlinear_arith)
        requires
            -100 <= 2 * share <= 200 * u + 100,
            f == 10000 * u,
            u > 100,
    {
        assert(share <= 101 * u && share >= -u);
        assert(share * f <= (101 * u) * (10000 * u));
        assert(share * f >= (-u) * (10000 * u));
        assert((101 * u) * (10000 * u) == 1_010_000 * (u * u));
        assert((-u) * (10000 * u) == -(10000 * (u * u)));
    }
    lemma_close_times(share, gap * u, base, 100, f, 10000, 6);
    let x = product(share, f)->0;
    assert(close(x, (gap * u) * 10000, base, 10_000_000)) by (nonlinear_arith)
        requires
            close(x, (gap * u) * f, base * u, 2_000_000),
            f == 10000 * u,
            base > 0,
            u > 0,
    {
        let n = (gap * u) * 10000;
        assert((gap * u) * f == n * u);
        assert(x * (base * u) == (x * base) * u);
        assert((x * base - n) * u <= (2_000_000 * base) * u);
        assert((n - x * base) * u <= (2_000_000 * base) * u);
    }
}

} // verus!
