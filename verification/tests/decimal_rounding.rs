//! Decimal arithmetic against rational arithmetic on wide integers.
use alloy::primitives::aliases::U512;
use pa_strategy::decimal::Decimal;

type Wide = U512;

const LARGEST: u128 = 79_228_162_514_264_337_593_543_950_335;

fn wide(n: u128) -> Wide {
    Wide::from(n)
}

fn pow10(n: u32) -> Wide {
    let mut p = wide(1);
    for _ in 0..n {
        p *= wide(10);
    }
    p
}

/// A number of units with its sign; zero has none.
#[derive(Clone, Copy, Debug, PartialEq)]
struct Units {
    negative: bool,
    size: Wide,
}

fn units(negative: bool, size: Wide) -> Units {
    Units { negative: negative && size != Wide::ZERO, size }
}

fn units_of(d: Decimal) -> Units {
    let m = d.mantissa();
    units(m < 0, wide(m.unsigned_abs()) * pow10(28 - d.scale()))
}

fn added(a: Units, b: Units) -> Units {
    if a.negative == b.negative {
        units(a.negative, a.size + b.size)
    } else if a.size >= b.size {
        units(a.negative, a.size - b.size)
    } else {
        units(b.negative, b.size - a.size)
    }
}

/// The integer nearest to `n / d`, the even one of two.
fn nearest(n: Wide, d: Wide) -> Wide {
    let (q, r) = n.div_rem(d);
    let twice = r + r;
    if twice > d || (twice == d && q % wide(2) == wide(1)) {
        q + wide(1)
    } else {
        q
    }
}

/// The decimal nearest to `n / d` with the most digits that fit.
fn rounded(negative: bool, n: Wide, d: Wide) -> Option<Units> {
    let largest = wide(LARGEST);
    if nearest(n, d) > largest {
        return None;
    }
    for digits in (0..=28u32).rev() {
        let m = nearest(n * pow10(digits), d);
        if m <= largest {
            return Some(units(negative, m * pow10(28 - digits)));
        }
    }
    None
}

struct Numbers(u64);

impl Numbers {
    fn next(&mut self) -> u64 {
        self.0 ^= self.0 << 13;
        self.0 ^= self.0 >> 7;
        self.0 ^= self.0 << 17;
        self.0
    }

    /// A decimal with any number of bits and any scale; often a round one.
    fn decimal(&mut self) -> Decimal {
        let bits = (self.next() % 97) as u32;
        let raw = (u128::from(self.next()) << 64) | u128::from(self.next());
        let mut m = if bits == 0 { 0 } else { raw >> (128 - bits) };
        match self.next() % 6 {
            0 => m = LARGEST - (m % 3),
            1 => m = m / 1_000_000 * 1_000_000 + 5 * (m % 2) * 100_000,
            _ => {}
        }
        let scale = (self.next() % 29) as u32;
        let sign: i128 = if self.next() % 2 == 0 { 1 } else { -1 };
        Decimal::from_parts(sign * m as i128, scale).unwrap()
    }
}

fn outside(d: Decimal) -> rust_decimal::Decimal {
    rust_decimal::Decimal::from_i128_with_scale(d.mantissa(), d.scale())
}

#[test]
fn arithmetic_gives_the_nearest_decimal() {
    let one = pow10(28);
    let mut numbers = Numbers(0x9e37_79b9_7f4a_7c15);
    for _ in 0..40_000 {
        let (a, b) = (numbers.decimal(), numbers.decimal());
        let (x, y) = (units_of(a), units_of(b));
        let sum = added(x, y);
        match rounded(sum.negative, sum.size, one) {
            Some(v) => assert_eq!(units_of(a + b), v, "{a:?} + {b:?}"),
            None => assert!(outside(a).checked_add(outside(b)).is_none(), "{a:?} + {b:?}"),
        }
        let difference = added(x, units(!y.negative, y.size));
        match rounded(difference.negative, difference.size, one) {
            Some(v) => assert_eq!(units_of(a - b), v, "{a:?} - {b:?}"),
            None => assert!(outside(a).checked_sub(outside(b)).is_none(), "{a:?} - {b:?}"),
        }
        let negative = x.negative != y.negative;
        match rounded(negative, x.size * y.size, one * one) {
            Some(v) => assert_eq!(units_of(a * b), v, "{a:?} * {b:?}"),
            None => assert!(outside(a).checked_mul(outside(b)).is_none(), "{a:?} * {b:?}"),
        }
        if y.size != Wide::ZERO {
            match rounded(negative, x.size, y.size) {
                Some(v) => assert_eq!(units_of(a / b), v, "{a:?} / {b:?}"),
                None => assert!(outside(a).checked_div(outside(b)).is_none(), "{a:?} / {b:?}"),
            }
        }
    }
}

#[test]
fn steps_give_the_nearest_number_of_their_kind() {
    let one = pow10(28);
    let mut numbers = Numbers(0x0123_4567_89ab_cdef);
    for _ in 0..40_000 {
        let a = numbers.decimal();
        let x = units_of(a);
        let (whole, rest) = x.size.div_rem(one);
        let up = if rest == Wide::ZERO { whole } else { whole + wide(1) };
        let (low, high) = if x.negative { (up, whole) } else { (whole, up) };
        assert_eq!(units_of(a.floor()), units(x.negative, low * one), "{a:?}");
        assert_eq!(units_of(a.ceil()), units(x.negative, high * one), "{a:?}");
        for places in [0u32, 1, 2, 4, 10, 27, 28, 40] {
            let wanted = if places >= 28 {
                x
            } else {
                let step = pow10(28 - places);
                units(x.negative, nearest(x.size, step) * step)
            };
            assert_eq!(units_of(a.round_dp(places)), wanted, "{a:?} to {places}");
        }
        let count = if x.negative || whole > wide(u128::from(u64::MAX)) {
            None
        } else {
            Some(whole.to::<u64>())
        };
        assert_eq!(a.to_u64(), count, "{a:?}");
        let b = numbers.decimal();
        let y = units_of(b);
        let below = match (x.negative, y.negative) {
            (false, false) => x.size < y.size,
            (true, true) => x.size > y.size,
            (negative, _) => negative,
        };
        assert_eq!(a < b, below, "{a:?} < {b:?}");
        assert_eq!(a == b, x == y, "{a:?} == {b:?}");
    }
}
