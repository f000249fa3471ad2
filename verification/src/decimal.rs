//! Decimal numbers: a 96-bit mantissa and up to 28 digits after the point.
use crate::rounding::{MAX_MANTISSA, MAX_SCALE};
use vstd::prelude::*;

verus! {

use crate::rounding::{
    ceil_count_of, ceil_of, count_of, difference, floor_of, greater, lesser, magnitude, pow10,
    product, quotient, representable, round_dp_of, sum, unit, whole, whole_part, written_as,
};

/// A decimal number. Its view is its value counted in units of 10^-28: the view of one is 10^28,
/// and two decimals are the same number exactly when their views are equal. There is one zero, with
/// no sign.
#[derive(Clone, Copy, Debug)]
pub struct Decimal {
    mantissa: i128,
    scale: u32,
}

impl View for Decimal {
    type V = int;

    closed spec fn view(&self) -> int {
        self.mantissa * pow10((28 - self.scale) as nat)
    }
}

impl Decimal {
    #[verifier::type_invariant]
    spec fn fits(self) -> bool {
        &&& -MAX_MANTISSA <= self.mantissa <= MAX_MANTISSA
        &&& self.scale <= MAX_SCALE
    }

    /// The decimal `mantissa * 10^-scale`, where it is one.
    pub fn from_parts(mantissa: i128, scale: u32) -> (r: Option<Decimal>)
        ensures
            r is Some <==> -MAX_MANTISSA <= mantissa <= MAX_MANTISSA && scale <= MAX_SCALE,
            r is Some ==> r->0@ == mantissa * pow10((28 - scale) as nat),
    {
        if mantissa <= MAX_MANTISSA && mantissa >= -MAX_MANTISSA && scale <= MAX_SCALE {
            Some(Decimal { mantissa, scale })
        } else {
            None
        }
    }

    /// The decimal `num * 10^-scale`.
    pub fn new(num: i64, scale: u32) -> (r: Decimal)
        requires
            scale <= MAX_SCALE,
        ensures
            r@ == num * pow10((28 - scale) as nat),
    {
        Decimal { mantissa: num as i128, scale }
    }

    /// The digits, as an integer.
    pub fn mantissa(self) -> (r: i128)
        ensures
            self@ == r * pow10((28 - self.spec_scale()) as nat),
            -MAX_MANTISSA <= r <= MAX_MANTISSA,
            representable(self@),
    {
        proof {
            use_type_invariant(&self);
            assert(written_as(self@, self.mantissa as int, self.scale as nat));
        }
        self.mantissa
    }

    pub closed spec fn spec_scale(self) -> int {
        self.scale as int
    }

    /// How many of the digits stand after the point.
    pub fn scale(self) -> (r: u32)
        ensures
            r == self.spec_scale(),
            r <= MAX_SCALE,
    {
        proof {
            use_type_invariant(&self);
        }
        self.scale
    }

    pub fn zero() -> (r: Decimal)
        ensures
            r@ == 0,
    {
        Decimal { mantissa: 0, scale: 0 }
    }

    pub fn one() -> (r: Decimal)
        ensures
            r@ == unit(),
    {
        Decimal::from_u64(1)
    }

    pub fn two() -> (r: Decimal)
        ensures
            r@ == whole(2),
    {
        Decimal::from_u64(2)
    }

    /// The largest decimal.
    pub fn max_value() -> (r: Decimal)
        ensures
            r@ == whole(MAX_MANTISSA as int),
    {
        proof {
            crate::rounding::lemma_pow10_unit();
        }
        Decimal { mantissa: MAX_MANTISSA, scale: 0 }
    }

    pub fn from_u32(n: u32) -> (r: Decimal)
        ensures
            r@ == whole(n as int),
    {
        Decimal::from_u64(n as u64)
    }

    pub fn from_u64(n: u64) -> (r: Decimal)
        ensures
            r@ == whole(n as int),
    {
        proof {
            crate::rounding::lemma_pow10_unit();
        }
        Decimal { mantissa: n as i128, scale: 0 }
    }

    pub fn from_i64(n: i64) -> (r: Decimal)
        ensures
            r@ == whole(n as int),
    {
        proof {
            crate::rounding::lemma_pow10_unit();
        }
        Decimal { mantissa: n as i128, scale: 0 }
    }

    pub fn min(self, other: Decimal) -> (r: Decimal)
        ensures
            r@ == lesser(self@, other@),
            r == self || r == other,
    {
        if self > other {
            other
        } else {
            self
        }
    }

    pub fn max(self, other: Decimal) -> (r: Decimal)
        ensures
            r@ == greater(self@, other@),
            r == self || r == other,
    {
        if self < other {
            other
        } else {
            self
        }
    }

    /// `rust_decimal::Decimal`'s `+`: the exact sum, rounded to the nearest decimal with the most
    /// digits that fit, ties to even. It panics on the sums that are left out here.
    #[verifier::external_body]
    fn outside_sum(self, other: Decimal) -> (r: Decimal)
        requires
            sum(self@, other@) is Some,
        ensures
            sum(self@, other@) == Some(r@),
    {
        let r = rust_decimal::Decimal::from_i128_with_scale(self.mantissa, self.scale)
            + rust_decimal::Decimal::from_i128_with_scale(other.mantissa, other.scale);
        Decimal { mantissa: r.mantissa(), scale: r.scale() }
    }

    /// `rust_decimal::Decimal`'s `-`, rounded as the sum is.
    #[verifier::external_body]
    fn outside_difference(self, other: Decimal) -> (r: Decimal)
        requires
            difference(self@, other@) is Some,
        ensures
            difference(self@, other@) == Some(r@),
    {
        let r = rust_decimal::Decimal::from_i128_with_scale(self.mantissa, self.scale)
            - rust_decimal::Decimal::from_i128_with_scale(other.mantissa, other.scale);
        Decimal { mantissa: r.mantissa(), scale: r.scale() }
    }

    /// `rust_decimal::Decimal`'s `*`, rounded as the sum is.
    #[verifier::external_body]
    fn outside_product(self, other: Decimal) -> (r: Decimal)
        requires
            product(self@, other@) is Some,
        ensures
            product(self@, other@) == Some(r@),
    {
        let r = rust_decimal::Decimal::from_i128_with_scale(self.mantissa, self.scale)
            * rust_decimal::Decimal::from_i128_with_scale(other.mantissa, other.scale);
        Decimal { mantissa: r.mantissa(), scale: r.scale() }
    }

    /// `rust_decimal::Decimal`'s `/`, rounded as the sum is. It panics on a zero divisor too.
    #[verifier::external_body]
    fn outside_quotient(self, other: Decimal) -> (r: Decimal)
        requires
            quotient(self@, other@) is Some,
        ensures
            quotient(self@, other@) == Some(r@),
    {
        let r = rust_decimal::Decimal::from_i128_with_scale(self.mantissa, self.scale)
            / rust_decimal::Decimal::from_i128_with_scale(other.mantissa, other.scale);
        Decimal { mantissa: r.mantissa(), scale: r.scale() }
    }

    /// `rust_decimal::Decimal`'s `<`: it compares the numbers, whatever their scales.
    #[verifier::external_body]
    fn outside_less(self, other: Decimal) -> (r: bool)
        ensures
            r == (self@ < other@),
    {
        rust_decimal::Decimal::from_i128_with_scale(self.mantissa, self.scale)
            < rust_decimal::Decimal::from_i128_with_scale(other.mantissa, other.scale)
    }

    /// `rust_decimal::Decimal::floor`: the largest integer that is not above the number.
    #[verifier::external_body]
    fn outside_floor(self) -> (r: Decimal)
        ensures
            r@ == floor_of(self@),
    {
        let r = rust_decimal::Decimal::from_i128_with_scale(self.mantissa, self.scale).floor();
        Decimal { mantissa: r.mantissa(), scale: r.scale() }
    }

    /// `rust_decimal::Decimal::ceil`: the smallest integer that is not below the number.
    #[verifier::external_body]
    fn outside_ceil(self) -> (r: Decimal)
        ensures
            r@ == ceil_of(self@),
    {
        let r = rust_decimal::Decimal::from_i128_with_scale(self.mantissa, self.scale).ceil();
        Decimal { mantissa: r.mantissa(), scale: r.scale() }
    }

    /// `rust_decimal::Decimal::round_dp`: the nearest number with `dp` digits after the point, ties
    /// to even.
    #[verifier::external_body]
    fn outside_round_dp(self, dp: u32) -> (r: Decimal)
        ensures
            r@ == round_dp_of(self@, dp as nat),
    {
        let r = rust_decimal::Decimal::from_i128_with_scale(self.mantissa, self.scale).round_dp(dp);
        Decimal { mantissa: r.mantissa(), scale: r.scale() }
    }

    /// `rust_decimal::Decimal::trunc`, handed back as an integer: the number without its fraction.
    #[verifier::external_body]
    fn outside_trunc(self) -> (r: i128)
        ensures
            r == whole_part(self@),
    {
        rust_decimal::Decimal::from_i128_with_scale(self.mantissa, self.scale).trunc().mantissa()
    }

    pub fn floor(self) -> (r: Decimal)
        ensures
            r@ == floor_of(self@),
    {
        self.outside_floor()
    }

    pub fn ceil(self) -> (r: Decimal)
        ensures
            r@ == ceil_of(self@),
    {
        self.outside_ceil()
    }

    pub fn round_dp(self, dp: u32) -> (r: Decimal)
        ensures
            r@ == round_dp_of(self@, dp as nat),
    {
        self.outside_round_dp(dp)
    }

    pub fn abs(self) -> (r: Decimal)
        ensures
            r@ == magnitude(self@),
    {
        proof {
            use_type_invariant(&self);
            crate::rounding::lemma_pow10_positive((28 - self.scale) as nat);
            let p = pow10((28 - self.scale) as nat);
            assert(magnitude(self.mantissa * p) == magnitude(self.mantissa as int) * p)
                by (nonlinear_arith)
                requires
                    p > 0,
            ;
        }
        Decimal {
            mantissa: if self.mantissa < 0 {
                -self.mantissa
            } else {
                self.mantissa
            },
            scale: self.scale,
        }
    }

    pub fn is_zero(self) -> (r: bool)
        ensures
            r == (self@ == 0),
    {
        self == Decimal::zero()
    }

    /// The whole part as a count; none for a negative number or one that is too large.
    pub fn to_u32(self) -> (r: Option<u32>)
        ensures
            count_of(self@, u32::MAX as int) == (match r {
                Some(n) => Some(n as int),
                None => None,
            }),
    {
        let n: i128 = self.outside_trunc();
        if self < Decimal::zero() || n > u32::MAX as i128 {
            None
        } else {
            Some(n as u32)
        }
    }

    /// The number rounded up, as a count; none for a negative number or one that is too large.
    pub fn ceil_to_u32(self) -> (r: Option<u32>)
        ensures
            ceil_count_of(self@, u32::MAX as int) == (match r {
                Some(n) => Some(n as int),
                None => None,
            }),
    {
        if self < Decimal::zero() {
            None
        } else {
            self.ceil().to_u32()
        }
    }

    /// The whole part as a count; none for a negative number or one that is too large.
    pub fn to_u64(self) -> (r: Option<u64>)
        ensures
            count_of(self@, u64::MAX as int) == (match r {
                Some(n) => Some(n as int),
                None => None,
            }),
    {
        let n: i128 = self.outside_trunc();
        if self < Decimal::zero() || n > u64::MAX as i128 {
            None
        } else {
            Some(n as u64)
        }
    }
}

impl PartialEq for Decimal {
    fn eq(&self, other: &Decimal) -> (r: bool) {
        !self.outside_less(*other) && !other.outside_less(*self)
    }
}

impl Eq for Decimal {

}

impl vstd::std_specs::cmp::PartialEqSpecImpl for Decimal {
    open spec fn obeys_eq_spec() -> bool {
        true
    }

    open spec fn eq_spec(&self, other: &Decimal) -> bool {
        self@ == other@
    }
}

impl PartialOrd for Decimal {
    fn partial_cmp(&self, other: &Decimal) -> (r: Option<std::cmp::Ordering>) {
        if self.outside_less(*other) {
            Some(std::cmp::Ordering::Less)
        } else if other.outside_less(*self) {
            Some(std::cmp::Ordering::Greater)
        } else {
            Some(std::cmp::Ordering::Equal)
        }
    }
}

impl vstd::std_specs::cmp::PartialOrdSpecImpl for Decimal {
    open spec fn obeys_partial_cmp_spec() -> bool {
        true
    }

    open spec fn partial_cmp_spec(&self, other: &Decimal) -> Option<std::cmp::Ordering> {
        if self@ < other@ {
            Some(std::cmp::Ordering::Less)
        } else if self@ > other@ {
            Some(std::cmp::Ordering::Greater)
        } else {
            Some(std::cmp::Ordering::Equal)
        }
    }
}

impl std::ops::Add for Decimal {
    type Output = Decimal;

    fn add(self, other: Decimal) -> (r: Decimal)
        ensures
            sum(self@, other@) == Some(r@),
    {
        self.outside_sum(other)
    }
}

impl vstd::std_specs::ops::AddSpecImpl for Decimal {
    open spec fn obeys_add_spec() -> bool {
        false
    }

    open spec fn add_req(self, rhs: Decimal) -> bool {
        sum(self@, rhs@) is Some
    }

    open spec fn add_spec(self, rhs: Decimal) -> Decimal {
        self
    }
}

impl std::ops::Sub for Decimal {
    type Output = Decimal;

    fn sub(self, other: Decimal) -> (r: Decimal)
        ensures
            difference(self@, other@) == Some(r@),
    {
        self.outside_difference(other)
    }
}

impl vstd::std_specs::ops::SubSpecImpl for Decimal {
    open spec fn obeys_sub_spec() -> bool {
        false
    }

    open spec fn sub_req(self, rhs: Decimal) -> bool {
        difference(self@, rhs@) is Some
    }

    open spec fn sub_spec(self, rhs: Decimal) -> Decimal {
        self
    }
}

impl std::ops::Mul for Decimal {
    type Output = Decimal;

    fn mul(self, other: Decimal) -> (r: Decimal)
        ensures
            product(self@, other@) == Some(r@),
    {
        self.outside_product(other)
    }
}

impl vstd::std_specs::ops::MulSpecImpl for Decimal {
    open spec fn obeys_mul_spec() -> bool {
        false
    }

    open spec fn mul_req(self, rhs: Decimal) -> bool {
        product(self@, rhs@) is Some
    }

    open spec fn mul_spec(self, rhs: Decimal) -> Decimal {
        self
    }
}

impl std::ops::Div for Decimal {
    type Output = Decimal;

    fn div(self, other: Decimal) -> (r: Decimal)
        ensures
            quotient(self@, other@) == Some(r@),
    {
        self.outside_quotient(other)
    }
}

impl vstd::std_specs::ops::DivSpecImpl for Decimal {
    open spec fn obeys_div_spec() -> bool {
        false
    }

    open spec fn div_req(self, rhs: Decimal) -> bool {
        quotient(self@, rhs@) is Some
    }

    open spec fn div_spec(self, rhs: Decimal) -> Decimal {
        self
    }
}

} // verus!
