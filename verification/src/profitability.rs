//! What a trade earns.
use crate::decimal::Decimal;
use vstd::prelude::*;

verus! {

use crate::rounding::{
    at_most, close, difference, law_arithmetic_is_exact, law_arithmetic_keeps_order,
    law_arithmetic_stays_in_range, lemma_bounded_product, lemma_complement,
    lemma_fraction_representable, lemma_pow10_below_unit, lemma_pow10_positive, lemma_pow10_unit,
    lemma_product_bounded, lemma_product_close, lemma_product_swap, lemma_quotient_close,
    lemma_rounded_defined,
    lemma_rounded_order, lemma_sum_close, lemma_whole_representable, lemma_zero_representable,
    magnitude, minus, over, plus, pow10, product, quotient, representable, sum, times, unit, whole,
    within, written_as, MAX_MANTISSA,
};

/// Reckons the profit of trades.
#[derive(Clone, Copy, Debug)]
pub struct ProfitCalculator {
    /// The cost in USD of one on-chain transaction.
    pub gas_cost_usd: Decimal,
}

/// The expected result of a trade.
#[derive(Clone, Copy, Debug)]
pub struct ProfitEstimate {
    pub gross_profit: Decimal,
    pub fees: Decimal,
    pub gas: Decimal,
    pub net_profit: Decimal,
    pub roi: Decimal,
}

/// The figures of an estimate.
pub struct ProfitFigures {
    pub gross_profit: int,
    pub fees: int,
    pub gas: int,
    pub net_profit: int,
    pub roi: int,
}

impl View for ProfitEstimate {
    type V = ProfitFigures;

    open spec fn view(&self) -> ProfitFigures {
        ProfitFigures {
            gross_profit: self.gross_profit@,
            fees: self.fees@,
            gas: self.gas@,
            net_profit: self.net_profit@,
            roi: self.roi@,
        }
    }
}

/// Basis points as a fraction.
pub open spec fn bps_fraction(bps: int) -> Option<int> {
    over(Some(whole(bps)), Some(whole(10000)))
}

/// The fee for one share: the rate on its price, but no more than what the losing side is worth.
pub open spec fn fee_of(price: int, fee_rate_bps: int) -> Option<int> {
    at_most(
        times(Some(price), bps_fraction(fee_rate_bps)),
        times(Some(price), minus(Some(unit()), Some(price))),
    )
}

/// `profit / cost`, zero where nothing was paid.
pub open spec fn return_on(profit: Option<int>, cost: Option<int>) -> Option<int> {
    match cost {
        Some(c) => if c > 0 {
            over(profit, cost)
        } else {
            Some(0)
        },
        None => None,
    }
}

pub open spec fn figures(
    gross: Option<int>,
    fees: Option<int>,
    net: Option<int>,
    roi: Option<int>,
) -> Option<ProfitFigures> {
    match (gross, fees, net, roi) {
        (Some(gross_profit), Some(fees), Some(net_profit), Some(roi)) => Some(
            ProfitFigures { gross_profit, fees, gas: 0, net_profit, roi },
        ),
        _ => None,
    }
}

/// The expected result of buying `size` shares at `ask`, each worth one with probability `prob`.
pub open spec fn buy_figures(ask: int, prob: int, size: int, fee_rate_bps: int) -> Option<
    ProfitFigures,
> {
    let gross = times(minus(Some(prob), Some(ask)), Some(size));
    let fees = times(fee_of(ask, fee_rate_bps), Some(size));
    let net = minus(gross, fees);
    let cost = plus(times(Some(ask), Some(size)), fees);
    figures(gross, fees, net, return_on(net, cost))
}

/// The result of selling `size` shares at `price` that were bought at `avg_cost`.
pub open spec fn sell_figures(price: int, avg_cost: int, size: int, fee_rate_bps: int) -> Option<
    ProfitFigures,
> {
    let cost = times(Some(avg_cost), Some(size));
    let gross = minus(times(Some(price), Some(size)), cost);
    let fees = times(fee_of(price, fee_rate_bps), Some(size));
    let net = minus(gross, fees);
    figures(gross, fees, net, return_on(net, cost))
}

/// Any number of basis points has a fraction, which is not below zero.
pub proof fn lemma_bps_fraction(bps: u32)
    ensures
        within(bps_fraction(bps as int), u32::MAX as int),
        bps_fraction(bps as int)->0 >= 0,
{
    lemma_whole_representable(bps as int);
    lemma_whole_representable(10000);
    law_arithmetic_stays_in_range(Some(whole(bps as int)), Some(whole(10000)), bps as int, 10000, 1);
    reveal(quotient);
    lemma_zero_representable();
    lemma_rounded_order(whole(bps as int), whole(10000), 0);
}

/// Basis points as a fraction.
pub fn bps_as_fraction(bps: u32) -> (r: Decimal)
    ensures
        bps_fraction(bps as int) == Some(r@),
        r@ >= 0,
{
    proof {
        lemma_bps_fraction(bps);
    }
    Decimal::from_u32(bps) / Decimal::from_u32(10000)
}

/// The fee on a price between zero and one can always be reckoned. It is never below zero, never
/// more than the rate on the price, and never more than what the losing side is worth.
pub proof fn law_fee_is_capped(price: int, fee_rate_bps: u32)
    requires
        representable(price),
        0 <= price <= unit(),
    ensures
        fee_of(price, fee_rate_bps as int) is Some,
        fee_of(price, fee_rate_bps as int)->0 >= 0,
        fee_of(price, fee_rate_bps as int)->0 <= times(
            Some(price),
            bps_fraction(fee_rate_bps as int),
        )->0,
        fee_of(price, fee_rate_bps as int)->0 <= times(
            Some(price),
            minus(Some(unit()), Some(price)),
        )->0,
{
    lemma_bps_fraction(fee_rate_bps);
    lemma_complement(price);
    let rate = bps_fraction(fee_rate_bps as int)->0;
    lemma_product_bounded(rate, price, whole(u32::MAX as int));
    lemma_product_bounded(unit() - price, price, unit());
    lemma_product_swap(price, rate);
    lemma_product_swap(price, unit() - price);
}

/// A whole number that a size is not above, no more than one larger.
proof fn lemma_size_bound(size: int) -> (k: int)
    requires
        0 <= size <= whole(1_000_000_000_000),
    ensures
        size <= whole(k),
        0 <= k <= 1_000_000_000_001,
        size < unit() ==> k == 1,
{
    let k = size / unit() + 1;
    assert(size == (size / unit()) * unit() + size % unit());
    assert(whole(k) == (size / unit()) * unit() + unit()) by (nonlinear_arith)
        requires
            k == size / unit() + 1,
    ;
    k
}

/// A profit on so many shares can be set against what they cost.
proof fn lemma_return_defined(net: Option<int>, cost: Option<int>, price: int, size: int, k: int)
    requires
        pow10(24) <= price,
        representable(price),
        0 <= size,
        size < unit() ==> k == 1,
        0 <= k <= 1_000_000_000_001,
        within(net, 3 * k),
        cost is Some,
        cost->0 >= product(price, size)->0,
        product(price, size) is Some,
    ensures
        return_on(net, cost) is Some,
{
    let c = cost->0;
    let n = net->0;
    if c > 0 {
        assert(pow10(24) == 1_000_000_000_000_000_000_000_000) by {
            reveal_with_fuel(pow10, 25);
        }
        if size >= unit() {
            reveal(product);
            assert((price * size) * unit() >= price * (unit() * unit())) by (nonlinear_arith)
                requires
                    price > 0,
                    size >= unit(),
                    unit() > 0,
            {
                assert(price * size >= price * unit());
                assert((price * size) * unit() >= (price * unit()) * unit());
            }
            lemma_rounded_order(price * size, unit() * unit(), price);
        }
        assert(magnitude(n) <= MAX_MANTISSA * c);
        reveal(quotient);
        lemma_rounded_defined(n, c);
    }
}

/// The fee on a price between zero and one lies between zero and one.
proof fn lemma_fee_below_one(price: int, fee_rate_bps: u32)
    requires
        representable(price),
        0 <= price <= unit(),
    ensures
        within(fee_of(price, fee_rate_bps as int), 1),
        fee_of(price, fee_rate_bps as int)->0 >= 0,
{
    let rate = bps_fraction(fee_rate_bps as int);
    law_fee_is_capped(price, fee_rate_bps);
    lemma_complement(price);
    lemma_bps_fraction(fee_rate_bps);
    law_arithmetic_stays_in_range(Some(price), rate, 1, u32::MAX as int, 1);
    law_arithmetic_stays_in_range(Some(price), Some(unit() - price), 1, 1, 1);
}

/// Adding what is not below zero gives no less.
proof fn lemma_sum_grows(a: int, b: int)
    requires
        representable(a),
        b >= 0,
        sum(a, b) is Some,
    ensures
        sum(a, b)->0 >= a,
{
    reveal(sum);
    assert((a + b) * unit() >= a * unit()) by (nonlinear_arith)
        requires
            b >= 0,
            unit() > 0,
    ;
    lemma_rounded_order(a + b, unit(), a);
}

/// The result of a trade can be reckoned for any price between zero and one, any chance, and any
/// size up to 10^12, as long as what is paid for a share is at least a ten-thousandth.
pub proof fn law_trades_can_be_reckoned(paid: int, other: int, size: int, fee_rate_bps: u32)
    requires
        representable(paid),
        representable(other),
        representable(size),
        pow10(24) <= paid <= unit(),
        0 <= other <= unit(),
        0 <= size <= whole(1_000_000_000_000),
    ensures
        buy_figures(paid, other, size, fee_rate_bps as int) is Some,
        sell_figures(other, paid, size, fee_rate_bps as int) is Some,
{
    let bps = fee_rate_bps as int;
    lemma_pow10_positive(24);
    let k = lemma_size_bound(size);
    lemma_fee_below_one(paid, fee_rate_bps);
    lemma_fee_below_one(other, fee_rate_bps);
    let shares = Some(size);
    let edge = minus(Some(other), Some(paid));
    let bought = times(Some(paid), shares);
    let sold = times(Some(other), shares);
    let buy_fees = times(fee_of(paid, bps), shares);
    let sell_fees = times(fee_of(other, bps), shares);
    law_arithmetic_stays_in_range(Some(other), Some(paid), 1, 1, 1);
    law_arithmetic_stays_in_range(edge, shares, 2, k, 1);
    law_arithmetic_stays_in_range(fee_of(paid, bps), shares, 1, k, 1);
    law_arithmetic_stays_in_range(fee_of(other, bps), shares, 1, k, 1);
    law_arithmetic_stays_in_range(Some(paid), shares, 1, k, 1);
    law_arithmetic_stays_in_range(Some(other), shares, 1, k, 1);
    law_arithmetic_stays_in_range(times(edge, shares), buy_fees, 2 * k, k, 1);
    law_arithmetic_stays_in_range(bought, buy_fees, k, k, 1);
    law_arithmetic_stays_in_range(sold, bought, k, k, 1);
    law_arithmetic_stays_in_range(minus(sold, bought), sell_fees, 2 * k, k, 1);
    lemma_product_swap(fee_of(paid, bps)->0, size);
    lemma_product_bounded(size, fee_of(paid, bps)->0, whole(1_000_000_000_000));
    lemma_sum_grows(bought->0, buy_fees->0);
    lemma_return_defined(
        minus(times(edge, shares), buy_fees),
        plus(bought, buy_fees),
        paid,
        size,
        k,
    );
    lemma_return_defined(minus(minus(sold, bought), sell_fees), bought, paid, size, k);
}

impl ProfitCalculator {
    pub fn new(gas_cost_usd: Decimal) -> (r: ProfitCalculator)
        ensures
            r.gas_cost_usd == gas_cost_usd,
    {
        ProfitCalculator { gas_cost_usd }
    }

    /// The fee for one share, never more than the value of the losing side.
    pub fn capped_fee(&self, price: Decimal, fee_rate_bps: u32) -> (r: Decimal)
        requires
            fee_of(price@, fee_rate_bps as int) is Some,
        ensures
            fee_of(price@, fee_rate_bps as int) == Some(r@),
    {
        let fee_rate = bps_as_fraction(fee_rate_bps);
        let raw_fee = price * fee_rate;
        let max_fee = price * (Decimal::one() - price);
        raw_fee.min(max_fee)
    }

    /// The expected result of a directional buy. It needs no on-chain transaction, so no gas.
    pub fn directional_buy_profit(
        &self,
        ask_price: Decimal,
        model_prob: Decimal,
        size: Decimal,
        fee_rate_bps: u32,
    ) -> (r: ProfitEstimate)
        requires
            buy_figures(ask_price@, model_prob@, size@, fee_rate_bps as int) is Some,
        ensures
            buy_figures(ask_price@, model_prob@, size@, fee_rate_bps as int) == Some(r@),
    {
        let ev_per_unit = model_prob - ask_price;
        let gross_profit = ev_per_unit * size;
        let fee = self.capped_fee(ask_price, fee_rate_bps);
        let fees = fee * size;
        let net_profit = gross_profit - fees;
        let total_cost = ask_price * size + fees;
        let roi = if total_cost > Decimal::zero() {
            net_profit / total_cost
        } else {
            Decimal::zero()
        };
        ProfitEstimate { gross_profit, fees, gas: Decimal::zero(), net_profit, roi }
    }

    /// The result of a directional sell, which may be a loss.
    pub fn directional_sell_profit(
        &self,
        sell_price: Decimal,
        avg_cost: Decimal,
        size: Decimal,
        fee_rate_bps: u32,
    ) -> (r: ProfitEstimate)
        requires
            sell_figures(sell_price@, avg_cost@, size@, fee_rate_bps as int) is Some,
        ensures
            sell_figures(sell_price@, avg_cost@, size@, fee_rate_bps as int) == Some(r@),
    {
        let revenue = sell_price * size;
        let cost = avg_cost * size;
        let gross_profit = revenue - cost;
        let fee = self.capped_fee(sell_price, fee_rate_bps);
        let fees = fee * size;
        let net_profit = gross_profit - fees;
        let roi = if cost > Decimal::zero() {
            net_profit / cost
        } else {
            Decimal::zero()
        };
        ProfitEstimate { gross_profit, fees, gas: Decimal::zero(), net_profit, roi }
    }
}

/// A basis point is a ten-thousandth.
pub proof fn law_basis_points_are_ten_thousandths(bps: u32)
    ensures
        bps_fraction(bps as int) == Some(bps * pow10(24)),
        bps_fraction(bps as int)->0 * 10000 == bps * unit(),
{
    let v = bps * pow10(24);
    assert(pow10(24) == 1_000_000_000_000_000_000_000_000) by {
        reveal_with_fuel(pow10, 25);
    }
    assert(written_as(v, bps as int, 4));
    assert(v * 10000 == bps * unit());
    assert(whole(bps as int) * unit() == v * whole(10000)) by (nonlinear_arith)
        requires
            v * 10000 == bps * unit(),
    ;
    law_arithmetic_is_exact(whole(bps as int), whole(10000), v);
}

/// The fee for a share is the smaller of the rate on its price and of the price times what it lacks
/// of one, up to the rounding of the last digit.
pub proof fn law_fee_is_the_smaller_of_two(price: int, fee_rate_bps: u32)
    requires
        0 <= price <= unit(),
        fee_rate_bps <= 10000,
    ensures
        fee_of(price, fee_rate_bps as int) is Some,
        ({
            let u = unit();
            let fee = fee_of(price, fee_rate_bps as int)->0;
            let by_rate = price * fee_rate_bps;
            let by_losing = price * (u - price);
            &&& 0 <= fee <= price
            &&& fee * 10000 <= by_rate + 10000
            &&& fee * u <= by_losing + u
            &&& fee * 10000 >= by_rate - 10000 || fee * u >= by_losing - u
        }),
{
    let u = unit();
    let rate = bps_fraction(fee_rate_bps as int)->0;
    law_basis_points_are_ten_thousandths(fee_rate_bps);
    lemma_pow10_unit();
    lemma_sum_close(u, price, 0);
    lemma_bounded_product(price, 1, rate, 1);
    lemma_bounded_product(price, 1, u - price, 1);
    lemma_product_close(price, rate, 0);
    lemma_product_close(price, u - price, 0);
    lemma_fraction_representable(price);
    law_arithmetic_keeps_order(price, rate, price);
    assert(price * rate <= price * u) by (nonlinear_arith)
        requires
            0 <= rate <= u,
            price >= 0,
    ;
    let x = product(price, rate)->0;
    assert((price * rate) * 10000 == (price * fee_rate_bps) * u) by (nonlinear_arith)
        requires
            rate * 10000 == fee_rate_bps * u,
    ;
    let by_rate = price * fee_rate_bps;
    assert(x * 10000 <= by_rate + 10000 && x * 10000 >= by_rate - 10000) by (nonlinear_arith)
        requires
            2 * (x * u - price * rate) <= 1 * u,
            2 * (price * rate - x * u) <= 1 * u,
            (price * rate) * 10000 == by_rate * u,
            u > 0,
    {
        assert((x * 10000 - by_rate) * u <= 10000 * u);
        assert((by_rate - x * 10000) * u <= 10000 * u);
    }
}

/// What a purchase is expected to earn, before and after fees: each share is worth its probability and
/// costs its price and the fee. It holds up to the rounding of the last digits.
pub proof fn law_purchase_earns_its_edge(
    ask: int,
    prob: int,
    size: int,
    fee_rate_bps: u32,
    k: nat,
)
    requires
        k <= 20,
        0 <= ask <= unit(),
        0 <= prob <= unit(),
        0 <= size <= pow10(k) * unit(),
        fee_rate_bps <= 10000,
        buy_figures(ask, prob, size, fee_rate_bps as int) is Some,
    ensures
        ({
            let u = unit();
            let r = buy_figures(ask, prob, size, fee_rate_bps as int)->0;
            let fee = fee_of(ask, fee_rate_bps as int)->0;
            &&& close(r.gross_profit, (prob - ask) * size, u, pow10(k))
            &&& close(r.fees, fee * size, u, pow10(k))
            &&& close(r.net_profit, (prob - ask - fee) * size, u, 2 * pow10(k))
            &&& r.gas == 0
        }),
{
    let u = unit();
    let p = pow10(k);
    let fee = fee_of(ask, fee_rate_bps as int)->0;
    law_fee_is_the_smaller_of_two(ask, fee_rate_bps);
    lemma_pow10_unit();
    lemma_pow10_below_unit(k);
    lemma_sum_close(prob, ask, 0);
    let edge = prob - ask;
    lemma_share_of(edge, size, k);
    lemma_share_of(fee, size, k);
    let gross = product(edge, size)->0;
    let fees = product(fee, size)->0;
    lemma_net(gross, fees, edge * size, fee * size, k);
    assert(edge * size - fee * size == (edge - fee) * size) by (nonlinear_arith);
}

/// What a sale earns: the price of each share less what it cost and the fee on the price. It holds up
/// to the rounding of the last digits.
pub proof fn law_sale_earns_what_the_price_gained(
    price: int,
    avg_cost: int,
    size: int,
    fee_rate_bps: u32,
    k: nat,
)
    requires
        k <= 20,
        0 <= price <= unit(),
        0 <= avg_cost <= unit(),
        0 <= size <= pow10(k) * unit(),
        fee_rate_bps <= 10000,
        sell_figures(price, avg_cost, size, fee_rate_bps as int) is Some,
    ensures
        ({
            let u = unit();
            let r = sell_figures(price, avg_cost, size, fee_rate_bps as int)->0;
            let fee = fee_of(price, fee_rate_bps as int)->0;
            &&& close(r.gross_profit, (price - avg_cost) * size, u, 2 * pow10(k))
            &&& close(r.fees, fee * size, u, pow10(k))
            &&& close(r.net_profit, (price - avg_cost - fee) * size, u, 4 * pow10(k))
            &&& r.gas == 0
        }),
{
    let u = unit();
    let p = pow10(k);
    let fee = fee_of(price, fee_rate_bps as int)->0;
    law_fee_is_the_smaller_of_two(price, fee_rate_bps);
    lemma_pow10_below_unit(k);
    lemma_share_of(price, size, k);
    lemma_share_of(avg_cost, size, k);
    lemma_share_of(fee, size, k);
    let revenue = product(price, size)->0;
    let cost = product(avg_cost, size)->0;
    let fees = product(fee, size)->0;
    lemma_net(revenue, cost, price * size, avg_cost * size, k);
    let gross = difference(revenue, cost)->0;
    lemma_sum_close(gross, fees, k);
    let net = difference(gross, fees)->0;
    assert((price - avg_cost) * size == price * size - avg_cost * size) by (nonlinear_arith);
    assert((price - avg_cost - fee) * size == (price - avg_cost) * size - fee * size)
        by (nonlinear_arith);
    assert(close(net, (price - avg_cost - fee) * size, u, 4 * p)) by (nonlinear_arith)
        requires
            close(gross, (price - avg_cost) * size, u, 2 * p),
            close(fees, fee * size, u, p),
            net - (gross - fees) <= p,
            (gross - fees) - net <= p,
            (price - avg_cost - fee) * size == (price - avg_cost) * size - fee * size,
            p > 0,
            u > 0,
    {
        assert((net - (gross - fees)) * u <= p * u);
        assert(((gross - fees) - net) * u <= p * u);
        assert(net * u == (net - (gross - fees)) * u + gross * u - fees * u);
        assert((4 * p) * u == 4 * (p * u));
        assert((2 * p) * u == 2 * (p * u));
    }
}

/// A price on so many shares is close to the exact product, and no larger than the shares.
proof fn lemma_share_of(price: int, size: int, k: nat)
    requires
        k <= 20,
        -unit() <= price <= unit(),
        0 <= size <= pow10(k) * unit(),
    ensures
        product(price, size) is Some,
        close(product(price, size)->0, price * size, unit(), pow10(k)),
        2 * (product(price, size)->0 * unit() - price * size) <= pow10(k) * unit(),
        2 * (price * size - product(price, size)->0 * unit()) <= pow10(k) * unit(),
        magnitude(product(price, size)->0) <= pow10(k) * unit(),
{
    let u = unit();
    let p = pow10(k);
    lemma_pow10_below_unit(k);
    assert(magnitude(price * size) <= p * (u * u)) by (nonlinear_arith)
        requires
            -u <= price <= u,
            0 <= size <= p * u,
    {
        assert(price * size <= u * size);
        assert(price * size >= -(u * size));
        assert(u * size <= u * (p * u));
    }
    assert(p * (u * u) <= 7 * p * (u * u)) by (nonlinear_arith)
        requires
            p > 0,
            u > 0,
    ;
    lemma_product_close(price, size, k);
    lemma_whole_representable(p);
    lemma_whole_representable(-p);
    law_arithmetic_keeps_order(price, size, p * u);
    law_arithmetic_keeps_order(price, size, -p * u);
    assert(p * (u * u) == (p * u) * u && (-p * u) * u == -(p * (u * u))) by (nonlinear_arith);
    assert(p * u >= 0) by (nonlinear_arith)
        requires
            p > 0,
            u > 0,
    ;
}

/// The difference of two amounts that are close is close.
proof fn lemma_net(a: int, b: int, x: int, y: int, k: nat)
    requires
        k <= 20,
        magnitude(a) <= pow10(k) * unit(),
        magnitude(b) <= pow10(k) * unit(),
        2 * (a * unit() - x) <= pow10(k) * unit(),
        2 * (x - a * unit()) <= pow10(k) * unit(),
        2 * (b * unit() - y) <= pow10(k) * unit(),
        2 * (y - b * unit()) <= pow10(k) * unit(),
    ensures
        difference(a, b) is Some,
        close(difference(a, b)->0, x - y, unit(), 2 * pow10(k)),
        magnitude(difference(a, b)->0) <= 3 * pow10(k) * unit(),
{
    let u = unit();
    let p = pow10(k);
    lemma_pow10_below_unit(k);
    lemma_sum_close(a, b, k);
    let d = difference(a, b)->0;
    assert(close(d, x - y, u, 2 * p)) by (nonlinear_arith)
        requires
            2 * (d - (a - b)) <= p,
            2 * ((a - b) - d) <= p,
            2 * (a * u - x) <= p * u,
            2 * (x - a * u) <= p * u,
            2 * (b * u - y) <= p * u,
            2 * (y - b * u) <= p * u,
            u > 0,
            p > 0,
    {
        assert(2 * (d - (a - b)) * u <= p * u);
        assert(2 * ((a - b) - d) * u <= p * u);
        assert(d * u == (d - (a - b)) * u + a * u - b * u);
        assert((2 * p) * u == 2 * (p * u));
    }
    assert(p <= p * u) by (nonlinear_arith)
        requires
            p > 0,
            u >= 1,
    ;
}

/// The return is the profit over what was paid, up to the rounding of the last digits, and nothing where
/// nothing was paid.
pub proof fn law_return_is_profit_over_cost(profit: int, cost: int, k: nat)
    requires
        k <= 28,
        cost > 0 ==> -7 * pow10(k) * cost <= profit <= 7 * pow10(k) * cost,
    ensures
        return_on(Some(profit), Some(cost)) is Some,
        cost <= 0 ==> return_on(Some(profit), Some(cost)) == Some(0int),
        cost > 0 ==> close(
            return_on(Some(profit), Some(cost))->0,
            profit * unit(),
            cost,
            pow10(k),
        ),
{
    if cost > 0 {
        let p = pow10(k);
        assert(-7 * p * cost == -(7 * p * cost)) by (nonlinear_arith);
        lemma_quotient_close(profit, cost, k);
    }
}

/// A purchase returns its net profit over what is paid for the shares and in fees; a sale over what the
/// shares had cost.
pub proof fn law_returns_are_on_what_was_paid(
    price: int,
    other: int,
    size: int,
    fee_rate_bps: int,
)
    requires
        buy_figures(price, other, size, fee_rate_bps) is Some,
        sell_figures(price, other, size, fee_rate_bps) is Some,
    ensures
        ({
            let bought = buy_figures(price, other, size, fee_rate_bps)->0;
            let paid = sum(product(price, size)->0, bought.fees);
            &&& paid is Some
            &&& return_on(Some(bought.net_profit), paid) == Some(bought.roi)
        }),
        ({
            let sold = sell_figures(price, other, size, fee_rate_bps)->0;
            return_on(Some(sold.net_profit), product(other, size)) == Some(sold.roi)
        }),
{
}

} // verus!
