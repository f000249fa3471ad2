//! Which resting orders stay, which are cancelled and which are placed.
use crate::decimal::Decimal;
use crate::types::U256;
use vstd::prelude::*;

verus! {

use crate::rounding::{
    lemma_difference_exact, lemma_product_of_zero, lemma_quotient_of_zero, lemma_share_in_bps,
    lemma_sum_close, lemma_zero_representable, magnitude, minus, over, pow10, product, quotient,
    times, unit, whole,
};

/// An order that the quotes ask for.
#[derive(Clone, Copy, Debug)]
pub struct DesiredOrder {
    pub token_id: U256,
    pub is_buy: bool,
    pub price: Decimal,
    pub size: Decimal,
}

/// What becomes of the orders.
#[derive(Debug)]
pub struct ReconcileResult {
    /// The orders to cancel.
    pub to_cancel: Vec<String>,
    /// The orders to place.
    pub to_place: Vec<DesiredOrder>,
    /// How many orders stay as they are.
    pub kept: usize,
}

/// A resting order: its name, its token, whether it buys, and its price.
pub type RestingOrder = (String, U256, bool, Decimal);

/// How far a price is from the desired one, in basis points of that.
pub open spec fn drift_bps(desired: int, price: int) -> Option<int> {
    let away = match minus(Some(desired), Some(price)) {
        Some(d) => Some(magnitude(d)),
        None => None,
    };
    times(over(away, Some(desired)), Some(whole(10000)))
}

/// The resting order can stand for the desired one: the same token and side, and a price within the
/// tolerance.
pub open spec fn stands_for(
    desired: DesiredOrder,
    resting: RestingOrder,
    tolerance_bps: u32,
) -> Option<bool> {
    if resting.1 != desired.token_id || resting.2 != desired.is_buy || desired.price@ <= 0 {
        Some(false)
    } else {
        match drift_bps(desired.price@, resting.3@) {
            Some(drift) => Some(drift <= whole(tolerance_bps as int)),
            None => None,
        }
    }
}

/// The resting order is the match of one of the desired ones.
pub open spec fn is_taken(matches: Seq<Option<int>>, resting: int) -> bool {
    exists|k: int| 0 <= k < matches.len() && #[trigger] matches[k] == Some(resting)
}

/// The first resting order, from the `i`-th on, that is not taken and can stand for the desired one.
pub open spec fn first_match(
    desired: DesiredOrder,
    resting: Seq<RestingOrder>,
    tolerance_bps: u32,
    matches: Seq<Option<int>>,
    i: nat,
) -> Option<Option<int>>
    decreases resting.len() - i,
{
    if i >= resting.len() {
        Some(None)
    } else if is_taken(matches, i as int) {
        first_match(desired, resting, tolerance_bps, matches, i + 1)
    } else {
        match stands_for(desired, resting[i as int], tolerance_bps) {
            None => None,
            Some(true) => Some(Some(i as int)),
            Some(false) => first_match(desired, resting, tolerance_bps, matches, i + 1),
        }
    }
}

/// The matches of the first `n` desired orders, each taking the first resting order that is left.
pub open spec fn matched(
    desired: Seq<DesiredOrder>,
    resting: Seq<RestingOrder>,
    tolerance_bps: u32,
    n: nat,
) -> Option<Seq<Option<int>>>
    decreases n,
{
    if n == 0 {
        Some(Seq::empty())
    } else {
        match matched(desired, resting, tolerance_bps, (n - 1) as nat) {
            None => None,
            Some(before) => match first_match(
                desired[n - 1],
                resting,
                tolerance_bps,
                before,
                0,
            ) {
                None => None,
                Some(place) => Some(before.push(place)),
            },
        }
    }
}

/// The names of those of the first `n` resting orders that are not taken.
pub open spec fn cancelled(
    resting: Seq<RestingOrder>,
    matches: Seq<Option<int>>,
    n: nat,
) -> Seq<Seq<char>>
    decreases n,
{
    if n == 0 {
        Seq::empty()
    } else {
        let before = cancelled(resting, matches, (n - 1) as nat);
        if is_taken(matches, n - 1) {
            before
        } else {
            before.push(resting[n - 1].0@)
        }
    }
}

/// Those of the first `n` desired orders that have no match.
pub open spec fn placed(
    desired: Seq<DesiredOrder>,
    matches: Seq<Option<int>>,
    n: nat,
) -> Seq<DesiredOrder>
    decreases n,
{
    if n == 0 {
        Seq::empty()
    } else {
        let before = placed(desired, matches, (n - 1) as nat);
        if matches[n - 1] is Some {
            before
        } else {
            before.push(desired[n - 1])
        }
    }
}

/// How many of the first `n` desired orders have a match.
pub open spec fn kept_count(matches: Seq<Option<int>>, n: nat) -> nat
    decreases n,
{
    if n == 0 {
        0
    } else {
        kept_count(matches, (n - 1) as nat) + if matches[n - 1] is Some {
            1nat
        } else {
            0nat
        }
    }
}

pub open spec fn names(v: Seq<String>) -> Seq<Seq<char>> {
    v.map_values(|s: String| s@)
}

/// The number of resting orders below `n` that are taken.
spec fn taken_count(matches: Seq<Option<int>>, n: nat) -> nat
    decreases n,
{
    if n == 0 {
        0
    } else {
        taken_count(matches, (n - 1) as nat) + if is_taken(matches, n - 1) {
            1nat
        } else {
            0nat
        }
    }
}

proof fn lemma_matched_prefix(
    desired: Seq<DesiredOrder>,
    resting: Seq<RestingOrder>,
    tolerance_bps: u32,
    k: nat,
    n: nat,
)
    requires
        k <= n,
        matched(desired, resting, tolerance_bps, n) is Some,
    ensures
        matched(desired, resting, tolerance_bps, k) is Some,
    decreases n,
{
    if k < n {
        lemma_matched_prefix(desired, resting, tolerance_bps, k, (n - 1) as nat);
    }
}

proof fn lemma_matched_len(
    desired: Seq<DesiredOrder>,
    resting: Seq<RestingOrder>,
    tolerance_bps: u32,
    n: nat,
)
    requires
        matched(desired, resting, tolerance_bps, n) is Some,
    ensures
        matched(desired, resting, tolerance_bps, n)->0.len() == n,
    decreases n,
{
    if n > 0 {
        lemma_matched_len(desired, resting, tolerance_bps, (n - 1) as nat);
    }
}

proof fn lemma_first_match(
    desired: DesiredOrder,
    resting: Seq<RestingOrder>,
    tolerance_bps: u32,
    matches: Seq<Option<int>>,
    i: nat,
)
    requires
        first_match(desired, resting, tolerance_bps, matches, i) matches Some(Some(_)),
    ensures
        ({
            let place = first_match(desired, resting, tolerance_bps, matches, i)->0->0;
            &&& i <= place < resting.len()
            &&& !is_taken(matches, place)
            &&& stands_for(desired, resting[place], tolerance_bps) == Some(true)
        }),
    decreases resting.len() - i,
{
    if i < resting.len() && (is_taken(matches, i as int) || stands_for(
        desired,
        resting[i as int],
        tolerance_bps,
    ) == Some(false)) {
        lemma_first_match(desired, resting, tolerance_bps, matches, i + 1);
    }
}

/// Whether one more match takes a resting order.
proof fn lemma_taken_push(matches: Seq<Option<int>>, place: Option<int>, resting: int)
    ensures
        is_taken(matches.push(place), resting) == (is_taken(matches, resting) || place == Some(
            resting,
        )),
{
    let now = matches.push(place);
    if is_taken(matches, resting) {
        let k = choose|k: int| 0 <= k < matches.len() && #[trigger] matches[k] == Some(resting);
        assert(now[k] == Some(resting));
    }
    if place == Some(resting) {
        assert(now[matches.len() as int] == Some(resting));
    }
    if is_taken(now, resting) && place != Some(resting) {
        let k = choose|k: int| 0 <= k < now.len() && #[trigger] now[k] == Some(resting);
        assert(matches[k] == Some(resting));
    }
}

proof fn lemma_taken_count_push(matches: Seq<Option<int>>, place: Option<int>, n: nat)
    requires
        place matches Some(p) ==> p >= 0 && !is_taken(matches, p),
    ensures
        taken_count(matches.push(place), n) == taken_count(matches, n) + if place matches Some(p)
            && p < n {
            1nat
        } else {
            0nat
        },
    decreases n,
{
    if n > 0 {
        lemma_taken_count_push(matches, place, (n - 1) as nat);
        lemma_taken_push(matches, place, n - 1);
    }
}

proof fn lemma_kept_push(matches: Seq<Option<int>>, place: Option<int>, n: nat)
    requires
        n <= matches.len(),
    ensures
        kept_count(matches.push(place), n) == kept_count(matches, n),
    decreases n,
{
    if n > 0 {
        lemma_kept_push(matches, place, (n - 1) as nat);
    }
}

proof fn lemma_taken_none(n: nat)
    ensures
        taken_count(Seq::empty(), n) == 0,
    decreases n,
{
    if n > 0 {
        lemma_taken_none((n - 1) as nat);
    }
}

/// As many resting orders are taken as desired orders have a match.
proof fn lemma_taken_is_kept(
    desired: Seq<DesiredOrder>,
    resting: Seq<RestingOrder>,
    tolerance_bps: u32,
    n: nat,
)
    requires
        matched(desired, resting, tolerance_bps, n) is Some,
    ensures
        taken_count(matched(desired, resting, tolerance_bps, n)->0, resting.len()) == kept_count(
            matched(desired, resting, tolerance_bps, n)->0,
            n,
        ),
    decreases n,
{
    if n == 0 {
        lemma_taken_none(resting.len());
    } else {
        let before = matched(desired, resting, tolerance_bps, (n - 1) as nat)->0;
        let place = first_match(desired[n - 1], resting, tolerance_bps, before, 0)->0;
        lemma_taken_is_kept(desired, resting, tolerance_bps, (n - 1) as nat);
        lemma_matched_len(desired, resting, tolerance_bps, (n - 1) as nat);
        if place is Some {
            lemma_first_match(desired[n - 1], resting, tolerance_bps, before, 0);
        }
        lemma_taken_count_push(before, place, resting.len());
        lemma_kept_push(before, place, (n - 1) as nat);
    }
}

proof fn lemma_cancelled_len(resting: Seq<RestingOrder>, matches: Seq<Option<int>>, n: nat)
    ensures
        cancelled(resting, matches, n).len() + taken_count(matches, n) == n,
    decreases n,
{
    if n > 0 {
        lemma_cancelled_len(resting, matches, (n - 1) as nat);
    }
}

proof fn lemma_placed_len(desired: Seq<DesiredOrder>, matches: Seq<Option<int>>, n: nat)
    ensures
        placed(desired, matches, n).len() + kept_count(matches, n) == n,
    decreases n,
{
    if n > 0 {
        lemma_placed_len(desired, matches, (n - 1) as nat);
    }
}

/// Every resting order is either kept or cancelled, and every desired order either has one that is
/// kept or is placed.
pub proof fn law_every_order_is_accounted_for(
    desired: Seq<DesiredOrder>,
    resting: Seq<RestingOrder>,
    tolerance_bps: u32,
)
    requires
        matched(desired, resting, tolerance_bps, desired.len()) is Some,
    ensures
        ({
            let matches = matched(desired, resting, tolerance_bps, desired.len())->0;
            let kept = kept_count(matches, desired.len());
            &&& kept + cancelled(resting, matches, resting.len()).len() == resting.len()
            &&& kept + placed(desired, matches, desired.len()).len() == desired.len()
        }),
{
    let matches = matched(desired, resting, tolerance_bps, desired.len())->0;
    lemma_taken_is_kept(desired, resting, tolerance_bps, desired.len());
    lemma_cancelled_len(resting, matches, resting.len());
    lemma_placed_len(desired, matches, desired.len());
}

/// No resting order is kept for two desired ones, and each that is kept has the token, the side and
/// about the price that it is kept for.
pub proof fn law_kept_orders_match(
    desired: Seq<DesiredOrder>,
    resting: Seq<RestingOrder>,
    tolerance_bps: u32,
    n: nat,
)
    requires
        n <= desired.len(),
        matched(desired, resting, tolerance_bps, n) is Some,
    ensures
        ({
            let matches = matched(desired, resting, tolerance_bps, n)->0;
            &&& matches.len() == n
            &&& forall|i: int|
                0 <= i < n && (#[trigger] matches[i]) is Some ==> 0 <= matches[i]->0
                    < resting.len() && stands_for(
                    desired[i],
                    resting[matches[i]->0],
                    tolerance_bps,
                ) == Some(true)
            &&& forall|i: int, j: int|
                0 <= i < j < n && (#[trigger] matches[i]) is Some ==> matches[i]
                    != #[trigger] matches[j]
        }),
    decreases n,
{
    if n > 0 {
        let before = matched(desired, resting, tolerance_bps, (n - 1) as nat)->0;
        let place = first_match(desired[n - 1], resting, tolerance_bps, before, 0)->0;
        law_kept_orders_match(desired, resting, tolerance_bps, (n - 1) as nat);
        if place is Some {
            lemma_first_match(desired[n - 1], resting, tolerance_bps, before, 0);
        }
        let now = matched(desired, resting, tolerance_bps, n)->0;
        assert(now == before.push(place));
        assert forall|i: int, j: int|
            0 <= i < j < n && (#[trigger] now[i]) is Some implies now[i] != #[trigger] now[j] by {
            if j == n - 1 && now[i] == now[j] {
                assert(before[i] == place);
                assert(is_taken(before, place->0));
            }
        }
    }
}

/// A price that has not moved has not drifted.
proof fn lemma_no_drift(price: int)
    requires
        price > 0,
    ensures
        drift_bps(price, price) == Some(0int),
{
    lemma_zero_representable();
    lemma_difference_exact(price, price);
    lemma_quotient_of_zero(price);
    lemma_product_of_zero(whole(10000));
}

/// Orders that rest exactly as they are desired all stay, whatever the tolerance.
pub proof fn law_settled_orders_stay(
    desired: Seq<DesiredOrder>,
    resting: Seq<RestingOrder>,
    tolerance_bps: u32,
    n: nat,
)
    requires
        n <= desired.len(),
        desired.len() == resting.len(),
        forall|i: int|
            0 <= i < desired.len() ==> (#[trigger] desired[i]).price@ > 0 && resting[i].1
                == desired[i].token_id && resting[i].2 == desired[i].is_buy && resting[i].3@
                == desired[i].price@,
    ensures
        matched(desired, resting, tolerance_bps, n) == Some(Seq::new(n, |i: int| Some(i))),
        kept_count(matched(desired, resting, tolerance_bps, n)->0, n) == n,
    decreases n,
{
    if n == 0 {
        assert(Seq::new(0, |i: int| Some(i)) =~= Seq::<Option<int>>::empty());
    } else {
        law_settled_orders_stay(desired, resting, tolerance_bps, (n - 1) as nat);
        let before = matched(desired, resting, tolerance_bps, (n - 1) as nat)->0;
        let d = desired[n - 1];
        lemma_no_drift(d.price@);
        assert(stands_for(d, resting[n - 1], tolerance_bps) == Some(true));
        assert(!is_taken(before, n - 1));
        lemma_skips_taken(d, resting, tolerance_bps, before, 0, (n - 1) as nat);
        assert(first_match(d, resting, tolerance_bps, before, 0) == Some(Some(n - 1)));
        let now = before.push(Some(n - 1));
        assert(now =~= Seq::new(n, |i: int| Some(i)));
        lemma_kept_push(before, Some(n - 1), (n - 1) as nat);
    }
}

/// The search passes over what is taken.
proof fn lemma_skips_taken(
    desired: DesiredOrder,
    resting: Seq<RestingOrder>,
    tolerance_bps: u32,
    matches: Seq<Option<int>>,
    i: nat,
    n: nat,
)
    requires
        i <= n <= resting.len(),
        matches == Seq::new(n, |k: int| Some(k)),
    ensures
        first_match(desired, resting, tolerance_bps, matches, i) == first_match(
            desired,
            resting,
            tolerance_bps,
            matches,
            n,
        ),
    decreases n - i,
{
    if i < n {
        assert(matches[i as int] == Some(i as int));
        assert(is_taken(matches, i as int));
        lemma_skips_taken(desired, resting, tolerance_bps, matches, i + 1, n);
    }
}

fn can_stand_for(desired: &DesiredOrder, resting: &RestingOrder, tolerance_bps: u32) -> (r: bool)
    requires
        stands_for(*desired, *resting, tolerance_bps) is Some,
    ensures
        stands_for(*desired, *resting, tolerance_bps) == Some(r),
{
    if resting.1 != desired.token_id || resting.2 != desired.is_buy || desired.price
        <= Decimal::zero() {
        return false;
    }
    let drift = (desired.price - resting.3).abs() / desired.price * Decimal::from_u32(10000);
    drift <= Decimal::from_u32(tolerance_bps)
}

fn find_match(
    desired: &DesiredOrder,
    resting: &Vec<RestingOrder>,
    tolerance_bps: u32,
    taken: &Vec<bool>,
    Ghost(matches): Ghost<Seq<Option<int>>>,
) -> (r: Option<usize>)
    requires
        taken@.len() == resting@.len(),
        forall|k: int| 0 <= k < taken@.len() ==> #[trigger] taken@[k] == is_taken(matches, k),
        first_match(*desired, resting@, tolerance_bps, matches, 0) is Some,
    ensures
        first_match(*desired, resting@, tolerance_bps, matches, 0) == Some(
            match r {
                Some(i) => Some(i as int),
                None => None,
            },
        ),
        r matches Some(i) ==> i < resting@.len(),
{
    let mut i: usize = 0;
    while i < resting.len()
        invariant
            i <= resting@.len(),
            taken@.len() == resting@.len(),
            forall|k: int| 0 <= k < taken@.len() ==> #[trigger] taken@[k] == is_taken(matches, k),
            first_match(*desired, resting@, tolerance_bps, matches, 0) is Some,
            first_match(*desired, resting@, tolerance_bps, matches, 0) == first_match(
                *desired,
                resting@,
                tolerance_bps,
                matches,
                i as nat,
            ),
        decreases resting@.len() - i,
    {
        if !taken[i] && can_stand_for(desired, &resting[i], tolerance_bps) {
            return Some(i);
        }
        i = i + 1;
    }
    None
}

fn unmatched_names(
    resting: &Vec<RestingOrder>,
    taken: &Vec<bool>,
    Ghost(matches): Ghost<Seq<Option<int>>>,
) -> (r: Vec<String>)
    requires
        taken@.len() == resting@.len(),
        forall|k: int| 0 <= k < taken@.len() ==> #[trigger] taken@[k] == is_taken(matches, k),
    ensures
        names(r@) == cancelled(resting@, matches, resting@.len()),
{
    let mut r: Vec<String> = Vec::new();
    let mut i: usize = 0;
    proof {
        assert(names(r@) =~= Seq::empty());
    }
    while i < resting.len()
        invariant
            i <= resting@.len(),
            taken@.len() == resting@.len(),
            forall|k: int| 0 <= k < taken@.len() ==> #[trigger] taken@[k] == is_taken(matches, k),
            names(r@) == cancelled(resting@, matches, i as nat),
        decreases resting@.len() - i,
    {
        if !taken[i] {
            let name = resting[i].0.clone();
            let ghost before = r@;
            r.push(name);
            proof {
                assert(names(r@) =~= names(before).push(name@));
            }
        }
        i = i + 1;
    }
    r
}

/// Holds the desired orders against those that rest. A resting order is kept for a desired one with
/// the same token and side from whose price its own has not drifted further than the tolerance. The
/// other resting orders are cancelled, and the other desired ones placed.
pub fn reconcile_desired_vs_existing(
    desired: &Vec<DesiredOrder>,
    existing: &Vec<RestingOrder>,
    tolerance_bps: u32,
) -> (r: ReconcileResult)
    requires
        matched(desired@, existing@, tolerance_bps, desired@.len()) is Some,
    ensures
        ({
            let matches = matched(desired@, existing@, tolerance_bps, desired@.len())->0;
            &&& r.kept == kept_count(matches, desired@.len())
            &&& names(r.to_cancel@) == cancelled(existing@, matches, existing@.len())
            &&& r.to_place@ == placed(desired@, matches, desired@.len())
        }),
{
    let mut taken: Vec<bool> = Vec::new();
    let mut k: usize = 0;
    while k < existing.len()
        invariant
            k <= existing@.len(),
            taken@.len() == k,
            forall|j: int| 0 <= j < k ==> #[trigger] taken@[j] == false,
        decreases existing@.len() - k,
    {
        taken.push(false);
        k = k + 1;
    }
    let mut to_place: Vec<DesiredOrder> = Vec::new();
    let mut kept: usize = 0;
    let mut i: usize = 0;
    let ghost mut matches: Seq<Option<int>> = Seq::empty();
    while i < desired.len()
        invariant
            i <= desired@.len(),
            kept <= i,
            matched(desired@, existing@, tolerance_bps, desired@.len()) is Some,
            matched(desired@, existing@, tolerance_bps, i as nat) == Some(matches),
            matches.len() == i,
            taken@.len() == existing@.len(),
            forall|j: int| 0 <= j < taken@.len() ==> #[trigger] taken@[j] == is_taken(matches, j),
            kept == kept_count(matches, i as nat),
            to_place@ == placed(desired@, matches, i as nat),
        decreases desired@.len() - i,
    {
        proof {
            lemma_matched_prefix(
                desired@,
                existing@,
                tolerance_bps,
                (i + 1) as nat,
                desired@.len(),
            );
        }
        let place = find_match(&desired[i], existing, tolerance_bps, &taken, Ghost(matches));
        let ghost found: Option<int> = match place {
            Some(p) => Some(p as int),
            None => None,
        };
        proof {
            lemma_kept_push(matches, found, i as nat);
            lemma_placed_push(desired@, matches, found, i as nat);
            assert forall|j: int| 0 <= j < existing@.len() implies is_taken(
                matches.push(found),
                j,
            ) == (is_taken(matches, j) || found == Some(j)) by {
                lemma_taken_push(matches, found, j);
            }
        }
        match place {
            Some(p) => {
                taken.set(p, true);
                kept = kept + 1;
            },
            None => {
                to_place.push(desired[i]);
            },
        }
        proof {
            matches = matches.push(found);
        }
        i = i + 1;
    }
    let to_cancel = unmatched_names(existing, &taken, Ghost(matches));
    ReconcileResult { to_cancel, to_place, kept }
}

proof fn lemma_placed_push(
    desired: Seq<DesiredOrder>,
    matches: Seq<Option<int>>,
    place: Option<int>,
    n: nat,
)
    requires
        n <= matches.len(),
    ensures
        placed(desired, matches.push(place), n) == placed(desired, matches, n),
    decreases n,
{
    if n > 0 {
        lemma_placed_push(desired, matches, place, (n - 1) as nat);
    }
}

/// A resting order can stand for a desired one where it is for the same token and side and its price is
/// no further away than the tolerance, in basis points of the desired price; one of another token or
/// side, or further away, cannot. It holds up to the rounding of the last digits.
pub proof fn law_order_stands_within_the_tolerance(
    desired: DesiredOrder,
    resting: RestingOrder,
    tolerance_bps: u32,
)
    requires
        0 <= desired.price@ <= unit(),
        100 * desired.price@ >= unit(),
        0 <= resting.3@ <= unit(),
    ensures
        ({
            let u = unit();
            let away = magnitude(desired.price@ - resting.3@);
            let found = stands_for(desired, resting, tolerance_bps);
            let alike = resting.1 == desired.token_id && resting.2 == desired.is_buy;
            let slack = 10_000_000 * desired.price@;
            &&& found is Some
            &&& !alike ==> found == Some(false)
            &&& alike && (away * u) * 10000 <= tolerance_bps * u * desired.price@ - slack ==> found
                == Some(true)
            &&& alike && (away * u) * 10000 > tolerance_bps * u * desired.price@ + slack ==> found
                == Some(false)
        }),
{
    let u = unit();
    let base = desired.price@;
    let away = magnitude(base - resting.3@);
    assert(pow10(0) == 1);
    lemma_sum_close(base, resting.3@, 0);
    lemma_share_in_bps(away, base);
    let drift = product(quotient(away, base)->0, whole(10000))->0;
    let limit = whole(tolerance_bps as int);
    let n = (away * u) * 10000;
    assert(limit * base == tolerance_bps * u * base);
    assert(n <= limit * base - 10_000_000 * base ==> drift <= limit) by (nonlinear_arith)
        requires
            drift * base - n <= 10_000_000 * base,
            base > 0,
    {
        if n <= limit * base - 10_000_000 * base && drift > limit {
            assert(drift * base >= (limit + 1) * base);
            assert((limit + 1) * base == limit * base + base);
        }
    }
    assert(n > limit * base + 10_000_000 * base ==> drift > limit) by (nonlinear_arith)
        requires
            n - drift * base <= 10_000_000 * base,
            base > 0,
    {
        if n > limit * base + 10_000_000 * base && drift <= limit {
            assert(drift * base <= limit * base);
        }
    }
}

/// Every desired order takes the first resting order that can stand for it and is not taken by one before
/// it, and none where there is none.
pub proof fn law_first_free_order_is_taken(
    desired: DesiredOrder,
    resting: Seq<RestingOrder>,
    tolerance_bps: u32,
    matches: Seq<Option<int>>,
    i: nat,
)
    requires
        first_match(desired, resting, tolerance_bps, matches, i) is Some,
        i <= resting.len(),
    ensures
        match first_match(desired, resting, tolerance_bps, matches, i)->0 {
            Some(k) => i <= k < resting.len() && !is_taken(matches, k) && stands_for(
                desired,
                resting[k],
                tolerance_bps,
            ) == Some(true) && forall|j: int|
                i <= j < k ==> is_taken(matches, j) || stands_for(
                    desired,
                    #[trigger] resting[j],
                    tolerance_bps,
                ) == Some(false),
            None => forall|j: int|
                i <= j < resting.len() ==> is_taken(matches, j) || stands_for(
                    desired,
                    #[trigger] resting[j],
                    tolerance_bps,
                ) == Some(false),
        },
    decreases resting.len() - i,
{
    if i < resting.len() {
        if is_taken(matches, i as int) || stands_for(desired, resting[i as int], tolerance_bps)
            == Some(false) {
            law_first_free_order_is_taken(desired, resting, tolerance_bps, matches, i + 1);
        }
    }
}

} // verus!
