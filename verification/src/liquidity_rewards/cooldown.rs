//! Orders that failed.
use crate::rounding::greater;
use vstd::prelude::*;

verus! {

/// Whether an order that failed is still on cooldown, so that it is not to be retried yet. The
/// times are nanoseconds on one clock that never runs backwards.
pub fn is_order_on_cooldown(last_failure: u128, now: u128, cooldown: u128) -> (r: bool)
    ensures
        r == (greater(now - last_failure, 0) < cooldown),
{
    if now < last_failure {
        0 < cooldown
    } else {
        now - last_failure < cooldown
    }
}

} // verus!
