//! What quoting is set to.
use crate::decimal::Decimal;
use crate::text;
use crate::types::B256;
use vstd::prelude::*;

verus! {

use crate::id_text::id_text;
use crate::types::figure;

/// Settings for one market in place of the general ones.
#[derive(Debug)]
pub struct LrMarketOverride {
    /// The market, in hexadecimal.
    pub condition_id: String,
    pub max_position_per_market: Option<Decimal>,
    pub spread_fraction: Option<Decimal>,
    pub quote_yes: Option<bool>,
    pub quote_no: Option<bool>,
    pub order_depth_level: Option<usize>,
}

#[derive(Debug)]
pub struct LiquidityRewardsConfig {
    pub min_daily_rate: Decimal,
    pub max_markets: usize,
    /// The share of the rewarded spread that is quoted.
    pub spread_fraction: Decimal,
    pub max_position_per_market: Decimal,
    pub inventory_skew_factor: Decimal,
    pub min_order_size: Decimal,
    pub quote_yes: bool,
    pub quote_no: bool,
    pub order_depth_level: usize,
    pub allow_neg_risk: bool,
    /// `manual`, `hybrid`, or anything else for automatic.
    pub market_mode: String,
    pub manual_markets: Vec<LrMarketOverride>,
}

/// The settings that hold for one market.
#[derive(Clone, Copy, Debug)]
pub struct EffectiveMarketConfig {
    pub max_position_per_market: Decimal,
    pub spread_fraction: Decimal,
    pub quote_yes: bool,
    pub quote_no: bool,
    pub order_depth_level: usize,
}

/// The figures that hold for one market.
pub struct EffectiveFigures {
    pub max_position_per_market: int,
    pub spread_fraction: int,
    pub quote_yes: bool,
    pub quote_no: bool,
    pub order_depth_level: usize,
}

impl View for EffectiveMarketConfig {
    type V = EffectiveFigures;

    open spec fn view(&self) -> EffectiveFigures {
        EffectiveFigures {
            max_position_per_market: self.max_position_per_market@,
            spread_fraction: self.spread_fraction@,
            quote_yes: self.quote_yes,
            quote_no: self.quote_no,
            order_depth_level: self.order_depth_level,
        }
    }
}

/// The place of the first override, from the `i`-th on, that names the market.
pub open spec fn override_for(overrides: Seq<LrMarketOverride>, name: Seq<char>, i: nat) -> Option<
    int,
>
    decreases overrides.len() - i,
{
    if i >= overrides.len() {
        None
    } else if overrides[i as int].condition_id@ == name {
        Some(i as int)
    } else {
        override_for(overrides, name, i + 1)
    }
}

pub open spec fn or_else<T>(own: Option<T>, general: T) -> T {
    match own {
        Some(v) => v,
        None => general,
    }
}

/// The settings for a market: its own where the first override for it has one, else the general
/// ones.
pub open spec fn effective(global: LiquidityRewardsConfig, condition_id: Seq<u8>) -> EffectiveFigures {
    match override_for(global.manual_markets@, id_text(condition_id), 0) {
        Some(i) => {
            let own = global.manual_markets@[i];
            EffectiveFigures {
                max_position_per_market: or_else(
                    figure(own.max_position_per_market),
                    global.max_position_per_market@,
                ),
                spread_fraction: or_else(figure(own.spread_fraction), global.spread_fraction@),
                quote_yes: or_else(own.quote_yes, global.quote_yes),
                quote_no: or_else(own.quote_no, global.quote_no),
                order_depth_level: or_else(own.order_depth_level, global.order_depth_level),
            }
        },
        None => EffectiveFigures {
            max_position_per_market: global.max_position_per_market@,
            spread_fraction: global.spread_fraction@,
            quote_yes: global.quote_yes,
            quote_no: global.quote_no,
            order_depth_level: global.order_depth_level,
        },
    }
}

fn find_override(overrides: &Vec<LrMarketOverride>, name: &str) -> (r: Option<usize>)
    ensures
        override_for(overrides@, name@, 0) == (match r {
            Some(i) => Some(i as int),
            None => None,
        }),
        r matches Some(i) ==> i < overrides@.len(),
{
    let mut i: usize = 0;
    while i < overrides.len()
        invariant
            i <= overrides@.len(),
            override_for(overrides@, name@, 0) == override_for(overrides@, name@, i as nat),
        decreases overrides@.len() - i,
    {
        if text::same_text(overrides[i].condition_id.as_str(), name) {
            return Some(i);
        }
        i = i + 1;
    }
    None
}

fn either<T: Copy>(own: Option<T>, general: T) -> (r: T)
    ensures
        r == or_else(own, general),
{
    match own {
        Some(v) => v,
        None => general,
    }
}

/// The settings for a market: its own where there are any, else the general ones.
pub fn effective_market_config(global: &LiquidityRewardsConfig, condition_id: &B256) -> (r:
    EffectiveMarketConfig)
    ensures
        r@ == effective(*global, condition_id@),
{
    let name = condition_id.to_hex();
    match find_override(&global.manual_markets, name.as_str()) {
        Some(i) => {
            let own = &global.manual_markets[i];
            EffectiveMarketConfig {
                max_position_per_market: either(
                    own.max_position_per_market,
                    global.max_position_per_market,
                ),
                spread_fraction: either(own.spread_fraction, global.spread_fraction),
                quote_yes: either(own.quote_yes, global.quote_yes),
                quote_no: either(own.quote_no, global.quote_no),
                order_depth_level: either(own.order_depth_level, global.order_depth_level),
            }
        },
        None => EffectiveMarketConfig {
            max_position_per_market: global.max_position_per_market,
            spread_fraction: global.spread_fraction,
            quote_yes: global.quote_yes,
            quote_no: global.quote_no,
            order_depth_level: global.order_depth_level,
        },
    }
}

/// A setting that the first override for a market has counts for it, and a setting that it does not have
/// is the general one. A market without an override has the general settings.
pub proof fn law_own_settings_come_first(global: LiquidityRewardsConfig, condition_id: Seq<u8>)
    ensures
        ({
            let found = effective(global, condition_id);
            let name = id_text(condition_id);
            let overrides = global.manual_markets@;
            &&& (forall|i: int| 0 <= i < overrides.len() ==> (#[trigger] overrides[i]).condition_id@
                != name) ==> {
                &&& found.max_position_per_market == global.max_position_per_market@
                &&& found.spread_fraction == global.spread_fraction@
                &&& found.quote_yes == global.quote_yes
                &&& found.quote_no == global.quote_no
                &&& found.order_depth_level == global.order_depth_level
            }
            &&& forall|i: int|
                0 <= i < overrides.len() && (#[trigger] overrides[i]).condition_id@ == name && (
                forall|j: int| 0 <= j < i ==> (#[trigger] overrides[j]).condition_id@ != name)
                    ==> {
                    let own = overrides[i];
                    &&& found.max_position_per_market == (if own.max_position_per_market is Some {
                        own.max_position_per_market->0@
                    } else {
                        global.max_position_per_market@
                    })
                    &&& found.spread_fraction == (if own.spread_fraction is Some {
                        own.spread_fraction->0@
                    } else {
                        global.spread_fraction@
                    })
                    &&& found.quote_yes == (if own.quote_yes is Some {
                        own.quote_yes->0
                    } else {
                        global.quote_yes
                    })
                    &&& found.quote_no == (if own.quote_no is Some {
                        own.quote_no->0
                    } else {
                        global.quote_no
                    })
                    &&& found.order_depth_level == (if own.order_depth_level is Some {
                        own.order_depth_level->0
                    } else {
                        global.order_depth_level
                    })
                }
        }),
{
    lemma_override(global.manual_markets@, id_text(condition_id), 0);
}

proof fn lemma_override(overrides: Seq<LrMarketOverride>, name: Seq<char>, i: nat)
    requires
        i <= overrides.len(),
    ensures
        match override_for(overrides, name, i) {
            Some(k) => i <= k < overrides.len() && overrides[k].condition_id@ == name && forall|
                j: int,
            |
                i <= j < k ==> (#[trigger] overrides[j]).condition_id@ != name,
            None => forall|j: int|
                i <= j < overrides.len() ==> (#[trigger] overrides[j]).condition_id@ != name,
        },
    decreases overrides.len() - i,
{
    if i < overrides.len() && overrides[i as int].condition_id@ != name {
        lemma_override(overrides, name, i + 1);
    }
}

} // verus!
