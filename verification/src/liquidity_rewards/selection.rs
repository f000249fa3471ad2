//! Which markets are worth quoting on.
use crate::decimal::Decimal;
use crate::liquidity_rewards::config::{LiquidityRewardsConfig, LrMarketOverride};
use crate::text;
use crate::types::{MarketInfo, B256};
use vstd::prelude::*;

verus! {

use crate::id_text::spells_id;
use crate::rounding::{
    close, law_arithmetic_keeps_order, lemma_pow10_below_unit, lemma_quotient_close, lemma_sum_close,
    lemma_whole_representable, over, plus, pow10, quotient, sum, unit,
};
use crate::types::{figure, market_views, MarketRecord};

/// A market that rewards resting orders.
#[derive(Debug)]
pub struct RewardMarketCandidate {
    pub market: MarketInfo,
    /// The daily reward for each unit of liquidity.
    pub density: Decimal,
    /// The largest distance from the midpoint that is rewarded.
    pub clob_rewards_max_spread: Decimal,
    /// The smallest order that is rewarded.
    pub clob_rewards_min_size: Decimal,
}

/// What a candidate says.
pub struct CandidateRecord {
    pub market: MarketRecord,
    pub density: int,
    pub max_spread: int,
    pub min_size: int,
}

impl View for RewardMarketCandidate {
    type V = CandidateRecord;

    open spec fn view(&self) -> CandidateRecord {
        CandidateRecord {
            market: self.market@,
            density: self.density@,
            max_spread: self.clob_rewards_max_spread@,
            min_size: self.clob_rewards_min_size@,
        }
    }
}

/// What the exchange says of a market's rewards.
#[derive(Clone, Copy, Debug)]
pub struct ClobRewardData {
    pub condition_id: B256,
    pub rewards_max_spread: Decimal,
    pub rewards_min_size: Decimal,
    pub total_daily_rate: Decimal,
}

pub open spec fn candidate_views(v: Seq<RewardMarketCandidate>) -> Seq<CandidateRecord> {
    v.map_values(|c: RewardMarketCandidate| c@)
}

pub open spec fn candidate_at(c: Option<RewardMarketCandidate>) -> Option<CandidateRecord> {
    match c {
        Some(v) => Some(v@),
        None => None,
    }
}

/// The daily reward for each unit of liquidity.
pub open spec fn density_of(rate: int, liquidity: int) -> Option<int> {
    over(Some(rate), plus(Some(liquidity), Some(unit())))
}

/// The candidate that a market with these rewards makes.
pub open spec fn candidate(market: MarketRecord, rate: int, max_spread: int, min_size: int) -> Option<
    Option<CandidateRecord>,
> {
    match density_of(rate, market.liquidity@) {
        Some(density) => Some(
            Some(CandidateRecord { market, density, max_spread, min_size }),
        ),
        None => None,
    }
}

/// An active market of two tokens that is no part of a larger event.
pub open spec fn is_plain(market: MarketRecord) -> bool {
    market.active && market.tokens.len() == 2 && !market.neg_risk
}

/// What becomes of a market by its own reward terms.
pub open spec fn own_candidate(market: MarketRecord, min_daily_rate: int) -> Option<
    Option<CandidateRecord>,
> {
    match (
        figure(market.rewards_min_size),
        figure(market.rewards_max_spread),
        figure(market.rewards_daily_rate),
    ) {
        (Some(min_size), Some(max_spread), Some(rate)) => if is_plain(market) && rate
            >= min_daily_rate {
            candidate(market, rate, max_spread, min_size)
        } else {
            Some(None)
        },
        _ => Some(None),
    }
}

/// The place of the last entry for a market.
pub open spec fn rewards_for(rewards: Seq<ClobRewardData>, condition_id: Seq<u8>) -> Option<int>
    decreases rewards.len(),
{
    if rewards.len() == 0 {
        None
    } else if rewards.last().condition_id@ == condition_id {
        Some(rewards.len() - 1)
    } else {
        rewards_for(rewards.drop_last(), condition_id)
    }
}

/// What becomes of a market by the exchange's reward terms.
pub open spec fn listed_candidate(
    market: MarketRecord,
    rewards: Seq<ClobRewardData>,
    min_daily_rate: int,
) -> Option<Option<CandidateRecord>> {
    match rewards_for(rewards, market.condition_id) {
        Some(i) => if is_plain(market) && rewards[i].total_daily_rate@ >= min_daily_rate {
            candidate(
                market,
                rewards[i].total_daily_rate@,
                rewards[i].rewards_max_spread@,
                rewards[i].rewards_min_size@,
            )
        } else {
            Some(None)
        },
        None => Some(None),
    }
}

/// The market is one of those that were picked by hand.
pub open spec fn is_picked(overrides: Seq<LrMarketOverride>, condition_id: Seq<u8>) -> bool {
    exists|i: int|
        0 <= i < overrides.len() && spells_id(
            (#[trigger] overrides[i]).condition_id@,
            condition_id,
        )
}

/// A market picked by hand can be quoted on.
pub open spec fn may_be_picked(market: MarketRecord, config: LiquidityRewardsConfig) -> bool {
    &&& market.active
    &&& is_picked(config.manual_markets@, market.condition_id)
    &&& market.tokens.len() == 2 || config.allow_neg_risk
    &&& !market.neg_risk || config.allow_neg_risk
}

/// What becomes of a market picked by hand: without reward terms they count as zero.
pub open spec fn picked_candidate(
    market: MarketRecord,
    rewards: Seq<ClobRewardData>,
    config: LiquidityRewardsConfig,
) -> Option<Option<CandidateRecord>> {
    if may_be_picked(market, config) {
        match rewards_for(rewards, market.condition_id) {
            Some(i) => candidate(
                market,
                rewards[i].total_daily_rate@,
                rewards[i].rewards_max_spread@,
                rewards[i].rewards_min_size@,
            ),
            None => candidate(market, 0, 0, 0),
        }
    } else {
        Some(None)
    }
}

/// One of the candidates is this market.
pub open spec fn is_among(candidates: Seq<CandidateRecord>, condition_id: Seq<u8>) -> bool {
    exists|i: int|
        0 <= i < candidates.len() && (#[trigger] candidates[i]).market.condition_id == condition_id
}

/// What becomes of a market picked by hand that is not among the candidates yet.
pub open spec fn added_candidate(
    market: MarketRecord,
    rewards: Seq<ClobRewardData>,
    config: LiquidityRewardsConfig,
    already: Seq<CandidateRecord>,
) -> Option<Option<CandidateRecord>> {
    if is_among(already, market.condition_id) {
        Some(None)
    } else {
        picked_candidate(market, rewards, config)
    }
}

/// One more candidate, where there is one.
pub open spec fn joined(
    before: Option<Seq<CandidateRecord>>,
    next: Option<Option<CandidateRecord>>,
) -> Option<Seq<CandidateRecord>> {
    match (before, next) {
        (Some(found), Some(Some(c))) => Some(found.push(c)),
        (Some(found), Some(None)) => Some(found),
        _ => None,
    }
}

/// The candidates among the first `n` markets, in their order.
pub open spec fn gathered(
    markets: Seq<MarketInfo>,
    rule: spec_fn(MarketRecord) -> Option<Option<CandidateRecord>>,
    n: nat,
) -> Option<Seq<CandidateRecord>>
    decreases n,
{
    if n == 0 {
        Some(Seq::empty())
    } else {
        joined(gathered(markets, rule, (n - 1) as nat), rule(markets[n - 1]@))
    }
}

pub open spec fn own_rule(min_daily_rate: int) -> spec_fn(MarketRecord) -> Option<
    Option<CandidateRecord>,
> {
    |m: MarketRecord| own_candidate(m, min_daily_rate)
}

pub open spec fn listed_rule(rewards: Seq<ClobRewardData>, min_daily_rate: int) -> spec_fn(
    MarketRecord,
) -> Option<Option<CandidateRecord>> {
    |m: MarketRecord| listed_candidate(m, rewards, min_daily_rate)
}

pub open spec fn picked_rule(
    rewards: Seq<ClobRewardData>,
    config: LiquidityRewardsConfig,
) -> spec_fn(MarketRecord) -> Option<Option<CandidateRecord>> {
    |m: MarketRecord| picked_candidate(m, rewards, config)
}

pub open spec fn added_rule(
    rewards: Seq<ClobRewardData>,
    config: LiquidityRewardsConfig,
    already: Seq<CandidateRecord>,
) -> spec_fn(MarketRecord) -> Option<Option<CandidateRecord>> {
    |m: MarketRecord| added_candidate(m, rewards, config, already)
}

/// How many of the candidates, densest first, come before one with this density: those that are at
/// least as dense.
pub open spec fn rank(ranked: Seq<CandidateRecord>, density: int, i: nat) -> nat
    decreases ranked.len() - i,
{
    if i < ranked.len() && ranked[i as int].density >= density {
        rank(ranked, density, i + 1)
    } else {
        i
    }
}

/// The first `n` candidates, the densest first; those that are equally dense keep their order.
pub open spec fn ranked(candidates: Seq<CandidateRecord>, n: nat) -> Seq<CandidateRecord>
    decreases n,
{
    if n == 0 {
        Seq::empty()
    } else {
        let before = ranked(candidates, (n - 1) as nat);
        let c = candidates[n - 1];
        before.insert(rank(before, c.density, 0) as int, c)
    }
}

/// The best candidates, at most so many.
pub open spec fn best(candidates: Seq<CandidateRecord>, max: nat) -> Seq<CandidateRecord> {
    let all = ranked(candidates, candidates.len());
    if all.len() <= max {
        all
    } else {
        all.take(max as int)
    }
}

/// The best of the gathered candidates.
pub open spec fn selected(
    markets: Seq<MarketInfo>,
    rule: spec_fn(MarketRecord) -> Option<Option<CandidateRecord>>,
    max: nat,
) -> Option<Seq<CandidateRecord>> {
    match gathered(markets, rule, markets.len()) {
        Some(found) => Some(best(found, max)),
        None => None,
    }
}

/// The automatic choice: the best of the markets by the exchange's terms.
pub open spec fn automatic(
    markets: Seq<MarketInfo>,
    rewards: Seq<ClobRewardData>,
    config: LiquidityRewardsConfig,
) -> Option<Seq<CandidateRecord>> {
    selected(markets, listed_rule(rewards, config.min_daily_rate@), config.max_markets as nat)
}

/// The automatic choice, and after it the markets picked by hand that it leaves out.
pub open spec fn hybrid(
    markets: Seq<MarketInfo>,
    rewards: Seq<ClobRewardData>,
    config: LiquidityRewardsConfig,
) -> Option<Seq<CandidateRecord>> {
    match automatic(markets, rewards, config) {
        Some(auto) => match gathered(markets, added_rule(rewards, config, auto), markets.len()) {
            Some(added) => Some(auto + added),
            None => None,
        },
        None => None,
    }
}

/// The choice by the mode that is set.
pub open spec fn chosen(
    markets: Seq<MarketInfo>,
    rewards: Seq<ClobRewardData>,
    config: LiquidityRewardsConfig,
) -> Option<Seq<CandidateRecord>> {
    if config.market_mode@ == "manual"@ {
        gathered(markets, picked_rule(rewards, config), markets.len())
    } else if config.market_mode@ == "hybrid"@ {
        hybrid(markets, rewards, config)
    } else {
        automatic(markets, rewards, config)
    }
}

proof fn lemma_gathered_prefix(
    markets: Seq<MarketInfo>,
    rule: spec_fn(MarketRecord) -> Option<Option<CandidateRecord>>,
    k: nat,
    n: nat,
)
    requires
        k <= n,
        gathered(markets, rule, n) is Some,
    ensures
        gathered(markets, rule, k) is Some,
    decreases n,
{
    if k < n {
        lemma_gathered_prefix(markets, rule, k, (n - 1) as nat);
    }
}

fn build_candidate(market: &MarketInfo, rate: Decimal, max_spread: Decimal, min_size: Decimal) -> (r:
    RewardMarketCandidate)
    requires
        candidate(market@, rate@, max_spread@, min_size@) is Some,
    ensures
        candidate(market@, rate@, max_spread@, min_size@) == Some(Some(r@)),
{
    RewardMarketCandidate {
        market: market.clone(),
        density: rate / (market.liquidity + Decimal::one()),
        clob_rewards_max_spread: max_spread,
        clob_rewards_min_size: min_size,
    }
}

fn judge_by_own_terms(market: &MarketInfo, min_daily_rate: Decimal) -> (r: Option<
    RewardMarketCandidate,
>)
    requires
        own_candidate(market@, min_daily_rate@) is Some,
    ensures
        own_candidate(market@, min_daily_rate@) == Some(candidate_at(r)),
{
    if !market.active || market.tokens.len() != 2 || market.neg_risk {
        return None;
    }
    match (market.rewards_min_size, market.rewards_max_spread, market.rewards_daily_rate) {
        (Some(min_size), Some(max_spread), Some(rate)) => if rate >= min_daily_rate {
            Some(build_candidate(market, rate, max_spread, min_size))
        } else {
            None
        },
        _ => None,
    }
}

fn find_rewards(rewards: &Vec<ClobRewardData>, condition_id: &B256) -> (r: Option<ClobRewardData>)
    ensures
        match rewards_for(rewards@, condition_id@) {
            Some(i) => r == Some(rewards@[i]),
            None => r is None,
        },
{
    let mut n: usize = rewards.len();
    proof {
        assert(rewards@.take(n as int) =~= rewards@);
    }
    while n > 0
        invariant
            n <= rewards@.len(),
            rewards_for(rewards@, condition_id@) == rewards_for(
                rewards@.take(n as int),
                condition_id@,
            ),
        decreases n,
    {
        proof {
            assert(rewards@.take(n as int).last() == rewards@[n - 1]);
            assert(rewards@.take(n as int).drop_last() =~= rewards@.take(n - 1));
        }
        if rewards[n - 1].condition_id.same_bytes(condition_id) {
            return Some(rewards[n - 1]);
        }
        n = n - 1;
    }
    None
}

fn judge_by_listed_terms(
    market: &MarketInfo,
    rewards: &Vec<ClobRewardData>,
    min_daily_rate: Decimal,
) -> (r: Option<RewardMarketCandidate>)
    requires
        listed_candidate(market@, rewards@, min_daily_rate@) is Some,
    ensures
        listed_candidate(market@, rewards@, min_daily_rate@) == Some(candidate_at(r)),
{
    if !market.active || market.tokens.len() != 2 || market.neg_risk {
        return None;
    }
    match find_rewards(rewards, &market.condition_id) {
        Some(terms) => if terms.total_daily_rate >= min_daily_rate {
            Some(
                build_candidate(
                    market,
                    terms.total_daily_rate,
                    terms.rewards_max_spread,
                    terms.rewards_min_size,
                ),
            )
        } else {
            None
        },
        None => None,
    }
}

fn picked(overrides: &Vec<LrMarketOverride>, condition_id: &B256) -> (r: bool)
    ensures
        r == is_picked(overrides@, condition_id@),
{
    let mut i: usize = 0;
    while i < overrides.len()
        invariant
            i <= overrides@.len(),
            forall|j: int|
                0 <= j < i ==> !spells_id(
                    (#[trigger] overrides@[j]).condition_id@,
                    condition_id@,
                ),
        decreases overrides@.len() - i,
    {
        if condition_id.is_spelled(overrides[i].condition_id.as_str()) {
            proof {
                assert(spells_id(overrides@[i as int].condition_id@, condition_id@));
            }
            return true;
        }
        i = i + 1;
    }
    false
}

fn judge_picked(
    market: &MarketInfo,
    rewards: &Vec<ClobRewardData>,
    config: &LiquidityRewardsConfig,
) -> (r: Option<RewardMarketCandidate>)
    requires
        picked_candidate(market@, rewards@, *config) is Some,
    ensures
        picked_candidate(market@, rewards@, *config) == Some(candidate_at(r)),
{
    if !market.active || !picked(&config.manual_markets, &market.condition_id) {
        return None;
    }
    if (market.tokens.len() != 2 || market.neg_risk) && !config.allow_neg_risk {
        return None;
    }
    match find_rewards(rewards, &market.condition_id) {
        Some(terms) => Some(
            build_candidate(
                market,
                terms.total_daily_rate,
                terms.rewards_max_spread,
                terms.rewards_min_size,
            ),
        ),
        None => Some(build_candidate(market, Decimal::zero(), Decimal::zero(), Decimal::zero())),
    }
}

fn among(candidates: &Vec<RewardMarketCandidate>, condition_id: &B256, n: usize) -> (r: bool)
    requires
        n <= candidates@.len(),
    ensures
        r == is_among(candidate_views(candidates@.take(n as int)), condition_id@),
{
    let ghost views = candidate_views(candidates@.take(n as int));
    let mut i: usize = 0;
    while i < n
        invariant
            i <= n <= candidates@.len(),
            views == candidate_views(candidates@.take(n as int)),
            forall|j: int|
                0 <= j < i ==> (#[trigger] views[j]).market.condition_id != condition_id@,
        decreases n - i,
    {
        proof {
            assert(views[i as int] == candidates@[i as int]@);
        }
        if candidates[i].market.condition_id.same_bytes(condition_id) {
            return true;
        }
        i = i + 1;
    }
    false
}

/// Puts the densest first, and keeps at most so many.
fn rank_candidates(found: Vec<RewardMarketCandidate>, max: usize) -> (r: Vec<RewardMarketCandidate>)
    ensures
        candidate_views(r@) == best(candidate_views(found@), max as nat),
{
    let ghost all = candidate_views(found@);
    let ghost source = found@;
    let mut rest = found;
    let mut sorted: Vec<RewardMarketCandidate> = Vec::new();
    let mut n: usize = 0;
    let total: usize = rest.len();
    proof {
        assert(candidate_views(sorted@) =~= Seq::empty());
        assert(source.skip(0) =~= source);
    }
    while n < total
        invariant
            n <= total,
            total == source.len(),
            all == candidate_views(source),
            rest@ == source.skip(n as int),
            candidate_views(sorted@) == ranked(all, n as nat),
        decreases total - n,
    {
        let next = rest.remove(0);
        proof {
            assert(next == source[n as int]);
            assert(rest@ =~= source.skip(n + 1));
            assert(all[n as int] == next@);
        }
        let ghost before = candidate_views(sorted@);
        let mut place: usize = 0;
        while place < sorted.len() && sorted[place].density >= next.density
            invariant
                place <= sorted@.len(),
                before == candidate_views(sorted@),
                rank(before, next.density@, 0) == rank(before, next.density@, place as nat),
            decreases sorted@.len() - place,
        {
            place = place + 1;
        }
        sorted.insert(place, next);
        proof {
            assert(candidate_views(sorted@) =~= before.insert(place as int, next@));
        }
        n = n + 1;
    }
    if sorted.len() > max {
        let ghost whole = sorted@;
        sorted.truncate(max);
        proof {
            assert(candidate_views(sorted@) =~= candidate_views(whole).take(max as int));
        }
    }
    sorted
}

/// The markets that reward resting orders by their own terms: active, with two tokens, no part of a
/// larger event, with reward terms and at least the least daily rate. The densest rewards come
/// first.
pub fn select_reward_markets(markets: &Vec<MarketInfo>, config: &LiquidityRewardsConfig) -> (r: Vec<
    RewardMarketCandidate,
>)
    requires
        selected(
            markets@,
            own_rule(config.min_daily_rate@),
            config.max_markets as nat,
        ) is Some,
    ensures
        selected(markets@, own_rule(config.min_daily_rate@), config.max_markets as nat) == Some(
            candidate_views(r@),
        ),
{
    let ghost rule = own_rule(config.min_daily_rate@);
    let mut found: Vec<RewardMarketCandidate> = Vec::new();
    let mut i: usize = 0;
    proof {
        assert(candidate_views(found@) =~= Seq::empty());
    }
    while i < markets.len()
        invariant
            i <= markets@.len(),
            rule == own_rule(config.min_daily_rate@),
            gathered(markets@, rule, markets@.len()) is Some,
            gathered(markets@, rule, i as nat) == Some(candidate_views(found@)),
        decreases markets@.len() - i,
    {
        proof {
            lemma_gathered_prefix(markets@, rule, (i + 1) as nat, markets@.len());
        }
        if let Some(c) = judge_by_own_terms(&markets[i], config.min_daily_rate) {
            let ghost before = found@;
            found.push(c);
            proof {
                assert(candidate_views(found@) =~= candidate_views(before).push(c@));
            }
        }
        i = i + 1;
    }
    rank_candidates(found, config.max_markets)
}

/// The markets that reward resting orders by the exchange's terms: active, with two tokens, no part
/// of a larger event, with terms listed and at least the least daily rate. The densest rewards come
/// first.
pub fn select_reward_markets_with_clob_data(
    markets: &Vec<MarketInfo>,
    clob_rewards: &Vec<ClobRewardData>,
    config: &LiquidityRewardsConfig,
) -> (r: Vec<RewardMarketCandidate>)
    requires
        automatic(markets@, clob_rewards@, *config) is Some,
    ensures
        automatic(markets@, clob_rewards@, *config) == Some(candidate_views(r@)),
{
    let ghost rule = listed_rule(clob_rewards@, config.min_daily_rate@);
    let mut found: Vec<RewardMarketCandidate> = Vec::new();
    let mut i: usize = 0;
    proof {
        assert(candidate_views(found@) =~= Seq::empty());
    }
    while i < markets.len()
        invariant
            i <= markets@.len(),
            rule == listed_rule(clob_rewards@, config.min_daily_rate@),
            gathered(markets@, rule, markets@.len()) is Some,
            gathered(markets@, rule, i as nat) == Some(candidate_views(found@)),
        decreases markets@.len() - i,
    {
        proof {
            lemma_gathered_prefix(markets@, rule, (i + 1) as nat, markets@.len());
        }
        if let Some(c) = judge_by_listed_terms(&markets[i], clob_rewards, config.min_daily_rate) {
            let ghost before = found@;
            found.push(c);
            proof {
                assert(candidate_views(found@) =~= candidate_views(before).push(c@));
            }
        }
        i = i + 1;
    }
    rank_candidates(found, config.max_markets)
}

fn select_picked(
    markets: &Vec<MarketInfo>,
    clob_rewards: &Vec<ClobRewardData>,
    config: &LiquidityRewardsConfig,
) -> (r: Vec<RewardMarketCandidate>)
    requires
        gathered(markets@, picked_rule(clob_rewards@, *config), markets@.len()) is Some,
    ensures
        gathered(markets@, picked_rule(clob_rewards@, *config), markets@.len()) == Some(
            candidate_views(r@),
        ),
{
    let ghost rule = picked_rule(clob_rewards@, *config);
    let mut found: Vec<RewardMarketCandidate> = Vec::new();
    let mut i: usize = 0;
    proof {
        assert(candidate_views(found@) =~= Seq::empty());
    }
    while i < markets.len()
        invariant
            i <= markets@.len(),
            rule == picked_rule(clob_rewards@, *config),
            gathered(markets@, rule, markets@.len()) is Some,
            gathered(markets@, rule, i as nat) == Some(candidate_views(found@)),
        decreases markets@.len() - i,
    {
        proof {
            lemma_gathered_prefix(markets@, rule, (i + 1) as nat, markets@.len());
        }
        if let Some(c) = judge_picked(&markets[i], clob_rewards, config) {
            let ghost before = found@;
            found.push(c);
            proof {
                assert(candidate_views(found@) =~= candidate_views(before).push(c@));
            }
        }
        i = i + 1;
    }
    found
}

fn select_hybrid(
    markets: &Vec<MarketInfo>,
    clob_rewards: &Vec<ClobRewardData>,
    config: &LiquidityRewardsConfig,
) -> (r: Vec<RewardMarketCandidate>)
    requires
        hybrid(markets@, clob_rewards@, *config) is Some,
    ensures
        hybrid(markets@, clob_rewards@, *config) == Some(candidate_views(r@)),
{
    let mut found = select_reward_markets_with_clob_data(markets, clob_rewards, config);
    let auto_len: usize = found.len();
    let ghost auto = candidate_views(found@);
    let ghost auto_found = found@;
    let ghost rule = added_rule(clob_rewards@, *config, auto);
    let ghost mut added: Seq<CandidateRecord> = Seq::empty();
    let mut i: usize = 0;
    proof {
        assert(candidate_views(found@) =~= auto + added);
        assert(found@.take(auto_len as int) =~= auto_found);
    }
    while i < markets.len()
        invariant
            i <= markets@.len(),
            rule == added_rule(clob_rewards@, *config, auto),
            gathered(markets@, rule, markets@.len()) is Some,
            gathered(markets@, rule, i as nat) == Some(added),
            auto_len <= found@.len(),
            found@.take(auto_len as int) == auto_found,
            auto == candidate_views(auto_found),
            candidate_views(found@) == auto + added,
        decreases markets@.len() - i,
    {
        proof {
            lemma_gathered_prefix(markets@, rule, (i + 1) as nat, markets@.len());
        }
        if !among(&found, &markets[i].condition_id, auto_len) {
            if let Some(c) = judge_picked(&markets[i], clob_rewards, config) {
                let ghost before = found@;
                found.push(c);
                proof {
                    assert(candidate_views(found@) =~= candidate_views(before).push(c@));
                    assert((auto + added).push(c@) =~= auto + added.push(c@));
                    added = added.push(c@);
                    assert(found@.take(auto_len as int) =~= before.take(auto_len as int));
                }
            }
        }
        i = i + 1;
    }
    found
}

/// The markets to quote on by the mode that is set: `manual` takes those picked by hand, `hybrid`
/// the automatic choice and those picked by hand, any other mode the automatic choice.
pub fn select_reward_markets_hybrid(
    markets: &Vec<MarketInfo>,
    clob_rewards: &Vec<ClobRewardData>,
    config: &LiquidityRewardsConfig,
) -> (r: Vec<RewardMarketCandidate>)
    requires
        chosen(markets@, clob_rewards@, *config) is Some,
    ensures
        chosen(markets@, clob_rewards@, *config) == Some(candidate_views(r@)),
{
    if text::same_text(config.market_mode.as_str(), "manual") {
        select_picked(markets, clob_rewards, config)
    } else if text::same_text(config.market_mode.as_str(), "hybrid") {
        select_hybrid(markets, clob_rewards, config)
    } else {
        select_reward_markets_with_clob_data(markets, clob_rewards, config)
    }
}

/// The candidates are in order, the densest first.
pub open spec fn densest_first(candidates: Seq<CandidateRecord>) -> bool {
    forall|i: int, j: int|
        0 <= i <= j < candidates.len() ==> (#[trigger] candidates[i]).density
            >= (#[trigger] candidates[j]).density
}

/// The candidates with this density, in their order.
pub open spec fn with_density(candidates: Seq<CandidateRecord>, density: int) -> Seq<CandidateRecord> {
    candidates.filter(|c: CandidateRecord| c.density == density)
}

proof fn lemma_rank(sorted: Seq<CandidateRecord>, density: int, i: nat)
    requires
        i <= sorted.len(),
        densest_first(sorted),
        forall|k: int| 0 <= k < i ==> (#[trigger] sorted[k]).density >= density,
    ensures
        i <= rank(sorted, density, i) <= sorted.len(),
        forall|k: int|
            0 <= k < rank(sorted, density, i) ==> (#[trigger] sorted[k]).density >= density,
        forall|k: int|
            rank(sorted, density, i) <= k < sorted.len() ==> (#[trigger] sorted[k]).density
                < density,
    decreases sorted.len() - i,
{
    if i < sorted.len() && sorted[i as int].density >= density {
        lemma_rank(sorted, density, i + 1);
    }
}

proof fn lemma_none_with_density(candidates: Seq<CandidateRecord>, density: int)
    requires
        forall|k: int| 0 <= k < candidates.len() ==> (#[trigger] candidates[k]).density != density,
    ensures
        with_density(candidates, density) == Seq::<CandidateRecord>::empty(),
    decreases candidates.len(),
{
    reveal(Seq::filter);
    if candidates.len() > 0 {
        let before = candidates.drop_last();
        assert forall|k: int| 0 <= k < before.len() implies (#[trigger] before[k]).density
            != density by {
            assert(before[k] == candidates[k]);
        }
        lemma_none_with_density(before, density);
    }
}

proof fn lemma_one_more_with_density(candidates: Seq<CandidateRecord>, c: CandidateRecord, density: int)
    ensures
        with_density(candidates.push(c), density) == if c.density == density {
            with_density(candidates, density).push(c)
        } else {
            with_density(candidates, density)
        },
{
    reveal(Seq::filter);
    assert(candidates.push(c).drop_last() =~= candidates);
}

proof fn lemma_inserted_with_density(
    sorted: Seq<CandidateRecord>,
    c: CandidateRecord,
    density: int,
)
    requires
        densest_first(sorted),
    ensures
        with_density(sorted.insert(rank(sorted, c.density, 0) as int, c), density) == if c.density
            == density {
            with_density(sorted, density).push(c)
        } else {
            with_density(sorted, density)
        },
{
    lemma_rank(sorted, c.density, 0);
    let p = rank(sorted, c.density, 0) as int;
    let front = sorted.take(p);
    let back = sorted.skip(p);
    let pred = |x: CandidateRecord| x.density == density;
    assert(sorted =~= front + back);
    assert(sorted.insert(p, c) =~= front.push(c) + back);
    Seq::filter_distributes_over_add(front, back, pred);
    Seq::filter_distributes_over_add(front.push(c), back, pred);
    lemma_one_more_with_density(front, c, density);
    if c.density == density {
        assert forall|k: int| 0 <= k < back.len() implies (#[trigger] back[k]).density != density by {
            assert(back[k] == sorted[k + p]);
        }
        lemma_none_with_density(back, density);
        assert(with_density(front, density).push(c) + Seq::<CandidateRecord>::empty()
            =~= with_density(front, density).push(c));
        assert(with_density(front, density) + Seq::<CandidateRecord>::empty() =~= with_density(
            front,
            density,
        ));
    }
}

/// The ranking holds the same candidates, the densest first; those that are equally dense keep their
/// order.
pub proof fn law_ranking_is_stable(candidates: Seq<CandidateRecord>, n: nat)
    requires
        n <= candidates.len(),
    ensures
        ranked(candidates, n).len() == n,
        densest_first(ranked(candidates, n)),
        forall|density: int| #[trigger]
            with_density(ranked(candidates, n), density) == with_density(
                candidates.take(n as int),
                density,
            ),
    decreases n,
{
    if n == 0 {
        assert(candidates.take(0) =~= Seq::empty());
    } else {
        law_ranking_is_stable(candidates, (n - 1) as nat);
        let before = ranked(candidates, (n - 1) as nat);
        let c = candidates[n - 1];
        lemma_rank(before, c.density, 0);
        let p = rank(before, c.density, 0) as int;
        let now = before.insert(p, c);
        assert(now == ranked(candidates, n));
        assert forall|i: int, j: int| 0 <= i <= j < now.len() implies (#[trigger] now[i]).density
            >= (#[trigger] now[j]).density by {
            let a = if i < p {
                i
            } else {
                i - 1
            };
            let b = if j < p {
                j
            } else {
                j - 1
            };
            assert(i != p ==> now[i] == before[a]);
            assert(j != p ==> now[j] == before[b]);
        }
        assert(candidates.take(n as int) =~= candidates.take(n - 1).push(c));
        assert forall|density: int| #[trigger] with_density(now, density) == with_density(
            candidates.take(n as int),
            density,
        ) by {
            lemma_inserted_with_density(before, c, density);
            lemma_one_more_with_density(candidates.take(n - 1), c, density);
        }
    }
}

proof fn lemma_ranked_contains(candidates: Seq<CandidateRecord>, n: nat)
    requires
        n <= candidates.len(),
    ensures
        forall|k: int|
            0 <= k < ranked(candidates, n).len() ==> candidates.contains(
                #[trigger] ranked(candidates, n)[k],
            ),
    decreases n,
{
    if n > 0 {
        law_ranking_is_stable(candidates, (n - 1) as nat);
        lemma_ranked_contains(candidates, (n - 1) as nat);
        let before = ranked(candidates, (n - 1) as nat);
        let c = candidates[n - 1];
        lemma_rank(before, c.density, 0);
        let p = rank(before, c.density, 0) as int;
        let now = ranked(candidates, n);
        assert forall|k: int| 0 <= k < now.len() implies candidates.contains(
            #[trigger] now[k],
        ) by {
            if k < p {
                assert(now[k] == before[k]);
            } else if k > p {
                assert(now[k] == before[k - 1]);
            }
        }
    }
}

proof fn lemma_gathered_source(
    markets: Seq<MarketInfo>,
    rule: spec_fn(MarketRecord) -> Option<Option<CandidateRecord>>,
    n: nat,
)
    requires
        n <= markets.len(),
        gathered(markets, rule, n) is Some,
    ensures
        forall|k: int|
            0 <= k < gathered(markets, rule, n)->0.len() ==> exists|i: int|
                0 <= i < n && rule((#[trigger] markets[i])@) == Some(
                    Some(#[trigger] gathered(markets, rule, n)->0[k]),
                ),
    decreases n,
{
    if n > 0 {
        lemma_gathered_source(markets, rule, (n - 1) as nat);
        let before = gathered(markets, rule, (n - 1) as nat)->0;
        let now = gathered(markets, rule, n)->0;
        assert forall|k: int| 0 <= k < now.len() implies exists|i: int|
            0 <= i < n && rule((#[trigger] markets[i])@) == Some(Some(#[trigger] now[k])) by {
            if k < before.len() {
                assert(now[k] == before[k]);
            } else {
                assert(rule(markets[n - 1]@) == Some(Some(now[k])));
            }
        }
    }
}

/// What is selected automatically is at most as many as allowed, the densest rewards first, and every
/// one of them is an active market of two tokens that is no part of a larger event and whose listed
/// daily rate is at least the least one.
pub proof fn law_selected_markets_are_eligible(
    markets: Seq<MarketInfo>,
    rewards: Seq<ClobRewardData>,
    min_daily_rate: int,
    max: nat,
)
    requires
        selected(markets, listed_rule(rewards, min_daily_rate), max) is Some,
    ensures
        ({
            let found = selected(markets, listed_rule(rewards, min_daily_rate), max)->0;
            &&& found.len() <= max
            &&& densest_first(found)
            &&& forall|k: int|
                0 <= k < found.len() ==> is_plain((#[trigger] found[k]).market) && rewards_for(
                    rewards,
                    found[k].market.condition_id,
                ) is Some && rewards[rewards_for(
                    rewards,
                    found[k].market.condition_id,
                )->0].total_daily_rate@ >= min_daily_rate
        }),
{
    let rule = listed_rule(rewards, min_daily_rate);
    let all = gathered(markets, rule, markets.len())->0;
    let found = selected(markets, rule, max)->0;
    law_ranking_is_stable(all, all.len());
    lemma_ranked_contains(all, all.len());
    lemma_gathered_source(markets, rule, markets.len());
    assert forall|k: int| 0 <= k < found.len() implies is_plain((#[trigger] found[k]).market)
        && rewards_for(rewards, found[k].market.condition_id) is Some && rewards[rewards_for(
        rewards,
        found[k].market.condition_id,
    )->0].total_daily_rate@ >= min_daily_rate by {
        let c = ranked(all, all.len())[k];
        assert(found[k] == c);
        assert(all.contains(c));
        let j = choose|j: int| 0 <= j < all.len() && all[j] == c;
        let i = choose|i: int|
            0 <= i < markets.len() && rule((#[trigger] markets[i])@) == Some(Some(all[j]));
        assert(listed_candidate(markets[i]@, rewards, min_daily_rate) == Some(Some(c)));
    }
}

proof fn lemma_gathered_holds(
    markets: Seq<MarketInfo>,
    rule: spec_fn(MarketRecord) -> Option<Option<CandidateRecord>>,
    i: int,
    n: nat,
)
    requires
        0 <= i < n <= markets.len(),
        gathered(markets, rule, n) is Some,
        rule(markets[i]@) matches Some(Some(_)),
    ensures
        gathered(markets, rule, n)->0.contains(rule(markets[i]@)->0->0),
    decreases n,
{
    let now = gathered(markets, rule, n)->0;
    let c = rule(markets[i]@)->0->0;
    if i == n - 1 {
        assert(now.last() == c);
    } else {
        lemma_gathered_holds(markets, rule, i, (n - 1) as nat);
        let before = gathered(markets, rule, (n - 1) as nat)->0;
        let k = choose|k: int| 0 <= k < before.len() && before[k] == c;
        assert(now[k] == c);
    }
}

proof fn lemma_gathered_defined(
    markets: Seq<MarketInfo>,
    rule: spec_fn(MarketRecord) -> Option<Option<CandidateRecord>>,
    i: int,
    n: nat,
)
    requires
        0 <= i < n,
        gathered(markets, rule, n) is Some,
    ensures
        rule(markets[i]@) is Some,
    decreases n,
{
    if i < n - 1 {
        lemma_gathered_defined(markets, rule, i, (n - 1) as nat);
    }
}

/// A market picked by hand that can be quoted on is always among the chosen ones, in the manual mode
/// and in the hybrid one.
pub proof fn law_picked_markets_are_always_chosen(
    markets: Seq<MarketInfo>,
    rewards: Seq<ClobRewardData>,
    config: LiquidityRewardsConfig,
    i: int,
)
    requires
        config.market_mode@ == "manual"@ || config.market_mode@ == "hybrid"@,
        chosen(markets, rewards, config) is Some,
        0 <= i < markets.len(),
        may_be_picked(markets[i]@, config),
    ensures
        is_among(chosen(markets, rewards, config)->0, markets[i]@.condition_id),
{
    let found = chosen(markets, rewards, config)->0;
    let id = markets[i]@.condition_id;
    if config.market_mode@ == "manual"@ {
        let rule = picked_rule(rewards, config);
        lemma_gathered_defined(markets, rule, i, markets.len());
        lemma_gathered_holds(markets, rule, i, markets.len());
        let c = rule(markets[i]@)->0->0;
        let k = choose|k: int| 0 <= k < found.len() && found[k] == c;
        assert(found[k].market.condition_id == id);
    } else {
        let auto = selected(
            markets,
            listed_rule(rewards, config.min_daily_rate@),
            config.max_markets as nat,
        )->0;
        let rule = added_rule(rewards, config, auto);
        let added = gathered(markets, rule, markets.len())->0;
        assert(found == auto + added);
        if is_among(auto, id) {
            let k = choose|k: int|
                0 <= k < auto.len() && (#[trigger] auto[k]).market.condition_id == id;
            assert(found[k].market.condition_id == id);
        } else {
            lemma_gathered_defined(markets, rule, i, markets.len());
            lemma_gathered_holds(markets, rule, i, markets.len());
            let c = rule(markets[i]@)->0->0;
            let k = choose|k: int| 0 <= k < added.len() && added[k] == c;
            assert(found[auto.len() + k] == added[k]);
            assert(found[auto.len() + k].market.condition_id == id);
        }
    }
}

/// The markets that the candidates are for.
pub open spec fn markets_of(candidates: Seq<CandidateRecord>) -> Seq<MarketRecord> {
    candidates.map_values(|c: CandidateRecord| c.market)
}

/// A rule that makes candidates of the markets that pass, and of no others, gathers exactly those, in
/// their order.
proof fn lemma_gathered_is_filtered(
    markets: Seq<MarketInfo>,
    rule: spec_fn(MarketRecord) -> Option<Option<CandidateRecord>>,
    passes: spec_fn(MarketRecord) -> bool,
    n: nat,
)
    requires
        n <= markets.len(),
        gathered(markets, rule, n) is Some,
        forall|m: MarketRecord|
            (#[trigger] rule(m)) matches Some(made) ==> {
                &&& made is Some <==> passes(m)
                &&& made matches Some(c) ==> c.market == m
            },
    ensures
        markets_of(gathered(markets, rule, n)->0) == market_views(markets.take(n as int)).filter(
            passes,
        ),
    decreases n,
{
    reveal(Seq::filter);
    let views = market_views(markets.take(n as int));
    if n == 0 {
        assert(markets_of(gathered(markets, rule, n)->0) =~= views.filter(passes));
    } else {
        let before = gathered(markets, rule, (n - 1) as nat)->0;
        lemma_gathered_is_filtered(markets, rule, passes, (n - 1) as nat);
        assert(views.last() == markets[n - 1]@);
        assert(views.drop_last() =~= market_views(markets.take(n - 1)));
        if let Some(Some(c)) = rule(markets[n - 1]@) {
            assert(markets_of(before.push(c)) =~= markets_of(before).push(c.market));
        }
    }
}

/// The mode says where the choice comes from. `manual` takes exactly the markets picked by hand that
/// may be quoted on, in their order and however many they are. `hybrid` takes the automatic choice
/// and after it, in their order, those picked by hand that it leaves out. Any other mode takes the
/// automatic choice alone.
pub proof fn law_mode_decides_the_choice(
    markets: Seq<MarketInfo>,
    rewards: Seq<ClobRewardData>,
    config: LiquidityRewardsConfig,
)
    requires
        chosen(markets, rewards, config) is Some,
    ensures
        ({
            let choice = chosen(markets, rewards, config)->0;
            let auto = automatic(markets, rewards, config)->0;
            let known = market_views(markets);
            if config.market_mode@ == "manual"@ {
                markets_of(choice) == known.filter(|m: MarketRecord| may_be_picked(m, config))
            } else if config.market_mode@ == "hybrid"@ {
                &&& automatic(markets, rewards, config) is Some
                &&& auto.len() <= choice.len()
                &&& choice.take(auto.len() as int) == auto
                &&& markets_of(choice.skip(auto.len() as int)) == known.filter(
                    |m: MarketRecord|
                        may_be_picked(m, config) && !is_among(auto, m.condition_id),
                )
            } else {
                automatic(markets, rewards, config) == Some(choice)
            }
        }),
{
    let choice = chosen(markets, rewards, config)->0;
    assert(markets.take(markets.len() as int) =~= markets);
    if config.market_mode@ == "manual"@ {
        lemma_gathered_is_filtered(
            markets,
            picked_rule(rewards, config),
            |m: MarketRecord| may_be_picked(m, config),
            markets.len(),
        );
    } else if config.market_mode@ == "hybrid"@ {
        let auto = automatic(markets, rewards, config)->0;
        let rule = added_rule(rewards, config, auto);
        let added = gathered(markets, rule, markets.len())->0;
        lemma_gathered_is_filtered(
            markets,
            rule,
            |m: MarketRecord| may_be_picked(m, config) && !is_among(auto, m.condition_id),
            markets.len(),
        );
        assert(choice.take(auto.len() as int) =~= auto);
        assert(choice.skip(auto.len() as int) =~= added);
    }
}

/// The density of a market is its daily reward over its liquidity and one, up to the rounding of the last
/// digits. A market earns by its own terms only where it is active, has two tokens, is no part of a larger
/// event and pays at least the least daily reward.
pub proof fn law_density_is_reward_over_liquidity(market: MarketRecord, min_daily_rate: int, k: nat)
    requires
        k <= 20,
        own_candidate(market, min_daily_rate) is Some,
        0 <= market.liquidity@ <= 6 * pow10(k) * unit(),
        market.rewards_daily_rate matches Some(rate) ==> 0 <= rate@ <= 7 * pow10(k) * unit(),
    ensures
        ({
            let u = unit();
            let found = own_candidate(market, min_daily_rate)->0;
            let known = market.rewards_min_size is Some && market.rewards_max_spread is Some
                && market.rewards_daily_rate is Some;
            &&& found is Some <==> known && market.active && market.tokens.len() == 2
                && !market.neg_risk && market.rewards_daily_rate->0@ >= min_daily_rate
            &&& found matches Some(c) ==> {
                &&& c.market == market
                &&& c.max_spread == market.rewards_max_spread->0@
                &&& c.min_size == market.rewards_min_size->0@
                &&& exists|d: int|
                    -pow10(k) <= 2 * (d - market.liquidity@ - u) <= pow10(k) && #[trigger] close(
                        c.density,
                        market.rewards_daily_rate->0@ * u,
                        d,
                        pow10(k),
                    )
            }
        }),
{
    let u = unit();
    let p = pow10(k);
    if market.rewards_daily_rate is Some {
        let rate = market.rewards_daily_rate->0@;
        let liquidity = market.liquidity@;
        lemma_pow10_below_unit(k);
        lemma_pow10_below_unit(20);
        assert(p * u >= u && 7 * p * u == 7 * (p * u) && 6 * p * u == 6 * (p * u)) by (nonlinear_arith)
            requires
                p >= 1,
                u > 0,
        ;
        lemma_sum_close(liquidity, u, k);
        let d = sum(liquidity, u)->0;
        lemma_whole_representable(1);
        law_arithmetic_keeps_order(liquidity, u, u);
        assert(rate <= 7 * p * d) by (nonlinear_arith)
            requires
                rate <= 7 * p * u,
                d >= u,
                p > 0,
        ;
        lemma_quotient_close(rate, d, k);
        let found = own_candidate(market, min_daily_rate)->0;
        if found is Some {
            assert(found->0.density == quotient(rate, d)->0);
            assert(close(found->0.density, rate * u, d, p));
        }
    }
}

} // verus!
