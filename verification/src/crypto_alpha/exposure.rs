//! What is tied up in each asset, and in which direction.
use crate::crypto_alpha::assets::CryptoAsset;
use crate::crypto_alpha::detect_group::find_group_asset;
use crate::crypto_alpha::entry::{Account, DirectionExposure, TokenPosition};
use crate::crypto_alpha::exits::{asset_of_event, HeldPosition};
use crate::crypto_alpha::labels::{binary_direction_bucket, CryptoDirectionBucket};
use crate::crypto_alpha::question::{
    parse_crypto_event_title, parse_crypto_outcome_range, parse_crypto_question,
    range_direction_bucket,
};
use crate::decimal::Decimal;
use crate::keyed::Keyed;
use crate::text;
use crate::types::{BinaryEventGroup, MarketInfo, NegRiskEvent, TokenInfo, U256};
use vstd::prelude::*;

verus! {

use crate::crypto_alpha::assets::AssetEntry;
use crate::crypto_alpha::detect_group::group_asset;
use crate::crypto_alpha::exits::event_asset;
use crate::crypto_alpha::labels::binary_bucket;
use crate::crypto_alpha::question::{question_of, range_bucket, range_of, titled_asset};
use crate::rounding::{
    close, lemma_pow10_below_unit, lemma_product_close, lemma_sum_close, plus, pow10, product, times,
    unit,
};
use crate::types::{holds_token, lemma_with_tokens, with_tokens, MarketRecord};

/// The map with the tokens of the first `n` markets standing for a value.
pub open spec fn with_markets<V>(
    m: Map<U256, V>,
    markets: Seq<MarketInfo>,
    v: V,
    n: nat,
) -> Map<U256, V>
    decreases n,
{
    if n == 0 {
        m
    } else {
        with_tokens(with_markets(m, markets, v, (n - 1) as nat), markets[n - 1].tokens@, v)
    }
}

/// The asset that a market is about: the one of its question, or of its event's title.
pub open spec fn market_asset(market: MarketRecord) -> Option<AssetEntry> {
    match question_of(market.question, None) {
        Some(q) => Some(q.asset),
        None => event_asset(market),
    }
}

/// The assets of the tokens of the first `n` markets.
pub open spec fn market_assets(markets: Seq<MarketInfo>, n: nat) -> Map<U256, AssetEntry>
    decreases n,
{
    if n == 0 {
        Map::empty()
    } else {
        let before = market_assets(markets, (n - 1) as nat);
        match market_asset(markets[n - 1]@) {
            Some(a) => with_tokens(before, markets[n - 1].tokens@, a),
            None => before,
        }
    }
}

/// The map with the assets of the tokens of the first `n` events.
pub open spec fn with_events(
    m: Map<U256, AssetEntry>,
    events: Seq<NegRiskEvent>,
    n: nat,
) -> Map<U256, AssetEntry>
    decreases n,
{
    if n == 0 {
        m
    } else {
        let before = with_events(m, events, (n - 1) as nat);
        let event = events[n - 1];
        match titled_asset(event.title@) {
            Some(a) => with_markets(before, event.markets@, a, event.markets@.len()),
            None => before,
        }
    }
}

/// The map with the assets of the tokens of the first `n` groups.
pub open spec fn with_groups(
    m: Map<U256, AssetEntry>,
    groups: Seq<BinaryEventGroup>,
    n: nat,
) -> Map<U256, AssetEntry>
    decreases n,
{
    if n == 0 {
        m
    } else {
        let before = with_groups(m, groups, (n - 1) as nat);
        let group = groups[n - 1];
        match group_asset(group) {
            Some(a) => with_markets(before, group.markets@, a, group.markets@.len()),
            None => before,
        }
    }
}

/// The asset of each token: a group's word counts for more than an event's, and that for more than a
/// market's own.
pub open spec fn token_assets(
    markets: Seq<MarketInfo>,
    events: Seq<NegRiskEvent>,
    groups: Seq<BinaryEventGroup>,
) -> Map<U256, AssetEntry> {
    with_groups(
        with_events(market_assets(markets, markets.len()), events, events.len()),
        groups,
        groups.len(),
    )
}

/// The map with the directions of a market's two sides.
pub open spec fn with_sides(
    m: Map<U256, CryptoDirectionBucket>,
    tokens: Seq<TokenInfo>,
    yes: CryptoDirectionBucket,
    no: CryptoDirectionBucket,
) -> Map<U256, CryptoDirectionBucket> {
    m.insert(tokens[0].token_id, yes).insert(tokens[1].token_id, no)
}

/// The map with the directions of a market that its question asks for.
pub open spec fn with_question(m: Map<U256, CryptoDirectionBucket>, market: MarketRecord) -> Map<
    U256,
    CryptoDirectionBucket,
> {
    match question_of(market.question, None) {
        Some(q) => if market.tokens.len() >= 2 {
            with_sides(
                m,
                market.tokens,
                binary_bucket(q.direction, true),
                binary_bucket(q.direction, false),
            )
        } else {
            m
        },
        None => m,
    }
}

/// The map with the directions of a market that its range stands for.
pub open spec fn with_range(m: Map<U256, CryptoDirectionBucket>, market: MarketRecord) -> Map<
    U256,
    CryptoDirectionBucket,
> {
    match range_of(market.question) {
        Some(range) => if market.tokens.len() >= 2 {
            with_sides(m, market.tokens, range_bucket(range, true), range_bucket(range, false))
        } else {
            m
        },
        None => m,
    }
}

/// The directions of the tokens of the first `n` markets.
pub open spec fn market_directions(markets: Seq<MarketInfo>, n: nat) -> Map<
    U256,
    CryptoDirectionBucket,
>
    decreases n,
{
    if n == 0 {
        Map::empty()
    } else {
        let before = market_directions(markets, (n - 1) as nat);
        let market = markets[n - 1]@;
        if question_of(market.question, None) is Some {
            with_question(before, market)
        } else {
            with_range(before, market)
        }
    }
}

/// The map with the directions that the ranges of the first `n` markets stand for.
pub open spec fn with_ranges(
    m: Map<U256, CryptoDirectionBucket>,
    markets: Seq<MarketInfo>,
    n: nat,
) -> Map<U256, CryptoDirectionBucket>
    decreases n,
{
    if n == 0 {
        m
    } else {
        with_range(with_ranges(m, markets, (n - 1) as nat), markets[n - 1]@)
    }
}

/// The map with the directions that the questions of the first `n` markets ask for.
pub open spec fn with_questions(
    m: Map<U256, CryptoDirectionBucket>,
    markets: Seq<MarketInfo>,
    n: nat,
) -> Map<U256, CryptoDirectionBucket>
    decreases n,
{
    if n == 0 {
        m
    } else {
        with_question(with_questions(m, markets, (n - 1) as nat), markets[n - 1]@)
    }
}

/// The map with the directions of the tokens of the first `n` events.
pub open spec fn with_event_ranges(
    m: Map<U256, CryptoDirectionBucket>,
    events: Seq<NegRiskEvent>,
    n: nat,
) -> Map<U256, CryptoDirectionBucket>
    decreases n,
{
    if n == 0 {
        m
    } else {
        let markets = events[n - 1].markets@;
        with_ranges(with_event_ranges(m, events, (n - 1) as nat), markets, markets.len())
    }
}

/// The map with the directions of the tokens of the first `n` groups.
pub open spec fn with_group_questions(
    m: Map<U256, CryptoDirectionBucket>,
    groups: Seq<BinaryEventGroup>,
    n: nat,
) -> Map<U256, CryptoDirectionBucket>
    decreases n,
{
    if n == 0 {
        m
    } else {
        let markets = groups[n - 1].markets@;
        with_questions(with_group_questions(m, groups, (n - 1) as nat), markets, markets.len())
    }
}

/// The direction that each token stands for.
pub open spec fn token_directions(
    markets: Seq<MarketInfo>,
    events: Seq<NegRiskEvent>,
    groups: Seq<BinaryEventGroup>,
) -> Map<U256, CryptoDirectionBucket> {
    with_group_questions(
        with_event_ranges(market_directions(markets, markets.len()), events, events.len()),
        groups,
        groups.len(),
    )
}

/// What an asset map says.
pub open spec fn asset_entries(m: Map<U256, CryptoAsset>) -> Map<U256, AssetEntry> {
    m.map_values(|a: CryptoAsset| a@)
}

fn add_tokens(map: &mut Keyed<U256, CryptoAsset>, tokens: &Vec<TokenInfo>, asset: CryptoAsset)
    ensures
        asset_entries(final(map)@) == with_tokens(asset_entries(old(map)@), tokens@, asset@),
{
    let ghost start = asset_entries(map@);
    let mut i: usize = 0;
    proof {
        assert(start =~= with_tokens(start, tokens@.take(0), asset@));
    }
    while i < tokens.len()
        invariant
            i <= tokens@.len(),
            asset_entries(map@) == with_tokens(start, tokens@.take(i as int), asset@),
        decreases tokens@.len() - i,
    {
        let ghost before = map@;
        map.insert(tokens[i].token_id, asset);
        proof {
            let id = tokens@[i as int].token_id;
            assert(asset_entries(map@) =~= asset_entries(before).insert(id, asset@));
            lemma_with_tokens(start, tokens@, asset@, i as int);
        }
        i = i + 1;
    }
    proof {
        assert(tokens@.take(i as int) =~= tokens@);
    }
}

fn add_markets(map: &mut Keyed<U256, CryptoAsset>, markets: &Vec<MarketInfo>, asset: CryptoAsset)
    ensures
        asset_entries(final(map)@) == with_markets(
            asset_entries(old(map)@),
            markets@,
            asset@,
            markets@.len(),
        ),
{
    let ghost start = asset_entries(map@);
    let mut i: usize = 0;
    while i < markets.len()
        invariant
            i <= markets@.len(),
            asset_entries(map@) == with_markets(start, markets@, asset@, i as nat),
        decreases markets@.len() - i,
    {
        add_tokens(map, &markets[i].tokens, asset);
        i = i + 1;
    }
}

/// The asset of each token.
pub fn build_token_asset_map(
    markets: &Vec<MarketInfo>,
    events: &Vec<NegRiskEvent>,
    groups: &Vec<BinaryEventGroup>,
) -> (r: Keyed<U256, CryptoAsset>)
    ensures
        asset_entries(r@) == token_assets(markets@, events@, groups@),
{
    let mut map: Keyed<U256, CryptoAsset> = Keyed::new();
    let mut i: usize = 0;
    proof {
        assert(asset_entries(map@) =~= Map::empty());
    }
    while i < markets.len()
        invariant
            i <= markets@.len(),
            asset_entries(map@) == market_assets(markets@, i as nat),
        decreases markets@.len() - i,
    {
        let market = &markets[i];
        match parse_crypto_question(market.question.as_str(), None) {
            Some(q) => {
                add_tokens(&mut map, &market.tokens, q.asset);
            },
            None => {
                if let Some(asset) = asset_of_event(market) {
                    add_tokens(&mut map, &market.tokens, asset);
                }
            },
        }
        i = i + 1;
    }
    let ghost from_markets = asset_entries(map@);
    let mut j: usize = 0;
    while j < events.len()
        invariant
            j <= events@.len(),
            asset_entries(map@) == with_events(from_markets, events@, j as nat),
        decreases events@.len() - j,
    {
        if let Some(asset) = parse_crypto_event_title(events[j].title.as_str()) {
            add_markets(&mut map, &events[j].markets, asset);
        }
        j = j + 1;
    }
    let ghost from_events = asset_entries(map@);
    let mut k: usize = 0;
    while k < groups.len()
        invariant
            k <= groups@.len(),
            asset_entries(map@) == with_groups(from_events, groups@, k as nat),
        decreases groups@.len() - k,
    {
        if let Some(asset) = find_group_asset(&groups[k]) {
            add_markets(&mut map, &groups[k].markets, asset);
        }
        k = k + 1;
    }
    map
}

fn add_question(map: &mut Keyed<U256, CryptoDirectionBucket>, market: &MarketInfo) -> (r: bool)
    ensures
        final(map)@ == with_question(old(map)@, market@),
        r == (question_of(market.question@, None) is Some),
{
    match parse_crypto_question(market.question.as_str(), None) {
        Some(q) => {
            if market.tokens.len() >= 2 {
                map.insert(
                    market.tokens[0].token_id,
                    binary_direction_bucket(q.direction, true),
                );
                map.insert(
                    market.tokens[1].token_id,
                    binary_direction_bucket(q.direction, false),
                );
            }
            true
        },
        None => false,
    }
}

fn add_range(map: &mut Keyed<U256, CryptoDirectionBucket>, market: &MarketInfo)
    ensures
        final(map)@ == with_range(old(map)@, market@),
{
    if let Some(range) = parse_crypto_outcome_range(market.question.as_str()) {
        if market.tokens.len() >= 2 {
            map.insert(market.tokens[0].token_id, range_direction_bucket(&range, true));
            map.insert(market.tokens[1].token_id, range_direction_bucket(&range, false));
        }
    }
}

/// The direction that each token stands for.
pub fn build_token_direction_map(
    markets: &Vec<MarketInfo>,
    events: &Vec<NegRiskEvent>,
    groups: &Vec<BinaryEventGroup>,
) -> (r: Keyed<U256, CryptoDirectionBucket>)
    ensures
        r@ == token_directions(markets@, events@, groups@),
{
    let mut map: Keyed<U256, CryptoDirectionBucket> = Keyed::new();
    let mut i: usize = 0;
    while i < markets.len()
        invariant
            i <= markets@.len(),
            map@ == market_directions(markets@, i as nat),
        decreases markets@.len() - i,
    {
        if !add_question(&mut map, &markets[i]) {
            add_range(&mut map, &markets[i]);
        }
        i = i + 1;
    }
    let ghost from_markets = map@;
    let mut j: usize = 0;
    while j < events.len()
        invariant
            j <= events@.len(),
            map@ == with_event_ranges(from_markets, events@, j as nat),
        decreases events@.len() - j,
    {
        let list = &events[j].markets;
        let ghost before = map@;
        let mut n: usize = 0;
        while n < list.len()
            invariant
                n <= list@.len(),
                map@ == with_ranges(before, list@, n as nat),
            decreases list@.len() - n,
        {
            add_range(&mut map, &list[n]);
            n = n + 1;
        }
        j = j + 1;
    }
    let ghost from_events = map@;
    let mut k: usize = 0;
    while k < groups.len()
        invariant
            k <= groups@.len(),
            map@ == with_group_questions(from_events, groups@, k as nat),
        decreases groups@.len() - k,
    {
        let list = &groups[k].markets;
        let ghost before = map@;
        let mut n: usize = 0;
        while n < list.len()
            invariant
                n <= list@.len(),
                map@ == with_questions(before, list@, n as nat),
            decreases list@.len() - n,
        {
            let _ = add_question(&mut map, &list[n]);
            n = n + 1;
        }
        k = k + 1;
    }
    map
}

/// A position is in the asset, and in the direction where one is named.
pub open spec fn counts_for(
    held: HeldPosition,
    assets: Map<U256, AssetEntry>,
    directions: Map<U256, CryptoDirectionBucket>,
    symbol: Seq<char>,
    direction: Option<CryptoDirectionBucket>,
) -> bool {
    &&& assets.contains_key(held.token_id)
    &&& assets[held.token_id].binance_symbol == symbol
    &&& match direction {
        Some(d) => directions.contains_key(held.token_id) && directions[held.token_id] == d,
        None => true,
    }
}

/// What the first `n` positions have tied up in an asset, at cost.
pub open spec fn tied_up(
    held: Seq<HeldPosition>,
    assets: Map<U256, AssetEntry>,
    directions: Map<U256, CryptoDirectionBucket>,
    symbol: Seq<char>,
    direction: Option<CryptoDirectionBucket>,
    n: nat,
) -> Option<int>
    decreases n,
{
    if n == 0 {
        Some(0)
    } else {
        let before = tied_up(held, assets, directions, symbol, direction, (n - 1) as nat);
        let last = held[n - 1];
        if counts_for(last, assets, directions, symbol, direction) {
            plus(before, times(Some(last.size@), Some(last.avg_cost@)))
        } else {
            before
        }
    }
}

proof fn lemma_tied_up_prefix(
    held: Seq<HeldPosition>,
    assets: Map<U256, AssetEntry>,
    directions: Map<U256, CryptoDirectionBucket>,
    symbol: Seq<char>,
    direction: Option<CryptoDirectionBucket>,
    k: nat,
    n: nat,
)
    requires
        k <= n,
        tied_up(held, assets, directions, symbol, direction, n) is Some,
    ensures
        tied_up(held, assets, directions, symbol, direction, k) is Some,
    decreases n,
{
    if k < n {
        lemma_tied_up_prefix(held, assets, directions, symbol, direction, k, (n - 1) as nat);
    }
}

fn exposure(
    held: &Vec<HeldPosition>,
    asset: &CryptoAsset,
    direction: Option<CryptoDirectionBucket>,
    assets: &Keyed<U256, CryptoAsset>,
    directions: &Keyed<U256, CryptoDirectionBucket>,
) -> (r: Decimal)
    requires
        tied_up(
            held@,
            asset_entries(assets@),
            directions@,
            asset@.binance_symbol,
            direction,
            held@.len(),
        ) is Some,
    ensures
        tied_up(
            held@,
            asset_entries(assets@),
            directions@,
            asset@.binance_symbol,
            direction,
            held@.len(),
        ) == Some(r@),
{
    let mut total = Decimal::zero();
    let mut i: usize = 0;
    while i < held.len()
        invariant
            i <= held@.len(),
            tied_up(
                held@,
                asset_entries(assets@),
                directions@,
                asset@.binance_symbol,
                direction,
                held@.len(),
            ) is Some,
            tied_up(
                held@,
                asset_entries(assets@),
                directions@,
                asset@.binance_symbol,
                direction,
                i as nat,
            ) == Some(total@),
        decreases held@.len() - i,
    {
        proof {
            lemma_tied_up_prefix(
                held@,
                asset_entries(assets@),
                directions@,
                asset@.binance_symbol,
                direction,
                (i + 1) as nat,
                held@.len(),
            );
        }
        let position = held[i];
        let in_asset = match assets.get(position.token_id) {
            Some(a) => text::same_text(a.binance_symbol, asset.binance_symbol),
            None => false,
        };
        let in_direction = match direction {
            Some(d) => match directions.get(position.token_id) {
                Some(have) => have == d,
                None => false,
            },
            None => true,
        };
        if in_asset && in_direction {
            total = total + position.size * position.avg_cost;
        }
        i = i + 1;
    }
    total
}

/// What is tied up in an asset.
pub fn current_asset_exposure(
    asset: &CryptoAsset,
    held: &Vec<HeldPosition>,
    token_assets: &Keyed<U256, CryptoAsset>,
) -> (r: Decimal)
    requires
        tied_up(
            held@,
            asset_entries(token_assets@),
            Map::empty(),
            asset@.binance_symbol,
            None,
            held@.len(),
        ) is Some,
    ensures
        tied_up(
            held@,
            asset_entries(token_assets@),
            Map::empty(),
            asset@.binance_symbol,
            None,
            held@.len(),
        ) == Some(r@),
{
    exposure(held, asset, None, token_assets, &Keyed::new())
}

/// What is tied up in an asset in one direction.
pub fn current_asset_direction_exposure(
    asset: &CryptoAsset,
    direction: CryptoDirectionBucket,
    held: &Vec<HeldPosition>,
    token_assets: &Keyed<U256, CryptoAsset>,
    token_directions: &Keyed<U256, CryptoDirectionBucket>,
) -> (r: Decimal)
    requires
        tied_up(
            held@,
            asset_entries(token_assets@),
            token_directions@,
            asset@.binance_symbol,
            Some(direction),
            held@.len(),
        ) is Some,
    ensures
        tied_up(
            held@,
            asset_entries(token_assets@),
            token_directions@,
            asset@.binance_symbol,
            Some(direction),
            held@.len(),
        ) == Some(r@),
{
    exposure(held, asset, Some(direction), token_assets, token_directions)
}

/// What is tied up in an asset, in every direction.
pub open spec fn exposure_is(
    exposure: DirectionExposure,
    held: Seq<HeldPosition>,
    assets: Map<U256, AssetEntry>,
    directions: Map<U256, CryptoDirectionBucket>,
    symbol: Seq<char>,
) -> bool {
    forall|d: CryptoDirectionBucket|
        #[trigger] tied_up(held, assets, directions, symbol, Some(d), held.len()) == Some(
            exposure.spec_of(d)@,
        )
}

/// What an entry on an asset is weighed against.
pub fn account_for(
    asset: &CryptoAsset,
    held: &Vec<HeldPosition>,
    token_assets: &Keyed<U256, CryptoAsset>,
    token_directions: &Keyed<U256, CryptoDirectionBucket>,
    balance: Decimal,
    available: Decimal,
    positions: Vec<TokenPosition>,
) -> (r: Account)
    requires
        tied_up(
            held@,
            asset_entries(token_assets@),
            Map::empty(),
            asset@.binance_symbol,
            None,
            held@.len(),
        ) is Some,
        forall|d: CryptoDirectionBucket|
            #[trigger] tied_up(
                held@,
                asset_entries(token_assets@),
                token_directions@,
                asset@.binance_symbol,
                Some(d),
                held@.len(),
            ) is Some,
    ensures
        r.balance == balance,
        r.available == available,
        r.positions == positions,
        tied_up(
            held@,
            asset_entries(token_assets@),
            Map::empty(),
            asset@.binance_symbol,
            None,
            held@.len(),
        ) == Some(r.asset_exposure@),
        exposure_is(
            r.direction_exposure,
            held@,
            asset_entries(token_assets@),
            token_directions@,
            asset@.binance_symbol,
        ),
{
    let up = current_asset_direction_exposure(
        asset,
        CryptoDirectionBucket::Up,
        held,
        token_assets,
        token_directions,
    );
    let down = current_asset_direction_exposure(
        asset,
        CryptoDirectionBucket::Down,
        held,
        token_assets,
        token_directions,
    );
    let inside_range = current_asset_direction_exposure(
        asset,
        CryptoDirectionBucket::InsideRange,
        held,
        token_assets,
        token_directions,
    );
    let outside_range = current_asset_direction_exposure(
        asset,
        CryptoDirectionBucket::OutsideRange,
        held,
        token_assets,
        token_directions,
    );
    Account {
        balance,
        available,
        positions,
        asset_exposure: current_asset_exposure(asset, held, token_assets),
        direction_exposure: DirectionExposure { up, down, inside_range, outside_range },
    }
}

/// What is tied up grows by the size of a position times what it cost on average, where the position is
/// in the asset and in the direction that is asked for, and not at all otherwise. It holds up to the
/// rounding of the last digits.
pub proof fn law_position_ties_up_what_it_cost(
    held: Seq<HeldPosition>,
    assets: Map<U256, AssetEntry>,
    directions: Map<U256, CryptoDirectionBucket>,
    symbol: Seq<char>,
    direction: Option<CryptoDirectionBucket>,
    n: nat,
    k: nat,
)
    requires
        k <= 28,
        n < held.len(),
        tied_up(held, assets, directions, symbol, direction, n + 1) is Some,
        0 <= tied_up(held, assets, directions, symbol, direction, n)->0 <= 3 * pow10(k) * unit(),
        0 <= held[n as int].size@ <= 3 * pow10(k) * unit(),
        0 <= held[n as int].avg_cost@ <= unit(),
    ensures
        tied_up(held, assets, directions, symbol, direction, 0) == Some(0int),
        tied_up(held, assets, directions, symbol, direction, n) is Some,
        ({
            let position = held[n as int];
            let before = tied_up(held, assets, directions, symbol, direction, n)->0;
            let after = tied_up(held, assets, directions, symbol, direction, n + 1)->0;
            let counts = assets.contains_key(position.token_id)
                && assets[position.token_id].binance_symbol == symbol && (direction is Some ==> (
            directions.contains_key(position.token_id) && directions[position.token_id]
                == direction->0));
            &&& counts ==> close(
                after - before,
                position.size@ * position.avg_cost@,
                unit(),
                pow10(k),
            )
            &&& !counts ==> after == before
        }),
{
    let u = unit();
    let p = pow10(k);
    let position = held[n as int];
    let (size, cost) = (position.size@, position.avg_cost@);
    lemma_pow10_below_unit(k);
    if counts_for(position, assets, directions, symbol, direction) {
        assert(0 <= size * cost <= (3 * p * u) * u && (3 * p * u) * u <= 7 * p * (u * u))
            by (nonlinear_arith)
            requires
                0 <= size <= 3 * p * u,
                0 <= cost <= u,
                p > 0,
                u > 0,
        {
            assert(size * cost <= (3 * p * u) * u);
            assert((3 * p * u) * u == 3 * (p * (u * u)));
            assert(7 * p * (u * u) == 7 * (p * (u * u)));
            assert(p * (u * u) > 0);
        }
        lemma_product_close(size, cost, k);
        let worth = product(size, cost)->0;
        assert(-p <= 2 * worth <= 6 * (p * u) + p) by (nonlinear_arith)
            requires
                2 * (worth * u - size * cost) <= p * u,
                2 * (size * cost - worth * u) <= p * u,
                0 <= size * cost <= (3 * p * u) * u,
                u > 0,
        {
            assert((2 * worth) * u <= (6 * (p * u) + p) * u);
            assert((2 * worth) * u >= (-p) * u);
        }
        assert(p * u >= p && 7 * p * u == 7 * (p * u) && 3 * p * u == 3 * (p * u)) by (nonlinear_arith)
            requires
                p > 0,
                u >= 1,
        ;
        let before = tied_up(held, assets, directions, symbol, direction, n)->0;
        lemma_sum_close(before, worth, k);
        let gained = tied_up(held, assets, directions, symbol, direction, n + 1)->0 - before;
        assert(close(gained, size * cost, u, p)) by (nonlinear_arith)
            requires
                -p <= 2 * (gained - worth) <= p,
                2 * (worth * u - size * cost) <= p * u,
                2 * (size * cost - worth * u) <= p * u,
                u > 0,
        {
            assert((2 * (gained - worth)) * u <= p * u);
            assert((2 * (gained - worth)) * u >= (-p) * u);
        }
    }
}

/// The first token of a market that asks for a price above a threshold stands for a rise and the second
/// for a fall, and the other way round below one. The tokens of a range stand for the prices from a bound
/// on, up to one, or between two, and for all others. No other token is touched, and a market with fewer
/// than two tokens touches none.
pub proof fn law_tokens_stand_for_opposite_directions(
    m: Map<U256, CryptoDirectionBucket>,
    market: MarketRecord,
    other: U256,
)
    requires
        market.tokens.len() >= 2 ==> market.tokens[0].token_id != market.tokens[1].token_id,
    ensures
        ({
            let asked = question_of(market.question, None);
            let after = with_question(m, market);
            let yes = market.tokens[0].token_id;
            let no = market.tokens[1].token_id;
            &&& market.tokens.len() < 2 || asked is None ==> after == m
            &&& market.tokens.len() >= 2 && asked is Some ==> {
                &&& after.contains_key(yes) && after.contains_key(no)
                &&& asked->0.direction is Above ==> after[yes] == CryptoDirectionBucket::Up
                    && after[no] == CryptoDirectionBucket::Down
                &&& asked->0.direction is Below ==> after[yes] == CryptoDirectionBucket::Down
                    && after[no] == CryptoDirectionBucket::Up
                &&& other != yes && other != no ==> after.contains_key(other) == m.contains_key(
                    other,
                ) && after[other] == m[other]
            }
        }),
        ({
            let range = range_of(market.question);
            let after = with_range(m, market);
            let yes = market.tokens[0].token_id;
            let no = market.tokens[1].token_id;
            &&& market.tokens.len() < 2 || range is None ==> after == m
            &&& market.tokens.len() >= 2 && range is Some ==> {
                &&& after.contains_key(yes) && after.contains_key(no)
                &&& range->0 is AtOrAbove ==> after[yes] == CryptoDirectionBucket::Up && after[no]
                    == CryptoDirectionBucket::Down
                &&& range->0 is AtOrBelow ==> after[yes] == CryptoDirectionBucket::Down
                    && after[no] == CryptoDirectionBucket::Up
                &&& range->0 is Range ==> after[yes] == CryptoDirectionBucket::InsideRange
                    && after[no] == CryptoDirectionBucket::OutsideRange
                &&& other != yes && other != no ==> after.contains_key(other) == m.contains_key(
                    other,
                ) && after[other] == m[other]
            }
        }),
{
}

/// A token is of the asset of the last group that has it and is about one; where no group is, of the last
/// event that has it and is about one; and where no event is either, of its market's own.
pub proof fn law_groups_come_before_events(
    markets: Seq<MarketInfo>,
    events: Seq<NegRiskEvent>,
    groups: Seq<BinaryEventGroup>,
    token_id: U256,
    place: int,
)
    ensures
        ({
            let found = named(token_assets(markets, events, groups), token_id);
            let ungrouped = forall|h: int|
                0 <= h < groups.len() ==> !#[trigger] group_names(groups, h, token_id);
            let unlisted = forall|h: int|
                0 <= h < events.len() ==> !#[trigger] event_names(events, h, token_id);
            &&& is_last_group(groups, place, token_id, groups.len()) ==> found == group_asset(
                groups[place],
            )
            &&& ungrouped && is_last_event(events, place, token_id, events.len()) ==> found
                == titled_asset(events[place].title@)
            &&& ungrouped && unlisted ==> found == named(
                market_assets(markets, markets.len()),
                token_id,
            )
        }),
{
    let own = market_assets(markets, markets.len());
    let mid = with_events(own, events, events.len());
    lemma_with_events(own, events, token_id, place, events.len());
    lemma_with_groups(mid, groups, token_id, place, groups.len());
}

/// The asset that a map gives for a token.
pub open spec fn named(m: Map<U256, AssetEntry>, token_id: U256) -> Option<AssetEntry> {
    if m.contains_key(token_id) {
        Some(m[token_id])
    } else {
        None
    }
}

/// A market of the group has the token, and the group is about an asset.
pub open spec fn group_names(groups: Seq<BinaryEventGroup>, g: int, token_id: U256) -> bool {
    group_asset(groups[g]) is Some && one_holds(
        groups[g].markets@,
        token_id,
        groups[g].markets@.len(),
    )
}

/// A market of the event has the token, and the event is about an asset.
pub open spec fn event_names(events: Seq<NegRiskEvent>, e: int, token_id: U256) -> bool {
    titled_asset(events[e].title@) is Some && one_holds(
        events[e].markets@,
        token_id,
        events[e].markets@.len(),
    )
}

/// One of the first `n` markets has the token.
pub open spec fn one_holds(markets: Seq<MarketInfo>, token_id: U256, n: nat) -> bool {
    exists|i: int| 0 <= i < n && holds_token((#[trigger] markets[i]).tokens@, token_id)
}

/// The last of the first `n` groups that has the token and is about an asset.
pub open spec fn is_last_group(
    groups: Seq<BinaryEventGroup>,
    g: int,
    token_id: U256,
    n: nat,
) -> bool {
    &&& 0 <= g < n
    &&& group_names(groups, g, token_id)
    &&& forall|h: int| g < h < n ==> !#[trigger] group_names(groups, h, token_id)
}

/// The last of the first `n` events that has the token and is about an asset.
pub open spec fn is_last_event(events: Seq<NegRiskEvent>, e: int, token_id: U256, n: nat) -> bool {
    &&& 0 <= e < n
    &&& event_names(events, e, token_id)
    &&& forall|h: int| e < h < n ==> !#[trigger] event_names(events, h, token_id)
}

proof fn lemma_with_markets(
    m: Map<U256, AssetEntry>,
    markets: Seq<MarketInfo>,
    v: AssetEntry,
    token_id: U256,
    n: nat,
)
    requires
        n <= markets.len(),
    ensures
        named(with_markets(m, markets, v, n), token_id) == if one_holds(markets, token_id, n) {
            Some(v)
        } else {
            named(m, token_id)
        },
    decreases n,
{
    if n > 0 {
        let k = (n - 1) as nat;
        lemma_with_markets(m, markets, v, token_id, k);
        if one_holds(markets, token_id, k) {
            let i = choose|i: int| 0 <= i < k && holds_token((#[trigger] markets[i]).tokens@, token_id);
            assert(0 <= i < n && holds_token(markets[i].tokens@, token_id));
        }
        if holds_token(markets[n - 1].tokens@, token_id) {
            assert(0 <= n - 1 < n && holds_token(markets[n - 1].tokens@, token_id));
        }
    }
}

proof fn lemma_with_groups(
    m: Map<U256, AssetEntry>,
    groups: Seq<BinaryEventGroup>,
    token_id: U256,
    g: int,
    n: nat,
)
    requires
        n <= groups.len(),
    ensures
        is_last_group(groups, g, token_id, n) ==> named(with_groups(m, groups, n), token_id)
            == group_asset(groups[g]),
        (forall|h: int| 0 <= h < n ==> !#[trigger] group_names(groups, h, token_id)) ==> named(
            with_groups(m, groups, n),
            token_id,
        ) == named(m, token_id),
    decreases n,
{
    if n > 0 {
        let k = (n - 1) as nat;
        lemma_with_groups(m, groups, token_id, g, k);
        let group = groups[n - 1];
        let listed = group.markets@;
        let before = with_groups(m, groups, k);
        if group_asset(group) is Some {
            lemma_with_markets(before, listed, group_asset(group)->0, token_id, listed.len());
        }
        if is_last_group(groups, g, token_id, n) && g < n - 1 {
            assert(!group_names(groups, n - 1, token_id));
            assert(is_last_group(groups, g, token_id, k));
        }
        if forall|h: int| 0 <= h < n ==> !#[trigger] group_names(groups, h, token_id) {
            assert(!group_names(groups, n - 1, token_id));
        }
    }
}

proof fn lemma_with_events(
    m: Map<U256, AssetEntry>,
    events: Seq<NegRiskEvent>,
    token_id: U256,
    e: int,
    n: nat,
)
    requires
        n <= events.len(),
    ensures
        is_last_event(events, e, token_id, n) ==> named(with_events(m, events, n), token_id)
            == titled_asset(events[e].title@),
        (forall|h: int| 0 <= h < n ==> !#[trigger] event_names(events, h, token_id)) ==> named(
            with_events(m, events, n),
            token_id,
        ) == named(m, token_id),
    decreases n,
{
    if n > 0 {
        let k = (n - 1) as nat;
        lemma_with_events(m, events, token_id, e, k);
        let event = events[n - 1];
        let listed = event.markets@;
        let before = with_events(m, events, k);
        if titled_asset(event.title@) is Some {
            lemma_with_markets(before, listed, titled_asset(event.title@)->0, token_id, listed.len());
        }
        if is_last_event(events, e, token_id, n) && e < n - 1 {
            assert(!event_names(events, n - 1, token_id));
            assert(is_last_event(events, e, token_id, k));
        }
        if forall|h: int| 0 <= h < n ==> !#[trigger] event_names(events, h, token_id) {
            assert(!event_names(events, n - 1, token_id));
        }
    }
}

} // verus!
