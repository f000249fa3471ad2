//! What a question asks.
use crate::crypto_alpha::assets::{find_asset_in, CryptoAsset};
use crate::crypto_alpha::labels::{
    binary_direction_bucket, direction_bucket_label, CryptoDirectionBucket, PriceDirection,
};
use crate::crypto_alpha::price::{find_price, find_prices, Price};
use crate::text;
use vstd::prelude::*;

verus! {

use crate::crypto_alpha::assets::{asset_of, asset_record, AssetEntry};
use crate::crypto_alpha::labels::{binary_bucket, bucket_label, opposite};
use crate::crypto_alpha::price::{first_price, price_views, prices_of, PriceRecord};
use crate::text::{occurs_in, word_in};

/// A question whether an asset's price will be on one side of a threshold.
#[derive(Debug)]
pub struct CryptoQuestion {
    pub asset: CryptoAsset,
    pub threshold: Price,
    pub direction: PriceDirection,
    /// The day that the question asks about, in days since the start of the Common Era.
    pub target_day: Option<i32>,
}

/// What a question asks.
pub struct QuestionRecord {
    pub asset: AssetEntry,
    pub threshold: PriceRecord,
    pub direction: PriceDirection,
    pub target_day: Option<i32>,
}

impl View for CryptoQuestion {
    type V = QuestionRecord;

    open spec fn view(&self) -> QuestionRecord {
        QuestionRecord {
            asset: self.asset@,
            threshold: self.threshold@,
            direction: self.direction,
            target_day: self.target_day,
        }
    }
}

/// A price range that an outcome stands for.
#[derive(Debug)]
pub enum CryptoPriceRange {
    AtOrBelow(Price),
    Range(Price, Price),
    AtOrAbove(Price),
}

/// What a price range says.
pub enum RangeRecord {
    AtOrBelow(PriceRecord),
    Range(PriceRecord, PriceRecord),
    AtOrAbove(PriceRecord),
}

impl View for CryptoPriceRange {
    type V = RangeRecord;

    open spec fn view(&self) -> RangeRecord {
        match self {
            CryptoPriceRange::AtOrBelow(p) => RangeRecord::AtOrBelow(p@),
            CryptoPriceRange::Range(a, b) => RangeRecord::Range(a@, b@),
            CryptoPriceRange::AtOrAbove(p) => RangeRecord::AtOrAbove(p@),
        }
    }
}

/// The words of a question ask for a price.
pub open spec fn asks_for_price(lower: Seq<char>) -> bool {
    ||| occurs_in(lower, "$"@)
    ||| word_in(lower, "price"@)
    ||| word_in(lower, "reach"@)
    ||| word_in(lower, "hit"@)
    ||| word_in(lower, "exceed"@)
    ||| word_in(lower, "dip"@)
}

/// The words of a question ask for a price below the threshold.
pub open spec fn asks_below(lower: Seq<char>) -> bool {
    ||| occurs_in(lower, "fall below"@)
    ||| occurs_in(lower, "drop below"@)
    ||| occurs_in(lower, "drop under"@)
    ||| occurs_in(lower, "fall under"@)
    ||| occurs_in(lower, "dip to"@)
    ||| occurs_in(lower, "dip below"@)
    ||| word_in(lower, "below"@) && !occurs_in(lower, "or below"@)
    ||| word_in(lower, "under"@)
}

pub open spec fn asked_direction(lower: Seq<char>) -> PriceDirection {
    if asks_below(lower) {
        PriceDirection::Below
    } else {
        PriceDirection::Above
    }
}

/// What a lower-case question asks, if it is one about the price of an asset.
pub open spec fn question_in(lower: Seq<char>, target_day: Option<i32>) -> Option<QuestionRecord> {
    match (asset_of(lower), first_price(prices_of(lower))) {
        (Some(asset), Some(threshold)) => if asks_for_price(lower) {
            Some(
                QuestionRecord { asset, threshold, direction: asked_direction(lower), target_day },
            )
        } else {
            None
        },
        _ => None,
    }
}

/// What a question asks, if it is one about the price of an asset.
pub open spec fn question_of(question: Seq<char>, target_day: Option<i32>) -> Option<
    QuestionRecord,
> {
    question_in(text::lowercase(question), target_day)
}

/// The words of an event's title are about a price: they name one, or they ask what an asset will be.
pub open spec fn title_is_about_price(lower: Seq<char>) -> bool {
    ||| occurs_in(lower, "price"@)
    ||| occurs_in(lower, "$"@)
    ||| occurs_in(lower, "value"@)
    ||| word_in(lower, "worth"@)
    ||| word_in(lower, "hit"@)
    ||| word_in(lower, "dip"@)
    ||| occurs_in(lower, "what will"@) && word_in(lower, "be"@)
}

/// The asset that a lower-case title is about, if it is about a price.
pub open spec fn titled_in(lower: Seq<char>) -> Option<AssetEntry> {
    if title_is_about_price(lower) {
        asset_of(lower)
    } else {
        None
    }
}

/// The asset that an event's title is about, if it is about a price.
pub open spec fn titled_asset(title: Seq<char>) -> Option<AssetEntry> {
    titled_in(text::lowercase(title))
}

/// The words of an outcome stand for the prices up to a bound.
pub open spec fn bounded_above(lower: Seq<char>) -> bool {
    ||| occurs_in(lower, "or below"@)
    ||| occurs_in(lower, "or less"@)
    ||| occurs_in(lower, "or lower"@)
    ||| occurs_in(lower, "and below"@)
    ||| occurs_in(lower, "under "@)
}

/// The words of an outcome stand for the prices from a bound on.
pub open spec fn bounded_below(lower: Seq<char>) -> bool {
    ||| occurs_in(lower, "or above"@)
    ||| occurs_in(lower, "or more"@)
    ||| occurs_in(lower, "or higher"@)
    ||| occurs_in(lower, "and above"@)
    ||| occurs_in(lower, "+"@)
}

/// The price range that an outcome in lower case stands for.
pub open spec fn range_in(lower: Seq<char>) -> Option<RangeRecord> {
    let prices = prices_of(lower);
    if bounded_above(lower) {
        if prices.len() > 0 {
            Some(RangeRecord::AtOrBelow(prices[0]))
        } else {
            None
        }
    } else if bounded_below(lower) {
        if prices.len() > 0 {
            Some(RangeRecord::AtOrAbove(prices[0]))
        } else {
            None
        }
    } else if prices.len() >= 2 {
        Some(RangeRecord::Range(prices[0], prices[1]))
    } else {
        None
    }
}

/// The price range that an outcome stands for.
pub open spec fn range_of(question: Seq<char>) -> Option<RangeRecord> {
    range_in(text::lowercase(question))
}

/// The bucket of the YES token of a range outcome, or of its NO token.
pub open spec fn range_bucket(range: RangeRecord, is_yes: bool) -> CryptoDirectionBucket {
    let bucket = match range {
        RangeRecord::AtOrAbove(_) => CryptoDirectionBucket::Up,
        RangeRecord::AtOrBelow(_) => CryptoDirectionBucket::Down,
        RangeRecord::Range(_, _) => CryptoDirectionBucket::InsideRange,
    };
    if is_yes {
        bucket
    } else {
        opposite(bucket)
    }
}

/// The two tokens of a range outcome stand for opposite directions.
pub proof fn law_range_tokens_are_opposite(range: RangeRecord, is_yes: bool)
    ensures
        range_bucket(range, !is_yes) == opposite(range_bucket(range, is_yes)),
{
}

/// The side of a market that an outcome names.
pub open spec fn side_named(outcome: Option<Seq<char>>) -> Option<bool> {
    match outcome {
        Some(o) => if o == "YES"@ {
            Some(true)
        } else if o == "NO"@ {
            Some(false)
        } else {
            None
        },
        None => None,
    }
}

/// The bucket that a token of a question stands for.
pub open spec fn bucket_of(question: Seq<char>, is_yes: bool) -> Option<CryptoDirectionBucket> {
    match question_of(question, None) {
        Some(q) => Some(binary_bucket(q.direction, is_yes)),
        None => match range_of(question) {
            Some(range) => Some(range_bucket(range, is_yes)),
            None => None,
        },
    }
}

pub open spec fn question_record(question: Option<CryptoQuestion>) -> Option<QuestionRecord> {
    match question {
        Some(q) => Some(q@),
        None => None,
    }
}

/// What a lower-case question asks, if it is one about the price of an asset.
pub fn read_question(lower: &Vec<char>, target_day: Option<i32>) -> (r: Option<CryptoQuestion>)
    ensures
        question_record(r) == question_in(lower@, target_day),
{
    let asset = match find_asset_in(lower) {
        Some(a) => a,
        None => return None,
    };
    let has_price_indicator = text::contains(lower, "$") || text::contains_word(lower, "price")
        || text::contains_word(lower, "reach") || text::contains_word(lower, "hit")
        || text::contains_word(lower, "exceed") || text::contains_word(lower, "dip");
    if !has_price_indicator {
        return None;
    }
    let threshold = match find_price(lower) {
        Some(p) => p,
        None => return None,
    };
    let below = text::contains(lower, "fall below") || text::contains(lower, "drop below")
        || text::contains(lower, "drop under") || text::contains(lower, "fall under")
        || text::contains(lower, "dip to") || text::contains(lower, "dip below")
        || (text::contains_word(lower, "below") && !text::contains(lower, "or below"))
        || text::contains_word(lower, "under");
    let direction = if below {
        PriceDirection::Below
    } else {
        PriceDirection::Above
    };
    Some(CryptoQuestion { asset, threshold, direction, target_day })
}

/// What a question asks, if it is one about the price of an asset. The day that it asks about is
/// read from its text elsewhere.
pub fn parse_crypto_question(question: &str, target_day: Option<i32>) -> (r: Option<CryptoQuestion>)
    ensures
        question_record(r) == question_of(question@, target_day),
{
    read_question(&text::lowercase_chars(question), target_day)
}

/// The asset that a lower-case title is about, if it is about a price.
pub fn read_event_title(lower: &Vec<char>) -> (r: Option<CryptoAsset>)
    ensures
        asset_record(r) == titled_in(lower@),
{
    let asset = match find_asset_in(lower) {
        Some(a) => a,
        None => return None,
    };
    let has_price_indicator = text::contains(lower, "price") || text::contains(lower, "$")
        || text::contains(lower, "value") || text::contains_word(lower, "worth")
        || text::contains_word(lower, "hit") || text::contains_word(lower, "dip")
        || (text::contains(lower, "what will") && text::contains_word(lower, "be"));
    if has_price_indicator {
        Some(asset)
    } else {
        None
    }
}

/// The asset that an event's title is about, if it is about a price.
pub fn parse_crypto_event_title(title: &str) -> (r: Option<CryptoAsset>)
    ensures
        asset_record(r) == titled_asset(title@),
{
    read_event_title(&text::lowercase_chars(title))
}

pub open spec fn range_record(range: Option<CryptoPriceRange>) -> Option<RangeRecord> {
    match range {
        Some(r) => Some(r@),
        None => None,
    }
}

/// The price range that an outcome in lower case stands for.
pub fn read_outcome_range(lower: &Vec<char>) -> (r: Option<CryptoPriceRange>)
    ensures
        range_record(r) == range_in(lower@),
{
    let mut prices = find_prices(lower);
    proof {
        assert(prices@.len() > 0 ==> price_views(prices@)[0] == prices@[0]@);
        assert(prices@.len() > 1 ==> price_views(prices@)[1] == prices@[1]@);
    }
    if text::contains(lower, "or below") || text::contains(lower, "or less") || text::contains(
        lower,
        "or lower",
    ) || text::contains(lower, "and below") || text::contains(lower, "under ") {
        if prices.len() > 0 {
            Some(CryptoPriceRange::AtOrBelow(prices.swap_remove(0)))
        } else {
            None
        }
    } else if text::contains(lower, "or above") || text::contains(lower, "or more")
        || text::contains(lower, "or higher") || text::contains(lower, "and above")
        || text::contains(lower, "+") {
        if prices.len() > 0 {
            Some(CryptoPriceRange::AtOrAbove(prices.swap_remove(0)))
        } else {
            None
        }
    } else if prices.len() >= 2 {
        let second = prices.remove(1);
        let first = prices.remove(0);
        Some(CryptoPriceRange::Range(first, second))
    } else {
        None
    }
}

/// The price range that an outcome stands for: `$89,999 or below`, `$100,000+`, or
/// `$90,000 - $94,999`.
pub fn parse_crypto_outcome_range(question: &str) -> (r: Option<CryptoPriceRange>)
    ensures
        range_record(r) == range_of(question@),
{
    read_outcome_range(&text::lowercase_chars(question))
}

/// The bucket of a token of a range outcome.
pub fn range_direction_bucket(range: &CryptoPriceRange, is_yes: bool) -> (r: CryptoDirectionBucket)
    ensures
        r == range_bucket(range@, is_yes),
{
    match (range, is_yes) {
        (CryptoPriceRange::AtOrAbove(_), true) => CryptoDirectionBucket::Up,
        (CryptoPriceRange::AtOrBelow(_), false) => CryptoDirectionBucket::Up,
        (CryptoPriceRange::AtOrBelow(_), true) => CryptoDirectionBucket::Down,
        (CryptoPriceRange::AtOrAbove(_), false) => CryptoDirectionBucket::Down,
        (CryptoPriceRange::Range(_, _), true) => CryptoDirectionBucket::InsideRange,
        (CryptoPriceRange::Range(_, _), false) => CryptoDirectionBucket::OutsideRange,
    }
}

/// The name of the direction that a token of a question stands for.
pub fn infer_crypto_direction_label(question: &str, outcome: Option<&str>) -> (r: Option<
    &'static str,
>)
    ensures
        (match r {
            Some(label) => Some(label@),
            None => None,
        }) == (match side_named(
            match outcome {
                Some(o) => Some(o@),
                None => None,
            },
        ) {
            Some(is_yes) => match bucket_of(question@, is_yes) {
                Some(bucket) => Some(bucket_label(bucket)),
                None => None,
            },
            None => None,
        }),
{
    let is_yes = match outcome {
        Some(o) => if text::same_text(o, "YES") {
            true
        } else if text::same_text(o, "NO") {
            false
        } else {
            return None;
        },
        None => return None,
    };
    match parse_crypto_question(question, None) {
        Some(parsed) => Some(
            direction_bucket_label(binary_direction_bucket(parsed.direction, is_yes)),
        ),
        None => match parse_crypto_outcome_range(question) {
            Some(range) => Some(direction_bucket_label(range_direction_bucket(&range, is_yes))),
            None => None,
        },
    }
}

} // verus!
