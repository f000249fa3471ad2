//! The kinds of market, direction and event, and their names.
use crate::crypto_alpha::assets::CryptoAsset;
use crate::text;
use vstd::prelude::*;

verus! {

use crate::crypto_alpha::assets::AssetEntry;

/// Which side of its price a question asks for.
#[derive(Clone, Copy, Debug, PartialEq, Eq, Structural)]
pub enum PriceDirection {
    Above,
    Below,
}

/// What a token wins on.
#[derive(Clone, Copy, Debug, PartialEq, Eq, Hash, Structural)]
pub enum CryptoDirectionBucket {
    Up,
    Down,
    InsideRange,
    OutsideRange,
}

#[derive(Clone, Copy, Debug, PartialEq, Eq, Structural)]
pub enum CryptoMarketType {
    Binary,
    Range,
}

#[derive(Clone, Copy, Debug, PartialEq, Eq, Structural)]
pub enum CryptoEventSubtype {
    Unlock,
    Upgrade,
    Regulatory,
    Other,
}

#[derive(Clone, Copy, Debug, PartialEq, Eq, Structural)]
pub enum EventImpact {
    Low,
    Medium,
    High,
}

#[derive(Clone, Copy, Debug, PartialEq, Eq, Structural)]
pub enum EventCategory {
    Macro,
    Crypto,
    Political,
    Sports,
}

/// An entry of the event calendar that matches a market.
#[derive(Debug)]
pub struct CalendarEvent {
    pub title: String,
    pub impact: EventImpact,
    pub category: EventCategory,
}

pub open spec fn market_type_label(market_type: CryptoMarketType) -> Seq<char> {
    match market_type {
        CryptoMarketType::Binary => "binary"@,
        CryptoMarketType::Range => "range"@,
    }
}

pub open spec fn bucket_label(bucket: CryptoDirectionBucket) -> Seq<char> {
    match bucket {
        CryptoDirectionBucket::Up => "up"@,
        CryptoDirectionBucket::Down => "down"@,
        CryptoDirectionBucket::InsideRange => "inside_range"@,
        CryptoDirectionBucket::OutsideRange => "outside_range"@,
    }
}

/// The bucket of the YES token of a threshold question, or of its NO token.
pub open spec fn binary_bucket(direction: PriceDirection, is_yes: bool) -> CryptoDirectionBucket {
    if (direction is Above) == is_yes {
        CryptoDirectionBucket::Up
    } else {
        CryptoDirectionBucket::Down
    }
}

/// The bucket that wins exactly when the given one loses.
pub open spec fn opposite(bucket: CryptoDirectionBucket) -> CryptoDirectionBucket {
    match bucket {
        CryptoDirectionBucket::Up => CryptoDirectionBucket::Down,
        CryptoDirectionBucket::Down => CryptoDirectionBucket::Up,
        CryptoDirectionBucket::InsideRange => CryptoDirectionBucket::OutsideRange,
        CryptoDirectionBucket::OutsideRange => CryptoDirectionBucket::InsideRange,
    }
}

/// The two tokens of a threshold question stand for opposite directions.
pub proof fn law_binary_tokens_are_opposite(direction: PriceDirection, is_yes: bool)
    ensures
        binary_bucket(direction, !is_yes) == opposite(binary_bucket(direction, is_yes)),
{
}

/// Bitcoin and Ether, which macro events move.
pub open spec fn is_major(asset: AssetEntry) -> bool {
    asset.binance_symbol == "BTCUSDT"@ || asset.binance_symbol == "ETHUSDT"@
}

pub open spec fn asset_class(asset: AssetEntry) -> Seq<char> {
    if is_major(asset) {
        "major"@
    } else {
        "alt"@
    }
}

pub open spec fn subtype_selector(subtype: Option<CryptoEventSubtype>) -> Seq<char> {
    match subtype {
        Some(CryptoEventSubtype::Unlock) => "unlock"@,
        Some(CryptoEventSubtype::Upgrade) => "upgrade"@,
        Some(CryptoEventSubtype::Regulatory) => "regulatory"@,
        _ => "any"@,
    }
}

/// The subtype that a recorded label names, whatever its case.
pub open spec fn subtype_of_label(label: Option<Seq<char>>) -> Option<CryptoEventSubtype> {
    match label {
        None => None,
        Some(value) => if text::same_ignoring_case(value, "unlock"@) {
            Some(CryptoEventSubtype::Unlock)
        } else if text::same_ignoring_case(value, "upgrade"@) {
            Some(CryptoEventSubtype::Upgrade)
        } else if text::same_ignoring_case(value, "regulatory"@) {
            Some(CryptoEventSubtype::Regulatory)
        } else {
            None
        },
    }
}

/// The subtype of a crypto event, from the words of its title in lower case.
pub open spec fn subtype_of(lower: Seq<char>) -> CryptoEventSubtype {
    if text::occurs_in(lower, "unlock"@) || text::occurs_in(lower, "vesting"@) || text::occurs_in(
        lower,
        "cliff"@,
    ) {
        CryptoEventSubtype::Unlock
    } else if text::occurs_in(lower, "mainnet"@) || text::occurs_in(lower, "upgrade"@)
        || text::occurs_in(lower, "fork"@) {
        CryptoEventSubtype::Upgrade
    } else if text::occurs_in(lower, "etf"@) || text::occurs_in(lower, "listing"@)
        || text::occurs_in(lower, "sec"@) || text::occurs_in(lower, "approval"@)
        || text::occurs_in(lower, "regulat"@) {
        CryptoEventSubtype::Regulatory
    } else {
        CryptoEventSubtype::Other
    }
}

/// The subtype of a crypto event, from the words of its title.
pub open spec fn subtype_of_title(title: Seq<char>) -> CryptoEventSubtype {
    subtype_of(text::lowercase(title))
}

impl CryptoMarketType {
    pub fn as_str(self) -> (r: &'static str)
        ensures
            r@ == market_type_label(self),
    {
        match self {
            CryptoMarketType::Binary => "binary",
            CryptoMarketType::Range => "range",
        }
    }
}

impl CryptoEventSubtype {
    /// The subtype that a decision record names.
    pub fn from_decision_context(value: Option<&str>) -> (r: Option<CryptoEventSubtype>)
        ensures
            r == (match value {
                None => None,
                Some(v) => if v@ == "unlock"@ {
                    Some(CryptoEventSubtype::Unlock)
                } else if v@ == "upgrade"@ {
                    Some(CryptoEventSubtype::Upgrade)
                } else if v@ == "regulatory"@ {
                    Some(CryptoEventSubtype::Regulatory)
                } else if v@ == "other"@ {
                    Some(CryptoEventSubtype::Other)
                } else {
                    None
                },
            }),
    {
        match value {
            None => None,
            Some(v) => if text::same_text(v, "unlock") {
                Some(CryptoEventSubtype::Unlock)
            } else if text::same_text(v, "upgrade") {
                Some(CryptoEventSubtype::Upgrade)
            } else if text::same_text(v, "regulatory") {
                Some(CryptoEventSubtype::Regulatory)
            } else if text::same_text(v, "other") {
                Some(CryptoEventSubtype::Other)
            } else {
                None
            },
        }
    }
}

pub fn direction_bucket_label(bucket: CryptoDirectionBucket) -> (r: &'static str)
    ensures
        r@ == bucket_label(bucket),
{
    match bucket {
        CryptoDirectionBucket::Up => "up",
        CryptoDirectionBucket::Down => "down",
        CryptoDirectionBucket::InsideRange => "inside_range",
        CryptoDirectionBucket::OutsideRange => "outside_range",
    }
}

pub fn binary_direction_bucket(direction: PriceDirection, is_yes: bool) -> (r:
    CryptoDirectionBucket)
    ensures
        r == binary_bucket(direction, is_yes),
{
    match (direction, is_yes) {
        (PriceDirection::Above, true) => CryptoDirectionBucket::Up,
        (PriceDirection::Below, false) => CryptoDirectionBucket::Up,
        (PriceDirection::Below, true) => CryptoDirectionBucket::Down,
        (PriceDirection::Above, false) => CryptoDirectionBucket::Down,
    }
}

pub fn macro_event_applies_to_asset(asset: &CryptoAsset) -> (r: bool)
    ensures
        r == is_major(asset@),
{
    text::same_text(asset.binance_symbol, "BTCUSDT") || text::same_text(
        asset.binance_symbol,
        "ETHUSDT",
    )
}

pub fn asset_class_selector(asset: &CryptoAsset) -> (r: &'static str)
    ensures
        r@ == asset_class(asset@),
{
    if macro_event_applies_to_asset(asset) {
        "major"
    } else {
        "alt"
    }
}

pub fn event_subtype_selector(subtype: Option<CryptoEventSubtype>) -> (r: &'static str)
    ensures
        r@ == subtype_selector(subtype),
{
    match subtype {
        Some(CryptoEventSubtype::Unlock) => "unlock",
        Some(CryptoEventSubtype::Upgrade) => "upgrade",
        Some(CryptoEventSubtype::Regulatory) => "regulatory",
        _ => "any",
    }
}

pub fn parse_event_subtype_label(label: Option<&str>) -> (r: Option<CryptoEventSubtype>)
    ensures
        r == subtype_of_label(
            match label {
                Some(l) => Some(l@),
                None => None,
            },
        ),
{
    match label {
        None => None,
        Some(value) => if text::eq_ignore_case(value, "unlock") {
            Some(CryptoEventSubtype::Unlock)
        } else if text::eq_ignore_case(value, "upgrade") {
            Some(CryptoEventSubtype::Upgrade)
        } else if text::eq_ignore_case(value, "regulatory") {
            Some(CryptoEventSubtype::Regulatory)
        } else {
            None
        },
    }
}

/// The subtype of a crypto event, from the words of its title in lower case.
pub fn classify_lowercase_title(lower: &Vec<char>) -> (r: CryptoEventSubtype)
    ensures
        r == subtype_of(lower@),
{
    if text::contains(lower, "unlock") || text::contains(lower, "vesting") || text::contains(
        lower,
        "cliff",
    ) {
        CryptoEventSubtype::Unlock
    } else if text::contains(lower, "mainnet") || text::contains(lower, "upgrade")
        || text::contains(lower, "fork") {
        CryptoEventSubtype::Upgrade
    } else if text::contains(lower, "etf") || text::contains(lower, "listing")
        || text::contains(lower, "sec") || text::contains(lower, "approval") || text::contains(
        lower,
        "regulat",
    ) {
        CryptoEventSubtype::Regulatory
    } else {
        CryptoEventSubtype::Other
    }
}

/// The subtype of a crypto event, from the words of its title.
pub fn classify_crypto_event_subtype(title: &str) -> (r: CryptoEventSubtype)
    ensures
        r == subtype_of_title(title@),
{
    classify_lowercase_title(&text::lowercase_chars(title))
}

} // verus!
