//! The assets that price questions are about.
use crate::text;
use vstd::prelude::*;

verus! {

/// An asset, the words that name it, and its symbols at the price sources.
#[derive(Debug, Clone, Copy)]
pub struct CryptoAsset {
    pub name: &'static str,
    pub keywords: &'static [&'static str],
    pub binance_symbol: &'static str,
    pub coingecko_id: &'static str,
    /// The Deribit currency code, for the assets with an implied-volatility index.
    pub deribit_currency: Option<&'static str>,
}

/// What an asset record says.
pub struct AssetEntry {
    pub name: Seq<char>,
    pub keywords: Seq<Seq<char>>,
    pub binance_symbol: Seq<char>,
    pub coingecko_id: Seq<char>,
    pub deribit_currency: Option<Seq<char>>,
}

impl View for CryptoAsset {
    type V = AssetEntry;

    open spec fn view(&self) -> AssetEntry {
        AssetEntry {
            name: self.name@,
            keywords: self.keywords@.map_values(|k: &'static str| k@),
            binance_symbol: self.binance_symbol@,
            coingecko_id: self.coingecko_id@,
            deribit_currency: match self.deribit_currency {
                Some(c) => Some(c@),
                None => None,
            },
        }
    }
}

pub open spec fn asset_entry(
    name: Seq<char>,
    keywords: Seq<Seq<char>>,
    binance_symbol: Seq<char>,
    coingecko_id: Seq<char>,
    deribit_currency: Option<Seq<char>>,
) -> AssetEntry {
    AssetEntry { name, keywords, binance_symbol, coingecko_id, deribit_currency }
}

/// The assets, in the order in which a question is searched for them.
pub open spec fn asset_table() -> Seq<AssetEntry> {
    seq![
        asset_entry(
            "Bitcoin"@,
            seq!["bitcoin"@, "btc"@],
            "BTCUSDT"@,
            "bitcoin"@,
            Some("BTC"@),
        ),
        asset_entry(
            "Ethereum"@,
            seq!["ethereum"@, "eth"@],
            "ETHUSDT"@,
            "ethereum"@,
            Some("ETH"@),
        ),
        asset_entry("Solana"@, seq!["solana"@, "sol"@], "SOLUSDT"@, "solana"@, None),
        asset_entry("BNB"@, seq!["bnb"@, "binance coin"@], "BNBUSDT"@, "binancecoin"@, None),
        asset_entry("XRP"@, seq!["xrp"@, "ripple"@], "XRPUSDT"@, "ripple"@, None),
        asset_entry("Dogecoin"@, seq!["dogecoin"@, "doge"@], "DOGEUSDT"@, "dogecoin"@, None),
        asset_entry("Cardano"@, seq!["cardano"@], "ADAUSDT"@, "cardano"@, None),
        asset_entry("Avalanche"@, seq!["avax"@], "AVAXUSDT"@, "avalanche-2"@, None),
        asset_entry("Polkadot"@, seq!["polkadot"@], "DOTUSDT"@, "polkadot"@, None),
        asset_entry(
            "Polygon"@,
            seq!["polygon"@, "matic"@],
            "POLUSDT"@,
            "polygon-ecosystem-token"@,
            None,
        ),
    ]
}

/// The text names the asset: one of its keywords stands in it as a word.
pub open spec fn names_asset(lower: Seq<char>, asset: AssetEntry) -> bool {
    exists|k: int|
        0 <= k < asset.keywords.len() && text::word_in(lower, #[trigger] asset.keywords[k])
}

/// A text about something else than a price, though it may name an asset.
pub open spec fn not_a_price_market(lower: Seq<char>) -> bool {
    ||| text::occurs_in(lower, "gas price"@)
    ||| text::occurs_in(lower, "gas fee"@)
    ||| text::occurs_in(lower, "volatility index"@)
    ||| text::occurs_in(lower, "dominance"@)
    ||| text::occurs_in(lower, "kimchi premium"@)
}

/// The first asset of the table, from the `i`-th on, that the lower-case text names.
pub open spec fn first_named(lower: Seq<char>, i: nat) -> Option<AssetEntry>
    decreases asset_table().len() - i,
{
    if i >= asset_table().len() {
        None
    } else if names_asset(lower, asset_table()[i as int]) {
        Some(asset_table()[i as int])
    } else {
        first_named(lower, i + 1)
    }
}

/// The asset that a lower-case text is about.
pub open spec fn asset_of(lower: Seq<char>) -> Option<AssetEntry> {
    if not_a_price_market(lower) {
        None
    } else {
        first_named(lower, 0)
    }
}

/// The asset that a text is about.
pub open spec fn asset_in(question: Seq<char>) -> Option<AssetEntry> {
    asset_of(text::lowercase(question))
}

fn asset(
    name: &'static str,
    keywords: &'static [&'static str],
    binance_symbol: &'static str,
    coingecko_id: &'static str,
    deribit_currency: Option<&'static str>,
) -> (r: CryptoAsset)
    ensures
        r == (CryptoAsset { name, keywords, binance_symbol, coingecko_id, deribit_currency }),
{
    CryptoAsset { name, keywords, binance_symbol, coingecko_id, deribit_currency }
}

/// The assets, in the order in which a question is searched for them.
pub fn crypto_assets() -> (r: Vec<CryptoAsset>)
    ensures
        r@.map_values(|a: CryptoAsset| a@) == asset_table(),
{
    let r: Vec<CryptoAsset> = vec![
        asset("Bitcoin", &["bitcoin", "btc"], "BTCUSDT", "bitcoin", Some("BTC")),
        asset("Ethereum", &["ethereum", "eth"], "ETHUSDT", "ethereum", Some("ETH")),
        asset("Solana", &["solana", "sol"], "SOLUSDT", "solana", None),
        asset("BNB", &["bnb", "binance coin"], "BNBUSDT", "binancecoin", None),
        asset("XRP", &["xrp", "ripple"], "XRPUSDT", "ripple", None),
        asset("Dogecoin", &["dogecoin", "doge"], "DOGEUSDT", "dogecoin", None),
        asset("Cardano", &["cardano"], "ADAUSDT", "cardano", None),
        asset("Avalanche", &["avax"], "AVAXUSDT", "avalanche-2", None),
        asset("Polkadot", &["polkadot"], "DOTUSDT", "polkadot", None),
        asset("Polygon", &["polygon", "matic"], "POLUSDT", "polygon-ecosystem-token", None),
    ];
    proof {
        let v = r@.map_values(|a: CryptoAsset| a@);
        assert forall|i: int| 0 <= i < 10 implies v[i].keywords =~= asset_table()[i].keywords by {}
        assert(v =~= asset_table());
    }
    r
}

fn names(lower: &Vec<char>, asset: &CryptoAsset) -> (r: bool)
    ensures
        r == names_asset(lower@, asset@),
{
    let mut k: usize = 0;
    while k < asset.keywords.len()
        invariant
            k <= asset.keywords@.len(),
            forall|j: int| 0 <= j < k ==> !text::word_in(lower@, #[trigger] asset@.keywords[j]),
        decreases asset.keywords@.len() - k,
    {
        if text::contains_word(lower, asset.keywords[k]) {
            proof {
                assert(asset@.keywords[k as int] == asset.keywords@[k as int]@);
            }
            return true;
        }
        k = k + 1;
    }
    false
}

pub open spec fn asset_record(asset: Option<CryptoAsset>) -> Option<AssetEntry> {
    match asset {
        Some(a) => Some(a@),
        None => None,
    }
}

/// The asset that a lower-case text is about.
pub fn find_asset_in(lower: &Vec<char>) -> (r: Option<CryptoAsset>)
    ensures
        asset_record(r) == asset_of(lower@),
{
    if text::contains(lower, "gas price") || text::contains(lower, "gas fee") || text::contains(
        lower,
        "volatility index",
    ) || text::contains(lower, "dominance") || text::contains(lower, "kimchi premium") {
        return None;
    }
    let assets = crypto_assets();
    let mut i: usize = 0;
    while i < assets.len()
        invariant
            i <= assets@.len(),
            assets@.map_values(|a: CryptoAsset| a@) == asset_table(),
            !not_a_price_market(lower@),
            first_named(lower@, 0) == first_named(lower@, i as nat),
        decreases assets@.len() - i,
    {
        proof {
            assert(asset_table()[i as int] == assets@[i as int]@);
        }
        if names(lower, &assets[i]) {
            return Some(assets[i]);
        }
        i = i + 1;
    }
    None
}

/// The asset that a question or an event title is about.
pub fn find_asset(question: &str) -> (r: Option<CryptoAsset>)
    ensures
        asset_record(r) == asset_in(question@),
{
    find_asset_in(&text::lowercase_chars(question))
}

} // verus!
