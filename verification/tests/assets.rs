use pa_strategy::crypto_alpha::assets::{crypto_assets, find_asset};

#[test]
fn test_asset_mapping_completeness() {
    let assets = crypto_assets();
    assert_eq!(assets.len(), 10, "Should have 10 crypto assets");
    for asset in &assets {
        assert!(!asset.name.is_empty(), "Name should not be empty");
        assert!(!asset.keywords.is_empty(), "Keywords should not be empty for {}", asset.name);
        assert!(
            !asset.binance_symbol.is_empty(),
            "Binance symbol should not be empty for {}",
            asset.name
        );
        assert!(
            !asset.coingecko_id.is_empty(),
            "CoinGecko ID should not be empty for {}",
            asset.name
        );
    }
}

#[test]
fn test_find_asset_from_event_title() {
    assert!(find_asset("What price will Bitcoin hit in 2026?").is_some());
    assert_eq!(find_asset("What price will Bitcoin hit in 2026?").unwrap().name, "Bitcoin");
    assert!(find_asset("Ethereum price predictions 2026").is_some());
    assert!(find_asset("Who will win the Super Bowl?").is_none());
}
