use darwin_baskets::{
    aggressive, all_m1, conservative, core_crypto, BasketFees, BasketManifest,
    BasketRebalancing, Constituent, ValidationError,
};

/// A manifest with the header, rebalancing and fee parameters of the
/// rejection cases and the given constituents.
fn broken(symbol: &str, constituents: &[(&str, u32, &str)]) -> BasketManifest {
    BasketManifest {
        name: "Broken".to_string(),
        symbol: symbol.to_string(),
        version: "1.0.0".to_string(),
        basket_faucet_decimals: 8,
        constituents: constituents
            .iter()
            .map(|(alias, weight, pair)| Constituent {
                faucet_alias: alias.to_string(),
                target_weight_bps: *weight,
                pragma_pair: pair.to_string(),
            })
            .collect(),
        rebalancing: BasketRebalancing { drift_threshold_bps: 500 },
        fees: BasketFees { mint_fee_bps: 30, redeem_fee_bps: 30, management_fee_bps_year: 100 },
    }
}

#[test]
fn core_crypto_loads_and_validates() {
    let m = core_crypto();
    assert_eq!(m.symbol, "DCC");
    assert_eq!(m.constituents.len(), 3);
    assert_eq!(m.total_weight_bps(), 10_000);
}

#[test]
fn aggressive_loads_and_validates() {
    let m = aggressive();
    assert_eq!(m.symbol, "DAG");
    assert_eq!(m.constituents.len(), 2);
    assert_eq!(m.total_weight_bps(), 10_000);
}

#[test]
fn conservative_loads_and_validates() {
    let m = conservative();
    assert_eq!(m.symbol, "DCO");
    assert_eq!(m.constituents.len(), 4);
    assert_eq!(m.total_weight_bps(), 10_000);
}

#[test]
fn all_m1_baskets_have_unique_symbols() {
    let baskets = all_m1();
    let mut symbols: Vec<_> = baskets.iter().map(|b| b.symbol.clone()).collect();
    symbols.sort();
    let original_len = symbols.len();
    symbols.dedup();
    assert_eq!(symbols.len(), original_len, "basket symbols collide");
}

#[test]
fn all_m1_baskets_use_known_pragma_pairs() {
    let known = ["BTC/USD", "ETH/USD", "WBTC/USD", "USDT/USD", "DAI/USD"];
    for basket in all_m1() {
        for c in &basket.constituents {
            assert!(
                known.contains(&c.pragma_pair.as_str()),
                "basket {} uses unknown Pragma pair {}",
                basket.symbol,
                c.pragma_pair
            );
        }
    }
}

#[test]
fn rejects_weight_sum_mismatch() {
    let m = broken(
        "BRK",
        &[("darwin-eth", 3000, "ETH/USD"), ("darwin-wbtc", 3000, "WBTC/USD")],
    );
    assert!(matches!(
        m.validate(),
        Err(ValidationError::WeightSumMismatch { sum: 6000, expected: 10_000 })
    ));
}

#[test]
fn rejects_duplicate_constituent() {
    let m = broken(
        "BRK",
        &[("darwin-eth", 5000, "ETH/USD"), ("darwin-eth", 5000, "ETH/USD")],
    );
    assert!(matches!(
        m.validate(),
        Err(ValidationError::DuplicateConstituent(_))
    ));
}

#[test]
fn rejects_invalid_symbol() {
    let m = broken("lowercase", &[("darwin-eth", 10000, "ETH/USD")]);
    assert!(matches!(m.validate(), Err(ValidationError::InvalidSymbol(_))));
}

#[test]
fn rejects_zero_weight() {
    let m = broken(
        "BRK",
        &[("darwin-eth", 0, "ETH/USD"), ("darwin-wbtc", 10000, "WBTC/USD")],
    );
    assert!(matches!(
        m.validate(),
        Err(ValidationError::ZeroWeight { .. })
    ));
}
