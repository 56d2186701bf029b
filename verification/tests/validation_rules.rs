use std::collections::BTreeMap;

use darwin_baskets::{
    aggressive, all_m1, all_m1_faucet_aliases, by_symbol, conservative, core_crypto, BasketFees,
    BasketManifest, BasketRebalancing, Constituent, FaucetEntry, NetworkInfo,
    ProtocolAccountEntry, TestnetDeployment, UserWalletEntry, ValidationError, WalletEntry,
};

fn constituent(alias: &str, weight: u32) -> Constituent {
    Constituent {
        faucet_alias: alias.to_string(),
        target_weight_bps: weight,
        pragma_pair: "ETH/USD".to_string(),
    }
}

/// A manifest that passes every rule.
fn valid() -> BasketManifest {
    BasketManifest {
        name: "Sample".to_string(),
        symbol: "SMP".to_string(),
        version: "1.0.0".to_string(),
        basket_faucet_decimals: 8,
        constituents: vec![constituent("darwin-eth", 6000), constituent("darwin-wbtc", 4000)],
        rebalancing: BasketRebalancing { drift_threshold_bps: 500 },
        fees: BasketFees { mint_fee_bps: 30, redeem_fee_bps: 30, management_fee_bps_year: 100 },
    }
}

#[test]
fn sample_manifest_is_valid() {
    assert_eq!(valid().validate(), Ok(()));
}

#[test]
fn empty_basket_is_rejected() {
    let mut m = valid();
    m.constituents.clear();
    assert_eq!(m.validate(), Err(ValidationError::NoConstituents));
}

#[test]
fn duplicate_names_the_repeated_alias() {
    let mut m = valid();
    m.constituents = vec![
        constituent("darwin-eth", 5000),
        constituent("darwin-wbtc", 2500),
        constituent("darwin-wbtc", 2500),
    ];
    assert_eq!(
        m.validate(),
        Err(ValidationError::DuplicateConstituent("darwin-wbtc".to_string()))
    );
}

#[test]
fn zero_weight_names_the_alias() {
    let mut m = valid();
    m.constituents = vec![constituent("darwin-eth", 10000), constituent("darwin-dai", 0)];
    assert_eq!(
        m.validate(),
        Err(ValidationError::ZeroWeight { alias: "darwin-dai".to_string() })
    );
}

#[test]
fn constituent_failures_come_in_list_order() {
    let mut m = valid();
    m.constituents = vec![constituent("a", 0), constituent("a", 10000)];
    assert_eq!(m.validate(), Err(ValidationError::ZeroWeight { alias: "a".to_string() }));
    m.constituents = vec![constituent("a", 10000), constituent("a", 0)];
    assert_eq!(m.validate(), Err(ValidationError::DuplicateConstituent("a".to_string())));
}

#[test]
fn weight_sum_above_total_is_rejected() {
    let mut m = valid();
    m.constituents = vec![constituent("darwin-eth", 6000), constituent("darwin-wbtc", 4001)];
    assert_eq!(
        m.validate(),
        Err(ValidationError::WeightSumMismatch { sum: 10001, expected: 10000 })
    );
}

#[test]
fn each_fee_is_bounded_in_order() {
    let mut m = valid();
    m.fees.mint_fee_bps = 10000;
    m.fees.redeem_fee_bps = 10000;
    m.fees.management_fee_bps_year = 10000;
    assert_eq!(m.validate(), Ok(()));

    m.fees.management_fee_bps_year = 10001;
    assert_eq!(
        m.validate(),
        Err(ValidationError::FeeOutOfRange {
            field: "management_fee_bps_year",
            value: 10001,
            max: 10000
        })
    );
    m.fees.redeem_fee_bps = 20000;
    assert_eq!(
        m.validate(),
        Err(ValidationError::FeeOutOfRange { field: "redeem_fee_bps", value: 20000, max: 10000 })
    );
    m.fees.mint_fee_bps = u32::MAX;
    assert_eq!(
        m.validate(),
        Err(ValidationError::FeeOutOfRange { field: "mint_fee_bps", value: u32::MAX, max: 10000 })
    );
}

#[test]
fn drift_threshold_bounds() {
    let mut m = valid();
    for ok in [1, 500, 5000] {
        m.rebalancing.drift_threshold_bps = ok;
        assert_eq!(m.validate(), Ok(()));
    }
    for bad in [0, 5001, u32::MAX] {
        m.rebalancing.drift_threshold_bps = bad;
        assert_eq!(
            m.validate(),
            Err(ValidationError::DriftOutOfRange { value: bad, max: 5000 })
        );
    }
}

#[test]
fn symbol_rules() {
    let mut m = valid();
    for ok in ["A", "DCC", "ABCDE"] {
        m.symbol = ok.to_string();
        assert_eq!(m.validate(), Ok(()), "{ok}");
    }
    for bad in ["", "ABCDEF", "AB1", "abc", "ÉCU", "A B", "Dcc"] {
        m.symbol = bad.to_string();
        assert_eq!(m.validate(), Err(ValidationError::InvalidSymbol(bad.to_string())), "{bad}");
    }
}

#[test]
fn version_rules() {
    let mut m = valid();
    for ok in ["1.0.0", "10.20.300", "01.2.3", "0.0.0"] {
        m.version = ok.to_string();
        assert_eq!(m.validate(), Ok(()), "{ok}");
    }
    for bad in [
        "", "1", "1.0", "1.0.0.0", "1..0", "1.0.", ".1.0", "a.b.c", "1.0.0-rc", "1.٣.0", "..",
    ] {
        m.version = bad.to_string();
        assert_eq!(m.validate(), Err(ValidationError::InvalidVersion(bad.to_string())), "{bad}");
    }
}

#[test]
fn decimals_bound() {
    let mut m = valid();
    for ok in [0, 18] {
        m.basket_faucet_decimals = ok;
        assert_eq!(m.validate(), Ok(()));
    }
    m.basket_faucet_decimals = 19;
    assert_eq!(m.validate(), Err(ValidationError::DecimalsOutOfRange(19)));
}

#[test]
fn later_rules_wait_for_earlier_ones() {
    let mut m = valid();
    m.symbol = "bad".to_string();
    m.version = "bad".to_string();
    m.basket_faucet_decimals = 200;
    assert_eq!(m.validate(), Err(ValidationError::InvalidSymbol("bad".to_string())));
    m.rebalancing.drift_threshold_bps = 0;
    assert_eq!(m.validate(), Err(ValidationError::DriftOutOfRange { value: 0, max: 5000 }));
    m.fees.redeem_fee_bps = 10001;
    assert_eq!(
        m.validate(),
        Err(ValidationError::FeeOutOfRange { field: "redeem_fee_bps", value: 10001, max: 10000 })
    );
}

#[test]
fn total_weight_adds_every_constituent() {
    let mut m = valid();
    m.constituents = vec![constituent("a", 1234), constituent("b", 4321), constituent("c", 7)];
    assert_eq!(m.total_weight_bps(), 5562);
    m.constituents.clear();
    assert_eq!(m.total_weight_bps(), 0);
}

#[test]
fn bundled_baskets_match_the_published_table() {
    let expect: [(&str, &str, &[(&str, u32, &str)]); 3] = [
        (
            "DCC",
            "Core Crypto",
            &[("darwin-wbtc", 4000, "WBTC/USD"), ("darwin-eth", 4000, "ETH/USD"), ("darwin-usdt", 2000, "USDT/USD")],
        ),
        ("DAG", "Aggressive", &[("darwin-wbtc", 5000, "WBTC/USD"), ("darwin-eth", 5000, "ETH/USD")]),
        (
            "DCO",
            "Conservative",
            &[
                ("darwin-wbtc", 1000, "WBTC/USD"),
                ("darwin-eth", 1000, "ETH/USD"),
                ("darwin-usdt", 4000, "USDT/USD"),
                ("darwin-dai", 4000, "DAI/USD"),
            ],
        ),
    ];
    let baskets = [core_crypto(), aggressive(), conservative()];
    for (basket, (symbol, name, cs)) in baskets.iter().zip(expect.iter()) {
        assert_eq!(basket.symbol, *symbol);
        assert_eq!(basket.name, *name);
        assert_eq!(basket.version, "1.0.0");
        assert_eq!(basket.basket_faucet_decimals, 8);
        assert_eq!(basket.rebalancing.drift_threshold_bps, 500);
        assert_eq!(basket.fees.mint_fee_bps, 30);
        assert_eq!(basket.fees.redeem_fee_bps, 30);
        assert_eq!(basket.fees.management_fee_bps_year, 100);
        assert_eq!(basket.constituents.len(), cs.len());
        for (c, (alias, weight, pair)) in basket.constituents.iter().zip(cs.iter()) {
            assert_eq!(c.faucet_alias, *alias);
            assert_eq!(c.target_weight_bps, *weight);
            assert_eq!(c.pragma_pair, *pair);
        }
        assert_eq!(basket.validate(), Ok(()));
    }
}

#[test]
fn all_m1_is_in_catalogue_order() {
    let symbols: Vec<String> = all_m1().iter().map(|b| b.symbol.clone()).collect();
    assert_eq!(symbols, vec!["DCC", "DAG", "DCO"]);
}

#[test]
fn by_symbol_is_exact() {
    assert_eq!(by_symbol("DAG").map(|b| b.name), Some("Aggressive".to_string()));
    assert_eq!(by_symbol("DCO").map(|b| b.constituents.len()), Some(4));
    for miss in ["dcc", "DC", "DCCC", " DCC", "PROTO"] {
        assert!(by_symbol(miss).is_none(), "{miss}");
    }
}

#[test]
fn faucet_alias_index_is_sorted_and_complete() {
    assert_eq!(
        all_m1_faucet_aliases(),
        vec!["darwin-dai", "darwin-eth", "darwin-usdt", "darwin-wbtc"]
    );
}

fn faucet(id: &str) -> FaucetEntry {
    FaucetEntry {
        account_id: id.to_string(),
        symbol: "DETH".to_string(),
        decimals: 8,
        max_supply: 1,
        deployed_by_tx: "0x0".to_string(),
    }
}

#[test]
fn onchain_account_count_adds_every_account() {
    let mut assets = BTreeMap::new();
    assets.insert("eth".to_string(), faucet("0x1"));
    assets.insert("wbtc".to_string(), faucet("0x2"));
    let mut baskets = BTreeMap::new();
    baskets.insert("DCC".to_string(), faucet("0x3"));
    let mut protocol = BTreeMap::new();
    for (k, b) in [("c1", "DCC"), ("c2", "DAG"), ("c3", "DCO")] {
        protocol.insert(
            k.to_string(),
            ProtocolAccountEntry { account_id: format!("0x{k}"), basket: b.to_string() },
        );
    }
    let mut state = TestnetDeployment {
        network: NetworkInfo {
            name: "miden-testnet".to_string(),
            chain_block_height_at_first_deployment: 1,
        },
        asset_faucets: assets,
        basket_token_faucets: baskets,
        protocol_accounts: protocol,
        test_wallet: WalletEntry { account_id: "0xteam".to_string() },
        user_wallet: None,
        pool_funding: Vec::new(),
        user_wallet_mints: Vec::new(),
        user_deposits: Vec::new(),
        atomic_flow_a_notes: Vec::new(),
    };
    assert_eq!(state.onchain_account_count(), Some(7));
    state.user_wallet = Some(UserWalletEntry {
        account_id: "0xuser".to_string(),
        first_p2id_tx: "0xtx".to_string(),
        first_p2id_asset: "dETH".to_string(),
    });
    assert_eq!(state.onchain_account_count(), Some(8));
}

#[test]
fn weight_sum_overflow_is_a_mismatch() {
    let mut m = valid();
    m.constituents = vec![constituent("a", u32::MAX), constituent("b", 10001)];
    assert_eq!(
        m.validate(),
        Err(ValidationError::WeightSumMismatch { sum: u32::MAX, expected: 10000 })
    );
}

#[test]
fn reordering_constituents_keeps_the_verdict() {
    let mut m = valid();
    m.constituents = vec![
        constituent("darwin-eth", 2000),
        constituent("darwin-wbtc", 3000),
        constituent("darwin-dai", 5000),
    ];
    assert_eq!(m.validate(), Ok(()));
    m.constituents.reverse();
    assert_eq!(m.validate(), Ok(()));
    m.constituents.swap(0, 2);
    m.constituents[1].target_weight_bps = 3001;
    let first = m.validate().is_ok();
    m.constituents.reverse();
    assert_eq!(m.validate().is_ok(), first);
    assert!(!first);
}

#[test]
fn names_and_pairs_do_not_matter() {
    let mut m = valid();
    m.constituents[0].target_weight_bps = 0;
    let before = m.validate();
    m.name = "Another name".to_string();
    for c in m.constituents.iter_mut() {
        c.pragma_pair = "NOT/A/PAIR".to_string();
    }
    assert_eq!(m.validate(), before);
    assert_eq!(before, Err(ValidationError::ZeroWeight { alias: "darwin-eth".to_string() }));
}
