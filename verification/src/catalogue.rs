//! The baskets of the first milestone (M1), bundled with the crate, and the
//! lookups over them.
use vstd::prelude::*;

use crate::manifest::{
    constituent_views, BasketFees, BasketManifest, BasketManifestView, BasketRebalancing,
    Constituent, ConstituentView,
};
use crate::text::{insert_sorted_unique, str_eq, string_views, strictly_sorted};
use crate::validation::{
    alias_seen_before, first_constituent_failure, spec_validate, split_dots, valid_symbol,
    valid_version, weight_sum,
};

verus! {

/// The version tag every M1 basket carries.
pub open spec fn m1_version() -> Seq<char> {
    "1.0.0"@
}

/// The drift threshold every M1 basket shares: 5%.
pub open spec fn m1_rebalancing() -> BasketRebalancing {
    BasketRebalancing { drift_threshold_bps: 500 }
}

/// The fees every M1 basket shares: 0.30% mint, 0.30% redeem, 1.00% a year.
pub open spec fn m1_fees() -> BasketFees {
    BasketFees { mint_fee_bps: 30, redeem_fee_bps: 30, management_fee_bps_year: 100 }
}

/// An M1 basket with the given name, symbol and constituents, and the
/// parameters all M1 baskets share.
pub open spec fn m1_basket(
    name: Seq<char>,
    symbol: Seq<char>,
    constituents: Seq<ConstituentView>,
) -> BasketManifestView {
    BasketManifestView {
        name,
        symbol,
        version: m1_version(),
        basket_faucet_decimals: 8,
        constituents,
        rebalancing: m1_rebalancing(),
        fees: m1_fees(),
    }
}

/// A constituent given by its alias, weight and price pair.
pub open spec fn asset(alias: Seq<char>, weight: u32, pair: Seq<char>) -> ConstituentView {
    ConstituentView { faucet_alias: alias, target_weight_bps: weight, pragma_pair: pair }
}

/// Core Crypto (DCC): dWBTC 40 / dETH 40 / dUSDT 20.
pub open spec fn spec_core_crypto() -> BasketManifestView {
    m1_basket(
        "Core Crypto"@,
        "DCC"@,
        seq![
            asset("darwin-wbtc"@, 4000, "WBTC/USD"@),
            asset("darwin-eth"@, 4000, "ETH/USD"@),
            asset("darwin-usdt"@, 2000, "USDT/USD"@),
        ],
    )
}

/// Aggressive (DAG): dWBTC 50 / dETH 50.
pub open spec fn spec_aggressive() -> BasketManifestView {
    m1_basket(
        "Aggressive"@,
        "DAG"@,
        seq![asset("darwin-wbtc"@, 5000, "WBTC/USD"@), asset("darwin-eth"@, 5000, "ETH/USD"@)],
    )
}

/// Conservative (DCO): dWBTC 10 / dETH 10 / dUSDT 40 / dDAI 40.
pub open spec fn spec_conservative() -> BasketManifestView {
    m1_basket(
        "Conservative"@,
        "DCO"@,
        seq![
            asset("darwin-wbtc"@, 1000, "WBTC/USD"@),
            asset("darwin-eth"@, 1000, "ETH/USD"@),
            asset("darwin-usdt"@, 4000, "USDT/USD"@),
            asset("darwin-dai"@, 4000, "DAI/USD"@),
        ],
    )
}

/// The three M1 baskets, in catalogue order.
pub open spec fn spec_all_m1() -> Seq<BasketManifestView> {
    seq![spec_core_crypto(), spec_aggressive(), spec_conservative()]
}

/// The M1 basket with on-chain symbol `symbol`, if any.
pub open spec fn spec_by_symbol(symbol: Seq<char>) -> Option<BasketManifestView> {
    if symbol == "DCC"@ {
        Some(spec_core_crypto())
    } else if symbol == "DAG"@ {
        Some(spec_aggressive())
    } else if symbol == "DCO"@ {
        Some(spec_conservative())
    } else {
        None
    }
}

/// `alias` is the faucet alias of some constituent of some M1 basket.
pub open spec fn is_m1_faucet_alias(alias: Seq<char>) -> bool {
    exists|i: int, j: int|
        0 <= i < 3 && 0 <= j < spec_all_m1()[i].constituents.len()
            && #[trigger] spec_all_m1()[i].constituents[j].faucet_alias == alias
}

/// A one-digit `major.minor.patch` tag is a valid version.
proof fn lemma_single_digit_version(a: char, b: char, c: char)
    requires
        '0' <= a <= '9',
        '0' <= b <= '9',
        '0' <= c <= '9',
    ensures
        valid_version(seq![a, '.', b, '.', c]),
{
    let s5 = seq![a, '.', b, '.', c];
    let s4 = seq![a, '.', b, '.'];
    let s3 = seq![a, '.', b];
    let s2 = seq![a, '.'];
    let s1 = seq![a];
    let s0 = Seq::<char>::empty();
    assert(s5.drop_last() =~= s4);
    assert(s4.drop_last() =~= s3);
    assert(s3.drop_last() =~= s2);
    assert(s2.drop_last() =~= s1);
    assert(s1.drop_last() =~= s0);
    assert(split_dots(s0) =~= seq![Seq::<char>::empty()]);
    assert(split_dots(s1) =~= seq![seq![a]]);
    assert(split_dots(s2) =~= seq![seq![a], Seq::<char>::empty()]);
    assert(split_dots(s3) =~= seq![seq![a], seq![b]]);
    assert(split_dots(s4) =~= seq![seq![a], seq![b], Seq::<char>::empty()]);
    assert(split_dots(s5) =~= seq![seq![a], seq![b], seq![c]]);
    let parts = split_dots(s5);
    assert(parts[0] =~= seq![a]);
    assert(parts[1] =~= seq![b]);
    assert(parts[2] =~= seq![c]);
}

/// The parameters shared by all M1 baskets pass their checks.
proof fn lemma_m1_common_parameters(symbol: Seq<char>)
    requires
        symbol.len() == 3,
        forall|i: int| 0 <= i < 3 ==> 'A' <= #[trigger] symbol[i] <= 'Z',
    ensures
        valid_symbol(symbol),
        valid_version(m1_version()),
{
    reveal_strlit("1.0.0");
    assert(m1_version() =~= seq!['1', '.', '0', '.', '0']);
    lemma_single_digit_version('1', '0', '0');
}

/// Every M1 basket passes validation.
pub proof fn lemma_m1_baskets_valid()
    ensures
        forall|i: int| 0 <= i < 3 ==> spec_validate(#[trigger] spec_all_m1()[i]) is Ok,
{
    reveal_strlit("darwin-wbtc");
    reveal_strlit("darwin-eth");
    reveal_strlit("darwin-usdt");
    reveal_strlit("darwin-dai");
    reveal_strlit("DCC");
    reveal_strlit("DAG");
    reveal_strlit("DCO");
    let wbtc = "darwin-wbtc"@;
    let eth = "darwin-eth"@;
    let usdt = "darwin-usdt"@;
    let dai = "darwin-dai"@;
    assert(wbtc != eth) by {
        assert(wbtc.len() != eth.len());
    }
    assert(wbtc != usdt) by {
        assert(wbtc[7] != usdt[7]);
    }
    assert(eth != usdt) by {
        assert(eth.len() != usdt.len());
    }
    assert(wbtc != dai) by {
        assert(wbtc.len() != dai.len());
    }
    assert(eth != dai) by {
        assert(eth[7] != dai[7]);
    }
    assert(usdt != dai) by {
        assert(usdt.len() != dai.len());
    }

    let dcc = spec_core_crypto();
    let cs = dcc.constituents;
    lemma_m1_common_parameters("DCC"@);
    assert(!alias_seen_before(cs, 0));
    assert(!alias_seen_before(cs, 1));
    assert(!alias_seen_before(cs, 2));
    assert(first_constituent_failure(cs, 3) is None);
    assert(first_constituent_failure(cs, 2) is None);
    assert(first_constituent_failure(cs, 1) is None);
    assert(first_constituent_failure(cs, 0) is None);
    assert(cs.drop_last().drop_last().drop_last() =~= Seq::<ConstituentView>::empty());
    assert(weight_sum(cs) == 10000) by {
        assert(weight_sum(cs.drop_last().drop_last().drop_last()) == 0);
        assert(weight_sum(cs.drop_last().drop_last()) == 4000);
        assert(weight_sum(cs.drop_last()) == 8000);
    }
    assert(spec_validate(dcc) is Ok);

    let dag = spec_aggressive();
    let cs = dag.constituents;
    lemma_m1_common_parameters("DAG"@);
    assert(!alias_seen_before(cs, 0));
    assert(!alias_seen_before(cs, 1));
    assert(first_constituent_failure(cs, 2) is None);
    assert(first_constituent_failure(cs, 1) is None);
    assert(first_constituent_failure(cs, 0) is None);
    assert(cs.drop_last().drop_last() =~= Seq::<ConstituentView>::empty());
    assert(weight_sum(cs) == 10000) by {
        assert(weight_sum(cs.drop_last().drop_last()) == 0);
        assert(weight_sum(cs.drop_last()) == 5000);
    }
    assert(spec_validate(dag) is Ok);

    let dco = spec_conservative();
    let cs = dco.constituents;
    lemma_m1_common_parameters("DCO"@);
    assert(!alias_seen_before(cs, 0));
    assert(!alias_seen_before(cs, 1));
    assert(!alias_seen_before(cs, 2));
    assert(!alias_seen_before(cs, 3));
    assert(first_constituent_failure(cs, 4) is None);
    assert(first_constituent_failure(cs, 3) is None);
    assert(first_constituent_failure(cs, 2) is None);
    assert(first_constituent_failure(cs, 1) is None);
    assert(first_constituent_failure(cs, 0) is None);
    assert(cs.drop_last().drop_last().drop_last().drop_last()
        =~= Seq::<ConstituentView>::empty());
    assert(weight_sum(cs) == 10000) by {
        assert(weight_sum(cs.drop_last().drop_last().drop_last().drop_last()) == 0);
        assert(weight_sum(cs.drop_last().drop_last().drop_last()) == 1000);
        assert(weight_sum(cs.drop_last().drop_last()) == 2000);
        assert(weight_sum(cs.drop_last()) == 6000);
    }
    assert(spec_validate(dco) is Ok);
}

/// The three M1 baskets have distinct symbols.
pub proof fn lemma_m1_symbols_distinct()
    ensures
        forall|i: int, j: int|
            0 <= i < j < 3 ==> (#[trigger] spec_all_m1()[i]).symbol != (#[trigger] spec_all_m1()[j]).symbol,
{
    reveal_strlit("DCC");
    reveal_strlit("DAG");
    reveal_strlit("DCO");
    assert("DCC"@[1] != "DAG"@[1]);
    assert("DCC"@[2] != "DCO"@[2]);
    assert("DAG"@[1] != "DCO"@[1]);
}

/// Looking up any M1 basket by its symbol gives back that basket.
pub proof fn lemma_by_symbol_round_trip()
    ensures
        forall|i: int|
            0 <= i < 3 ==> spec_by_symbol((#[trigger] spec_all_m1()[i]).symbol) == Some(
                spec_all_m1()[i],
            ),
{
    lemma_m1_symbols_distinct();
    assert(spec_all_m1()[0].symbol == "DCC"@);
    assert(spec_all_m1()[1].symbol == "DAG"@);
    assert(spec_all_m1()[2].symbol == "DCO"@);
}

/// A lookup by symbol succeeds exactly on the three catalogue symbols, and
/// what it finds is an M1 basket carrying that very symbol.
pub proof fn lemma_by_symbol_exact(symbol: Seq<char>)
    ensures
        spec_by_symbol(symbol) is Some <==> (symbol == "DCC"@ || symbol == "DAG"@ || symbol
            == "DCO"@),
        spec_by_symbol(symbol) matches Some(m) ==> m.symbol == symbol && exists|i: int|
            0 <= i < 3 && m == #[trigger] spec_all_m1()[i],
{
    if spec_by_symbol(symbol) is Some {
        let m = spec_by_symbol(symbol)->0;
        if symbol == "DCC"@ {
            assert(m == spec_all_m1()[0]);
        } else if symbol == "DAG"@ {
            assert(m == spec_all_m1()[1]);
        } else {
            assert(m == spec_all_m1()[2]);
        }
    }
}

/// Every M1 basket's weights sum to 10000 bps.
pub proof fn lemma_m1_weights_total()
    ensures
        forall|i: int| 0 <= i < 3 ==> weight_sum((#[trigger] spec_all_m1()[i]).constituents) == 10000,
{
    lemma_m1_baskets_valid();
    assert forall|i: int| 0 <= i < 3 implies weight_sum(
        (#[trigger] spec_all_m1()[i]).constituents,
    ) == 10000 by {
        assert(spec_validate(spec_all_m1()[i]) is Ok);
    }
}

fn asset_of(alias: &str, weight: u32, pair: &str) -> (c: Constituent)
    ensures
        c@ == asset(alias@, weight, pair@),
{
    Constituent {
        faucet_alias: alias.to_owned(),
        target_weight_bps: weight,
        pragma_pair: pair.to_owned(),
    }
}

fn m1_basket_of(name: &str, symbol: &str, constituents: Vec<Constituent>) -> (m: BasketManifest)
    ensures
        m@ == m1_basket(name@, symbol@, constituent_views(constituents@)),
{
    BasketManifest {
        name: name.to_owned(),
        symbol: symbol.to_owned(),
        version: "1.0.0".to_owned(),
        basket_faucet_decimals: 8,
        constituents,
        rebalancing: BasketRebalancing { drift_threshold_bps: 500 },
        fees: BasketFees { mint_fee_bps: 30, redeem_fee_bps: 30, management_fee_bps_year: 100 },
    }
}

/// Hand out a bundled manifest after checking it against the validation
/// rules; a bundled manifest always passes them.
fn load_bundled(manifest: BasketManifest) -> (m: BasketManifest)
    requires
        spec_validate(manifest@) is Ok,
    ensures
        m@ == manifest@,
{
    let checked = manifest.validate();
    assert(checked is Ok);
    manifest
}

/// Returns the manifest of the Core Crypto basket bundled with this crate.
pub fn core_crypto() -> (m: BasketManifest)
    ensures
        m@ == spec_core_crypto(),
        spec_validate(m@) is Ok,
{
    let constituents = vec![
        asset_of("darwin-wbtc", 4000, "WBTC/USD"),
        asset_of("darwin-eth", 4000, "ETH/USD"),
        asset_of("darwin-usdt", 2000, "USDT/USD"),
    ];
    let m = m1_basket_of("Core Crypto", "DCC", constituents);
    proof {
        assert(m@.constituents =~= spec_core_crypto().constituents);
        lemma_m1_baskets_valid();
        assert(spec_validate(spec_all_m1()[0]) is Ok);
    }
    load_bundled(m)
}

/// Returns the manifest of the Aggressive basket bundled with this crate.
pub fn aggressive() -> (m: BasketManifest)
    ensures
        m@ == spec_aggressive(),
        spec_validate(m@) is Ok,
{
    let constituents = vec![
        asset_of("darwin-wbtc", 5000, "WBTC/USD"),
        asset_of("darwin-eth", 5000, "ETH/USD"),
    ];
    let m = m1_basket_of("Aggressive", "DAG", constituents);
    proof {
        assert(m@.constituents =~= spec_aggressive().constituents);
        lemma_m1_baskets_valid();
        assert(spec_validate(spec_all_m1()[1]) is Ok);
    }
    load_bundled(m)
}

/// Returns the manifest of the Conservative basket bundled with this crate.
pub fn conservative() -> (m: BasketManifest)
    ensures
        m@ == spec_conservative(),
        spec_validate(m@) is Ok,
{
    let constituents = vec![
        asset_of("darwin-wbtc", 1000, "WBTC/USD"),
        asset_of("darwin-eth", 1000, "ETH/USD"),
        asset_of("darwin-usdt", 4000, "USDT/USD"),
        asset_of("darwin-dai", 4000, "DAI/USD"),
    ];
    let m = m1_basket_of("Conservative", "DCO", constituents);
    proof {
        assert(m@.constituents =~= spec_conservative().constituents);
        lemma_m1_baskets_valid();
        assert(spec_validate(spec_all_m1()[2]) is Ok);
    }
    load_bundled(m)
}

/// Returns the three baskets shipped in Milestone 1.
pub fn all_m1() -> (baskets: [BasketManifest; 3])
    ensures
        forall|i: int| 0 <= i < 3 ==> (#[trigger] baskets@[i])@ == spec_all_m1()[i],
{
    [core_crypto(), aggressive(), conservative()]
}

/// Lookup a manifest by its on-chain symbol. Returns `None` for any
/// symbol that is not part of the M1 catalogue.
pub fn by_symbol(symbol: &str) -> (r: Option<BasketManifest>)
    ensures
        match r {
            Some(m) => spec_by_symbol(symbol@) == Some(m@),
            None => spec_by_symbol(symbol@) is None,
        },
        r matches Some(m) ==> m@.symbol == symbol@ && exists|i: int|
            0 <= i < 3 && m@ == #[trigger] spec_all_m1()[i],
        r is None <==> (symbol@ != "DCC"@ && symbol@ != "DAG"@ && symbol@ != "DCO"@),
{
    proof {
        lemma_by_symbol_exact(symbol@);
    }
    if str_eq(symbol, "DCC") {
        Some(core_crypto())
    } else if str_eq(symbol, "DAG") {
        Some(aggressive())
    } else if str_eq(symbol, "DCO") {
        Some(conservative())
    } else {
        None
    }
}

/// All faucet aliases referenced by any M1 basket, deduplicated and
/// sorted. Useful for tooling that needs to know which custom asset
/// faucets must be deployed before any basket can be funded.
pub fn all_m1_faucet_aliases() -> (aliases: Vec<String>)
    ensures
        strictly_sorted(string_views(aliases@)),
        forall|x: Seq<char>| string_views(aliases@).contains(x) <==> is_m1_faucet_alias(x),
{
    let baskets = all_m1();
    let mut aliases: Vec<String> = Vec::new();
    let mut b: usize = 0;
    while b < 3
        invariant
            0 <= b <= 3,
            forall|i: int| 0 <= i < 3 ==> (#[trigger] baskets@[i])@ == spec_all_m1()[i],
            strictly_sorted(string_views(aliases@)),
            forall|x: Seq<char>|
                string_views(aliases@).contains(x) <==> exists|i: int, j: int|
                    0 <= i < b && 0 <= j < spec_all_m1()[i].constituents.len()
                        && #[trigger] spec_all_m1()[i].constituents[j].faucet_alias == x,
        decreases 3 - b,
    {
        let cs = &baskets[b].constituents;
        let n = cs.len();
        let ghost spec_cs = spec_all_m1()[b as int].constituents;
        proof {
            assert(baskets@[b as int]@ == spec_all_m1()[b as int]);
            assert(spec_cs == constituent_views(cs@));
        }
        let mut c: usize = 0;
        while c < n
            invariant
                0 <= b < 3,
                n == cs@.len(),
                spec_cs == spec_all_m1()[b as int].constituents,
                spec_cs == constituent_views(cs@),
                0 <= c <= n,
                strictly_sorted(string_views(aliases@)),
                forall|x: Seq<char>|
                    string_views(aliases@).contains(x) <==> exists|i: int, j: int|
                        ((0 <= i < b && 0 <= j < spec_all_m1()[i].constituents.len()) || (i == b
                            && 0 <= j < c))
                            && #[trigger] spec_all_m1()[i].constituents[j].faucet_alias == x,
            decreases n - c,
        {
            let ghost old_views = string_views(aliases@);
            let alias = cs[c].faucet_alias.clone();
            proof {
                assert(spec_cs[c as int] == cs@[c as int]@);
            }
            insert_sorted_unique(&mut aliases, alias);
            proof {
                assert forall|x: Seq<char>|
                    string_views(aliases@).contains(x) <==> exists|i: int, j: int|
                        ((0 <= i < b && 0 <= j < spec_all_m1()[i].constituents.len()) || (i == b
                            && 0 <= j < c + 1))
                            && #[trigger] spec_all_m1()[i].constituents[j].faucet_alias
                            == x by {
                    if x == spec_cs[c as int].faucet_alias {
                        assert(spec_all_m1()[b as int].constituents[c as int].faucet_alias == x);
                    }
                    if exists|i: int, j: int|
                        ((0 <= i < b && 0 <= j < spec_all_m1()[i].constituents.len()) || (i == b
                            && 0 <= j < c + 1))
                            && #[trigger] spec_all_m1()[i].constituents[j].faucet_alias == x {
                        let (i, j) = choose|i: int, j: int|
                            ((0 <= i < b && 0 <= j < spec_all_m1()[i].constituents.len()) || (i
                                == b && 0 <= j < c + 1))
                                && #[trigger] spec_all_m1()[i].constituents[j].faucet_alias == x;
                        if !(i == b && j == c) {
                            assert(old_views.contains(x));
                        }
                    }
                }
            }
            c = c + 1;
        }
        proof {
            assert forall|x: Seq<char>|
                string_views(aliases@).contains(x) <==> exists|i: int, j: int|
                    0 <= i < b + 1 && 0 <= j < spec_all_m1()[i].constituents.len()
                        && #[trigger] spec_all_m1()[i].constituents[j].faucet_alias == x by {
                if exists|i: int, j: int|
                    0 <= i < b + 1 && 0 <= j < spec_all_m1()[i].constituents.len()
                        && #[trigger] spec_all_m1()[i].constituents[j].faucet_alias == x {
                    let (i, j) = choose|i: int, j: int|
                        0 <= i < b + 1 && 0 <= j < spec_all_m1()[i].constituents.len()
                            && #[trigger] spec_all_m1()[i].constituents[j].faucet_alias == x;
                    assert(((0 <= i < b && 0 <= j < spec_all_m1()[i].constituents.len()) || (i
                        == b && 0 <= j < n)));
                }
            }
        }
        b = b + 1;
    }
    aliases
}

} // verus!
