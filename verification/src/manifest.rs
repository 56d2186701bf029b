//! The manifest data model: one basket's composition, rebalancing threshold
//! and fee parameters, together with their mathematical views.
use vstd::prelude::*;

use crate::validation::{validate, weight_sum, ValidationError};

verus! {

/// Top-level manifest file format. A manifest file contains exactly one
/// `[basket]` section.
#[derive(Debug, Clone)]
pub struct ManifestFile {
    pub basket: BasketManifest,
}

/// A single basket's full configuration.
#[derive(Debug, Clone)]
pub struct BasketManifest {
    pub name: String,
    pub symbol: String,
    pub version: String,
    pub basket_faucet_decimals: u8,
    pub constituents: Vec<Constituent>,
    pub rebalancing: BasketRebalancing,
    pub fees: BasketFees,
}

/// One asset in the basket, with its target weight and the Pragma price feed
/// the protocol reads to value it.
#[derive(Debug, Clone)]
pub struct Constituent {
    pub faucet_alias: String,
    pub target_weight_bps: u32,
    pub pragma_pair: String,
}

/// Rebalancing parameters of a basket.
#[derive(Debug, Clone)]
pub struct BasketRebalancing {
    pub drift_threshold_bps: u32,
}

/// Fee parameters of a basket, each in basis points.
#[derive(Debug, Clone)]
pub struct BasketFees {
    pub mint_fee_bps: u32,
    pub redeem_fee_bps: u32,
    pub management_fee_bps_year: u32,
}

/// The mathematical value of a [`Constituent`]: its strings as character
/// sequences.
pub struct ConstituentView {
    pub faucet_alias: Seq<char>,
    pub target_weight_bps: u32,
    pub pragma_pair: Seq<char>,
}

/// The mathematical value of a [`BasketManifest`].
pub struct BasketManifestView {
    pub name: Seq<char>,
    pub symbol: Seq<char>,
    pub version: Seq<char>,
    pub basket_faucet_decimals: u8,
    pub constituents: Seq<ConstituentView>,
    pub rebalancing: BasketRebalancing,
    pub fees: BasketFees,
}

impl View for Constituent {
    type V = ConstituentView;

    open spec fn view(&self) -> ConstituentView {
        ConstituentView {
            faucet_alias: self.faucet_alias@,
            target_weight_bps: self.target_weight_bps,
            pragma_pair: self.pragma_pair@,
        }
    }
}

/// The views of a sequence of constituents, in order.
pub open spec fn constituent_views(cs: Seq<Constituent>) -> Seq<ConstituentView> {
    cs.map_values(|c: Constituent| c@)
}

impl View for BasketManifest {
    type V = BasketManifestView;

    open spec fn view(&self) -> BasketManifestView {
        BasketManifestView {
            name: self.name@,
            symbol: self.symbol@,
            version: self.version@,
            basket_faucet_decimals: self.basket_faucet_decimals,
            constituents: constituent_views(self.constituents@),
            rebalancing: self.rebalancing,
            fees: self.fees,
        }
    }
}

impl BasketManifest {
    /// Run all structural validations on the manifest. Returns the first
    /// failure encountered, in the order the validation rules are listed.
    pub fn validate(&self) -> (r: Result<(), ValidationError>)
        ensures
            crate::validation::outcome(r) == crate::validation::spec_validate(self@),
    {
        validate(self)
    }

    /// Sum of the target weights, in basis points. A valid basket has
    /// `total_weight_bps() == 10_000`.
    pub fn total_weight_bps(&self) -> (total: u32)
        requires
            weight_sum(self@.constituents) <= u32::MAX,
        ensures
            total == weight_sum(self@.constituents),
    {
        let n = self.constituents.len();
        let mut total: u32 = 0;
        let mut i: usize = 0;
        while i < n
            invariant
                n == self.constituents@.len(),
                0 <= i <= n,
                weight_sum(self@.constituents) <= u32::MAX,
                total == weight_sum(self@.constituents.take(i as int)),
            decreases n - i,
        {
            let ghost cs = self@.constituents;
            proof {
                assert(cs.take(i + 1).drop_last() =~= cs.take(i as int));
                crate::validation::lemma_weight_sum_prefix_le(cs, i + 1);
            }
            total = total + self.constituents[i].target_weight_bps;
            i = i + 1;
        }
        proof {
            assert(self@.constituents.take(n as int) =~= self@.constituents);
        }
        total
    }
}

} // verus!
