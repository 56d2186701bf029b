//! Darwin Protocol basket manifests.
//!
//! A manifest describes the composition, rebalancing thresholds, and fee
//! parameters of a single Darwin basket. This crate holds the manifest data
//! model, its validation rules, and the baskets of the first milestone.
pub mod catalogue;
pub mod manifest;
pub mod state;
pub mod text;
pub mod validation;

pub use catalogue::{aggressive, all_m1, all_m1_faucet_aliases, by_symbol, conservative, core_crypto};
pub use manifest::{BasketFees, BasketManifest, BasketRebalancing, Constituent, ManifestFile};
pub use state::{
    AtomicFlowANoteEntry, FaucetEntry, NetworkInfo, PoolFundingEntry, ProtocolAccountEntry,
    TestnetDeployment, UserDepositEntry, UserMintEntry, UserWalletEntry, WalletEntry,
};
pub use validation::ValidationError;
