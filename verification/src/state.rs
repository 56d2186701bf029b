//! Typed view of the testnet deployment inventory: every Darwin account
//! currently live on the public Miden testnet.
use std::collections::BTreeMap;

use vstd::prelude::*;

verus! {

/// The whole testnet inventory.
#[derive(Debug, Clone)]
pub struct TestnetDeployment {
    pub network: NetworkInfo,
    pub asset_faucets: BTreeMap<String, FaucetEntry>,
    pub basket_token_faucets: BTreeMap<String, FaucetEntry>,
    pub protocol_accounts: BTreeMap<String, ProtocolAccountEntry>,
    pub test_wallet: WalletEntry,
    pub user_wallet: Option<UserWalletEntry>,
    pub pool_funding: Vec<PoolFundingEntry>,
    pub user_wallet_mints: Vec<UserMintEntry>,
    pub user_deposits: Vec<UserDepositEntry>,
    pub atomic_flow_a_notes: Vec<AtomicFlowANoteEntry>,
}

/// A note submitted in the atomic Flow A.
#[derive(Debug, Clone)]
pub struct AtomicFlowANoteEntry {
    pub note_id: String,
    pub note_script_root: Option<String>,
    pub sender_wallet: String,
    pub target_controller: String,
    pub asset: String,
    pub asset_faucet_id: String,
    pub amount: u64,
    pub submit_tx: String,
    pub submission_block: u64,
    pub note_inputs: Option<String>,
}

/// A user-side deposit to a basket controller.
#[derive(Debug, Clone)]
pub struct UserDepositEntry {
    pub basket: String,
    pub controller_id: String,
    pub asset: String,
    pub amount: u64,
    pub send_tx: String,
    pub note_id: String,
}

/// The network the inventory describes.
#[derive(Debug, Clone)]
pub struct NetworkInfo {
    pub name: String,
    pub chain_block_height_at_first_deployment: u64,
}

/// A deployed faucet account.
#[derive(Debug, Clone)]
pub struct FaucetEntry {
    pub account_id: String,
    pub symbol: String,
    pub decimals: u8,
    pub max_supply: u64,
    pub deployed_by_tx: String,
}

/// A protocol account serving one basket.
#[derive(Debug, Clone)]
pub struct ProtocolAccountEntry {
    pub account_id: String,
    pub basket: String,
}

/// The team wallet.
#[derive(Debug, Clone)]
pub struct WalletEntry {
    pub account_id: String,
}

/// The user wallet of the Flow A simulation.
#[derive(Debug, Clone)]
pub struct UserWalletEntry {
    pub account_id: String,
    pub first_p2id_tx: String,
    pub first_p2id_asset: String,
}

/// A mint that funded a basket pool.
#[derive(Debug, Clone)]
pub struct PoolFundingEntry {
    pub basket: String,
    pub asset: String,
    pub amount: u64,
    pub mint_tx: String,
}

/// A mint into the user wallet.
#[derive(Debug, Clone)]
pub struct UserMintEntry {
    pub asset: String,
    pub faucet_id: String,
    pub amount: u64,
    pub mint_tx: String,
    pub note_id: Option<String>,
}

impl TestnetDeployment {
    /// The number of on-chain accounts the inventory records, as a
    /// mathematical integer: every asset faucet, basket-token faucet and
    /// protocol account, the team wallet, and the user wallet when present.
    pub open spec fn spec_onchain_account_count(&self) -> int {
        self.asset_faucets.len() + self.basket_token_faucets.len() + self.protocol_accounts.len()
            + 1 + if self.user_wallet is Some {
            1int
        } else {
            0int
        }
    }

    /// The number of on-chain accounts the inventory records; `None` when
    /// that number does not fit in a `usize`.
    pub fn onchain_account_count(&self) -> (count: Option<usize>)
        ensures
            count == (if self.spec_onchain_account_count() <= usize::MAX {
                Some(self.spec_onchain_account_count() as usize)
            } else {
                None::<usize>
            }),
            match count {
                Some(c) => c == self.asset_faucets.len() + self.basket_token_faucets.len()
                    + self.protocol_accounts.len() + 1 + (if self.user_wallet is Some {
                    1int
                } else {
                    0int
                }),
                None => self.asset_faucets.len() + self.basket_token_faucets.len()
                    + self.protocol_accounts.len() + 1 + (if self.user_wallet is Some {
                    1int
                } else {
                    0int
                }) > usize::MAX,
            },
    {
        let user: usize = if self.user_wallet.is_some() {
            1
        } else {
            0
        };
        let total = self.asset_faucets.len().checked_add(self.basket_token_faucets.len());
        let total = match total {
            Some(t) => t.checked_add(self.protocol_accounts.len()),
            None => None,
        };
        let total = match total {
            Some(t) => t.checked_add(1),
            None => None,
        };
        match total {
            Some(t) => t.checked_add(user),
            None => None,
        }
    }
}

} // verus!
