use vstd::prelude::*;

use crate::vault::Address;

verus! {

/// What a depositor did.
#[derive(Clone, Copy, Debug, PartialEq, Eq, Structural)]
pub enum VaultDepositorAction {
    Deposit,
    WithdrawRequest,
    CancelWithdrawRequest,
    Withdraw,
}

/// The record a successful depositor operation yields: what was done, and the
/// depositor's and the pool's share counts before and after.
#[derive(Clone, Copy, Debug, PartialEq, Eq)]
pub struct VaultDepositorRecord {
    pub ts: i64,
    pub vault: Address,
    pub user_authority: Address,
    pub action: VaultDepositorAction,
    pub amount: u64,
    pub spot_market_index: u16,
    pub vault_amount_before: u64,
    pub vault_shares_before: u128,
    pub user_vault_shares_before: u128,
    pub total_vault_shares_before: u128,
    pub vault_shares_after: u128,
    pub total_vault_shares_after: u128,
    pub user_vault_shares_after: u128,
}

} // verus!
