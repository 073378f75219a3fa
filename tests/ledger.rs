use drift_vaults::error::ErrorCode;
use drift_vaults::events::VaultDepositorAction;
use drift_vaults::math::{amount_for_shares, calculate_rebase_info, shares_for_amount};
use drift_vaults::vault::Vault;
use drift_vaults::vault_depositor::VaultDepositor;

const REDEEM_PERIOD: i64 = 3600;

fn empty_vault() -> Vault {
    Vault {
        name: [1u8; 32],
        pubkey: [2u8; 32],
        authority: [3u8; 32],
        token_account: [4u8; 32],
        user_stats: [5u8; 32],
        user: [6u8; 32],
        spot_market_index: 0,
        bump: 255,
        padding: [0u8; 1],
        redeem_period: REDEEM_PERIOD,
        shares_base: 0,
        user_shares: 0,
        total_shares: 0,
    }
}

fn depositor() -> VaultDepositor {
    VaultDepositor::new([2u8; 32], [7u8; 32], [8u8; 32], 0)
}

#[test]
fn deposit_request_and_withdraw_at_same_value() {
    let mut vault = empty_vault();
    let mut a = depositor();
    let rec = a.deposit(1000, 0, &mut vault, 10).unwrap();
    assert_eq!(rec.action, VaultDepositorAction::Deposit);
    assert_eq!(rec.vault_shares_after, 1000);
    assert_eq!(vault.total_shares, 1000);
    assert_eq!(a.checked_vault_shares(&vault), Ok(1000));

    let (locked, rec) = a.request_withdraw(500, 2000, &mut vault, 100).unwrap();
    assert_eq!(locked, 1000);
    assert_eq!(a.last_withdraw_request_value, 1000);
    assert_eq!(rec.action, VaultDepositorAction::WithdrawRequest);
    assert_eq!(rec.amount, 1000);

    let (paid, rec) = a.withdraw(2000, [8u8; 32], &mut vault, 100 + REDEEM_PERIOD).unwrap();
    assert_eq!(paid, 1000);
    assert_eq!(rec.amount, 1000);
    assert_eq!(vault.total_shares, 500);
    assert_eq!(vault.user_shares, 500);
    assert_eq!(a.checked_vault_shares(&vault), Ok(500));
    assert_eq!(a.last_withdraw_request_shares, 0);
    assert_eq!(a.last_withdraw_request_value, 0);
    assert_eq!(a.cost_basis, 0);
}

#[test]
fn withdraw_after_value_drop_pays_downside() {
    let mut vault = empty_vault();
    let mut a = depositor();
    a.deposit(1000, 0, &mut vault, 10).unwrap();
    a.request_withdraw(500, 2000, &mut vault, 100).unwrap();
    let (paid, _) = a.withdraw(1000, [8u8; 32], &mut vault, 100 + REDEEM_PERIOD).unwrap();
    assert_eq!(paid, 500);
    assert_eq!(vault.total_shares, 500);
    assert_eq!(a.checked_vault_shares(&vault), Ok(500));
    assert_eq!(a.cost_basis, 500);
}

#[test]
fn genesis_deposit_mints_amount() {
    let mut vault = empty_vault();
    let mut a = depositor();
    let rec = a.deposit(777, 0, &mut vault, 1).unwrap();
    assert_eq!(rec.vault_shares_after - rec.vault_shares_before, 777);

    // a pool that holds value again after all shares left
    let mut vault = empty_vault();
    let mut b = depositor();
    let rec = b.deposit(250, 4000, &mut vault, 1).unwrap();
    assert_eq!(rec.total_vault_shares_before, 4000);
    assert_eq!(rec.vault_shares_after, 250);
    assert_eq!(rec.total_vault_shares_after, 4250);
    assert_eq!(b.cost_basis, 250);
}

#[test]
fn rebase_compresses_shares_and_is_idempotent() {
    let mut vault = empty_vault();
    vault.total_shares = 1_000_000_000_000;
    vault.user_shares = 1_000_000_000_000;
    let mut a = depositor();
    a.update_vault_shares(1_000_000_000_000, &vault).unwrap();
    a.last_withdraw_request_shares = 300_000_000_000;

    a.apply_rebase(&mut vault, 1000).unwrap();
    assert_eq!(vault.shares_base, 8);
    assert_eq!(vault.total_shares, 10_000);
    assert_eq!(vault.user_shares, 10_000);
    assert_eq!(a.vault_shares_base, 8);
    assert_eq!(a.checked_vault_shares(&vault), Ok(10_000));
    assert_eq!(a.last_withdraw_request_shares, 3000);

    let (v1, a1) = (vault, a);
    a.apply_rebase(&mut vault, 1000).unwrap();
    assert_eq!(vault, v1);
    assert_eq!(a, a1);
}

#[test]
fn second_request_is_refused() {
    let mut vault = empty_vault();
    let mut a = depositor();
    a.deposit(1000, 0, &mut vault, 10).unwrap();
    a.request_withdraw(100, 1000, &mut vault, 20).unwrap();
    let (v0, a0) = (vault, a);
    for n in [0u128, 1, 100, 900, 5000] {
        assert_eq!(
            a.request_withdraw(n, 1000, &mut vault, 30),
            Err(ErrorCode::RequestAlreadyInProgress)
        );
    }
    assert_eq!(vault, v0);
    assert_eq!(a, a0);
}

#[test]
fn redeem_period_boundary() {
    let mut vault = empty_vault();
    let mut a = depositor();
    a.deposit(1000, 0, &mut vault, 10).unwrap();
    a.request_withdraw(400, 1000, &mut vault, 50).unwrap();
    let (v0, a0) = (vault, a);
    assert_eq!(
        a.withdraw(1000, [8u8; 32], &mut vault, 50 + REDEEM_PERIOD - 1),
        Err(ErrorCode::RedeemPeriodNotElapsed)
    );
    assert_eq!(vault, v0);
    assert_eq!(a, a0);
    let (paid, _) = a.withdraw(1000, [8u8; 32], &mut vault, 50 + REDEEM_PERIOD).unwrap();
    assert_eq!(paid, 400);
}

#[test]
fn holdings_never_worth_more_than_pool() {
    let mut vault = empty_vault();
    let mut a = depositor();
    let mut b = depositor();
    let mut c = depositor();
    a.deposit(1000, 0, &mut vault, 1).unwrap();
    b.deposit(333, 1000, &mut vault, 2).unwrap();
    c.deposit(1, 1333, &mut vault, 3).unwrap();
    let pool_value: u64 = 1000;
    let total = vault.total_shares;
    assert_eq!(total, a.unchecked_vault_shares() + b.unchecked_vault_shares() + c.unchecked_vault_shares());
    let sum: u64 = [a, b, c]
        .iter()
        .map(|d| amount_for_shares(d.unchecked_vault_shares(), total, pool_value).unwrap())
        .sum();
    assert!(sum <= pool_value);
}

#[test]
fn cancel_forfeits_upside_shares() {
    let mut vault = empty_vault();
    let mut a = depositor();
    a.deposit(1000, 0, &mut vault, 10).unwrap();
    a.request_withdraw(500, 2000, &mut vault, 20).unwrap();
    assert_eq!(a.calculate_vault_shares_lost(&vault, 4000), Ok(334));
    let rec = a.cancel_withdraw_request(4000, &mut vault, 30).unwrap();
    assert_eq!(rec.action, VaultDepositorAction::CancelWithdrawRequest);
    assert_eq!(rec.amount, 0);
    assert_eq!(rec.vault_shares_before, 1000);
    assert_eq!(rec.vault_shares_after, 666);
    assert_eq!(vault.total_shares, 666);
    assert_eq!(vault.user_shares, 666);
    assert_eq!(a.last_withdraw_request_shares, 500);
}

#[test]
fn cancel_after_value_drop_forfeits_nothing() {
    let mut vault = empty_vault();
    let mut a = depositor();
    a.deposit(1000, 0, &mut vault, 10).unwrap();
    a.request_withdraw(500, 2000, &mut vault, 20).unwrap();
    a.cancel_withdraw_request(1500, &mut vault, 30).unwrap();
    assert_eq!(vault.total_shares, 1000);
    assert_eq!(a.checked_vault_shares(&vault), Ok(1000));
}

#[test]
fn deposit_into_valueless_pool_with_shares_is_refused() {
    let mut vault = empty_vault();
    vault.total_shares = 10;
    let mut a = depositor();
    assert_eq!(a.deposit(5, 0, &mut vault, 1), Err(ErrorCode::InvalidDepositIntoEmptyVault));
}

#[test]
fn depositor_ahead_of_pool_is_refused() {
    let mut vault = empty_vault();
    let mut a = depositor();
    a.vault_shares_base = 3;
    assert_eq!(a.deposit(5, 0, &mut vault, 1), Err(ErrorCode::InvalidRebase));
    assert_eq!(a.checked_vault_shares(&vault), Err(ErrorCode::InvalidRebase));
    assert_eq!(a.increase_vault_shares(1, &vault), Err(ErrorCode::InvalidRebase));
}

#[test]
fn withdraw_size_errors() {
    let mut vault = empty_vault();
    let mut a = depositor();
    a.deposit(1000, 0, &mut vault, 10).unwrap();
    assert_eq!(a.request_withdraw(0, 1000, &mut vault, 20), Err(ErrorCode::InvalidWithdrawSize));
    assert_eq!(a.request_withdraw(1001, 1000, &mut vault, 20), Err(ErrorCode::InvalidWithdrawSize));
    assert_eq!(a.last_withdraw_request_shares, 0);
}

#[test]
fn request_of_whole_pool_is_capped_below_pool_value() {
    let mut vault = empty_vault();
    let mut a = depositor();
    a.deposit(1000, 0, &mut vault, 10).unwrap();
    let (locked, _) = a.request_withdraw(1000, 1000, &mut vault, 20).unwrap();
    assert_eq!(locked, 999);
}

#[test]
fn withdraw_without_request_is_refused() {
    let mut vault = empty_vault();
    let mut a = depositor();
    a.deposit(1000, 0, &mut vault, 10).unwrap();
    assert_eq!(
        a.withdraw(1000, [8u8; 32], &mut vault, 10 + REDEEM_PERIOD),
        Err(ErrorCode::NoActiveRequest)
    );
}

#[test]
fn withdraw_with_too_few_shares_is_refused() {
    let mut vault = empty_vault();
    let mut a = depositor();
    a.deposit(1000, 0, &mut vault, 10).unwrap();
    a.request_withdraw(800, 1000, &mut vault, 20).unwrap();
    a.decrease_vault_shares(300, &vault).unwrap();
    assert_eq!(
        a.withdraw(1000, [8u8; 32], &mut vault, 20 + REDEEM_PERIOD),
        Err(ErrorCode::InsufficientShares)
    );
}

#[test]
fn share_conversions_are_exact() {
    assert_eq!(shares_for_amount(1000, 0, 0), Ok(1000));
    assert_eq!(shares_for_amount(1000, 10, 0), Err(ErrorCode::ArithmeticError));
    assert_eq!(shares_for_amount(10, 3, 4), Ok(7));
    assert_eq!(
        shares_for_amount(1000, 1_000_000_000_000_000_000_000_000_000_000, 7),
        Ok(142857142857142857142857142857142)
    );
    assert_eq!(shares_for_amount(u64::MAX, u128::MAX, 1), Err(ErrorCode::ArithmeticError));

    assert_eq!(amount_for_shares(5, 4, 100), Err(ErrorCode::ArithmeticError));
    assert_eq!(amount_for_shares(0, 0, 100), Ok(0));
    assert_eq!(amount_for_shares(1, 3, 10), Ok(3));
    assert_eq!(amount_for_shares(u128::MAX / 2, u128::MAX, u64::MAX), Ok(9223372036854775807));
    assert_eq!(amount_for_shares(u128::MAX - 5, u128::MAX, u64::MAX), Ok(18446744073709551614));
    assert_eq!(
        amount_for_shares(
            123456789012345678901234567890,
            987654321098765432109876543210,
            18446744073709551557
        ),
        Ok(2305842988201699523)
    );
}

#[test]
fn rebase_info_values() {
    assert_eq!(calculate_rebase_info(1_000_000_000_000, 1000), Ok((8, 100_000_000)));
    assert_eq!(calculate_rebase_info(5, 3), Ok((0, 1)));
    assert_eq!(calculate_rebase_info(999_999, 1), Ok((4, 10_000)));
    assert_eq!(calculate_rebase_info(5, 0), Err(ErrorCode::ArithmeticError));
}

#[test]
fn signer_seeds() {
    let name = [9u8; 32];
    let bump = 254u8;
    let seeds = Vault::get_vault_signer_seeds(&name, &bump);
    assert_eq!(seeds[0], b"vault");
    assert_eq!(seeds[1], &name[..]);
    assert_eq!(seeds[2], &[254u8][..]);
}

#[test]
fn full_withdrawal_after_value_rise_pays_locked_value() {
    let mut vault = empty_vault();
    let mut a = depositor();
    a.deposit(1000, 0, &mut vault, 10).unwrap();
    let (locked, _) = a.request_withdraw(1000, 2001, &mut vault, 20).unwrap();
    assert_eq!(locked, 2000);
    let (paid, _) = a.withdraw(5000, [8u8; 32], &mut vault, 20 + REDEEM_PERIOD).unwrap();
    assert_eq!(paid, 2000);
    assert_eq!(vault.total_shares, 0);
    assert_eq!(a.unchecked_vault_shares(), 0);
}

#[test]
fn full_withdrawal_at_unchanged_value_pays_capped_value() {
    let mut vault = empty_vault();
    let mut a = depositor();
    a.deposit(1000, 0, &mut vault, 10).unwrap();
    let (locked, _) = a.request_withdraw(1000, 1000, &mut vault, 20).unwrap();
    assert_eq!(locked, 999);
    let (paid, _) = a.withdraw(1000, [8u8; 32], &mut vault, 20 + REDEEM_PERIOD).unwrap();
    assert_eq!(paid, 999);
}

fn lagging_pair() -> (Vault, VaultDepositor) {
    let mut vault = empty_vault();
    vault.total_shares = 1_000_000_000_000;
    vault.user_shares = 1_000_000_000_000;
    let mut a = depositor();
    a.update_vault_shares(1_000_000_000_000, &vault).unwrap();
    (vault, a)
}

#[test]
fn request_counts_shares_after_reconciling() {
    let (mut vault, mut a) = lagging_pair();
    let (locked, _) = a.request_withdraw(5000, 1000, &mut vault, 20).unwrap();
    assert_eq!(vault.shares_base, 8);
    assert_eq!(a.vault_shares_base, 8);
    assert_eq!(a.checked_vault_shares(&vault), Ok(10_000));
    assert_eq!(a.last_withdraw_request_shares, 5000);
    assert_eq!(locked, 500);
}

#[test]
fn request_above_reconciled_shares_is_refused() {
    let (mut vault, mut a) = lagging_pair();
    let (v0, a0) = (vault, a);
    assert_eq!(
        a.request_withdraw(50_000, 1000, &mut vault, 20),
        Err(ErrorCode::InvalidWithdrawSize)
    );
    assert_eq!(vault, v0);
    assert_eq!(a, a0);
}
