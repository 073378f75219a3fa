use vstd::prelude::*;

use crate::error::ErrorCode;
use crate::events::{VaultDepositorAction, VaultDepositorRecord};
use crate::math::{
    amount_for_shares, amount_for_shares_spec, pow10, pow10_u128, shares_for_amount,
    shares_for_amount_spec,
};
use crate::vault::{
    lemma_rebase_idempotent, lemma_rebase_keeps_well_formed, rebase_fits, rebased,
    vault_well_formed, Address, Vault,
};

verus! {

/// The per-depositor ledger of one pool.
///
/// `vault_shares` counts in units of `10^vault_shares_base`; it means
/// something only once `vault_shares_base` equals the pool's `shares_base`,
/// which every operation first brings about through `apply_rebase`.
#[derive(Clone, Copy, Debug, PartialEq, Eq)]
pub struct VaultDepositor {
    /// The vault deposited into.
    pub vault: Address,
    /// This ledger's own address.
    pub pubkey: Address,
    /// Who may deposit and withdraw.
    pub authority: Address,
    /// Shares of the vault owned by this depositor.
    pub vault_shares: u128,
    /// Decimal exponent that `vault_shares` counts in.
    pub vault_shares_base: u32,
    /// Shares requested for withdrawal; zero when no request is pending.
    pub last_withdraw_request_shares: u128,
    /// Value of the requested shares when the request was made: the most a
    /// withdrawal can pay out.
    pub last_withdraw_request_value: u64,
    /// When the last withdrawal was requested or finalized.
    pub last_withdraw_request_ts: i64,
    /// When this ledger was created.
    pub last_valid_ts: i64,
    /// Net value deposited over the depositor's lifetime.
    pub cost_basis: i64,
}

/// Whether a depositor can be brought to the exponent the pool has after a
/// rebase against `pool_value`.
pub open spec fn depositor_rebase_ok(d: VaultDepositor, v: Vault, pool_value: u64) -> bool {
    rebase_fits(v, pool_value) && {
        let v1 = rebased(v, pool_value);
        d.vault_shares_base <= v1.shares_base <= u32::MAX && v1.shares_base
            - d.vault_shares_base <= 38
    }
}

/// The error a failed depositor rebase gives.
pub open spec fn depositor_rebase_error(d: VaultDepositor, v: Vault, pool_value: u64) -> ErrorCode {
    if !rebase_fits(v, pool_value) {
        ErrorCode::ArithmeticError
    } else {
        ErrorCode::InvalidRebase
    }
}

/// The depositor brought to the exponent of the (already rebased) pool `v1`:
/// its share counts divided by ten to the power of the exponent gap.
pub open spec fn rebased_depositor(d: VaultDepositor, v1: Vault) -> VaultDepositor {
    if v1.shares_base == d.vault_shares_base {
        d
    } else {
        let divisor = pow10((v1.shares_base - d.vault_shares_base) as nat);
        VaultDepositor {
            vault_shares: (d.vault_shares / (divisor as u128)) as u128,
            last_withdraw_request_shares: (d.last_withdraw_request_shares / (divisor as u128)) as u128,
            vault_shares_base: v1.shares_base as u32,
            ..d
        }
    }
}

/// The record of an operation on a depositor whose share count was
/// `d_before` against the (rebased) pool `v_before`, and `d_after` against
/// `v_after` once the operation was done.
pub open spec fn record_spec(
    action: VaultDepositorAction,
    ts: i64,
    user_authority: Address,
    amount: u64,
    pool_value: u64,
    d_before: u128,
    v_before: Vault,
    d_after: u128,
    v_after: Vault,
) -> VaultDepositorRecord {
    VaultDepositorRecord {
        ts,
        vault: v_before.pubkey,
        user_authority,
        action,
        amount,
        spot_market_index: v_before.spot_market_index,
        vault_amount_before: pool_value,
        vault_shares_before: d_before,
        user_vault_shares_before: v_before.user_shares,
        total_vault_shares_before: v_before.total_shares,
        vault_shares_after: d_after,
        total_vault_shares_after: v_after.total_shares,
        user_vault_shares_after: v_after.user_shares,
    }
}

/// Shares forfeited when a pending request is cancelled against `pool_value`:
/// none when the requested shares are worth no more than the value locked in
/// at request time; otherwise the requested shares less those that the
/// locked-in value would buy from the rest of the pool.
pub open spec fn shares_lost_spec(d: VaultDepositor, v: Vault, pool_value: u64) -> Result<
    u128,
    ErrorCode,
> {
    let n = d.last_withdraw_request_shares;
    let locked = d.last_withdraw_request_value;
    if n > v.total_shares {
        Err(ErrorCode::ArithmeticError)
    } else if amount_for_shares_spec(n as int, v.total_shares as int, pool_value as int) <= locked {
        Ok(0)
    } else {
        let new_n = shares_for_amount_spec(
            locked as int,
            v.total_shares - n,
            pool_value - locked,
        );
        if new_n > u128::MAX {
            Err(ErrorCode::ArithmeticError)
        } else if new_n > n {
            Err(ErrorCode::InvalidSharesDetected)
        } else {
            Ok((n - new_n) as u128)
        }
    }
}

/// Outcome of a deposit of `amount` into a pool worth `pool_value`: the new
/// depositor and pool ledgers and the record, or the error.
pub open spec fn deposit_spec(
    d: VaultDepositor,
    v: Vault,
    amount: u64,
    pool_value: u64,
    now: i64,
) -> Result<(VaultDepositor, Vault, VaultDepositorRecord), ErrorCode> {
    if pool_value == 0 && v.total_shares != 0 {
        Err(ErrorCode::InvalidDepositIntoEmptyVault)
    } else if !depositor_rebase_ok(d, v, pool_value) {
        Err(depositor_rebase_error(d, v, pool_value))
    } else {
        let v1 = rebased(v, pool_value);
        let d1 = rebased_depositor(d, v1);
        let n = shares_for_amount_spec(amount as int, v1.total_shares as int, pool_value as int);
        let cost_basis = if d1.vault_shares == 0 {
            amount as int
        } else {
            d1.cost_basis + amount
        };
        if n > u128::MAX || amount > i64::MAX || cost_basis > i64::MAX || d1.vault_shares + n
            > u128::MAX || v1.total_shares + n > u128::MAX || v1.user_shares + n > u128::MAX {
            Err(ErrorCode::ArithmeticError)
        } else {
            let d2 = VaultDepositor {
                vault_shares: (d1.vault_shares + n) as u128,
                cost_basis: cost_basis as i64,
                ..d1
            };
            let v2 = Vault {
                total_shares: (v1.total_shares + n) as u128,
                user_shares: (v1.user_shares + n) as u128,
                ..v1
            };
            Ok(
                (
                    d2,
                    v2,
                    record_spec(
                        VaultDepositorAction::Deposit,
                        now,
                        d.authority,
                        amount,
                        pool_value,
                        d1.vault_shares,
                        v1,
                        d2.vault_shares,
                        v2,
                    ),
                ),
            )
        }
    }
}

/// Outcome of a request to withdraw `n_shares` from a pool worth `pool_value`:
/// the value locked in is what the shares are worth now, but strictly less
/// than the whole pool.
pub open spec fn request_withdraw_spec(
    d: VaultDepositor,
    v: Vault,
    n_shares: u128,
    pool_value: u64,
    now: i64,
) -> Result<(VaultDepositor, Vault, VaultDepositorRecord), ErrorCode> {
    if d.last_withdraw_request_shares != 0 {
        Err(ErrorCode::RequestAlreadyInProgress)
    } else if n_shares == 0 {
        Err(ErrorCode::InvalidWithdrawSize)
    } else {
        if !depositor_rebase_ok(d, v, pool_value) {
            Err(depositor_rebase_error(d, v, pool_value))
        } else {
            let v1 = rebased(v, pool_value);
            let d1 = rebased_depositor(d, v1);
            if n_shares > d1.vault_shares {
                Err(ErrorCode::InvalidWithdrawSize)
            } else if n_shares > v1.total_shares {
                Err(ErrorCode::ArithmeticError)
            } else {
                let worth = amount_for_shares_spec(
                    n_shares as int,
                    v1.total_shares as int,
                    pool_value as int,
                );
                let cap = if pool_value == 0 {
                    0
                } else {
                    pool_value - 1
                };
                let locked = if worth < cap {
                    worth
                } else {
                    cap
                };
                let d2 = VaultDepositor {
                    last_withdraw_request_shares: n_shares,
                    last_withdraw_request_value: locked as u64,
                    last_withdraw_request_ts: now,
                    ..d1
                };
                Ok(
                    (
                        d2,
                        v1,
                        record_spec(
                            VaultDepositorAction::WithdrawRequest,
                            now,
                            d.authority,
                            locked as u64,
                            pool_value,
                            d1.vault_shares,
                            v1,
                            d1.vault_shares,
                            v1,
                        ),
                    ),
                )
            }
        }
    }
}

/// Outcome of cancelling against `pool_value`: the forfeited shares leave
/// both the depositor and the pool; the pending request itself stays.
pub open spec fn cancel_withdraw_request_spec(
    d: VaultDepositor,
    v: Vault,
    pool_value: u64,
    now: i64,
) -> Result<(VaultDepositor, Vault, VaultDepositorRecord), ErrorCode> {
    if !depositor_rebase_ok(d, v, pool_value) {
        Err(depositor_rebase_error(d, v, pool_value))
    } else {
        let v1 = rebased(v, pool_value);
        let d1 = rebased_depositor(d, v1);
        match shares_lost_spec(d1, v1, pool_value) {
            Err(e) => Err(e),
            Ok(lost) => {
                if lost > d1.vault_shares || lost > v1.total_shares || lost > v1.user_shares {
                    Err(ErrorCode::ArithmeticError)
                } else {
                    let d2 = VaultDepositor { vault_shares: (d1.vault_shares - lost) as u128, ..d1 };
                    let v2 = Vault {
                        total_shares: (v1.total_shares - lost) as u128,
                        user_shares: (v1.user_shares - lost) as u128,
                        ..v1
                    };
                    Ok(
                        (
                            d2,
                            v2,
                            record_spec(
                                VaultDepositorAction::CancelWithdrawRequest,
                                now,
                                d.authority,
                                0,
                                pool_value,
                                d1.vault_shares,
                                v1,
                                d2.vault_shares,
                                v2,
                            ),
                        ),
                    )
                }
            },
        }
    }
}

/// Outcome of finalizing the pending withdrawal against `pool_value` at
/// `now`: the requested shares leave both ledgers and the payout is the
/// lesser of what they are worth now and the value locked in at request time.
pub open spec fn withdraw_spec(
    d: VaultDepositor,
    v: Vault,
    pool_value: u64,
    user_authority: Address,
    now: i64,
) -> Result<(VaultDepositor, Vault, VaultDepositorRecord), ErrorCode> {
    let elapsed = now - d.last_withdraw_request_ts;
    if elapsed < i64::MIN || elapsed > i64::MAX {
        Err(ErrorCode::ArithmeticError)
    } else if elapsed < v.redeem_period {
        Err(ErrorCode::RedeemPeriodNotElapsed)
    } else if !depositor_rebase_ok(d, v, pool_value) {
        Err(depositor_rebase_error(d, v, pool_value))
    } else {
        let v1 = rebased(v, pool_value);
        let d1 = rebased_depositor(d, v1);
        let n = d1.last_withdraw_request_shares;
        if n == 0 {
            Err(ErrorCode::NoActiveRequest)
        } else if d1.vault_shares < n {
            Err(ErrorCode::InsufficientShares)
        } else if n > v1.total_shares {
            Err(ErrorCode::ArithmeticError)
        } else {
            let worth = amount_for_shares_spec(
                n as int,
                v1.total_shares as int,
                pool_value as int,
            );
            let payout = if worth < d1.last_withdraw_request_value {
                worth
            } else {
                d1.last_withdraw_request_value as int
            };
            let cost_basis = d1.cost_basis - payout;
            if payout > i64::MAX || cost_basis < i64::MIN || n > v1.user_shares {
                Err(ErrorCode::ArithmeticError)
            } else {
                let d2 = VaultDepositor {
                    vault_shares: (d1.vault_shares - n) as u128,
                    cost_basis: cost_basis as i64,
                    last_withdraw_request_shares: 0,
                    last_withdraw_request_value: 0,
                    last_withdraw_request_ts: now,
                    ..d1
                };
                let v2 = Vault {
                    total_shares: (v1.total_shares - n) as u128,
                    user_shares: (v1.user_shares - n) as u128,
                    ..v1
                };
                Ok(
                    (
                        d2,
                        v2,
                        record_spec(
                            VaultDepositorAction::Withdraw,
                            now,
                            user_authority,
                            payout as u64,
                            pool_value,
                            d1.vault_shares,
                            v1,
                            d2.vault_shares,
                            v2,
                        ),
                    ),
                )
            }
        }
    }
}

fn make_record(
    action: VaultDepositorAction,
    ts: i64,
    user_authority: Address,
    amount: u64,
    pool_value: u64,
    d_before: u128,
    v_before: &Vault,
    d_after: u128,
    v_after: &Vault,
) -> (r: VaultDepositorRecord)
    ensures
        r == record_spec(
            action,
            ts,
            user_authority,
            amount,
            pool_value,
            d_before,
            *v_before,
            d_after,
            *v_after,
        ),
{
    VaultDepositorRecord {
        ts,
        vault: v_before.pubkey,
        user_authority,
        action,
        amount,
        spot_market_index: v_before.spot_market_index,
        vault_amount_before: pool_value,
        vault_shares_before: d_before,
        user_vault_shares_before: v_before.user_shares,
        total_vault_shares_before: v_before.total_shares,
        vault_shares_after: d_after,
        total_vault_shares_after: v_after.total_shares,
        user_vault_shares_after: v_after.user_shares,
    }
}

impl VaultDepositor {
    /// A fresh ledger for `authority` in `vault`, created at `now`, holding nothing.
    pub fn new(vault: Address, pubkey: Address, authority: Address, now: i64) -> (r: VaultDepositor)
        ensures
            r.vault == vault,
            r.pubkey == pubkey,
            r.authority == authority,
            r.vault_shares == 0,
            r.vault_shares_base == 0,
            r.last_withdraw_request_shares == 0,
            r.last_withdraw_request_value == 0,
            r.last_withdraw_request_ts == 0,
            r.last_valid_ts == now,
            r.cost_basis == 0,
    {
        VaultDepositor {
            vault,
            pubkey,
            authority,
            vault_shares: 0,
            vault_shares_base: 0,
            last_withdraw_request_shares: 0,
            last_withdraw_request_value: 0,
            last_withdraw_request_ts: 0,
            last_valid_ts: now,
            cost_basis: 0,
        }
    }

    fn validate_base(&self, vault: &Vault) -> (r: Result<(), ErrorCode>)
        ensures
            r is Ok <==> self.vault_shares_base == vault.shares_base,
            r is Err ==> r == Err::<(), ErrorCode>(ErrorCode::InvalidRebase),
    {
        if self.vault_shares_base as u128 == vault.shares_base {
            Ok(())
        } else {
            Err(ErrorCode::InvalidRebase)
        }
    }

    /// The depositor's shares, provided they count in the pool's exponent.
    pub fn checked_vault_shares(&self, vault: &Vault) -> (r: Result<u128, ErrorCode>)
        ensures
            self.vault_shares_base == vault.shares_base ==> r == Ok::<u128, ErrorCode>(
                self.vault_shares,
            ),
            self.vault_shares_base != vault.shares_base ==> r == Err::<u128, ErrorCode>(
                ErrorCode::InvalidRebase,
            ),
    {
        self.validate_base(vault)?;
        Ok(self.vault_shares)
    }

    /// The depositor's shares in whatever exponent they were last counted in.
    pub fn unchecked_vault_shares(&self) -> (r: u128)
        ensures
            r == self.vault_shares,
    {
        self.vault_shares
    }

    /// Adds `delta` shares, provided the exponents match and the sum fits.
    pub fn increase_vault_shares(&mut self, delta: u128, vault: &Vault) -> (r: Result<(), ErrorCode>)
        ensures
            r is Ok <==> old(self).vault_shares_base == vault.shares_base
                && old(self).vault_shares + delta <= u128::MAX,
            r is Ok ==> *final(self) == (VaultDepositor {
                vault_shares: (old(self).vault_shares + delta) as u128,
                ..*old(self)
            }),
            r is Err ==> *final(self) == *old(self),
            old(self).vault_shares_base != vault.shares_base ==> r == Err::<(), ErrorCode>(
                ErrorCode::InvalidRebase,
            ),
            old(self).vault_shares_base == vault.shares_base && old(self).vault_shares + delta
                > u128::MAX ==> r == Err::<(), ErrorCode>(ErrorCode::ArithmeticError),
    {
        self.validate_base(vault)?;
        match self.vault_shares.checked_add(delta) {
            Some(s) => {
                self.vault_shares = s;
                Ok(())
            },
            None => Err(ErrorCode::ArithmeticError),
        }
    }

    /// Removes `delta` shares, provided the exponents match and enough are held.
    pub fn decrease_vault_shares(&mut self, delta: u128, vault: &Vault) -> (r: Result<(), ErrorCode>)
        ensures
            r is Ok <==> old(self).vault_shares_base == vault.shares_base && delta
                <= old(self).vault_shares,
            r is Ok ==> *final(self) == (VaultDepositor {
                vault_shares: (old(self).vault_shares - delta) as u128,
                ..*old(self)
            }),
            r is Err ==> *final(self) == *old(self),
            old(self).vault_shares_base != vault.shares_base ==> r == Err::<(), ErrorCode>(
                ErrorCode::InvalidRebase,
            ),
            old(self).vault_shares_base == vault.shares_base && delta > old(self).vault_shares
                ==> r == Err::<(), ErrorCode>(ErrorCode::ArithmeticError),
    {
        self.validate_base(vault)?;
        match self.vault_shares.checked_sub(delta) {
            Some(s) => {
                self.vault_shares = s;
                Ok(())
            },
            None => Err(ErrorCode::ArithmeticError),
        }
    }

    /// Sets the share count, provided the exponents match.
    pub fn update_vault_shares(&mut self, new_shares: u128, vault: &Vault) -> (r: Result<
        (),
        ErrorCode,
    >)
        ensures
            r is Ok <==> old(self).vault_shares_base == vault.shares_base,
            r is Ok ==> *final(self) == (VaultDepositor { vault_shares: new_shares, ..*old(self) }),
            r is Err ==> *final(self) == *old(self) && r == Err::<(), ErrorCode>(
                ErrorCode::InvalidRebase,
            ),
    {
        self.validate_base(vault)?;
        self.vault_shares = new_shares;
        Ok(())
    }

    /// Rebases the pool against `vault_equity`, then brings this depositor to
    /// the pool's exponent. All or nothing: on failure neither ledger changes.
    pub fn apply_rebase(&mut self, vault: &mut Vault, vault_equity: u64) -> (r: Result<
        (),
        ErrorCode,
    >)
        ensures
            r is Ok <==> depositor_rebase_ok(*old(self), *old(vault), vault_equity),
            r is Ok ==> *final(vault) == rebased(*old(vault), vault_equity) && *final(self)
                == rebased_depositor(*old(self), *final(vault)),
            r is Err ==> *final(vault) == *old(vault) && *final(self) == *old(self) && r
                == Err::<(), ErrorCode>(depositor_rebase_error(*old(self), *old(vault), vault_equity)),
    {
        let mut v: Vault = *vault;
        v.apply_rebase(vault_equity)?;
        if v.shares_base != self.vault_shares_base as u128 {
            if v.shares_base < self.vault_shares_base as u128 || v.shares_base > u32::MAX as u128 {
                return Err(ErrorCode::InvalidRebase);
            }
            let expo_diff: u128 = v.shares_base - self.vault_shares_base as u128;
            if expo_diff > 38 {
                return Err(ErrorCode::InvalidRebase);
            }
            let rebase_divisor = pow10_u128(expo_diff as u32);
            proof {
                crate::math::lemma_pow10_monotonic(0, expo_diff as nat);
            }
            self.vault_shares_base = v.shares_base as u32;
            self.vault_shares = self.vault_shares / rebase_divisor;
            self.last_withdraw_request_shares = self.last_withdraw_request_shares / rebase_divisor;
        }
        *vault = v;
        Ok(())
    }

    /// Shares this depositor forfeits if the pending request is cancelled
    /// while the pool is worth `vault_balance`.
    pub fn calculate_vault_shares_lost(&self, vault: &Vault, vault_balance: u64) -> (r: Result<
        u128,
        ErrorCode,
    >)
        ensures
            r == shares_lost_spec(*self, *vault, vault_balance),
    {
        let n_shares = self.last_withdraw_request_shares;
        let amount = amount_for_shares(n_shares, vault.total_shares, vault_balance)?;
        if amount > self.last_withdraw_request_value {
            let new_n_shares = shares_for_amount(
                self.last_withdraw_request_value,
                vault.total_shares - n_shares,
                vault_balance - self.last_withdraw_request_value,
            )?;
            if new_n_shares > n_shares {
                return Err(ErrorCode::InvalidSharesDetected);
            }
            Ok(n_shares - new_n_shares)
        } else {
            Ok(0)
        }
    }

    /// Deposits `amount` into a pool worth `vault_equity`: mints shares at the
    /// current price (one per unit into a pool with no shares) and adds them
    /// to both ledgers. All or nothing.
    pub fn deposit(&mut self, amount: u64, vault_equity: u64, vault: &mut Vault, now: i64) -> (r:
        Result<VaultDepositorRecord, ErrorCode>)
        ensures
            match deposit_spec(*old(self), *old(vault), amount, vault_equity, now) {
                Ok(o) => r == Ok::<VaultDepositorRecord, ErrorCode>(o.2) && *final(self) == o.0
                    && *final(vault) == o.1,
                Err(e) => r == Err::<VaultDepositorRecord, ErrorCode>(e) && *final(self)
                    == *old(self) && *final(vault) == *old(vault),
            },
    {
        if vault_equity == 0 && vault.total_shares != 0 {
            return Err(ErrorCode::InvalidDepositIntoEmptyVault);
        }
        let mut d: VaultDepositor = *self;
        let mut v: Vault = *vault;
        d.apply_rebase(&mut v, vault_equity)?;
        let vault_shares_before = d.checked_vault_shares(&v)?;
        let vault_before: Vault = v;
        let n_shares = shares_for_amount(amount, v.total_shares, vault_equity)?;
        if amount > i64::MAX as u64 {
            return Err(ErrorCode::ArithmeticError);
        }
        d.cost_basis = if vault_shares_before == 0 {
            amount as i64
        } else {
            match d.cost_basis.checked_add(amount as i64) {
                Some(c) => c,
                None => return Err(ErrorCode::ArithmeticError),
            }
        };
        d.increase_vault_shares(n_shares, &v)?;
        v.total_shares = match v.total_shares.checked_add(n_shares) {
            Some(t) => t,
            None => return Err(ErrorCode::ArithmeticError),
        };
        v.user_shares = match v.user_shares.checked_add(n_shares) {
            Some(u) => u,
            None => return Err(ErrorCode::ArithmeticError),
        };
        let vault_shares_after = d.checked_vault_shares(&v)?;
        let record = make_record(
            VaultDepositorAction::Deposit,
            now,
            d.authority,
            amount,
            vault_equity,
            vault_shares_before,
            &vault_before,
            vault_shares_after,
            &v,
        );
        *self = d;
        *vault = v;
        Ok(record)
    }

    /// Requests withdrawal of `n_shares` from a pool worth `vault_equity`,
    /// locking in their current value (strictly below the pool's value) as
    /// the most the withdrawal can pay. Returns the locked-in value and the
    /// record. All or nothing.
    pub fn request_withdraw(
        &mut self,
        n_shares: u128,
        vault_equity: u64,
        vault: &mut Vault,
        now: i64,
    ) -> (r: Result<(u64, VaultDepositorRecord), ErrorCode>)
        ensures
            match request_withdraw_spec(*old(self), *old(vault), n_shares, vault_equity, now) {
                Ok(o) => r == Ok::<(u64, VaultDepositorRecord), ErrorCode>(
                    (o.0.last_withdraw_request_value, o.2),
                ) && *final(self) == o.0 && *final(vault) == o.1,
                Err(e) => r == Err::<(u64, VaultDepositorRecord), ErrorCode>(e) && *final(self)
                    == *old(self) && *final(vault) == *old(vault),
            },
    {
        if self.last_withdraw_request_shares != 0 {
            return Err(ErrorCode::RequestAlreadyInProgress);
        }
        if n_shares == 0 {
            return Err(ErrorCode::InvalidWithdrawSize);
        }
        let mut d: VaultDepositor = *self;
        let mut v: Vault = *vault;
        d.apply_rebase(&mut v, vault_equity)?;
        let vault_shares_before = d.checked_vault_shares(&v)?;
        if n_shares > vault_shares_before {
            return Err(ErrorCode::InvalidWithdrawSize);
        }
        d.validate_base(&v)?;
        let worth = amount_for_shares(n_shares, v.total_shares, vault_equity)?;
        let cap = vault_equity.saturating_sub(1);
        let locked = if worth < cap {
            worth
        } else {
            cap
        };
        if !(locked == 0 || locked < vault_equity) {
            return Err(ErrorCode::InvalidWithdrawSize);
        }
        d.last_withdraw_request_shares = n_shares;
        d.last_withdraw_request_value = locked;
        let record = make_record(
            VaultDepositorAction::WithdrawRequest,
            now,
            d.authority,
            locked,
            vault_equity,
            vault_shares_before,
            &v,
            vault_shares_before,
            &v,
        );
        d.last_withdraw_request_ts = now;
        *self = d;
        *vault = v;
        Ok((locked, record))
    }

    /// Cancels against a pool worth `vault_equity`: the shares by which the
    /// requested shares are now worth more than the locked-in value are
    /// forfeited from both ledgers, so the depositors who stay are not
    /// diluted. The pending request's fields are left as they are. All or
    /// nothing.
    pub fn cancel_withdraw_request(&mut self, vault_equity: u64, vault: &mut Vault, now: i64) -> (r:
        Result<VaultDepositorRecord, ErrorCode>)
        ensures
            match cancel_withdraw_request_spec(*old(self), *old(vault), vault_equity, now) {
                Ok(o) => r == Ok::<VaultDepositorRecord, ErrorCode>(o.2) && *final(self) == o.0
                    && *final(vault) == o.1,
                Err(e) => r == Err::<VaultDepositorRecord, ErrorCode>(e) && *final(self)
                    == *old(self) && *final(vault) == *old(vault),
            },
    {
        let mut d: VaultDepositor = *self;
        let mut v: Vault = *vault;
        d.apply_rebase(&mut v, vault_equity)?;
        let vault_shares_before = d.checked_vault_shares(&v)?;
        let vault_before: Vault = v;
        d.validate_base(&v)?;
        let vault_shares_lost = d.calculate_vault_shares_lost(&v, vault_equity)?;
        d.decrease_vault_shares(vault_shares_lost, &v)?;
        v.total_shares = match v.total_shares.checked_sub(vault_shares_lost) {
            Some(t) => t,
            None => return Err(ErrorCode::ArithmeticError),
        };
        v.user_shares = match v.user_shares.checked_sub(vault_shares_lost) {
            Some(u) => u,
            None => return Err(ErrorCode::ArithmeticError),
        };
        let vault_shares_after = d.checked_vault_shares(&v)?;
        let record = make_record(
            VaultDepositorAction::CancelWithdrawRequest,
            now,
            d.authority,
            0,
            vault_equity,
            vault_shares_before,
            &vault_before,
            vault_shares_after,
            &v,
        );
        *self = d;
        *vault = v;
        Ok(record)
    }

    /// Finalizes the pending withdrawal against a pool worth `vault_equity`
    /// at `now`, once the redeem period has passed since the request. The
    /// requested shares leave both ledgers; the payout is the lesser of what
    /// they are worth now and the value locked in at request time. Returns the
    /// payout and the record. All or nothing.
    pub fn withdraw(
        &mut self,
        vault_equity: u64,
        user_authority: Address,
        vault: &mut Vault,
        now: i64,
    ) -> (r: Result<(u64, VaultDepositorRecord), ErrorCode>)
        ensures
            match withdraw_spec(*old(self), *old(vault), vault_equity, user_authority, now) {
                Ok(o) => r == Ok::<(u64, VaultDepositorRecord), ErrorCode>((o.2.amount, o.2))
                    && *final(self) == o.0 && *final(vault) == o.1,
                Err(e) => r == Err::<(u64, VaultDepositorRecord), ErrorCode>(e) && *final(self)
                    == *old(self) && *final(vault) == *old(vault),
            },
            r is Ok ==> r->Ok_0.0 <= old(self).last_withdraw_request_value,
    {
        let time_since_withdraw_request = match now.checked_sub(self.last_withdraw_request_ts) {
            Some(t) => t,
            None => return Err(ErrorCode::ArithmeticError),
        };
        if time_since_withdraw_request < vault.redeem_period {
            return Err(ErrorCode::RedeemPeriodNotElapsed);
        }
        let mut d: VaultDepositor = *self;
        let mut v: Vault = *vault;
        d.apply_rebase(&mut v, vault_equity)?;
        let vault_shares_before = d.checked_vault_shares(&v)?;
        let vault_before: Vault = v;
        let n_shares = d.last_withdraw_request_shares;
        if n_shares == 0 {
            return Err(ErrorCode::NoActiveRequest);
        }
        if vault_shares_before < n_shares {
            return Err(ErrorCode::InsufficientShares);
        }
        let amount = amount_for_shares(n_shares, v.total_shares, vault_equity)?;
        let withdraw_amount = if amount < d.last_withdraw_request_value {
            amount
        } else {
            d.last_withdraw_request_value
        };
        d.decrease_vault_shares(n_shares, &v)?;
        if withdraw_amount > i64::MAX as u64 {
            return Err(ErrorCode::ArithmeticError);
        }
        d.cost_basis = match d.cost_basis.checked_sub(withdraw_amount as i64) {
            Some(c) => c,
            None => return Err(ErrorCode::ArithmeticError),
        };
        v.total_shares = match v.total_shares.checked_sub(n_shares) {
            Some(t) => t,
            None => return Err(ErrorCode::ArithmeticError),
        };
        v.user_shares = match v.user_shares.checked_sub(n_shares) {
            Some(u) => u,
            None => return Err(ErrorCode::ArithmeticError),
        };
        d.last_withdraw_request_shares = 0;
        d.last_withdraw_request_value = 0;
        d.last_withdraw_request_ts = now;
        let vault_shares_after = d.checked_vault_shares(&v)?;
        let record = make_record(
            VaultDepositorAction::Withdraw,
            now,
            user_authority,
            withdraw_amount,
            vault_equity,
            vault_shares_before,
            &vault_before,
            vault_shares_after,
            &v,
        );
        *self = d;
        *vault = v;
        Ok((withdraw_amount, record))
    }
}

/// Reconciling a depositor twice against the same pool value changes nothing
/// the second time: both exponents already agree.
pub proof fn lemma_depositor_rebase_idempotent(d: VaultDepositor, v: Vault, pool_value: u64)
    requires
        depositor_rebase_ok(d, v, pool_value),
    ensures
        ({
            let v1 = rebased(v, pool_value);
            let d1 = rebased_depositor(d, v1);
            depositor_rebase_ok(d1, v1, pool_value) && rebased(v1, pool_value) == v1
                && rebased_depositor(d1, rebased(v1, pool_value)) == d1
        }),
{
    lemma_rebase_idempotent(v, pool_value);
}

/// A first deposit into a well-formed pool with no shares outstanding
/// succeeds and mints exactly the amount deposited, for the depositor and
/// for the pool.
pub proof fn lemma_genesis_deposit(
    d: VaultDepositor,
    v: Vault,
    amount: u64,
    pool_value: u64,
    now: i64,
)
    requires
        v.total_shares == 0,
        vault_well_formed(v),
        d.vault_shares_base == v.shares_base,
        d.vault_shares == 0,
        amount <= i64::MAX,
    ensures
        deposit_spec(d, v, amount, pool_value, now) is Ok,
        ({
            let rec = deposit_spec(d, v, amount, pool_value, now)->Ok_0.2;
            rec.vault_shares_after == rec.vault_shares_before + amount
                && rec.total_vault_shares_after == rec.total_vault_shares_before + amount
        }),
{
    let v1 = rebased(v, pool_value);
    if pool_value != 0 {
        assert(v1.total_shares == pool_value);
        assert((amount as int) * (pool_value as int) / (pool_value as int) == amount)
            by (nonlinear_arith)
            requires pool_value > 0;
    }
}

/// Deposits, cancellations and withdrawals move exactly as many shares in the
/// pool's total as in the depositor's balance: the shares of every other
/// holder are left as they were, so depositor shares never outgrow the total.
pub proof fn lemma_other_holders_unchanged(
    d: VaultDepositor,
    v: Vault,
    amount: u64,
    pool_value: u64,
    user_authority: Address,
    now: i64,
)
    ensures
        deposit_spec(d, v, amount, pool_value, now) is Ok ==> {
            let rec = deposit_spec(d, v, amount, pool_value, now)->Ok_0.2;
            rec.total_vault_shares_after - rec.vault_shares_after == rec.total_vault_shares_before
                - rec.vault_shares_before
        },
        cancel_withdraw_request_spec(d, v, pool_value, now) is Ok ==> {
            let rec = cancel_withdraw_request_spec(d, v, pool_value, now)->Ok_0.2;
            rec.total_vault_shares_after - rec.vault_shares_after == rec.total_vault_shares_before
                - rec.vault_shares_before
        },
        withdraw_spec(d, v, pool_value, user_authority, now) is Ok ==> {
            let rec = withdraw_spec(d, v, pool_value, user_authority, now)->Ok_0.2;
            rec.total_vault_shares_after - rec.vault_shares_after == rec.total_vault_shares_before
                - rec.vault_shares_before
        },
{
}

/// A finalized withdrawal pays the lesser of the value locked in at request
/// time and what the requested shares are worth at finalization.
pub proof fn lemma_payout_ceiling(
    d: VaultDepositor,
    v: Vault,
    pool_value: u64,
    user_authority: Address,
    now: i64,
)
    requires
        withdraw_spec(d, v, pool_value, user_authority, now) is Ok,
    ensures
        ({
            let v1 = rebased(v, pool_value);
            let d1 = rebased_depositor(d, v1);
            let payout = withdraw_spec(d, v, pool_value, user_authority, now)->Ok_0.2.amount;
            let worth = amount_for_shares_spec(
                d1.last_withdraw_request_shares as int,
                v1.total_shares as int,
                pool_value as int,
            );
            &&& payout <= d.last_withdraw_request_value
            &&& payout <= worth
            &&& (payout == d.last_withdraw_request_value || payout == worth)
        }),
{
}

/// While a request is pending, every further request is refused as already
/// in progress, whatever number of shares it asks for.
pub proof fn lemma_no_double_request(
    d: VaultDepositor,
    v: Vault,
    n_shares: u128,
    pool_value: u64,
    now: i64,
)
    requires
        d.last_withdraw_request_shares != 0,
    ensures
        request_withdraw_spec(d, v, n_shares, pool_value, now) == Err::<
            (VaultDepositor, Vault, VaultDepositorRecord),
            ErrorCode,
        >(ErrorCode::RequestAlreadyInProgress),
{
}

/// Finalizing exactly one redeem period after the request passes the delay
/// check; one second earlier it is refused as too early.
pub proof fn lemma_redeem_period_boundary(
    d: VaultDepositor,
    v: Vault,
    pool_value: u64,
    user_authority: Address,
)
    requires
        i64::MIN + 1 <= d.last_withdraw_request_ts + v.redeem_period <= i64::MAX,
        i64::MIN <= v.redeem_period - 1,
    ensures
        withdraw_spec(
            d,
            v,
            pool_value,
            user_authority,
            (d.last_withdraw_request_ts + v.redeem_period) as i64,
        ) != Err::<(VaultDepositor, Vault, VaultDepositorRecord), ErrorCode>(
            ErrorCode::RedeemPeriodNotElapsed,
        ),
        withdraw_spec(
            d,
            v,
            pool_value,
            user_authority,
            (d.last_withdraw_request_ts + v.redeem_period - 1) as i64,
        ) == Err::<(VaultDepositor, Vault, VaultDepositorRecord), ErrorCode>(
            ErrorCode::RedeemPeriodNotElapsed,
        ),
{
}

/// Finalizing exactly one redeem period after the request succeeds whenever
/// the pending shares are held, the pool needs no rebase, and the payout and
/// cost basis stay in range.
pub proof fn lemma_finalize_at_boundary_succeeds(
    d: VaultDepositor,
    v: Vault,
    pool_value: u64,
    user_authority: Address,
)
    requires
        i64::MIN <= d.last_withdraw_request_ts + v.redeem_period <= i64::MAX,
        0 < d.last_withdraw_request_shares <= d.vault_shares,
        d.vault_shares <= v.user_shares <= v.total_shares <= pool_value,
        d.vault_shares_base == v.shares_base,
        d.cost_basis >= 0,
        pool_value <= i64::MAX,
    ensures
        withdraw_spec(
            d,
            v,
            pool_value,
            user_authority,
            (d.last_withdraw_request_ts + v.redeem_period) as i64,
        ) is Ok,
{
    let v1 = rebased(v, pool_value);
    assert(v1 == v);
    let n = d.last_withdraw_request_shares;
    assert((n as int) * (pool_value as int) / (v.total_shares as int) <= pool_value)
        by (nonlinear_arith)
        requires n <= v.total_shares, v.total_shares > 0;
}

/// Every operation keeps the pool's invariant. Deposits, requests and
/// withdrawals also keep a pending request within the depositor's shares,
/// and a request leaves exactly the requested shares pending;
/// a cancellation may not, since it forfeits shares but leaves the request.
pub proof fn lemma_operations_keep_invariants(
    d: VaultDepositor,
    v: Vault,
    amount: u64,
    n_shares: u128,
    pool_value: u64,
    user_authority: Address,
    now: i64,
)
    requires
        vault_well_formed(v),
        d.last_withdraw_request_shares <= d.vault_shares,
    ensures
        deposit_spec(d, v, amount, pool_value, now) is Ok ==> {
            let o = deposit_spec(d, v, amount, pool_value, now)->Ok_0;
            vault_well_formed(o.1) && o.0.last_withdraw_request_shares <= o.0.vault_shares
        },
        request_withdraw_spec(d, v, n_shares, pool_value, now) is Ok ==> {
            let o = request_withdraw_spec(d, v, n_shares, pool_value, now)->Ok_0;
            &&& vault_well_formed(o.1)
            &&& o.0.last_withdraw_request_shares == n_shares
            &&& 0 < o.0.last_withdraw_request_shares <= o.0.vault_shares
            &&& o.0.vault_shares_base == o.1.shares_base
        },
        cancel_withdraw_request_spec(d, v, pool_value, now) is Ok ==> vault_well_formed(
            cancel_withdraw_request_spec(d, v, pool_value, now)->Ok_0.1,
        ),
        withdraw_spec(d, v, pool_value, user_authority, now) is Ok ==> {
            let o = withdraw_spec(d, v, pool_value, user_authority, now)->Ok_0;
            vault_well_formed(o.1) && o.0.last_withdraw_request_shares <= o.0.vault_shares
        },
{
    if rebase_fits(v, pool_value) {
        lemma_rebase_keeps_well_formed(v, pool_value);
        let v1 = rebased(v, pool_value);
        if d.vault_shares_base <= v1.shares_base && v1.shares_base != d.vault_shares_base {
            let e = (v1.shares_base - d.vault_shares_base) as nat;
            let dv = pow10(e) as int;
            crate::math::lemma_pow10_monotonic(0, e);
            if e <= 38 {
                crate::math::lemma_pow10_fits(e);
            }
            assert((d.last_withdraw_request_shares as int) / dv <= (d.vault_shares as int) / dv)
                by (nonlinear_arith)
                requires d.last_withdraw_request_shares <= d.vault_shares, dv >= 1;
        }
        let d1 = rebased_depositor(d, v1);
        assert(vault_well_formed(v1));
        if depositor_rebase_ok(d, v, pool_value) {
            assert(d1.last_withdraw_request_shares <= d1.vault_shares);
        }
    }
}

} // verus!
