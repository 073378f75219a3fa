use vstd::prelude::*;

use crate::error::ErrorCode;
use vstd::arithmetic::div_mod::lemma_div_denominator;

use crate::math::{calculate_rebase_info, lemma_log10_bounds, log10_floor, pow10, rebase_exponent};

verus! {

/// A 32-byte account address. The ledger only carries it for provenance.
pub type Address = [u8; 32];

/// The pool ledger: shares outstanding, the decimal exponent they are
/// counted in, and the redemption delay, beside identity fields that the
/// share arithmetic never reads.
#[derive(Clone, Copy, Debug, PartialEq, Eq)]
pub struct Vault {
    /// The name of the vault; its address derives from it.
    pub name: [u8; 32],
    /// The vault's own address.
    pub pubkey: Address,
    /// Who may update the vault's parameters.
    pub authority: Address,
    /// The account that receives tokens between deposits and withdrawals.
    pub token_account: Address,
    /// The statistics account of the vault's trading user.
    pub user_stats: Address,
    /// The vault's trading user.
    pub user: Address,
    /// The market index of the asset the vault is denominated in.
    pub spot_market_index: u16,
    /// The bump of the vault's derived address.
    pub bump: u8,
    pub padding: [u8; 1],
    /// Seconds that must pass between a withdrawal request and its finalization.
    pub redeem_period: i64,
    /// Decimal exponent of the share unit; it only grows.
    pub shares_base: u128,
    /// Shares held by outside depositors.
    pub user_shares: u128,
    /// All shares outstanding.
    pub total_shares: u128,
}

/// The pool's invariant: outside depositors hold no more than all shares.
pub open spec fn vault_well_formed(v: Vault) -> bool {
    v.user_shares <= v.total_shares
}

/// Whether a pool worth `pool_value` has to compress its shares.
pub open spec fn needs_rebase(v: Vault, pool_value: u64) -> bool {
    pool_value != 0 && (pool_value as u128) < v.total_shares
}

/// Whether a rebase against `pool_value` can be carried out: the new exponent
/// must still fit.
pub open spec fn rebase_fits(v: Vault, pool_value: u64) -> bool {
    needs_rebase(v, pool_value) ==> v.shares_base + rebase_exponent(
        v.total_shares as int,
        pool_value as int,
    ) <= u128::MAX
}

/// The pool after a rebase against `pool_value`: share counts divided by
/// `10^e` and the exponent raised by `e` when shares outnumber the value; and
/// when value has come back to a pool with no shares, one share per unit.
pub open spec fn rebased(v: Vault, pool_value: u64) -> Vault {
    let e = rebase_exponent(v.total_shares as int, pool_value as int);
    let v1 = if needs_rebase(v, pool_value) {
        Vault {
            total_shares: (v.total_shares / (pow10(e) as u128)) as u128,
            user_shares: (v.user_shares / (pow10(e) as u128)) as u128,
            shares_base: (v.shares_base + e) as u128,
            ..v
        }
    } else {
        v
    };
    if pool_value != 0 && v1.total_shares == 0 {
        Vault { total_shares: pool_value as u128, ..v1 }
    } else {
        v1
    }
}

/// Relies on bytemuck::bytes_of: a `u8` seen as bytes is that one byte.
#[verifier::external_body]
fn byte_slice<'a>(b: &'a u8) -> (r: &'a [u8])
    ensures
        r@ == seq![*b],
{
    bytemuck::bytes_of(b)
}

impl Vault {
    /// The seeds that sign for the vault: the word `vault`, its name and its bump.
    pub fn get_vault_signer_seeds<'a>(name: &'a [u8], bump: &'a u8) -> (r: [&'a [u8]; 3])
        ensures
            r@[0]@ == seq![118u8, 97u8, 117u8, 108u8, 116u8],
            r@[1]@ == name@,
            r@[2]@ == seq![*bump],
    {
        let prefix: &'static [u8] = "vault".as_bytes();
        proof {
            reveal_strlit("vault");
            vstd::string::is_ascii_spec_bytes("vault");
            assert(prefix@ =~= seq![118u8, 97u8, 117u8, 108u8, 116u8]);
        }
        [prefix, name, byte_slice(bump)]
    }

    /// Compresses the share unit when shares outnumber `vault_balance`, and
    /// re-anchors an emptied pool that holds value again at one share per unit.
    /// Fails, changing nothing, only when the new exponent would not fit.
    pub fn apply_rebase(&mut self, vault_balance: u64) -> (r: Result<(), ErrorCode>)
        ensures
            r is Ok <==> rebase_fits(*old(self), vault_balance),
            r is Ok ==> *final(self) == rebased(*old(self), vault_balance),
            r is Err ==> *final(self) == *old(self) && r == Err::<(), ErrorCode>(
                ErrorCode::ArithmeticError,
            ),
    {
        if vault_balance != 0 && (vault_balance as u128) < self.total_shares {
            let (expo_diff, rebase_divisor) = match calculate_rebase_info(
                self.total_shares,
                vault_balance,
            ) {
                Ok(info) => info,
                Err(e) => return Err(e),
            };
            let new_base = match self.shares_base.checked_add(expo_diff as u128) {
                Some(b) => b,
                None => return Err(ErrorCode::ArithmeticError),
            };
            self.total_shares = self.total_shares / rebase_divisor;
            self.user_shares = self.user_shares / rebase_divisor;
            self.shares_base = new_base;
        }
        if vault_balance != 0 && self.total_shares == 0 {
            self.total_shares = vault_balance as u128;
        }
        Ok(())
    }
}

/// A rebase keeps the pool's invariant.
pub proof fn lemma_rebase_keeps_well_formed(v: Vault, pool_value: u64)
    requires
        vault_well_formed(v),
        rebase_fits(v, pool_value),
    ensures
        vault_well_formed(rebased(v, pool_value)),
{
    if needs_rebase(v, pool_value) {
        let e = rebase_exponent(v.total_shares as int, pool_value as int);
        crate::math::lemma_pow10_monotonic(0, e);
        let dv = pow10(e) as int;
        assert((v.user_shares as int) / dv <= (v.total_shares as int) / dv) by (nonlinear_arith)
            requires v.user_shares <= v.total_shares, dv >= 1;
        lemma_log10_bounds(((v.total_shares as int) / 10 / (pool_value as int)) as nat);
        assert(dv <= v.total_shares) by (nonlinear_arith)
            requires
                dv <= ((v.total_shares as int) / 10 / (pool_value as int)) || dv == 1,
                v.total_shares > pool_value,
                pool_value > 0,
        ;
    }
}

/// Rebasing twice against the same value changes nothing the second time.
pub proof fn lemma_rebase_idempotent(v: Vault, pool_value: u64)
    requires
        rebase_fits(v, pool_value),
    ensures
        rebase_fits(rebased(v, pool_value), pool_value),
        rebased(rebased(v, pool_value), pool_value) == rebased(v, pool_value),
{
    let v1 = rebased(v, pool_value);
    if needs_rebase(v, pool_value) {
        let t = v.total_shares as int;
        let val = pool_value as int;
        let n = t / 10 / val;
        let e = log10_floor(n as nat);
        let dv = pow10(e) as int;
        lemma_log10_bounds(n as nat);
        reveal_with_fuel(pow10, 2);
        assert(dv >= 1) by {
            crate::math::lemma_pow10_monotonic(0, e);
        }
        assert(n <= t) by (nonlinear_arith)
            requires n == t / 10 / val, t >= 0, val >= 1;
        assert(dv <= t);
        let t1 = t / dv;
        assert(t1 >= 1) by (nonlinear_arith)
            requires t1 == t / dv, dv <= t, dv >= 1;
        assert(v1.total_shares == t1);
        lemma_div_denominator(t, dv, 10);
        lemma_div_denominator(t, dv * 10, val);
        lemma_div_denominator(t, 10, val);
        lemma_div_denominator(t, 10 * val, dv);
        assert(dv * 10 * val == 10 * val * dv) by (nonlinear_arith);
        assert(t1 / 10 / val == n / dv);
        assert(n / dv < 10) by (nonlinear_arith)
            requires n < 10 * dv, dv >= 1, n >= 0;
        assert(rebase_exponent(v1.total_shares as int, val) == 0);
    } else if pool_value != 0 && v.total_shares == 0 {
        assert(v1.total_shares == pool_value);
    }
    assert(pow10(0) == 1);
    let v2 = rebased(v1, pool_value);
    if needs_rebase(v1, pool_value) {
        assert(rebase_exponent(v1.total_shares as int, pool_value as int) == 0);
        assert(v1.total_shares / 1 == v1.total_shares);
        assert(v1.user_shares / 1 == v1.user_shares);
    }
    assert(v2 == v1);
}

} // verus!
