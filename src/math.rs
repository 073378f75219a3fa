use vstd::prelude::*;

use vstd::arithmetic::power2::{pow2, lemma2_to64, lemma_pow2_unfold, lemma_pow2_pos};

use crate::error::ErrorCode;

verus! {

/// 2^64 as an integer.
pub open spec fn base64() -> int {
    0x1_0000_0000_0000_0000
}

/// Shares minted for `amount` of value, given the shares outstanding and the
/// pool's value: one share per unit on an empty pool, else the proportional
/// count rounded down.
pub open spec fn shares_for_amount_spec(amount: int, total_shares: int, pool_value: int) -> int {
    if total_shares == 0 {
        amount
    } else {
        amount * total_shares / pool_value
    }
}

/// Value of `shares` out of `total_shares` of a pool worth `pool_value`,
/// rounded down; nothing when no shares exist.
pub open spec fn amount_for_shares_spec(shares: int, total_shares: int, pool_value: int) -> int {
    if total_shares == 0 {
        0
    } else {
        shares * pool_value / total_shares
    }
}

/// `floor(x * y / z)`, exact, for `x <= z`: the 192-bit product is formed in
/// two 128-bit halves and divided by long division over the low 64 bits.
fn mul_div_floor(x: u128, y: u64, z: u128) -> (r: u64)
    requires
        0 < z,
        x <= z,
    ensures
        r as int == (x as int) * (y as int) / (z as int),
{
    let x1: u128 = x / 0x1_0000_0000_0000_0000u128;
    let x0: u128 = x % 0x1_0000_0000_0000_0000u128;
    assert(x0 * (y as u128) < 0x1_0000_0000_0000_0000_0000_0000_0000_0000) by (nonlinear_arith)
        requires x0 < 0x1_0000_0000_0000_0000u128, y < 0x1_0000_0000_0000_0000int;
    assert(x1 * (y as u128) <= 0xffff_ffff_ffff_fffe_0000_0000_0000_0001) by (nonlinear_arith)
        requires x1 < 0x1_0000_0000_0000_0000u128, y < 0x1_0000_0000_0000_0000int;
    let p0: u128 = x0 * (y as u128);
    let p1: u128 = x1 * (y as u128);
    let h: u128 = p1 + p0 / 0x1_0000_0000_0000_0000u128;
    let l: u128 = p0 % 0x1_0000_0000_0000_0000u128;
    let ghost full: int = (x as int) * (y as int);
    assert(full == (h as int) * base64() + (l as int)) by (nonlinear_arith)
        requires
            x == (x1 as int) * base64() + x0,
            p0 == (x0 as int) * (y as int),
            p1 == (x1 as int) * (y as int),
            h == p1 + (p0 as int) / base64(),
            l == (p0 as int) % base64(),
            full == (x as int) * (y as int),
            base64() == 0x1_0000_0000_0000_0000int,
    ;
    assert(full < (z as int) * base64()) by (nonlinear_arith)
        requires
            full == (x as int) * (y as int),
            x <= z,
            0 < z,
            y < base64(),
            base64() == 0x1_0000_0000_0000_0000int,
    ;
    assert(h < z) by (nonlinear_arith)
        requires
            full == (h as int) * base64() + (l as int),
            full < (z as int) * base64(),
            l >= 0,
            base64() == 0x1_0000_0000_0000_0000int,
    ;
    let mut q: u128 = 0;
    let mut rem: u128 = h;
    let mut rest: u128 = l;
    let mut span: u128 = 0x1_0000_0000_0000_0000u128;
    let ghost mut acc: int = h as int;
    let ghost mut k: nat = 64;
    proof {
        lemma2_to64();
    }
    while span > 1
        invariant
            0 < z,
            h < z,
            full == (h as int) * base64() + (l as int),
            full < (z as int) * base64(),
            span >= 1,
            k <= 64,
            span == pow2(k),
            rest < span,
            rem < z,
            q < base64(),
            acc == (q as int) * (z as int) + (rem as int),
            acc * (span as int) + (rest as int) == full,
        decreases span,
    {
        proof {
            if k == 0 {
                lemma2_to64();
            }
            lemma_pow2_unfold(k);
        }
        let half: u128 = span / 2;
        let b: u128 = if rest >= half { 1 } else { 0 };
        let ghost old_acc = acc;
        let ghost old_rest = rest;
        let ghost old_span = span;
        let ghost old_q = q;
        let ghost old_rem = rem;
        rest = rest - b * half;
        span = half;
        proof {
            acc = 2 * acc + b;
            assert(old_acc * (old_span as int) == 2 * old_acc * (half as int)) by (nonlinear_arith)
                requires old_span == 2 * half;
            assert(acc * (span as int) + (rest as int) == full) by (nonlinear_arith)
                requires
                    old_acc * (old_span as int) + (old_rest as int) == full,
                    old_span == 2 * half,
                    acc == 2 * old_acc + b,
                    span == half,
                    rest == old_rest - b * half,
            ;
            k = (k - 1) as nat;
            lemma_pow2_pos(k);
        }
        if rem >= z - rem - b {
            rem = (rem + b) - (z - rem);
            q = 2 * q + 1;
        } else {
            rem = 2 * rem + b;
            q = 2 * q;
        }
        proof {
            assert(acc == (q as int) * (z as int) + (rem as int)) by (nonlinear_arith)
                requires
                    old_acc == (old_q as int) * (z as int) + (old_rem as int),
                    acc == 2 * old_acc + b,
                    (q == 2 * old_q + 1 && rem == 2 * old_rem + b - z) || (q == 2 * old_q && rem == 2 * old_rem + b),
            ;
            assert((q as int) * (z as int) <= acc);
            assert(q < base64()) by (nonlinear_arith)
                requires
                    (q as int) * (z as int) <= acc,
                    acc * (span as int) + (rest as int) == full,
                    full < (z as int) * base64(),
                    span >= 1,
                    rest >= 0,
                    z > 0,
            ;
        }
    }
    assert(full / (z as int) == q as int) by (nonlinear_arith)
        requires
            acc * (span as int) + (rest as int) == full,
            span == 1,
            rest < span,
            acc == (q as int) * (z as int) + (rem as int),
            rem < z,
            z > 0,
    ;
    q as u64
}


/// Number of times `n` can be divided by ten before it drops below ten:
/// the floor of its decimal logarithm, and zero for `n < 10`.
pub open spec fn log10_floor(n: nat) -> nat
    decreases n,
{
    if n < 10 {
        0
    } else {
        1 + log10_floor(n / 10)
    }
}

/// Ten to the power `e`.
pub open spec fn pow10(e: nat) -> nat
    decreases e,
{
    if e == 0 {
        1
    } else {
        10 * pow10((e - 1) as nat)
    }
}

/// Powers of ten grow with the exponent.
pub proof fn lemma_pow10_monotonic(a: nat, b: nat)
    requires
        a <= b,
    ensures
        pow10(a) <= pow10(b),
        pow10(a) >= 1,
    decreases b,
{
    if b > a {
        lemma_pow10_monotonic(a, (b - 1) as nat);
    } else if a > 0 {
        lemma_pow10_monotonic((a - 1) as nat, (a - 1) as nat);
    }
}

/// Ten to the power 38 and below fits in 128 bits.
pub proof fn lemma_pow10_fits(e: nat)
    requires
        e <= 38,
    ensures
        1 <= pow10(e) <= u128::MAX,
{
    reveal_with_fuel(pow10, 39);
    assert(pow10(38) == 100_000_000_000_000_000_000_000_000_000_000_000_000nat);
    lemma_pow10_monotonic(e, 38);
}

/// Ten to the power 39 and beyond does not fit in 128 bits.
pub proof fn lemma_pow10_above_u128(e: nat)
    requires
        e >= 39,
    ensures
        pow10(e) > u128::MAX,
{
    reveal_with_fuel(pow10, 40);
    assert(pow10(39) == 1_000_000_000_000_000_000_000_000_000_000_000_000_000nat);
    lemma_pow10_monotonic(39, e);
}

/// The exponent by which a pool rebases: the decimal magnitude of how far the
/// shares outstanding exceed ten times the pool's value.
pub open spec fn rebase_exponent(total_shares: int, pool_value: int) -> nat {
    log10_floor((total_shares / 10 / pool_value) as nat)
}

/// Shares minted for `amount` given `total_shares` outstanding and a pool
/// worth `pool_value`. On a pool with no shares one share is minted per unit.
pub fn shares_for_amount(amount: u64, total_shares: u128, pool_value: u64) -> (r: Result<
    u128,
    ErrorCode,
>)
    ensures
        total_shares == 0 ==> r == Ok::<u128, ErrorCode>(amount as u128),
        total_shares != 0 && pool_value == 0 ==> r == Err::<u128, ErrorCode>(
            ErrorCode::ArithmeticError,
        ),
        total_shares != 0 && pool_value != 0 ==> {
            let s = shares_for_amount_spec(amount as int, total_shares as int, pool_value as int);
            if s <= u128::MAX {
                r == Ok::<u128, ErrorCode>(s as u128)
            } else {
                r == Err::<u128, ErrorCode>(ErrorCode::ArithmeticError)
            }
        },
{
    if total_shares == 0 {
        return Ok(amount as u128);
    }
    if pool_value == 0 {
        return Err(ErrorCode::ArithmeticError);
    }
    let b: u128 = pool_value as u128;
    let a: u128 = amount as u128;
    let q: u128 = total_shares / b;
    let rr: u128 = total_shares % b;
    assert(a * rr < 0x1_0000_0000_0000_0000_0000_0000_0000_0000) by (nonlinear_arith)
        requires a < 0x1_0000_0000_0000_0000int, rr < b, b < 0x1_0000_0000_0000_0000int;
    let low: u128 = a * rr / b;
    let ghost s: int = (a as int) * (total_shares as int) / (b as int);
    assert(total_shares == (q as int) * (b as int) + (rr as int)) by (nonlinear_arith)
        requires q == total_shares / b, rr == total_shares % b, b > 0;
    assert(s == (a as int) * (q as int) + (low as int)) by (nonlinear_arith)
        requires
            total_shares == (q as int) * (b as int) + (rr as int),
            0 <= rr < b,
            low == (a as int) * (rr as int) / (b as int),
            s == (a as int) * (total_shares as int) / (b as int),
    ;
    assert((low as int) >= 0);
    match a.checked_mul(q) {
        None => Err(ErrorCode::ArithmeticError),
        Some(high) => match high.checked_add(low) {
            None => Err(ErrorCode::ArithmeticError),
            Some(n) => Ok(n),
        },
    }
}

/// Value of `shares` out of `total_shares` outstanding in a pool worth
/// `pool_value`, rounded down. Asking for more shares than exist is an
/// arithmetic error; with no shares outstanding the value is zero.
pub fn amount_for_shares(shares: u128, total_shares: u128, pool_value: u64) -> (r: Result<
    u64,
    ErrorCode,
>)
    ensures
        shares > total_shares ==> r == Err::<u64, ErrorCode>(ErrorCode::ArithmeticError),
        shares <= total_shares ==> r == Ok::<u64, ErrorCode>(
            amount_for_shares_spec(shares as int, total_shares as int, pool_value as int) as u64,
        ),
        shares <= total_shares ==> amount_for_shares_spec(
            shares as int,
            total_shares as int,
            pool_value as int,
        ) <= pool_value,
{
    if shares > total_shares {
        return Err(ErrorCode::ArithmeticError);
    }
    if total_shares == 0 {
        return Ok(0);
    }
    let r = mul_div_floor(shares, pool_value, total_shares);
    assert((shares as int) * (pool_value as int) / (total_shares as int) <= pool_value) by (nonlinear_arith)
        requires shares <= total_shares, total_shares > 0, pool_value >= 0;
    Ok(r)
}

/// The exponent and divisor by which a pool with `total_shares` outstanding
/// and worth `pool_value` rebases: `divisor == 10^exponent`, the largest power
/// of ten not above `total_shares / 10 / pool_value` (one when that is zero).
pub fn calculate_rebase_info(total_shares: u128, pool_value: u64) -> (r: Result<
    (u32, u128),
    ErrorCode,
>)
    ensures
        pool_value == 0 ==> r == Err::<(u32, u128), ErrorCode>(ErrorCode::ArithmeticError),
        pool_value != 0 ==> r == Ok::<(u32, u128), ErrorCode>(
            (
                rebase_exponent(total_shares as int, pool_value as int) as u32,
                pow10(rebase_exponent(total_shares as int, pool_value as int)) as u128,
            ),
        ),
        pool_value != 0 ==> rebase_exponent(total_shares as int, pool_value as int) <= 38,
        pool_value != 0 ==> 1 <= pow10(rebase_exponent(total_shares as int, pool_value as int)),
        pool_value != 0 ==> pow10(rebase_exponent(total_shares as int, pool_value as int)) <= u128::MAX,
{
    if pool_value == 0 {
        return Err(ErrorCode::ArithmeticError);
    }
    let full: u128 = total_shares / 10 / (pool_value as u128);
    let mut n: u128 = full;
    let mut expo: u32 = 0;
    let mut divisor: u128 = 1;
    while n >= 10
        invariant
            expo + log10_floor(n as nat) == log10_floor(full as nat),
            divisor == pow10(expo as nat),
            divisor * n <= full,
            expo <= 38,
        decreases n,
    {
        assert((divisor as int) * 10 <= (divisor as int) * (n as int)) by (nonlinear_arith)
            requires n >= 10, divisor >= 0;
        assert((divisor as int) * 10 * ((n / 10) as int) <= (divisor as int) * (n as int)) by (nonlinear_arith)
            requires divisor >= 0, n >= 10;
        n = n / 10;
        divisor = divisor * 10;
        proof {
            if expo + 1 > 38 {
                lemma_pow10_above_u128(39);
                lemma_pow10_monotonic(39, (expo + 1) as nat);
            }
        }
        expo = expo + 1;
    }
    proof {
        lemma_pow10_monotonic(0, expo as nat);
    }
    Ok((expo, divisor))
}

/// Ten to the power `e`, for exponents whose power fits in 128 bits.
pub fn pow10_u128(e: u32) -> (r: u128)
    requires
        e <= 38,
    ensures
        r == pow10(e as nat),
{
    proof {
        reveal_with_fuel(pow10, 39);
        assert(pow10(38) == 100_000_000_000_000_000_000_000_000_000_000_000_000nat);
    }
    let mut r: u128 = 1;
    let mut i: u32 = 0;
    while i < e
        invariant
            i <= e <= 38,
            r == pow10(i as nat),
            pow10(38) <= u128::MAX,
        decreases e - i,
    {
        proof {
            lemma_pow10_monotonic((i + 1) as nat, 38);
        }
        r = r * 10;
        i = i + 1;
    }
    r
}

/// Sum of share counts.
pub open spec fn shares_sum(holdings: Seq<nat>) -> nat
    decreases holdings.len(),
{
    if holdings.len() == 0 {
        0
    } else {
        shares_sum(holdings.drop_last()) + holdings.last()
    }
}

/// Sum of what each of `holdings` is worth, each converted on its own.
pub open spec fn value_sum(holdings: Seq<nat>, total_shares: nat, pool_value: nat) -> int
    decreases holdings.len(),
{
    if holdings.len() == 0 {
        0
    } else {
        value_sum(holdings.drop_last(), total_shares, pool_value) + amount_for_shares_spec(
            holdings.last() as int,
            total_shares as int,
            pool_value as int,
        )
    }
}

proof fn lemma_value_sum_below_joint(holdings: Seq<nat>, total_shares: nat, pool_value: nat)
    requires
        total_shares > 0,
    ensures
        value_sum(holdings, total_shares, pool_value) <= ((shares_sum(holdings) * pool_value) as int)
            / (total_shares as int),
    decreases holdings.len(),
{
    if holdings.len() > 0 {
        let rest = holdings.drop_last();
        let x = holdings.last();
        lemma_value_sum_below_joint(rest, total_shares, pool_value);
        let a: int = (shares_sum(rest) * pool_value) as int;
        let b: int = (x * pool_value) as int;
        assert(a / (total_shares as int) + b / (total_shares as int) <= (a + b) / (total_shares as int))
            by (nonlinear_arith)
            requires a >= 0, b >= 0, total_shares > 0;
        assert(shares_sum(holdings) * pool_value == a + b) by (nonlinear_arith)
            requires shares_sum(holdings) == shares_sum(rest) + x, a == shares_sum(rest) * pool_value,
                b == x * pool_value;
    }
}

/// However the shares of a pool are split among holders, the values of the
/// holdings, each rounded down on its own, add up to at most the pool's value:
/// rounding never hands a holder value that belongs to the pool.
pub proof fn lemma_holdings_value_within_pool(
    holdings: Seq<nat>,
    total_shares: nat,
    pool_value: nat,
)
    requires
        shares_sum(holdings) <= total_shares,
    ensures
        value_sum(holdings, total_shares, pool_value) <= pool_value,
    decreases holdings.len(),
{
    if total_shares == 0 {
        if holdings.len() > 0 {
            lemma_holdings_value_within_pool(holdings.drop_last(), total_shares, pool_value);
        }
    } else {
        lemma_value_sum_below_joint(holdings, total_shares, pool_value);
        assert(((shares_sum(holdings) * pool_value) as int) / (total_shares as int) <= pool_value)
            by (nonlinear_arith)
            requires shares_sum(holdings) <= total_shares, total_shares > 0;
    }
}

/// The decimal logarithm rounded down brackets its argument.
pub proof fn lemma_log10_bounds(n: nat)
    ensures
        n < pow10(log10_floor(n) + 1),
        n >= 1 ==> pow10(log10_floor(n)) <= n,
    decreases n,
{
    reveal_with_fuel(pow10, 2);
    if n >= 10 {
        lemma_log10_bounds(n / 10);
        let l = log10_floor(n / 10);
        assert(pow10(l + 2) == 10 * pow10(l + 1));
        assert(pow10(l + 1) == 10 * pow10(l));
    }
}

/// Each holding divided by `divisor`, rounded down, as a rebase does.
pub open spec fn divided(holdings: Seq<nat>, divisor: nat) -> Seq<nat> {
    holdings.map_values(|h: nat| h / divisor)
}

/// Dividing every holding and the total by the same divisor, each rounded
/// down on its own, keeps the holdings within the total: a rebase never
/// leaves holders with more shares than the pool counts.
pub proof fn lemma_rebase_keeps_holdings_within_total(
    holdings: Seq<nat>,
    total_shares: nat,
    divisor: nat,
)
    requires
        divisor > 0,
        shares_sum(holdings) <= total_shares,
    ensures
        shares_sum(divided(holdings, divisor)) <= total_shares / divisor,
    decreases holdings.len(),
{
    if holdings.len() > 0 {
        let rest = holdings.drop_last();
        let x = holdings.last();
        lemma_rebase_keeps_holdings_within_total(rest, shares_sum(rest), divisor);
        assert(divided(holdings, divisor).drop_last() =~= divided(rest, divisor));
        let a = shares_sum(rest) as int;
        let d = divisor as int;
        assert(a / d + (x as int) / d <= (a + x) / d) by (nonlinear_arith)
            requires a >= 0, x >= 0, d > 0;
        assert((a + x) / d <= (total_shares as int) / d) by (nonlinear_arith)
            requires a + x <= total_shares, d > 0;
    }
}

} // verus!
