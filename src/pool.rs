//! The arithmetic of a two-asset constant-product liquidity pool: how many
//! pool shares a deposit earns, what a withdrawal pays out, and the price of a
//! trade. Reading balances and making payments is the host's business.

use vstd::prelude::*;
use crate::bignum::BigNum;

verus! {

/// The pool's state as read from the ledger.
#[derive(Clone, Copy, Debug, PartialEq, Eq, Structural)]
pub struct PoolState {
    /// Pool shares issued so far.
    pub circulating: i64,
    /// The pool account's balance of asset A.
    pub reserve_a: i64,
    /// The pool account's balance of asset B.
    pub reserve_b: i64,
}

#[derive(Clone, Copy, Debug, PartialEq, Eq, Structural)]
pub enum PoolError {
    /// An amount that is zero or negative.
    InvalidAmount,
    /// A state with a negative balance or share count.
    InvalidState,
    /// A withdrawal from a pool that has issued no shares.
    NothingIssued,
    /// A deposit into a pool with shares but no reserves.
    EmptyReserves,
    /// A trade between assets that are not the pool's pair.
    AssetMismatch,
    /// A trade that pays out less than the asked minimum.
    MinAmountNotMet,
    /// A trade that costs more than the allowed maximum.
    MaxAmountExceeded,
    /// A result that does not fit in an `i64`.
    Overflow,
}

/// `x * y / d`, rounded down.
pub open spec fn prorate(x: int, y: int, d: int) -> int {
    x * y / d
}

pub open spec fn valid_state(s: PoolState) -> bool {
    s.circulating >= 0 && s.reserve_a >= 0 && s.reserve_b >= 0
}

/// The shares that `amount` of one asset earns against `reserve` of it.
pub open spec fn share_of(circulating: int, amount: int, reserve: int) -> int {
    if reserve == 0 {
        0
    } else {
        circulating * amount / reserve
    }
}

/// The shares a deposit earns into a pool that has issued some: the smaller
/// proportional share over the assets held.
pub open spec fn deposit_share(s: PoolState, a: int, b: int) -> int {
    let pa = share_of(s.circulating as int, a, s.reserve_a as int);
    let pb = share_of(s.circulating as int, b, s.reserve_b as int);
    if s.reserve_a > 0 && s.reserve_b > 0 {
        if pa <= pb {
            pa
        } else {
            pb
        }
    } else if s.reserve_a > 0 {
        pa
    } else {
        pb
    }
}

proof fn lemma_sqrt_fits(n: int, r: int)
    requires
        0 <= r,
        r * r <= n,
        n < 0x4000_0000_0000_0000_0000_0000_0000_0000,
    ensures
        r < 0x8000_0000_0000_0000,
{
    if r >= 0x8000_0000_0000_0000 {
        assert(r * r >= 0x8000_0000_0000_0000 * 0x8000_0000_0000_0000) by (nonlinear_arith)
            requires
                r >= 0x8000_0000_0000_0000,
        ;
    }
}

/// The pool shares that depositing `amount_a` and `amount_b` earns.
///
/// Into an empty pool a deposit earns the integer square root of the product
/// of the amounts. Otherwise it earns the smaller of the two proportional
/// shares, counting only assets the pool holds. The new share count,
/// `circulating` plus the result, must fit in an `i64`.
pub fn deposit(s: PoolState, amount_a: i64, amount_b: i64) -> (r: Result<i64, PoolError>)
    ensures
        amount_a <= 0 || amount_b <= 0 ==> r == Err::<i64, PoolError>(PoolError::InvalidAmount),
        amount_a > 0 && amount_b > 0 && !valid_state(s) ==> r == Err::<i64, PoolError>(PoolError::InvalidState),
        amount_a > 0 && amount_b > 0 && valid_state(s) && s.circulating > 0 && s.reserve_a == 0 && s.reserve_b == 0
            ==> r == Err::<i64, PoolError>(PoolError::EmptyReserves),
        match r {
            Ok(p) => amount_a > 0 && amount_b > 0 && valid_state(s) && p >= 0 && s.circulating + p <= i64::MAX
                && (s.circulating == 0 ==> p * p <= amount_a * amount_b < (p + 1) * (p + 1))
                && (s.circulating > 0 ==> p == deposit_share(s, amount_a as int, amount_b as int)),
            Err(PoolError::Overflow) => amount_a > 0 && amount_b > 0 && valid_state(s) && s.circulating > 0
                && (s.reserve_a > 0 || s.reserve_b > 0)
                && s.circulating + deposit_share(s, amount_a as int, amount_b as int) > i64::MAX,
            Err(PoolError::InvalidAmount) => amount_a <= 0 || amount_b <= 0,
            Err(PoolError::InvalidState) => amount_a > 0 && amount_b > 0 && !valid_state(s),
            Err(PoolError::EmptyReserves) => amount_a > 0 && amount_b > 0 && valid_state(s) && s.circulating > 0
                && s.reserve_a == 0 && s.reserve_b == 0,
            Err(_) => false,
        },
{
    if amount_a <= 0 || amount_b <= 0 {
        return Err(PoolError::InvalidAmount);
    }
    if s.circulating < 0 || s.reserve_a < 0 || s.reserve_b < 0 {
        return Err(PoolError::InvalidState);
    }
    let share: i64 = if s.circulating == 0 {
        assert((amount_a as int) * (amount_b as int) < 0x4000_0000_0000_0000_0000_0000_0000_0000) by (nonlinear_arith)
            requires
                0 < amount_a <= i64::MAX,
                0 < amount_b <= i64::MAX,
        ;
        let root = BigNum::new((amount_a as i128) * (amount_b as i128)).sqrt();
        let m = root.magnitude();
        proof {
            lemma_sqrt_fits((amount_a as int) * (amount_b as int), m as int);
        }
        m as i64
    } else {
        if s.reserve_a == 0 && s.reserve_b == 0 {
            return Err(PoolError::EmptyReserves);
        }
        let c = s.circulating as u128;
        assert((c as int) * (amount_a as int) <= 0x4000_0000_0000_0000_0000_0000_0000_0000) by (nonlinear_arith)
            requires
                0 <= c <= i64::MAX,
                0 < amount_a <= i64::MAX,
        ;
        assert((c as int) * (amount_b as int) <= 0x4000_0000_0000_0000_0000_0000_0000_0000) by (nonlinear_arith)
            requires
                0 <= c <= i64::MAX,
                0 < amount_b <= i64::MAX,
        ;
        let pa: u128 = if s.reserve_a == 0 { 0 } else { c * (amount_a as u128) / (s.reserve_a as u128) };
        let pb: u128 = if s.reserve_b == 0 { 0 } else { c * (amount_b as u128) / (s.reserve_b as u128) };
        let p = if s.reserve_a > 0 && s.reserve_b > 0 {
            if pa <= pb { pa } else { pb }
        } else if s.reserve_a > 0 {
            pa
        } else {
            pb
        };
        assert(p == deposit_share(s, amount_a as int, amount_b as int));
        if p > (i64::MAX - s.circulating) as u128 {
            return Err(PoolError::Overflow);
        }
        p as i64
    };
    if share > i64::MAX - s.circulating {
        return Err(PoolError::Overflow);
    }
    Ok(share)
}

/// What withdrawing `amount_pool` shares pays out of each reserve: the
/// shares' proportion of it, rounded down.
pub fn withdraw(s: PoolState, amount_pool: i64) -> (r: Result<(i64, i64), PoolError>)
    ensures
        amount_pool <= 0 ==> r == Err::<(i64, i64), PoolError>(PoolError::InvalidAmount),
        amount_pool > 0 && !valid_state(s) ==> r == Err::<(i64, i64), PoolError>(PoolError::InvalidState),
        amount_pool > 0 && valid_state(s) && s.circulating == 0 ==> r == Err::<(i64, i64), PoolError>(PoolError::NothingIssued),
        match r {
            Ok((a, b)) => amount_pool > 0 && valid_state(s) && s.circulating > 0
                && a == prorate(amount_pool as int, s.reserve_a as int, s.circulating as int)
                && b == prorate(amount_pool as int, s.reserve_b as int, s.circulating as int),
            Err(PoolError::Overflow) => amount_pool > 0 && valid_state(s) && s.circulating > 0 && (
                prorate(amount_pool as int, s.reserve_a as int, s.circulating as int) > i64::MAX
                || prorate(amount_pool as int, s.reserve_b as int, s.circulating as int) > i64::MAX),
            Err(PoolError::InvalidAmount) => amount_pool <= 0,
            Err(PoolError::InvalidState) => amount_pool > 0 && !valid_state(s),
            Err(PoolError::NothingIssued) => amount_pool > 0 && valid_state(s) && s.circulating == 0,
            Err(_) => false,
        },
{
    if amount_pool <= 0 {
        return Err(PoolError::InvalidAmount);
    }
    if s.circulating < 0 || s.reserve_a < 0 || s.reserve_b < 0 {
        return Err(PoolError::InvalidState);
    }
    if s.circulating == 0 {
        return Err(PoolError::NothingIssued);
    }
    let p = amount_pool as u128;
    assert((p as int) * (s.reserve_a as int) <= 0x4000_0000_0000_0000_0000_0000_0000_0000) by (nonlinear_arith)
        requires
            0 < p <= i64::MAX,
            0 <= s.reserve_a <= i64::MAX,
    ;
    assert((p as int) * (s.reserve_b as int) <= 0x4000_0000_0000_0000_0000_0000_0000_0000) by (nonlinear_arith)
        requires
            0 < p <= i64::MAX,
            0 <= s.reserve_b <= i64::MAX,
    ;
    let a = p * (s.reserve_a as u128) / (s.circulating as u128);
    let b = p * (s.reserve_b as u128) / (s.circulating as u128);
    if a > i64::MAX as u128 || b > i64::MAX as u128 {
        return Err(PoolError::Overflow);
    }
    Ok((a as i64, b as i64))
}

/// Whether a trade from `asset_in` to `asset_out` is between the pool's two assets.
pub open spec fn assets_match_spec(asset_in: u64, asset_out: u64, asset_a: u64, asset_b: u64) -> bool {
    (asset_in == asset_a && asset_out == asset_b) || (asset_in == asset_b && asset_out == asset_a)
}

pub fn assets_match(asset_in: u64, asset_out: u64, asset_a: u64, asset_b: u64) -> (r: bool)
    ensures
        r == assets_match_spec(asset_in, asset_out, asset_a, asset_b),
{
    (asset_in == asset_a && asset_out == asset_b) || (asset_in == asset_b && asset_out == asset_a)
}

/// The amount paid out for `amount_in`, keeping the product of the reserves:
/// `prorate(amount_in as int, reserve_out as int, reserve_in + amount_in)`, rounded down. Fails
/// if it is below `min_amount_out`.
pub fn trade_fixed_in(reserve_in: i64, reserve_out: i64, amount_in: i64, min_amount_out: i64) -> (r: Result<i64, PoolError>)
    ensures
        amount_in <= 0 ==> r == Err::<i64, PoolError>(PoolError::InvalidAmount),
        amount_in > 0 && (reserve_in < 0 || reserve_out < 0) ==> r == Err::<i64, PoolError>(PoolError::InvalidState),
        match r {
            Ok(out) => amount_in > 0 && reserve_in >= 0 && reserve_out >= 0
                && out == prorate(amount_in as int, reserve_out as int, reserve_in + amount_in) && out >= min_amount_out,
            Err(PoolError::MinAmountNotMet) => amount_in > 0 && reserve_in >= 0 && reserve_out >= 0
                && prorate(amount_in as int, reserve_out as int, reserve_in + amount_in) < min_amount_out,
            Err(PoolError::InvalidAmount) => amount_in <= 0,
            Err(PoolError::InvalidState) => amount_in > 0 && (reserve_in < 0 || reserve_out < 0),
            Err(_) => false,
        },
{
    if amount_in <= 0 {
        return Err(PoolError::InvalidAmount);
    }
    if reserve_in < 0 || reserve_out < 0 {
        return Err(PoolError::InvalidState);
    }
    let a = amount_in as u128;
    assert((a as int) * (reserve_out as int) <= 0x4000_0000_0000_0000_0000_0000_0000_0000) by (nonlinear_arith)
        requires
            0 < a <= i64::MAX,
            0 <= reserve_out <= i64::MAX,
    ;
    let out = a * (reserve_out as u128) / ((reserve_in as u128) + a);
    proof {
        vstd::arithmetic::div_mod::lemma_div_is_ordered_by_denominator(
            (a as int) * (reserve_out as int),
            a as int,
            (reserve_in as int) + (a as int),
        );
        vstd::arithmetic::div_mod::lemma_div_multiples_vanish(reserve_out as int, a as int);
        assert((a as int) * (reserve_out as int) == (reserve_out as int) * (a as int)) by (nonlinear_arith);
    }
    let out = out as i64;
    if out < min_amount_out {
        return Err(PoolError::MinAmountNotMet);
    }
    Ok(out)
}

/// The amount paid in for `amount_out`:
/// `prorate(amount_out as int, reserve_in as int, reserve_out + amount_out)`, rounded down. Fails
/// if it is above `max_amount_in`.
pub fn trade_fixed_out(reserve_in: i64, reserve_out: i64, max_amount_in: i64, amount_out: i64) -> (r: Result<i64, PoolError>)
    ensures
        amount_out <= 0 ==> r == Err::<i64, PoolError>(PoolError::InvalidAmount),
        amount_out > 0 && (reserve_in < 0 || reserve_out < 0) ==> r == Err::<i64, PoolError>(PoolError::InvalidState),
        match r {
            Ok(amount_in) => amount_out > 0 && reserve_in >= 0 && reserve_out >= 0
                && amount_in == prorate(amount_out as int, reserve_in as int, reserve_out + amount_out) && amount_in <= max_amount_in,
            Err(PoolError::MaxAmountExceeded) => amount_out > 0 && reserve_in >= 0 && reserve_out >= 0
                && prorate(amount_out as int, reserve_in as int, reserve_out + amount_out) > max_amount_in,
            Err(PoolError::InvalidAmount) => amount_out <= 0,
            Err(PoolError::InvalidState) => amount_out > 0 && (reserve_in < 0 || reserve_out < 0),
            Err(_) => false,
        },
{
    if amount_out <= 0 {
        return Err(PoolError::InvalidAmount);
    }
    if reserve_in < 0 || reserve_out < 0 {
        return Err(PoolError::InvalidState);
    }
    let b = amount_out as u128;
    assert((b as int) * (reserve_in as int) <= 0x4000_0000_0000_0000_0000_0000_0000_0000) by (nonlinear_arith)
        requires
            0 < b <= i64::MAX,
            0 <= reserve_in <= i64::MAX,
    ;
    let amount_in = b * (reserve_in as u128) / ((reserve_out as u128) + b);
    proof {
        vstd::arithmetic::div_mod::lemma_div_is_ordered_by_denominator(
            (b as int) * (reserve_in as int),
            b as int,
            (reserve_out as int) + (b as int),
        );
        vstd::arithmetic::div_mod::lemma_div_multiples_vanish(reserve_in as int, b as int);
        assert((b as int) * (reserve_in as int) == (reserve_in as int) * (b as int)) by (nonlinear_arith);
    }
    let amount_in = amount_in as i64;
    if amount_in > max_amount_in {
        return Err(PoolError::MaxAmountExceeded);
    }
    Ok(amount_in)
}

} // verus!
