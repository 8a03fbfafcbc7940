//! What a deposit, a withdrawal or a swap moves, computed from a snapshot
//! of the pool. Nothing here changes the pool. Every rounding goes against
//! the caller and in favour of the pool.

use vstd::prelude::*;
use crate::error::AmmError;
use crate::math::{
    apply_fee, isqrt, lemma_mul_div_ceil_bounds, lemma_mul_div_floor_bounds,
    lemma_mul_div_floor_fits, lemma_part_at_most_whole, lemma_product_fits, mul_div_ceil,
    mul_div_floor, spec_fee, spec_isqrt, spec_mul_div_ceil, spec_mul_div_floor, MAX_BPS,
};
use crate::state::{Pool, MINIMUM_LIQUIDITY};

verus! {

/// The direction of a swap.
#[derive(Clone, Copy, Debug, PartialEq, Eq, Structural)]
pub enum Side {
    /// The caller pays the first asset and receives the second.
    AToB,
    /// The caller pays the second asset and receives the first.
    BToA,
}

/// What one operation moves. Amounts "in" go from the caller to the pool,
/// amounts "out" from the pool to the caller.
#[derive(Clone, Copy, Debug, PartialEq, Eq, Structural)]
pub struct Deltas {
    pub amount_a_in: u64,
    pub amount_b_in: u64,
    pub amount_a_out: u64,
    pub amount_b_out: u64,
    /// The share units created, the locked ones included.
    pub lp_mint: u64,
    /// The share units destroyed.
    pub lp_burn: u64,
    /// The part of `lp_mint` that is locked and belongs to nobody.
    pub lp_locked: u64,
    /// The part of `amount_a_in` that goes on to the treasury.
    pub protocol_fee_in_a: u64,
    /// The part of `amount_b_in` that goes on to the treasury.
    pub protocol_fee_in_b: u64,
}

impl Deltas {
    /// The deltas that move nothing.
    pub open spec fn spec_none() -> Deltas {
        Deltas {
            amount_a_in: 0,
            amount_b_in: 0,
            amount_a_out: 0,
            amount_b_out: 0,
            lp_mint: 0,
            lp_burn: 0,
            lp_locked: 0,
            protocol_fee_in_a: 0,
            protocol_fee_in_b: 0,
        }
    }

    /// The deltas that move nothing.
    pub fn none() -> (d: Deltas)
        ensures
            d == Deltas::spec_none(),
    {
        Deltas {
            amount_a_in: 0,
            amount_b_in: 0,
            amount_a_out: 0,
            amount_b_out: 0,
            lp_mint: 0,
            lp_burn: 0,
            lp_locked: 0,
            protocol_fee_in_a: 0,
            protocol_fee_in_b: 0,
        }
    }
}

impl Deltas {
    /// What a swap on `side` took from the caller.
    pub open spec fn swapped_in(&self, side: Side) -> u64 {
        match side {
            Side::AToB => self.amount_a_in,
            Side::BToA => self.amount_b_in,
        }
    }

    /// What a swap on `side` paid out to the caller.
    pub open spec fn swapped_out(&self, side: Side) -> u64 {
        match side {
            Side::AToB => self.amount_b_out,
            Side::BToA => self.amount_a_out,
        }
    }

    /// What a swap on `side` passed on to the treasury.
    pub open spec fn swap_protocol_fee(&self, side: Side) -> u64 {
        match side {
            Side::AToB => self.protocol_fee_in_a,
            Side::BToA => self.protocol_fee_in_b,
        }
    }
}

impl Pool {
    /// The reserve that a swap on `side` pays into.
    pub open spec fn reserve_in(&self, side: Side) -> u64 {
        match side {
            Side::AToB => self.reserve_a,
            Side::BToA => self.reserve_b,
        }
    }

    /// The reserve that a swap on `side` is paid from.
    pub open spec fn reserve_out(&self, side: Side) -> u64 {
        match side {
            Side::AToB => self.reserve_b,
            Side::BToA => self.reserve_a,
        }
    }
}

/// The first deposit into a pool: both amounts are taken as they are, the
/// shares minted are the integer square root of their product, and the
/// locked minimum comes off what the depositor receives.
pub open spec fn spec_first_deposit(desired_a: u64, desired_b: u64, min_lp_out: u64) -> Result<
    Deltas,
    AmmError,
> {
    let minted = spec_isqrt((desired_a as nat) * (desired_b as nat));
    if desired_a == 0 || desired_b == 0 {
        Err(AmmError::ZeroInitialDeposit)
    } else if minted <= MINIMUM_LIQUIDITY {
        Err(AmmError::InsufficientInitialLiquidity)
    } else if minted - MINIMUM_LIQUIDITY < min_lp_out {
        Err(AmmError::SlippageExceeded)
    } else {
        Ok(
            Deltas {
                amount_a_in: desired_a,
                amount_b_in: desired_b,
                lp_mint: minted as u64,
                lp_locked: MINIMUM_LIQUIDITY,
                ..Deltas::spec_none()
            },
        )
    }
}

/// The amounts that a later deposit takes, in the ratio of the reserves:
/// all of `desired_a` with the matching amount of the second asset where
/// `desired_b` covers it, else all of `desired_b` with the matching amount
/// of the first. `None` where the matching amount is below the caller's
/// minimum.
pub open spec fn spec_matched_amounts(
    reserve_a: nat,
    reserve_b: nat,
    desired_a: nat,
    desired_b: nat,
    min_a: nat,
    min_b: nat,
) -> Option<(nat, nat)> {
    let b_optimal = spec_mul_div_floor(desired_a, reserve_b, reserve_a);
    let a_optimal = spec_mul_div_floor(desired_b, reserve_a, reserve_b);
    if b_optimal <= desired_b {
        if b_optimal >= min_b {
            Some((desired_a, b_optimal))
        } else {
            None
        }
    } else if a_optimal <= desired_a && a_optimal >= min_a {
        Some((a_optimal, desired_b))
    } else {
        None
    }
}

/// The shares that a later deposit of `(amount_a, amount_b)` mints: the
/// smaller of the two proportional claims, each rounded down.
pub open spec fn spec_shares_minted(
    amount_a: nat,
    amount_b: nat,
    reserve_a: nat,
    reserve_b: nat,
    lp_supply: nat,
) -> nat {
    let by_a = spec_mul_div_floor(amount_a, lp_supply, reserve_a);
    let by_b = spec_mul_div_floor(amount_b, lp_supply, reserve_b);
    if by_a <= by_b {
        by_a
    } else {
        by_b
    }
}

/// A deposit into a pool that has shares outstanding.
pub open spec fn spec_later_deposit(
    pool: Pool,
    desired_a: u64,
    desired_b: u64,
    min_a: u64,
    min_b: u64,
    min_lp_out: u64,
) -> Result<Deltas, AmmError> {
    let matched = spec_matched_amounts(
        pool.reserve_a as nat,
        pool.reserve_b as nat,
        desired_a as nat,
        desired_b as nat,
        min_a as nat,
        min_b as nat,
    );
    if desired_a == 0 || desired_b == 0 {
        Err(AmmError::ZeroAmount)
    } else if pool.reserve_a == 0 || pool.reserve_b == 0 {
        Err(AmmError::MathOverflow)
    } else if matched is None {
        Err(AmmError::SlippageExceeded)
    } else {
        let (amount_a, amount_b) = matched->Some_0;
        let minted = spec_shares_minted(
            amount_a,
            amount_b,
            pool.reserve_a as nat,
            pool.reserve_b as nat,
            pool.lp_supply as nat,
        );
        if minted < min_lp_out {
            Err(AmmError::SlippageExceeded)
        } else if minted > u64::MAX {
            Err(AmmError::MathOverflow)
        } else {
            Ok(
                Deltas {
                    amount_a_in: amount_a as u64,
                    amount_b_in: amount_b as u64,
                    lp_mint: minted as u64,
                    ..Deltas::spec_none()
                },
            )
        }
    }
}

/// What a deposit moves, or why it is refused.
pub open spec fn spec_deposit(
    pool: Pool,
    desired_a: u64,
    desired_b: u64,
    min_a: u64,
    min_b: u64,
    min_lp_out: u64,
) -> Result<Deltas, AmmError> {
    if pool.lp_supply == 0 {
        spec_first_deposit(desired_a, desired_b, min_lp_out)
    } else {
        spec_later_deposit(pool, desired_a, desired_b, min_a, min_b, min_lp_out)
    }
}

/// What a withdrawal moves, or why it is refused: each asset in proportion
/// to the shares burned, rounded down. The locked shares cannot be burned.
pub open spec fn spec_withdraw(pool: Pool, lp_burn: u64, min_a_out: u64, min_b_out: u64) -> Result<
    Deltas,
    AmmError,
> {
    let amount_a = spec_mul_div_floor(lp_burn as nat, pool.reserve_a as nat, pool.lp_supply as nat);
    let amount_b = spec_mul_div_floor(lp_burn as nat, pool.reserve_b as nat, pool.lp_supply as nat);
    if lp_burn == 0 {
        Err(AmmError::ZeroAmount)
    } else if pool.lp_supply < MINIMUM_LIQUIDITY || lp_burn > pool.lp_supply - MINIMUM_LIQUIDITY {
        Err(AmmError::InsufficientLiquidity)
    } else if amount_a < min_a_out || amount_b < min_b_out {
        Err(AmmError::SlippageExceeded)
    } else {
        Ok(
            Deltas {
                amount_a_out: amount_a as u64,
                amount_b_out: amount_b as u64,
                lp_burn,
                ..Deltas::spec_none()
            },
        )
    }
}

/// What a swap pays out for `net` units paid in after the fee.
pub open spec fn spec_amount_out(reserve_in: nat, reserve_out: nat, net: nat) -> nat {
    spec_mul_div_floor(reserve_out, net, reserve_in + net)
}

/// The part of `fee` that goes to the treasury, rounded down.
pub open spec fn spec_protocol_fee(fee: nat, protocol_share_bps: nat) -> nat {
    spec_mul_div_floor(protocol_share_bps, fee, MAX_BPS as nat)
}

/// The deltas of a swap on `side` that takes `amount_in`, pays `amount_out`
/// and passes `protocol_fee` on to the treasury.
pub open spec fn spec_swap_deltas(side: Side, amount_in: u64, amount_out: u64, protocol_fee: u64)
    -> Deltas {
    match side {
        Side::AToB => Deltas {
            amount_a_in: amount_in,
            amount_b_out: amount_out,
            protocol_fee_in_a: protocol_fee,
            ..Deltas::spec_none()
        },
        Side::BToA => Deltas {
            amount_b_in: amount_in,
            amount_a_out: amount_out,
            protocol_fee_in_b: protocol_fee,
            ..Deltas::spec_none()
        },
    }
}

/// What a swap of exactly `amount_in` moves, or why it is refused. The fee
/// is charged at the pool's own rate and rounded up; the output is rounded
/// down. A fee above the amount, which a rate above 100% gives, and a
/// protocol share above 100% are `MathOverflow`.
pub open spec fn spec_swap(
    pool: Pool,
    protocol_share_bps: u64,
    amount_in: u64,
    side: Side,
    min_amount_out: u64,
) -> Result<Deltas, AmmError> {
    let reserve_in = pool.reserve_in(side) as nat;
    let reserve_out = pool.reserve_out(side) as nat;
    let fee = spec_fee(amount_in as nat, pool.fee_bps_snapshot as nat);
    let net = (amount_in - fee) as nat;
    let protocol_fee = spec_protocol_fee(fee, protocol_share_bps as nat);
    let amount_out = spec_amount_out(reserve_in, reserve_out, net);
    if reserve_in == 0 || reserve_out == 0 {
        Err(AmmError::InsufficientLiquidity)
    } else if amount_in == 0 {
        Err(AmmError::ZeroAmount)
    } else if fee > amount_in || protocol_share_bps > MAX_BPS {
        Err(AmmError::MathOverflow)
    } else if amount_out < min_amount_out {
        Err(AmmError::SlippageExceeded)
    } else {
        Ok(spec_swap_deltas(side, amount_in, amount_out as u64, protocol_fee as u64))
    }
}

/// The least net input that pays out `amount_out`, which must be below the
/// output reserve.
pub open spec fn spec_net_in(reserve_in: nat, reserve_out: nat, amount_out: nat) -> nat {
    spec_mul_div_ceil(reserve_in, amount_out, (reserve_out - amount_out) as nat)
}

/// The least amount that leaves `net` after a fee of `fee_bps`, which must
/// be below 100%.
pub open spec fn spec_gross_in(net: nat, fee_bps: nat) -> nat {
    spec_mul_div_ceil(net, MAX_BPS as nat, (MAX_BPS - fee_bps) as nat)
}

/// What a swap for exactly `amount_out` moves, or why it is refused. The
/// input is the least that buys `amount_out`, the fee included; a fee of
/// 100% or more buys nothing and is `MathOverflow`.
pub open spec fn spec_swap_exact_out(
    pool: Pool,
    protocol_share_bps: u64,
    amount_out: u64,
    side: Side,
    max_amount_in: u64,
) -> Result<Deltas, AmmError> {
    let reserve_in = pool.reserve_in(side) as nat;
    let reserve_out = pool.reserve_out(side) as nat;
    let net = spec_net_in(reserve_in, reserve_out, amount_out as nat);
    let amount_in = spec_gross_in(net, pool.fee_bps_snapshot as nat);
    let fee = spec_fee(amount_in, pool.fee_bps_snapshot as nat);
    let protocol_fee = spec_protocol_fee(fee, protocol_share_bps as nat);
    if reserve_in == 0 || reserve_out == 0 {
        Err(AmmError::InsufficientLiquidity)
    } else if amount_out == 0 {
        Err(AmmError::ZeroAmount)
    } else if amount_out >= reserve_out {
        Err(AmmError::InsufficientLiquidity)
    } else if pool.fee_bps_snapshot >= MAX_BPS || protocol_share_bps > MAX_BPS {
        Err(AmmError::MathOverflow)
    } else if amount_in > max_amount_in {
        Err(AmmError::SlippageExceeded)
    } else {
        Ok(spec_swap_deltas(side, amount_in as u64, amount_out, protocol_fee as u64))
    }
}

/// A swap never pays out a whole reserve: with something on the input
/// side, the output stays below the output reserve.
pub proof fn lemma_amount_out_below_reserve(reserve_in: nat, reserve_out: nat, net: nat)
    requires
        reserve_in > 0,
        reserve_out > 0,
    ensures
        spec_amount_out(reserve_in, reserve_out, net) < reserve_out,
{
    let out = spec_amount_out(reserve_in, reserve_out, net);
    let d = reserve_in + net;
    lemma_mul_div_floor_bounds(reserve_out, net, d);
    if out >= reserve_out {
        assert(out * d >= reserve_out * d) by (nonlinear_arith)
            requires
                out >= reserve_out,
                d >= 0,
        ;
        assert(reserve_out * d > reserve_out * net) by (nonlinear_arith)
            requires
                d > net,
                reserve_out > 0,
        ;
    }
}

/// What a deposit of up to `(desired_a, desired_b)` moves: see
/// `spec_deposit`.
pub fn compute_deposit(
    pool: &Pool,
    desired_a: u64,
    desired_b: u64,
    min_a: u64,
    min_b: u64,
    min_lp_out: u64,
) -> (res: Result<Deltas, AmmError>)
    ensures
        res == spec_deposit(*pool, desired_a, desired_b, min_a, min_b, min_lp_out),
{
    if pool.lp_supply == 0 {
        compute_first_deposit(desired_a, desired_b, min_lp_out)
    } else {
        compute_later_deposit(pool, desired_a, desired_b, min_a, min_b, min_lp_out)
    }
}

/// The first deposit into a pool: see `spec_first_deposit`.
pub fn compute_first_deposit(desired_a: u64, desired_b: u64, min_lp_out: u64) -> (res: Result<
    Deltas,
    AmmError,
>)
    ensures
        res == spec_first_deposit(desired_a, desired_b, min_lp_out),
{
    if desired_a == 0 || desired_b == 0 {
        return Err(AmmError::ZeroInitialDeposit);
    }
    proof {
        lemma_product_fits(desired_a as nat, desired_b as nat);
    }
    let product: u128 = (desired_a as u128) * (desired_b as u128);
    let minted: u128 = isqrt(product);
    if minted <= MINIMUM_LIQUIDITY as u128 {
        return Err(AmmError::InsufficientInitialLiquidity);
    }
    let minted64: u64 = minted as u64;
    if minted64 - MINIMUM_LIQUIDITY < min_lp_out {
        return Err(AmmError::SlippageExceeded);
    }
    let mut deltas: Deltas = Deltas::none();
    deltas.amount_a_in = desired_a;
    deltas.amount_b_in = desired_b;
    deltas.lp_mint = minted64;
    deltas.lp_locked = MINIMUM_LIQUIDITY;
    Ok(deltas)
}

/// A deposit into a pool that has shares outstanding: see
/// `spec_later_deposit`.
pub fn compute_later_deposit(
    pool: &Pool,
    desired_a: u64,
    desired_b: u64,
    min_a: u64,
    min_b: u64,
    min_lp_out: u64,
) -> (res: Result<Deltas, AmmError>)
    ensures
        res == spec_later_deposit(*pool, desired_a, desired_b, min_a, min_b, min_lp_out),
{
    if desired_a == 0 || desired_b == 0 {
        return Err(AmmError::ZeroAmount);
    }
    if pool.reserve_a == 0 || pool.reserve_b == 0 {
        return Err(AmmError::MathOverflow);
    }
    let reserve_a: u128 = pool.reserve_a as u128;
    let reserve_b: u128 = pool.reserve_b as u128;
    let supply: u128 = pool.lp_supply as u128;
    proof {
        lemma_mul_div_floor_fits(desired_a as nat, reserve_b as nat, reserve_a as nat);
        lemma_mul_div_floor_fits(desired_b as nat, reserve_a as nat, reserve_b as nat);
    }
    let b_optimal: u128 = mul_div_floor(desired_a as u128, reserve_b, reserve_a)?;
    let amount_a: u64;
    let amount_b: u64;
    if b_optimal <= desired_b as u128 {
        if b_optimal < min_b as u128 {
            return Err(AmmError::SlippageExceeded);
        }
        amount_a = desired_a;
        amount_b = b_optimal as u64;
    } else {
        let a_optimal: u128 = mul_div_floor(desired_b as u128, reserve_a, reserve_b)?;
        if a_optimal > desired_a as u128 || a_optimal < min_a as u128 {
            return Err(AmmError::SlippageExceeded);
        }
        amount_a = a_optimal as u64;
        amount_b = desired_b;
    }
    proof {
        lemma_mul_div_floor_fits(amount_a as nat, supply as nat, reserve_a as nat);
        lemma_mul_div_floor_fits(amount_b as nat, supply as nat, reserve_b as nat);
    }
    let by_a: u128 = mul_div_floor(amount_a as u128, supply, reserve_a)?;
    let by_b: u128 = mul_div_floor(amount_b as u128, supply, reserve_b)?;
    let minted: u128 = if by_a <= by_b {
        by_a
    } else {
        by_b
    };
    if minted < min_lp_out as u128 {
        return Err(AmmError::SlippageExceeded);
    }
    if minted > u64::MAX as u128 {
        return Err(AmmError::MathOverflow);
    }
    let mut deltas: Deltas = Deltas::none();
    deltas.amount_a_in = amount_a;
    deltas.amount_b_in = amount_b;
    deltas.lp_mint = minted as u64;
    Ok(deltas)
}

/// What burning `lp_burn` shares moves: see `spec_withdraw`.
pub fn compute_withdraw(pool: &Pool, lp_burn: u64, min_a_out: u64, min_b_out: u64) -> (res: Result<
    Deltas,
    AmmError,
>)
    ensures
        res == spec_withdraw(*pool, lp_burn, min_a_out, min_b_out),
{
    if lp_burn == 0 {
        return Err(AmmError::ZeroAmount);
    }
    if pool.lp_supply < MINIMUM_LIQUIDITY || lp_burn > pool.lp_supply - MINIMUM_LIQUIDITY {
        return Err(AmmError::InsufficientLiquidity);
    }
    let supply: u128 = pool.lp_supply as u128;
    proof {
        lemma_mul_div_floor_fits(lp_burn as nat, pool.reserve_a as nat, supply as nat);
        lemma_mul_div_floor_fits(lp_burn as nat, pool.reserve_b as nat, supply as nat);
        lemma_part_at_most_whole(lp_burn as nat, pool.reserve_a as nat, supply as nat);
        lemma_part_at_most_whole(lp_burn as nat, pool.reserve_b as nat, supply as nat);
    }
    let amount_a: u128 = mul_div_floor(lp_burn as u128, pool.reserve_a as u128, supply)?;
    let amount_b: u128 = mul_div_floor(lp_burn as u128, pool.reserve_b as u128, supply)?;
    if amount_a < min_a_out as u128 || amount_b < min_b_out as u128 {
        return Err(AmmError::SlippageExceeded);
    }
    let mut deltas: Deltas = Deltas::none();
    deltas.amount_a_out = amount_a as u64;
    deltas.amount_b_out = amount_b as u64;
    deltas.lp_burn = lp_burn;
    Ok(deltas)
}

/// What a swap of exactly `amount_in` on `side` moves: see `spec_swap`.
pub fn compute_swap(
    pool: &Pool,
    protocol_share_bps: u64,
    amount_in: u64,
    side: Side,
    min_amount_out: u64,
) -> (res: Result<Deltas, AmmError>)
    ensures
        res == spec_swap(*pool, protocol_share_bps, amount_in, side, min_amount_out),
{
    let (reserve_in, reserve_out): (u64, u64) = match side {
        Side::AToB => (pool.reserve_a, pool.reserve_b),
        Side::BToA => (pool.reserve_b, pool.reserve_a),
    };
    if reserve_in == 0 || reserve_out == 0 {
        return Err(AmmError::InsufficientLiquidity);
    }
    if amount_in == 0 {
        return Err(AmmError::ZeroAmount);
    }
    let (net, fee): (u64, u64) = apply_fee(amount_in, pool.fee_bps_snapshot)?;
    if protocol_share_bps > MAX_BPS {
        return Err(AmmError::MathOverflow);
    }
    proof {
        lemma_mul_div_floor_fits(protocol_share_bps as nat, fee as nat, MAX_BPS as nat);
        lemma_part_at_most_whole(protocol_share_bps as nat, fee as nat, MAX_BPS as nat);
        lemma_mul_div_floor_fits(reserve_out as nat, net as nat, (reserve_in + net) as nat);
        lemma_amount_out_below_reserve(reserve_in as nat, reserve_out as nat, net as nat);
    }
    let protocol_fee: u128 = mul_div_floor(protocol_share_bps as u128, fee as u128, MAX_BPS as u128)?;
    let amount_out: u128 = mul_div_floor(
        reserve_out as u128,
        net as u128,
        reserve_in as u128 + net as u128,
    )?;
    if amount_out < min_amount_out as u128 {
        return Err(AmmError::SlippageExceeded);
    }
    if amount_out >= reserve_out as u128 {
        return Err(AmmError::InsufficientLiquidity);
    }
    let mut deltas: Deltas = Deltas::none();
    match side {
        Side::AToB => {
            deltas.amount_a_in = amount_in;
            deltas.amount_b_out = amount_out as u64;
            deltas.protocol_fee_in_a = protocol_fee as u64;
        },
        Side::BToA => {
            deltas.amount_b_in = amount_in;
            deltas.amount_a_out = amount_out as u64;
            deltas.protocol_fee_in_b = protocol_fee as u64;
        },
    }
    Ok(deltas)
}

/// What a swap for exactly `amount_out` on `side` moves: see
/// `spec_swap_exact_out`.
pub fn compute_swap_exact_out(
    pool: &Pool,
    protocol_share_bps: u64,
    amount_out: u64,
    side: Side,
    max_amount_in: u64,
) -> (res: Result<Deltas, AmmError>)
    ensures
        res == spec_swap_exact_out(*pool, protocol_share_bps, amount_out, side, max_amount_in),
{
    let (reserve_in, reserve_out): (u64, u64) = match side {
        Side::AToB => (pool.reserve_a, pool.reserve_b),
        Side::BToA => (pool.reserve_b, pool.reserve_a),
    };
    if reserve_in == 0 || reserve_out == 0 {
        return Err(AmmError::InsufficientLiquidity);
    }
    if amount_out == 0 {
        return Err(AmmError::ZeroAmount);
    }
    if amount_out >= reserve_out {
        return Err(AmmError::InsufficientLiquidity);
    }
    if pool.fee_bps_snapshot >= MAX_BPS || protocol_share_bps > MAX_BPS {
        return Err(AmmError::MathOverflow);
    }
    let left: u64 = reserve_out - amount_out;
    proof {
        lemma_mul_div_ceil_bounds(reserve_in as nat, amount_out as nat, left as nat);
        lemma_product_fits(reserve_in as nat, amount_out as nat);
    }
    let net: u128 = mul_div_ceil(reserve_in as u128, amount_out as u128, left as u128)?;
    let keep: u64 = MAX_BPS - pool.fee_bps_snapshot;
    let amount_in: u128 = match mul_div_ceil(net, MAX_BPS as u128, keep as u128) {
        Ok(amount_in) => amount_in,
        Err(_) => {
            return Err(AmmError::SlippageExceeded);
        },
    };
    if amount_in > max_amount_in as u128 {
        return Err(AmmError::SlippageExceeded);
    }
    let (_, fee): (u64, u64) = apply_fee(amount_in as u64, pool.fee_bps_snapshot)?;
    proof {
        lemma_mul_div_floor_fits(protocol_share_bps as nat, fee as nat, MAX_BPS as nat);
        lemma_part_at_most_whole(protocol_share_bps as nat, fee as nat, MAX_BPS as nat);
    }
    let protocol_fee: u128 = mul_div_floor(protocol_share_bps as u128, fee as u128, MAX_BPS as u128)?;
    let mut deltas: Deltas = Deltas::none();
    match side {
        Side::AToB => {
            deltas.amount_a_in = amount_in as u64;
            deltas.amount_b_out = amount_out;
            deltas.protocol_fee_in_a = protocol_fee as u64;
        },
        Side::BToA => {
            deltas.amount_b_in = amount_in as u64;
            deltas.amount_a_out = amount_out;
            deltas.protocol_fee_in_b = protocol_fee as u64;
        },
    }
    Ok(deltas)
}

} // verus!
