//! The operations that a caller reaches: each checks who calls and on what,
//! has the accounting compute the deltas, and has the engine commit them.
//! An operation that fails changes nothing.

use vstd::prelude::*;
use crate::accounting::{
    compute_deposit, compute_swap, compute_swap_exact_out, compute_withdraw, spec_deposit,
    spec_swap, spec_swap_exact_out, spec_withdraw, Deltas, Side,
};
use crate::engine::{
    apply_liquidity, apply_swap, spec_next_pool, spec_next_position, spec_transfers, Transfer,
};
use crate::error::AmmError;
use crate::key::{lex_less, Pubkey};
use crate::math::MAX_BPS;
use crate::soundness::{
    lemma_deposit_never_violates, lemma_swap_exact_out_never_violates, lemma_swap_never_violates,
    lemma_withdraw_never_violates,
};
use crate::state::{Config, Deposit, Pool};

verus! {

/// Who takes part in `create_config`.
#[derive(Clone, Copy, Debug, PartialEq, Eq)]
pub struct CreateConfig {
    /// The signer, who becomes the authority of the deployment.
    pub authority: Pubkey,
    /// Who is to receive the protocol's part of the fees.
    pub treasury: Pubkey,
}

/// Who and what takes part in `create_pool`.
#[derive(Clone, Copy, Debug, PartialEq, Eq)]
pub struct CreatePool {
    /// The configuration of the deployment.
    pub config: Config,
    /// The signer.
    pub authority: Pubkey,
    pub mint_a: Pubkey,
    pub mint_b: Pubkey,
}

/// What a committed operation reports back.
#[derive(Debug)]
pub struct Receipt {
    /// What the operation moved.
    pub deltas: Deltas,
    /// The transfers for the ledger, in the order to carry them out.
    pub transfers: Vec<Transfer>,
    pub new_reserve_a: u64,
    pub new_reserve_b: u64,
    pub new_lp_supply: u64,
}

impl Receipt {
    /// The receipt reports `d` and its transfers, and the balances of
    /// `pool`.
    pub open spec fn reports(&self, d: Deltas, pool: Pool) -> bool {
        &&& self.deltas == d
        &&& self.transfers@ == spec_transfers(d)
        &&& self.new_reserve_a == pool.reserve_a
        &&& self.new_reserve_b == pool.reserve_b
        &&& self.new_lp_supply == pool.lp_supply
    }
}

/// The configuration that `create_config` sets up, or why it is refused:
/// the signer is the authority, and the whole swap fee stays in the pools.
/// A fee above 100% is no rate; it is refused as `MathOverflow`, the kind
/// for a number outside its range.
pub open spec fn spec_create_config(ctx: CreateConfig, fee: u64) -> Result<Config, AmmError> {
    if fee > MAX_BPS {
        Err(AmmError::MathOverflow)
    } else {
        Ok(
            Config {
                authority: ctx.authority,
                treasury: ctx.treasury,
                fee_bps: fee,
                protocol_share_bps: 0,
            },
        )
    }
}

/// Sets up the configuration of a deployment with the swap fee `fee`, in
/// basis points. A fee above 10_000 is refused with `MathOverflow`, and no
/// configuration comes about.
pub fn create_config(ctx: &CreateConfig, fee: u64) -> (res: Result<Config, AmmError>)
    ensures
        res == spec_create_config(*ctx, fee),
        res is Ok <==> fee <= MAX_BPS,
        res is Ok ==> res->Ok_0 == (Config {
            authority: ctx.authority,
            treasury: ctx.treasury,
            fee_bps: fee,
            protocol_share_bps: 0,
        }),
        res is Ok ==> res->Ok_0.rates_in_range(),
        res is Err ==> res->Err_0 == AmmError::MathOverflow,
{
    if fee > MAX_BPS {
        return Err(AmmError::MathOverflow);
    }
    Ok(Config { authority: ctx.authority, treasury: ctx.treasury, fee_bps: fee, protocol_share_bps: 0 })
}

/// The configuration after `set_config`, or why it is refused: a signer
/// other than the authority is `Unauthorized`; a new fee above 100% is
/// `MathOverflow`, as in `create_config`.
pub open spec fn spec_set_config(
    config: Config,
    signer: Seq<u8>,
    fee_bps: Option<u64>,
    treasury: Option<Pubkey>,
) -> Result<Config, AmmError> {
    if signer != config.authority@ {
        Err(AmmError::Unauthorized)
    } else if fee_bps is Some && fee_bps->Some_0 > MAX_BPS {
        Err(AmmError::MathOverflow)
    } else {
        Ok(
            Config {
                fee_bps: if fee_bps is Some {
                    fee_bps->Some_0
                } else {
                    config.fee_bps
                },
                treasury: if treasury is Some {
                    treasury->Some_0
                } else {
                    config.treasury
                },
                ..config
            },
        )
    }
}

/// Changes the swap fee, the treasury, or both. Only the authority may,
/// and a fee above 10_000 is refused with `MathOverflow`. A refused change
/// leaves the configuration as it was. Pools that exist keep the fee they
/// were created with.
pub fn set_config(
    config: &mut Config,
    signer: &Pubkey,
    fee_bps: Option<u64>,
    treasury: Option<Pubkey>,
) -> (res: Result<(), AmmError>)
    ensures
        match spec_set_config(*old(config), signer@, fee_bps, treasury) {
            Ok(changed) => res is Ok && *final(config) == changed,
            Err(e) => res is Err && res->Err_0 == e && *final(config) == *old(config),
        },
        res is Ok <==> signer@ == old(config).authority@ && (fee_bps is Some ==> fee_bps->Some_0
            <= MAX_BPS),
        old(config).rates_in_range() ==> final(config).rates_in_range(),
{
    if !signer.same_as(&config.authority) {
        return Err(AmmError::Unauthorized);
    }
    match fee_bps {
        Some(fee) => {
            if fee > MAX_BPS {
                return Err(AmmError::MathOverflow);
            }
            config.fee_bps = fee;
        },
        None => {},
    }
    match treasury {
        Some(key) => {
            config.treasury = key;
        },
        None => {},
    }
    Ok(())
}

/// The configuration after `set_protocol_share`, or why it is refused: a
/// signer other than the authority is `Unauthorized`; a share above 100%
/// of the fee is `MathOverflow`.
pub open spec fn spec_set_protocol_share(config: Config, signer: Seq<u8>, protocol_share_bps: u64)
    -> Result<Config, AmmError> {
    if signer != config.authority@ {
        Err(AmmError::Unauthorized)
    } else if protocol_share_bps > MAX_BPS {
        Err(AmmError::MathOverflow)
    } else {
        Ok(Config { protocol_share_bps, ..config })
    }
}

/// Changes the part of each swap fee that goes to the treasury. Only the
/// authority may, and a share above 10_000 is refused with `MathOverflow`.
/// A refused change leaves the configuration as it was.
pub fn set_protocol_share(config: &mut Config, signer: &Pubkey, protocol_share_bps: u64) -> (res:
    Result<(), AmmError>)
    ensures
        match spec_set_protocol_share(*old(config), signer@, protocol_share_bps) {
            Ok(changed) => res is Ok && *final(config) == changed,
            Err(e) => res is Err && res->Err_0 == e && *final(config) == *old(config),
        },
        res is Ok <==> signer@ == old(config).authority@ && protocol_share_bps <= MAX_BPS,
        old(config).rates_in_range() ==> final(config).rates_in_range(),
{
    if !signer.same_as(&config.authority) {
        return Err(AmmError::Unauthorized);
    }
    if protocol_share_bps > MAX_BPS {
        return Err(AmmError::MathOverflow);
    }
    config.protocol_share_bps = protocol_share_bps;
    Ok(())
}

/// The pool that `create_pool` sets up, or why it is refused: the signer
/// must be the authority, the configuration must hold rates of at most
/// 100%, as every configuration that `create_config` set up does, and the
/// mints must be distinct and in canonical order.
pub open spec fn spec_create_pool(ctx: CreatePool) -> Result<Pool, AmmError> {
    if ctx.authority@ != ctx.config.authority@ {
        Err(AmmError::Unauthorized)
    } else if !ctx.config.rates_in_range() {
        Err(AmmError::InvariantViolation)
    } else if !lex_less(ctx.mint_a@, ctx.mint_b@) {
        Err(AmmError::InvalidMintPair)
    } else {
        Ok(
            Pool {
                mint_a: ctx.mint_a,
                mint_b: ctx.mint_b,
                reserve_a: 0,
                reserve_b: 0,
                lp_supply: 0,
                fee_bps_snapshot: ctx.config.fee_bps,
            },
        )
    }
}

/// Sets up an empty pool for a pair of mints. The pool keeps the swap fee
/// of this moment. A configuration with a rate above 100%, which no
/// operation of this library leaves behind, is `InvariantViolation`.
pub fn create_pool(ctx: &CreatePool) -> (res: Result<Pool, AmmError>)
    ensures
        res == spec_create_pool(*ctx),
        res is Ok <==> ctx.authority@ == ctx.config.authority@ && ctx.config.rates_in_range()
            && lex_less(ctx.mint_a@, ctx.mint_b@),
        res is Ok ==> res->Ok_0.wf() && res->Ok_0.fee_bps_snapshot == ctx.config.fee_bps,
{
    if !ctx.authority.same_as(&ctx.config.authority) {
        return Err(AmmError::Unauthorized);
    }
    if !ctx.config.has_rates_in_range() {
        return Err(AmmError::InvariantViolation);
    }
    if !ctx.mint_a.precedes(&ctx.mint_b) {
        return Err(AmmError::InvalidMintPair);
    }
    Ok(
        Pool {
            mint_a: ctx.mint_a,
            mint_b: ctx.mint_b,
            reserve_a: 0,
            reserve_b: 0,
            lp_supply: 0,
            fee_bps_snapshot: ctx.config.fee_bps,
        },
    )
}

/// Why `signer` may not act on `position` in the pool at `pool_key`, or
/// why the pool cannot be acted on at all; `None` where nothing stands in
/// the way.
pub open spec fn spec_refusal(pool: Pool, position: Deposit, pool_key: Seq<u8>, signer: Seq<u8>)
    -> Option<AmmError> {
    if position.pool@ != pool_key {
        Some(AmmError::WrongPool)
    } else if position.owner@ != signer {
        Some(AmmError::Unauthorized)
    } else if !pool.wf() {
        Some(AmmError::InvariantViolation)
    } else {
        None
    }
}

/// The pool and the position after `d`, where both can take it.
pub open spec fn spec_commit(pool: Pool, position: Deposit, d: Deltas) -> Result<
    (Pool, Deposit),
    AmmError,
> {
    let next_pool = spec_next_pool(pool, d);
    let next_position = spec_next_position(position, d);
    if next_pool is Err {
        Err(next_pool->Err_0)
    } else if next_position is Err {
        Err(next_position->Err_0)
    } else {
        Ok((next_pool->Ok_0, next_position->Ok_0))
    }
}

/// The outcome of `deposit`: the pool and the position afterwards with the
/// deltas that led there, or the first reason to refuse.
pub open spec fn spec_deposit_op(
    pool: Pool,
    position: Deposit,
    pool_key: Seq<u8>,
    signer: Seq<u8>,
    desired_a: u64,
    desired_b: u64,
    min_a: u64,
    min_b: u64,
    min_lp_out: u64,
) -> Result<(Pool, Deposit, Deltas), AmmError> {
    let refusal = spec_refusal(pool, position, pool_key, signer);
    let deltas = spec_deposit(pool, desired_a, desired_b, min_a, min_b, min_lp_out);
    if refusal is Some {
        Err(refusal->Some_0)
    } else if deltas is Err {
        Err(deltas->Err_0)
    } else {
        match spec_commit(pool, position, deltas->Ok_0) {
            Ok((p, q)) => Ok((p, q, deltas->Ok_0)),
            Err(e) => Err(e),
        }
    }
}

/// The outcome of `withdraw`, as `spec_deposit_op` gives that of `deposit`.
pub open spec fn spec_withdraw_op(
    pool: Pool,
    position: Deposit,
    pool_key: Seq<u8>,
    signer: Seq<u8>,
    lp_burn: u64,
    min_a_out: u64,
    min_b_out: u64,
) -> Result<(Pool, Deposit, Deltas), AmmError> {
    let refusal = spec_refusal(pool, position, pool_key, signer);
    let deltas = spec_withdraw(pool, lp_burn, min_a_out, min_b_out);
    if refusal is Some {
        Err(refusal->Some_0)
    } else if deltas is Err {
        Err(deltas->Err_0)
    } else {
        match spec_commit(pool, position, deltas->Ok_0) {
            Ok((p, q)) => Ok((p, q, deltas->Ok_0)),
            Err(e) => Err(e),
        }
    }
}

/// The outcome of `swap`: the pool afterwards with the deltas that led
/// there, or the first reason to refuse.
pub open spec fn spec_swap_op(
    pool: Pool,
    config: Config,
    amount_in: u64,
    side: Side,
    min_amount_out: u64,
) -> Result<(Pool, Deltas), AmmError> {
    let deltas = spec_swap(pool, config.protocol_share_bps, amount_in, side, min_amount_out);
    if !pool.wf() {
        Err(AmmError::InvariantViolation)
    } else if deltas is Err {
        Err(deltas->Err_0)
    } else {
        match spec_next_pool(pool, deltas->Ok_0) {
            Ok(p) => Ok((p, deltas->Ok_0)),
            Err(e) => Err(e),
        }
    }
}

/// The outcome of `swap_exact_out`, as `spec_swap_op` gives that of `swap`.
pub open spec fn spec_swap_exact_out_op(
    pool: Pool,
    config: Config,
    amount_out: u64,
    side: Side,
    max_amount_in: u64,
) -> Result<(Pool, Deltas), AmmError> {
    let deltas = spec_swap_exact_out(
        pool,
        config.protocol_share_bps,
        amount_out,
        side,
        max_amount_in,
    );
    if !pool.wf() {
        Err(AmmError::InvariantViolation)
    } else if deltas is Err {
        Err(deltas->Err_0)
    } else {
        match spec_next_pool(pool, deltas->Ok_0) {
            Ok(p) => Ok((p, deltas->Ok_0)),
            Err(e) => Err(e),
        }
    }
}

/// Tests what `spec_refusal` states.
fn refuse(pool: &Pool, position: &Deposit, pool_key: &Pubkey, signer: &Pubkey) -> (res: Result<
    (),
    AmmError,
>)
    ensures
        res is Ok <==> spec_refusal(*pool, *position, pool_key@, signer@) is None,
        res is Err ==> Some(res->Err_0) == spec_refusal(*pool, *position, pool_key@, signer@),
{
    if !position.pool.same_as(pool_key) {
        Err(AmmError::WrongPool)
    } else if !position.owner.same_as(signer) {
        Err(AmmError::Unauthorized)
    } else if !pool.check_invariants() {
        Err(AmmError::InvariantViolation)
    } else {
        Ok(())
    }
}

/// Pays up to `(desired_a, desired_b)` into the pool at `pool_key`, in the
/// ratio of its reserves, and credits the shares minted to `position`,
/// which must be the signer's position in that pool.
pub fn deposit(
    pool: &mut Pool,
    position: &mut Deposit,
    pool_key: &Pubkey,
    signer: &Pubkey,
    desired_a: u64,
    desired_b: u64,
    min_a: u64,
    min_b: u64,
    min_lp_out: u64,
) -> (res: Result<Receipt, AmmError>)
    ensures
        match spec_deposit_op(
            *old(pool),
            *old(position),
            pool_key@,
            signer@,
            desired_a,
            desired_b,
            min_a,
            min_b,
            min_lp_out,
        ) {
            Ok((p, q, d)) => res is Ok && *final(pool) == p && *final(position) == q
                && res->Ok_0.reports(d, p),
            Err(e) => res is Err && res->Err_0 == e && *final(pool) == *old(pool)
                && *final(position) == *old(position),
        },
        old(pool).wf() ==> final(pool).wf(),
        res is Err && res->Err_0 == AmmError::InvariantViolation ==> !old(pool).wf(),
{
    proof {
        if pool.wf() {
            lemma_deposit_never_violates(
                *pool,
                *position,
                pool_key@,
                signer@,
                desired_a,
                desired_b,
                min_a,
                min_b,
                min_lp_out,
            );
        }
    }
    refuse(pool, position, pool_key, signer)?;
    let deltas: Deltas = compute_deposit(pool, desired_a, desired_b, min_a, min_b, min_lp_out)?;
    let transfers: Vec<Transfer> = apply_liquidity(pool, position, &deltas)?;
    Ok(
        Receipt {
            deltas,
            transfers,
            new_reserve_a: pool.reserve_a,
            new_reserve_b: pool.reserve_b,
            new_lp_supply: pool.lp_supply,
        },
    )
}

/// Burns `lp_burn` shares of `position`, which must be the signer's
/// position in the pool at `pool_key`, and pays out their part of both
/// reserves.
pub fn withdraw(
    pool: &mut Pool,
    position: &mut Deposit,
    pool_key: &Pubkey,
    signer: &Pubkey,
    lp_burn: u64,
    min_a_out: u64,
    min_b_out: u64,
) -> (res: Result<Receipt, AmmError>)
    ensures
        match spec_withdraw_op(
            *old(pool),
            *old(position),
            pool_key@,
            signer@,
            lp_burn,
            min_a_out,
            min_b_out,
        ) {
            Ok((p, q, d)) => res is Ok && *final(pool) == p && *final(position) == q
                && res->Ok_0.reports(d, p),
            Err(e) => res is Err && res->Err_0 == e && *final(pool) == *old(pool)
                && *final(position) == *old(position),
        },
        old(pool).wf() ==> final(pool).wf(),
        res is Err && res->Err_0 == AmmError::InvariantViolation ==> !old(pool).wf(),
{
    proof {
        if pool.wf() {
            lemma_withdraw_never_violates(
                *pool,
                *position,
                pool_key@,
                signer@,
                lp_burn,
                min_a_out,
                min_b_out,
            );
        }
    }
    refuse(pool, position, pool_key, signer)?;
    let deltas: Deltas = compute_withdraw(pool, lp_burn, min_a_out, min_b_out)?;
    let transfers: Vec<Transfer> = apply_liquidity(pool, position, &deltas)?;
    Ok(
        Receipt {
            deltas,
            transfers,
            new_reserve_a: pool.reserve_a,
            new_reserve_b: pool.reserve_b,
            new_lp_supply: pool.lp_supply,
        },
    )
}

/// Exchanges exactly `amount_in` of one asset for the other, at the price
/// that the reserves give. Anyone may swap.
pub fn swap(pool: &mut Pool, config: &Config, amount_in: u64, side: Side, min_amount_out: u64) -> (res:
    Result<Receipt, AmmError>)
    ensures
        match spec_swap_op(*old(pool), *config, amount_in, side, min_amount_out) {
            Ok((p, d)) => res is Ok && *final(pool) == p && res->Ok_0.reports(d, p),
            Err(e) => res is Err && res->Err_0 == e && *final(pool) == *old(pool),
        },
        old(pool).wf() ==> final(pool).wf(),
        res is Err && res->Err_0 == AmmError::InvariantViolation ==> !old(pool).wf(),
{
    proof {
        if pool.wf() {
            lemma_swap_never_violates(*pool, *config, amount_in, side, min_amount_out);
        }
    }
    if !pool.check_invariants() {
        return Err(AmmError::InvariantViolation);
    }
    let deltas: Deltas = compute_swap(
        pool,
        config.protocol_share_bps,
        amount_in,
        side,
        min_amount_out,
    )?;
    let transfers: Vec<Transfer> = apply_swap(pool, &deltas)?;
    Ok(
        Receipt {
            deltas,
            transfers,
            new_reserve_a: pool.reserve_a,
            new_reserve_b: pool.reserve_b,
            new_lp_supply: pool.lp_supply,
        },
    )
}

/// Exchanges as little as it takes of one asset for exactly `amount_out`
/// of the other, and no more than `max_amount_in`. Anyone may swap.
pub fn swap_exact_out(
    pool: &mut Pool,
    config: &Config,
    amount_out: u64,
    side: Side,
    max_amount_in: u64,
) -> (res: Result<Receipt, AmmError>)
    ensures
        match spec_swap_exact_out_op(*old(pool), *config, amount_out, side, max_amount_in) {
            Ok((p, d)) => res is Ok && *final(pool) == p && res->Ok_0.reports(d, p),
            Err(e) => res is Err && res->Err_0 == e && *final(pool) == *old(pool),
        },
        old(pool).wf() ==> final(pool).wf(),
        res is Err && res->Err_0 == AmmError::InvariantViolation ==> !old(pool).wf(),
{
    proof {
        if pool.wf() {
            lemma_swap_exact_out_never_violates(*pool, *config, amount_out, side, max_amount_in);
        }
    }
    if !pool.check_invariants() {
        return Err(AmmError::InvariantViolation);
    }
    let deltas: Deltas = compute_swap_exact_out(
        pool,
        config.protocol_share_bps,
        amount_out,
        side,
        max_amount_in,
    )?;
    let transfers: Vec<Transfer> = apply_swap(pool, &deltas)?;
    Ok(
        Receipt {
            deltas,
            transfers,
            new_reserve_a: pool.reserve_a,
            new_reserve_b: pool.reserve_b,
            new_lp_supply: pool.lp_supply,
        },
    )
}

} // verus!
