//! Commits computed deltas: the next state of a pool and of a position,
//! the transfers to order on the ledger, and the invariants that must hold
//! afterwards. A refused commit changes nothing.

use vstd::prelude::*;
use crate::accounting::Deltas;
use crate::error::AmmError;
use crate::key::Pubkey;
use crate::math::{lemma_product_fits, product_ge};
use crate::state::{Deposit, Pool};

verus! {

/// Who holds the tokens at either end of a transfer.
#[derive(Clone, Copy, Debug, PartialEq, Eq, Structural)]
pub enum Party {
    /// The caller of the operation.
    User,
    /// The pool's custody account of the asset.
    Pool,
    /// The protocol's treasury.
    Treasury,
}

/// Which of the pool's two assets moves.
#[derive(Clone, Copy, Debug, PartialEq, Eq, Structural)]
pub enum Asset {
    A,
    B,
}

/// One transfer for the ledger to carry out: exactly `amount` units of
/// `asset` from `from` to `to`.
#[derive(Clone, Copy, Debug, PartialEq, Eq, Structural)]
pub struct Transfer {
    pub from: Party,
    pub to: Party,
    pub asset: Asset,
    pub amount: u64,
}

impl Transfer {
    /// The place of the transfer in the order of an operation: payments
    /// into the pool first, then fees to the treasury, then payments out.
    pub open spec fn phase(&self) -> int {
        match self.to {
            Party::Pool => 0,
            Party::Treasury => 1,
            Party::User => 2,
        }
    }

    /// What the transfer adds to the pool's balance of `asset`.
    pub open spec fn pool_gain(&self, asset: Asset) -> int {
        if self.asset != asset {
            0
        } else {
            (if self.to == Party::Pool {
                self.amount as int
            } else {
                0
            }) - (if self.from == Party::Pool {
                self.amount as int
            } else {
                0
            })
        }
    }
}

/// The transfer of `amount`, or nothing where `amount` is zero.
pub open spec fn spec_intent(from: Party, to: Party, asset: Asset, amount: u64) -> Seq<Transfer> {
    if amount == 0 {
        Seq::empty()
    } else {
        seq![(Transfer { from, to, asset, amount })]
    }
}

/// The transfers that `d` asks for, in the order in which the ledger must
/// carry them out.
pub open spec fn spec_transfers(d: Deltas) -> Seq<Transfer> {
    spec_intent(Party::User, Party::Pool, Asset::A, d.amount_a_in) + spec_intent(
        Party::User,
        Party::Pool,
        Asset::B,
        d.amount_b_in,
    ) + spec_intent(Party::Pool, Party::Treasury, Asset::A, d.protocol_fee_in_a) + spec_intent(
        Party::Pool,
        Party::Treasury,
        Asset::B,
        d.protocol_fee_in_b,
    ) + spec_intent(Party::Pool, Party::User, Asset::A, d.amount_a_out) + spec_intent(
        Party::Pool,
        Party::User,
        Asset::B,
        d.amount_b_out,
    )
}

/// What a sequence of transfers adds to the pool's balance of `asset`.
pub open spec fn pool_gain(transfers: Seq<Transfer>, asset: Asset) -> int
    decreases transfers.len(),
{
    if transfers.len() == 0 {
        0
    } else {
        pool_gain(transfers.drop_last(), asset) + transfers.last().pool_gain(asset)
    }
}

impl Deltas {
    /// The fees are part of what comes in, and the locked shares part of
    /// what is minted.
    pub open spec fn consistent(&self) -> bool {
        &&& self.protocol_fee_in_a <= self.amount_a_in
        &&& self.protocol_fee_in_b <= self.amount_b_in
        &&& self.lp_locked <= self.lp_mint
    }

    /// What the deltas add to the first reserve.
    pub open spec fn reserve_a_change(&self) -> int {
        self.amount_a_in - self.protocol_fee_in_a - self.amount_a_out
    }

    /// What the deltas add to the second reserve.
    pub open spec fn reserve_b_change(&self) -> int {
        self.amount_b_in - self.protocol_fee_in_b - self.amount_b_out
    }

    /// What the deltas add to the share supply.
    pub open spec fn supply_change(&self) -> int {
        self.lp_mint - self.lp_burn
    }

    /// What the deltas add to the caller's shares.
    pub open spec fn shares_change(&self) -> int {
        self.lp_mint - self.lp_locked - self.lp_burn
    }
}

/// The value behind one share has not gone down from `before` to `after`:
/// `k / lp_supply²` compared across the two states, without the division.
pub open spec fn value_per_share_kept(before: Pool, after: Pool) -> bool {
    after.k() * ((before.lp_supply as nat) * (before.lp_supply as nat)) >= before.k() * ((
    after.lp_supply as nat) * (after.lp_supply as nat))
}

/// The pool after `d`, or why `d` cannot be committed: inconsistent deltas
/// and a state that breaks an invariant are `InvariantViolation`; paying
/// out or burning more than there is, `InsufficientLiquidity`; a balance
/// beyond 64 bits, `MathOverflow`.
pub open spec fn spec_next_pool(pool: Pool, d: Deltas) -> Result<Pool, AmmError> {
    let reserve_a = pool.reserve_a + d.reserve_a_change();
    let reserve_b = pool.reserve_b + d.reserve_b_change();
    let lp_supply = pool.lp_supply + d.supply_change();
    let next = Pool {
        reserve_a: reserve_a as u64,
        reserve_b: reserve_b as u64,
        lp_supply: lp_supply as u64,
        ..pool
    };
    if !d.consistent() {
        Err(AmmError::InvariantViolation)
    } else if reserve_a < 0 || reserve_b < 0 || lp_supply < 0 {
        Err(AmmError::InsufficientLiquidity)
    } else if reserve_a > u64::MAX || reserve_b > u64::MAX || lp_supply > u64::MAX {
        Err(AmmError::MathOverflow)
    } else if !next.wf() || !value_per_share_kept(pool, next) {
        Err(AmmError::InvariantViolation)
    } else {
        Ok(next)
    }
}

/// The position after `d`, or why `d` cannot be committed: locked shares
/// beyond the minted ones are `InvariantViolation`; burning more than the
/// position holds, `InsufficientLiquidity`; more shares than 64 bits hold,
/// `MathOverflow`.
pub open spec fn spec_next_position(position: Deposit, d: Deltas) -> Result<Deposit, AmmError> {
    let shares = position.shares + d.shares_change();
    if d.lp_locked > d.lp_mint {
        Err(AmmError::InvariantViolation)
    } else if shares < 0 {
        Err(AmmError::InsufficientLiquidity)
    } else if shares > u64::MAX {
        Err(AmmError::MathOverflow)
    } else {
        Ok(Deposit { shares: shares as u64, ..position })
    }
}

/// `balance + gain − loss`: the new balance, or whether it fell below zero
/// (`Err(true)`) or rose beyond 64 bits (`Err(false)`).
fn moved(balance: u64, gain: u64, loss: u64) -> (res: Result<u64, bool>)
    ensures
        res is Ok <==> 0 <= balance + gain - loss <= u64::MAX,
        res is Ok ==> res->Ok_0 == balance + gain - loss,
        res is Err ==> res->Err_0 == (balance + gain - loss < 0),
{
    let have: u128 = balance as u128 + gain as u128;
    if (loss as u128) > have {
        Err(true)
    } else if have - loss as u128 > u64::MAX as u128 {
        Err(false)
    } else {
        Ok((have - loss as u128) as u64)
    }
}

/// The pool after `d`: see `spec_next_pool`.
pub fn next_pool(pool: &Pool, d: &Deltas) -> (res: Result<Pool, AmmError>)
    ensures
        res == spec_next_pool(*pool, *d),
{
    if d.protocol_fee_in_a > d.amount_a_in || d.protocol_fee_in_b > d.amount_b_in || d.lp_locked
        > d.lp_mint {
        return Err(AmmError::InvariantViolation);
    }
    let reserve_a = moved(pool.reserve_a, d.amount_a_in - d.protocol_fee_in_a, d.amount_a_out);
    let reserve_b = moved(pool.reserve_b, d.amount_b_in - d.protocol_fee_in_b, d.amount_b_out);
    let lp_supply = moved(pool.lp_supply, d.lp_mint, d.lp_burn);
    match (reserve_a, reserve_b, lp_supply) {
        (Ok(reserve_a), Ok(reserve_b), Ok(lp_supply)) => {
            let next = Pool {
                mint_a: pool.mint_a,
                mint_b: pool.mint_b,
                reserve_a,
                reserve_b,
                lp_supply,
                fee_bps_snapshot: pool.fee_bps_snapshot,
            };
            if !next.check_invariants() || !keeps_value_per_share(pool, &next) {
                Err(AmmError::InvariantViolation)
            } else {
                Ok(next)
            }
        },
        (Err(true), _, _) | (_, Err(true), _) | (_, _, Err(true)) => Err(
            AmmError::InsufficientLiquidity,
        ),
        _ => Err(AmmError::MathOverflow),
    }
}

/// Whether the value behind one share has not gone down: see
/// `value_per_share_kept`.
pub fn keeps_value_per_share(before: &Pool, after: &Pool) -> (kept: bool)
    ensures
        kept == value_per_share_kept(*before, *after),
{
    proof {
        lemma_product_fits(before.reserve_a as nat, before.reserve_b as nat);
        lemma_product_fits(after.reserve_a as nat, after.reserve_b as nat);
        lemma_product_fits(before.lp_supply as nat, before.lp_supply as nat);
        lemma_product_fits(after.lp_supply as nat, after.lp_supply as nat);
    }
    let k_before: u128 = (before.reserve_a as u128) * (before.reserve_b as u128);
    let k_after: u128 = (after.reserve_a as u128) * (after.reserve_b as u128);
    let square_before: u128 = (before.lp_supply as u128) * (before.lp_supply as u128);
    let square_after: u128 = (after.lp_supply as u128) * (after.lp_supply as u128);
    product_ge(k_after, square_before, k_before, square_after)
}

/// The position after `d`: see `spec_next_position`.
pub fn next_position(position: &Deposit, d: &Deltas) -> (res: Result<Deposit, AmmError>)
    ensures
        res == spec_next_position(*position, *d),
{
    if d.lp_locked > d.lp_mint {
        return Err(AmmError::InvariantViolation);
    }
    match moved(position.shares, d.lp_mint - d.lp_locked, d.lp_burn) {
        Ok(shares) => Ok(Deposit { owner: position.owner, pool: position.pool, shares }),
        Err(true) => Err(AmmError::InsufficientLiquidity),
        Err(false) => Err(AmmError::MathOverflow),
    }
}

/// Appends the transfer of `amount` to `list`, unless `amount` is zero.
fn push_intent(list: &mut Vec<Transfer>, from: Party, to: Party, asset: Asset, amount: u64)
    ensures
        final(list)@ == old(list)@ + spec_intent(from, to, asset, amount),
{
    if amount != 0 {
        list.push(Transfer { from, to, asset, amount });
    }
    assert(final(list)@ =~= old(list)@ + spec_intent(from, to, asset, amount));
}

/// The transfers that `d` asks for, in the order in which the ledger must
/// carry them out: see `spec_transfers`.
pub fn transfers(d: &Deltas) -> (list: Vec<Transfer>)
    ensures
        list@ == spec_transfers(*d),
{
    let mut list: Vec<Transfer> = Vec::new();
    assert(list@ =~= Seq::<Transfer>::empty());
    push_intent(&mut list, Party::User, Party::Pool, Asset::A, d.amount_a_in);
    push_intent(&mut list, Party::User, Party::Pool, Asset::B, d.amount_b_in);
    push_intent(&mut list, Party::Pool, Party::Treasury, Asset::A, d.protocol_fee_in_a);
    push_intent(&mut list, Party::Pool, Party::Treasury, Asset::B, d.protocol_fee_in_b);
    push_intent(&mut list, Party::Pool, Party::User, Asset::A, d.amount_a_out);
    push_intent(&mut list, Party::Pool, Party::User, Asset::B, d.amount_b_out);
    assert(list@ =~= spec_transfers(*d));
    list
}

/// Tests that the reserves on record are the balances that the ledger
/// reports for the pool's custody accounts, once the transfers of an
/// operation are carried out. Balances that differ are
/// `InvariantViolation`.
pub fn check_balances(pool: &Pool, balance_a: u64, balance_b: u64) -> (res: Result<(), AmmError>)
    ensures
        res is Ok <==> pool.spec_holds_balances(balance_a, balance_b),
        res is Err ==> res->Err_0 == AmmError::InvariantViolation,
{
    if pool.holds_balances(balance_a, balance_b) {
        Ok(())
    } else {
        Err(AmmError::InvariantViolation)
    }
}

/// The treasury's token accounts are apart from the pool's custody
/// accounts: no key of the one pair is a key of the other.
pub open spec fn spec_treasury_apart(
    custody_a: Seq<u8>,
    custody_b: Seq<u8>,
    treasury_a: Seq<u8>,
    treasury_b: Seq<u8>,
) -> bool {
    &&& treasury_a != custody_a
    &&& treasury_a != custody_b
    &&& treasury_b != custody_a
    &&& treasury_b != custody_b
}

/// Tests that the treasury's token accounts are apart from the pool's
/// custody accounts, so that a fee paid to the treasury leaves the
/// reserves. Accounts that are not apart do not belong to the operation:
/// they are refused as `WrongPool`.
pub fn check_treasury_apart(
    custody_a: &Pubkey,
    custody_b: &Pubkey,
    treasury_a: &Pubkey,
    treasury_b: &Pubkey,
) -> (res: Result<(), AmmError>)
    ensures
        res is Ok <==> spec_treasury_apart(custody_a@, custody_b@, treasury_a@, treasury_b@),
        res is Err ==> res->Err_0 == AmmError::WrongPool,
{
    if treasury_a.same_as(custody_a) || treasury_a.same_as(custody_b) || treasury_b.same_as(
        custody_a,
    ) || treasury_b.same_as(custody_b) {
        Err(AmmError::WrongPool)
    } else {
        Ok(())
    }
}

/// Commits the deltas of a deposit or a withdrawal to the pool and to the
/// caller's position. Both change together or not at all.
pub fn apply_liquidity(pool: &mut Pool, position: &mut Deposit, d: &Deltas) -> (res: Result<
    Vec<Transfer>,
    AmmError,
>)
    ensures
        spec_next_pool(*old(pool), *d) is Err ==> res is Err && res->Err_0 == spec_next_pool(
            *old(pool),
            *d,
        )->Err_0,
        spec_next_pool(*old(pool), *d) is Ok && spec_next_position(*old(position), *d) is Err
            ==> res is Err && res->Err_0 == spec_next_position(*old(position), *d)->Err_0,
        res is Ok <==> spec_next_pool(*old(pool), *d) is Ok && spec_next_position(
            *old(position),
            *d,
        ) is Ok,
        res is Ok ==> *final(pool) == spec_next_pool(*old(pool), *d)->Ok_0 && *final(position)
            == spec_next_position(*old(position), *d)->Ok_0 && res->Ok_0@ == spec_transfers(*d),
        res is Err ==> *final(pool) == *old(pool) && *final(position) == *old(position),
{
    let new_pool: Pool = next_pool(pool, d)?;
    let new_position: Deposit = next_position(position, d)?;
    *pool = new_pool;
    *position = new_position;
    Ok(transfers(d))
}

/// Commits the deltas of a swap to the pool. No position changes.
pub fn apply_swap(pool: &mut Pool, d: &Deltas) -> (res: Result<Vec<Transfer>, AmmError>)
    ensures
        res is Ok <==> spec_next_pool(*old(pool), *d) is Ok,
        res is Ok ==> *final(pool) == spec_next_pool(*old(pool), *d)->Ok_0 && res->Ok_0@
            == spec_transfers(*d),
        res is Err ==> *final(pool) == *old(pool) && res->Err_0 == spec_next_pool(
            *old(pool),
            *d,
        )->Err_0,
{
    let new_pool: Pool = next_pool(pool, d)?;
    *pool = new_pool;
    Ok(transfers(d))
}

} // verus!
