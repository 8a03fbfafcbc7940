//! The records that the market maker keeps: the deployment's configuration,
//! a pool of two assets, and a provider's position in a pool.

use vstd::prelude::*;
use crate::key::{lex_less, Pubkey};
use crate::math::{LIMB, MAX_BPS};

verus! {

/// The share units that the first deposit locks for ever. They bound the
/// value of a share away from zero.
pub const MINIMUM_LIQUIDITY: u64 = 1_000;

/// The parameters of a deployment. There is one such record.
#[derive(Clone, Copy, Debug, PartialEq, Eq)]
pub struct Config {
    /// Who may create pools and change the parameters.
    pub authority: Pubkey,
    /// Who receives the protocol's part of the swap fees.
    pub treasury: Pubkey,
    /// The swap fee in basis points.
    pub fee_bps: u64,
    /// The part of each swap fee that goes to the treasury, in basis points
    /// of the fee. The rest stays in the pool.
    pub protocol_share_bps: u64,
}

/// A pool of two assets. The mints are in canonical order, so that a pair
/// of mints has one pool.
#[derive(Clone, Copy, Debug, PartialEq, Eq)]
pub struct Pool {
    pub mint_a: Pubkey,
    pub mint_b: Pubkey,
    /// The pool's balance of the first asset.
    pub reserve_a: u64,
    /// The pool's balance of the second asset.
    pub reserve_b: u64,
    /// The share units outstanding, the locked ones included.
    pub lp_supply: u64,
    /// The swap fee in basis points, as it was when the pool was created.
    pub fee_bps_snapshot: u64,
}

/// The shares that one provider holds in one pool.
#[derive(Clone, Copy, Debug, PartialEq, Eq)]
pub struct Deposit {
    pub owner: Pubkey,
    pub pool: Pubkey,
    pub shares: u64,
}

impl Config {
    /// Both rates are at most 100%.
    pub open spec fn rates_in_range(&self) -> bool {
        self.fee_bps <= MAX_BPS && self.protocol_share_bps <= MAX_BPS
    }

    /// Whether both rates are at most 100%.
    pub fn has_rates_in_range(&self) -> (ok: bool)
        ensures
            ok == self.rates_in_range(),
    {
        self.fee_bps <= MAX_BPS && self.protocol_share_bps <= MAX_BPS
    }
}

impl Pool {
    /// The product of the reserves, the constant of the constant-product
    /// rule.
    pub open spec fn k(&self) -> nat {
        (self.reserve_a as nat) * (self.reserve_b as nat)
    }

    /// The share units that belong to nobody: none while the pool is empty,
    /// the locked minimum afterwards.
    pub open spec fn locked_shares(&self) -> nat {
        if self.lp_supply == 0 {
            0
        } else {
            MINIMUM_LIQUIDITY as nat
        }
    }

    /// What holds of a pool between any two operations: the mints are in
    /// canonical order; the fee is at most 100%; an empty pool holds
    /// nothing; a pool with shares outstanding holds some of both assets
    /// and at least the locked shares.
    pub open spec fn wf(&self) -> bool {
        &&& lex_less(self.mint_a@, self.mint_b@)
        &&& self.fee_bps_snapshot <= MAX_BPS
        &&& self.lp_supply == 0 ==> self.reserve_a == 0 && self.reserve_b == 0
        &&& self.lp_supply > 0 ==> self.reserve_a > 0 && self.reserve_b > 0 && self.lp_supply
            >= MINIMUM_LIQUIDITY
    }

    /// The price of the first asset in units of the second, as a fixed-point
    /// number with 64 fractional bits, rounded down. It informs; no
    /// operation goes by it.
    pub open spec fn spec_price_a_in_b(&self) -> Option<nat> {
        if self.reserve_a == 0 {
            None
        } else {
            Some((self.reserve_b as nat) * 0x1_0000_0000_0000_0000 / (self.reserve_a as nat))
        }
    }

    /// The reserves on record are the balances that the ledger reports for
    /// the pool's two custody accounts.
    pub open spec fn spec_holds_balances(&self, balance_a: u64, balance_b: u64) -> bool {
        self.reserve_a == balance_a && self.reserve_b == balance_b
    }

    /// Whether the reserves on record are the balances that the ledger
    /// reports for the pool's two custody accounts.
    pub fn holds_balances(&self, balance_a: u64, balance_b: u64) -> (ok: bool)
        ensures
            ok == (self.reserve_a == balance_a && self.reserve_b == balance_b),
            ok == self.spec_holds_balances(balance_a, balance_b),
    {
        self.reserve_a == balance_a && self.reserve_b == balance_b
    }

    /// Whether no share is outstanding.
    pub fn is_empty(&self) -> (empty: bool)
        ensures
            empty == (self.lp_supply == 0),
    {
        self.lp_supply == 0
    }

    /// The price of the first asset in units of the second, with 64
    /// fractional bits; `None` while the pool holds none of the first asset.
    pub fn price_a_in_b(&self) -> (price: Option<u128>)
        ensures
            price is Some <==> self.reserve_a != 0,
            price is Some ==> Some(price->Some_0 as nat) == self.spec_price_a_in_b(),
    {
        if self.reserve_a == 0 {
            None
        } else {
            let scaled: u128 = (self.reserve_b as u128) * LIMB;
            Some(scaled / (self.reserve_a as u128))
        }
    }

    /// Whether the pool is well formed.
    pub fn check_invariants(&self) -> (ok: bool)
        ensures
            ok == self.wf(),
    {
        if !self.mint_a.precedes(&self.mint_b) || self.fee_bps_snapshot > MAX_BPS {
            return false;
        }
        if self.lp_supply == 0 {
            self.reserve_a == 0 && self.reserve_b == 0
        } else {
            self.reserve_a > 0 && self.reserve_b > 0 && self.lp_supply >= MINIMUM_LIQUIDITY
        }
    }
}

impl Deposit {
    /// The position of `owner` in `pool`, before the first deposit.
    pub fn new(owner: Pubkey, pool: Pubkey) -> (position: Deposit)
        ensures
            position.owner == owner,
            position.pool == pool,
            position.shares == 0,
    {
        Deposit { owner, pool, shares: 0 }
    }
}

} // verus!
