//! What the accounting computes can always be committed: on a well-formed
//! pool the deltas of a deposit, a withdrawal or a swap lead to a
//! well-formed pool in which a share is worth no less than before. The
//! invariant check of the engine therefore never fires on them.

use vstd::prelude::*;
use crate::accounting::{
    lemma_amount_out_below_reserve, spec_amount_out, spec_deposit, spec_first_deposit,
    spec_gross_in, spec_later_deposit, spec_matched_amounts, spec_net_in, spec_protocol_fee,
    spec_shares_minted, spec_swap, spec_swap_exact_out, spec_withdraw, Deltas, Side,
};
use crate::engine::{spec_next_pool, value_per_share_kept};
use crate::entry::{
    spec_deposit_op, spec_swap_exact_out_op, spec_swap_op, spec_withdraw_op,
};
use crate::error::AmmError;
use crate::math::{
    lemma_isqrt_of_product_fits, lemma_mul_div_ceil_bounds, lemma_mul_div_floor_bounds,
    lemma_part_at_most_whole, MAX_BPS, spec_fee, spec_isqrt, spec_mul_div_floor,
};
use crate::state::{Config, Deposit, Pool};

verus! {

/// If each reserve, scaled by the old supply, is at least the old reserve
/// scaled by the new supply, then `k` over the square of the supply has
/// not gone down.
pub proof fn lemma_scaled_reserves(x: nat, y: nat, l: nat, x2: nat, y2: nat, l2: nat)
    requires
        x2 * l >= x * l2,
        y2 * l >= y * l2,
    ensures
        (x2 * y2) * (l * l) >= (x * y) * (l2 * l2),
{
    let p = x2 * l;
    let q = y2 * l;
    let r = x * l2;
    let s = y * l2;
    assert(p * q >= r * s) by (nonlinear_arith)
        requires
            p >= r,
            q >= s,
            r >= 0,
            s >= 0,
    ;
    assert(p * q == (x2 * y2) * (l * l)) by (nonlinear_arith)
        requires
            p == x2 * l,
            q == y2 * l,
    ;
    assert(r * s == (x * y) * (l2 * l2)) by (nonlinear_arith)
        requires
            r == x * l2,
            s == y * l2,
    ;
}

/// The deltas of a first deposit on an empty, well-formed pool can always
/// be committed: the amounts and the shares minted fit in 64 bits.
pub proof fn lemma_first_deposit_commits(
    pool: Pool,
    desired_a: u64,
    desired_b: u64,
    min_lp_out: u64,
)
    requires
        pool.wf(),
        pool.lp_supply == 0,
        spec_first_deposit(desired_a, desired_b, min_lp_out) is Ok,
    ensures
        spec_next_pool(pool, spec_first_deposit(desired_a, desired_b, min_lp_out)->Ok_0) is Ok,
{
    let minted = spec_isqrt((desired_a as nat) * (desired_b as nat));
    lemma_isqrt_of_product_fits(desired_a as nat, desired_b as nat);
    let after = Pool {
        reserve_a: desired_a,
        reserve_b: desired_b,
        lp_supply: minted as u64,
        ..pool
    };
    assert(pool.k() == 0) by (nonlinear_arith)
        requires
            pool.k() == (pool.reserve_a as nat) * (pool.reserve_b as nat),
            pool.reserve_a == 0,
    ;
    assert(value_per_share_kept(pool, after)) by (nonlinear_arith)
        requires
            pool.k() == 0,
            pool.lp_supply == 0,
            value_per_share_kept(pool, after) == (after.k() * ((pool.lp_supply as nat) * (
            pool.lp_supply as nat)) >= pool.k() * ((after.lp_supply as nat) * (
            after.lp_supply as nat))),
    ;
}

/// The deltas of a later deposit on a well-formed pool can be committed
/// unless a balance would leave 64 bits.
pub proof fn lemma_later_deposit_commits(
    pool: Pool,
    desired_a: u64,
    desired_b: u64,
    min_a: u64,
    min_b: u64,
    min_lp_out: u64,
)
    requires
        pool.wf(),
        pool.lp_supply > 0,
        spec_later_deposit(pool, desired_a, desired_b, min_a, min_b, min_lp_out) is Ok,
    ensures
        ({
            let d = spec_later_deposit(pool, desired_a, desired_b, min_a, min_b, min_lp_out)->Ok_0;
            spec_next_pool(pool, d) is Err ==> spec_next_pool(pool, d)->Err_0
                == AmmError::MathOverflow
        }),
{
    let d = spec_later_deposit(pool, desired_a, desired_b, min_a, min_b, min_lp_out)->Ok_0;
    let ra = pool.reserve_a as nat;
    let rb = pool.reserve_b as nat;
    let l = pool.lp_supply as nat;
    let matched = spec_matched_amounts(
        ra,
        rb,
        desired_a as nat,
        desired_b as nat,
        min_a as nat,
        min_b as nat,
    );
    let (a, b) = matched->Some_0;
    let m = spec_shares_minted(a, b, ra, rb, l);
    assert(a <= desired_a && b <= desired_b);
    assert(d.amount_a_in == a && d.amount_b_in == b && d.lp_mint == m);
    lemma_mul_div_floor_bounds(a, l, ra);
    lemma_mul_div_floor_bounds(b, l, rb);
    let by_a = spec_mul_div_floor(a, l, ra);
    let by_b = spec_mul_div_floor(b, l, rb);
    assert(m * ra <= a * l) by (nonlinear_arith)
        requires
            m <= by_a,
            by_a * ra <= a * l,
    ;
    assert(m * rb <= b * l) by (nonlinear_arith)
        requires
            m <= by_b,
            by_b * rb <= b * l,
    ;
    if ra + a <= u64::MAX && rb + b <= u64::MAX && l + m <= u64::MAX {
        let after = Pool {
            reserve_a: (ra + a) as u64,
            reserve_b: (rb + b) as u64,
            lp_supply: (l + m) as u64,
            ..pool
        };
        assert((ra + a) * l >= ra * (l + m)) by (nonlinear_arith)
            requires
                m * ra <= a * l,
        ;
        assert((rb + b) * l >= rb * (l + m)) by (nonlinear_arith)
            requires
                m * rb <= b * l,
        ;
        lemma_scaled_reserves(ra, rb, l, ra + a, rb + b, l + m);
        assert(after.k() == (ra + a) * (rb + b));
        assert(pool.k() == ra * rb);
        assert(value_per_share_kept(pool, after));
        assert(after.wf());
    }
}

/// The deltas of a deposit on a well-formed pool can be committed unless a
/// balance would leave 64 bits: no invariant fails and nothing is drained.
pub proof fn lemma_deposit_commits(
    pool: Pool,
    desired_a: u64,
    desired_b: u64,
    min_a: u64,
    min_b: u64,
    min_lp_out: u64,
)
    requires
        pool.wf(),
        spec_deposit(pool, desired_a, desired_b, min_a, min_b, min_lp_out) is Ok,
    ensures
        ({
            let d = spec_deposit(pool, desired_a, desired_b, min_a, min_b, min_lp_out)->Ok_0;
            spec_next_pool(pool, d) is Err ==> spec_next_pool(pool, d)->Err_0
                == AmmError::MathOverflow
        }),
{
    if pool.lp_supply == 0 {
        lemma_first_deposit_commits(pool, desired_a, desired_b, min_lp_out);
    } else {
        lemma_later_deposit_commits(pool, desired_a, desired_b, min_a, min_b, min_lp_out);
    }
}

/// The deltas of a withdrawal on a well-formed pool can always be
/// committed: both reserves stay positive and the locked shares stay.
pub proof fn lemma_withdraw_commits(pool: Pool, lp_burn: u64, min_a_out: u64, min_b_out: u64)
    requires
        pool.wf(),
        spec_withdraw(pool, lp_burn, min_a_out, min_b_out) is Ok,
    ensures
        spec_next_pool(pool, spec_withdraw(pool, lp_burn, min_a_out, min_b_out)->Ok_0) is Ok,
{
    let d = spec_withdraw(pool, lp_burn, min_a_out, min_b_out)->Ok_0;
    let ra = pool.reserve_a as nat;
    let rb = pool.reserve_b as nat;
    let l = pool.lp_supply as nat;
    let burn = lp_burn as nat;
    let out_a = spec_mul_div_floor(burn, ra, l);
    let out_b = spec_mul_div_floor(burn, rb, l);
    lemma_part_at_most_whole(burn, ra, l);
    lemma_part_at_most_whole(burn, rb, l);
    lemma_mul_div_floor_bounds(burn, ra, l);
    lemma_mul_div_floor_bounds(burn, rb, l);
    lemma_withdrawn_part(burn, ra, l, out_a);
    lemma_withdrawn_part(burn, rb, l, out_b);
    let after = Pool {
        reserve_a: (ra - out_a) as u64,
        reserve_b: (rb - out_b) as u64,
        lp_supply: (l - burn) as u64,
        ..pool
    };
    lemma_scaled_reserves(ra, rb, l, (ra - out_a) as nat, (rb - out_b) as nat, (l - burn) as nat);
    assert(after.k() == ((ra - out_a) as nat) * ((rb - out_b) as nat));
    assert(pool.k() == ra * rb);
    assert(value_per_share_kept(pool, after));
    assert(after.wf());
}

/// Burning fewer shares than there are leaves some of the reserve, and
/// what is left is at least the rest's proportional part.
proof fn lemma_withdrawn_part(burn: nat, reserve: nat, supply: nat, out: nat)
    requires
        burn < supply,
        reserve > 0,
        out * supply <= burn * reserve,
        out <= reserve,
    ensures
        out < reserve,
        ((reserve - out) as nat) * supply >= reserve * ((supply - burn) as nat),
{
    assert(burn * reserve < supply * reserve) by (nonlinear_arith)
        requires
            burn < supply,
            reserve > 0,
    ;
    if out >= reserve {
        assert(out * supply >= reserve * supply) by (nonlinear_arith)
            requires
                out >= reserve,
        ;
        assert(reserve * supply == supply * reserve) by (nonlinear_arith);
    }
    assert((reserve - out) * supply >= reserve * (supply - burn)) by (nonlinear_arith)
        requires
            out * supply <= burn * reserve,
    ;
}

/// What a swap leaves on both sides multiplies to at least the old `k`.
pub proof fn lemma_swap_keeps_k(reserve_in: nat, reserve_out: nat, net: nat)
    requires
        reserve_in > 0,
        reserve_out > 0,
    ensures
        spec_amount_out(reserve_in, reserve_out, net) < reserve_out,
        (reserve_in + net) * (reserve_out - spec_amount_out(reserve_in, reserve_out, net))
            >= reserve_in * reserve_out,
{
    let out = spec_amount_out(reserve_in, reserve_out, net);
    lemma_amount_out_below_reserve(reserve_in, reserve_out, net);
    lemma_mul_div_floor_bounds(reserve_out, net, reserve_in + net);
    assert((reserve_in + net) * (reserve_out - out) >= reserve_in * reserve_out)
        by (nonlinear_arith)
        requires
            out * (reserve_in + net) <= reserve_out * net,
    ;
}

/// A well-formed pool stays well formed, and a share worth no less, when a
/// swap leaves at least `net` more on the input side and on the output
/// side enough for the product with the input reserve and `net` to reach
/// the old `k`.
pub proof fn lemma_swapped_pool_keeps_value(
    pool: Pool,
    side: Side,
    net: nat,
    new_in: u64,
    new_out: u64,
)
    requires
        pool.wf(),
        pool.reserve_in(side) > 0,
        new_in >= pool.reserve_in(side) + net,
        new_out > 0,
        (pool.reserve_in(side) + net) * new_out >= pool.reserve_in(side) * pool.reserve_out(side),
    ensures
        spec_swapped_pool(pool, side, new_in, new_out).wf(),
        value_per_share_kept(pool, spec_swapped_pool(pool, side, new_in, new_out)),
{
    let rin = pool.reserve_in(side) as nat;
    let rout = pool.reserve_out(side) as nat;
    let l = pool.lp_supply as nat;
    let after_in = new_in as nat;
    let after_out = new_out as nat;
    assert(after_in * after_out >= (rin + net) * after_out) by (nonlinear_arith)
        requires
            after_in >= rin + net,
            after_out >= 0,
    ;
    assert((after_in * after_out) * (l * l) >= (rin * rout) * (l * l)) by (nonlinear_arith)
        requires
            after_in * after_out >= rin * rout,
    ;
    assert(after_out * after_in == after_in * after_out) by (nonlinear_arith);
    assert(rout * rin == rin * rout) by (nonlinear_arith);
}

/// The deltas of a swap on a well-formed pool can be committed unless the
/// input reserve would leave 64 bits.
pub proof fn lemma_swap_commits(
    pool: Pool,
    protocol_share_bps: u64,
    amount_in: u64,
    side: Side,
    min_amount_out: u64,
)
    requires
        pool.wf(),
        spec_swap(pool, protocol_share_bps, amount_in, side, min_amount_out) is Ok,
    ensures
        ({
            let d = spec_swap(pool, protocol_share_bps, amount_in, side, min_amount_out)->Ok_0;
            spec_next_pool(pool, d) is Err ==> spec_next_pool(pool, d)->Err_0
                == AmmError::MathOverflow
        }),
{
    let rin = pool.reserve_in(side) as nat;
    let rout = pool.reserve_out(side) as nat;
    let fee = spec_fee(amount_in as nat, pool.fee_bps_snapshot as nat);
    let net = (amount_in - fee) as nat;
    let protocol = spec_protocol_fee(fee, protocol_share_bps as nat);
    let out = spec_amount_out(rin, rout, net);
    lemma_swap_keeps_k(rin, rout, net);
    lemma_part_at_most_whole(protocol_share_bps as nat, fee, MAX_BPS as nat);
    let kept = (amount_in - protocol) as nat;
    if rin + kept <= u64::MAX {
        lemma_swapped_pool_keeps_value(pool, side, net, (rin + kept) as u64, (rout - out) as u64);
    }
}

/// What a swap for an exact output asks for is enough: the input less its
/// fee is at least the net input that buys `amount_out`, and with that net
/// input the reserves multiply to at least the old `k`.
pub proof fn lemma_exact_out_input_suffices(
    reserve_in: nat,
    reserve_out: nat,
    amount_out: nat,
    fee_bps: nat,
)
    requires
        reserve_in > 0,
        0 < amount_out < reserve_out,
        fee_bps < MAX_BPS,
    ensures
        ({
            let net = spec_net_in(reserve_in, reserve_out, amount_out);
            let amount_in = spec_gross_in(net, fee_bps);
            &&& net >= 1
            &&& amount_in >= net + spec_fee(amount_in, fee_bps)
            &&& net * (reserve_out - amount_out) >= reserve_in * amount_out
            &&& (reserve_in + net) * (reserve_out - amount_out) >= reserve_in * reserve_out
        }),
{
    let left = (reserve_out - amount_out) as nat;
    let keep = (MAX_BPS - fee_bps) as nat;
    let net = spec_net_in(reserve_in, reserve_out, amount_out);
    let amount_in = spec_gross_in(net, fee_bps);
    lemma_mul_div_ceil_bounds(reserve_in, amount_out, left);
    lemma_mul_div_ceil_bounds(net, MAX_BPS as nat, keep);
    assert(reserve_in * amount_out >= 1) by (nonlinear_arith)
        requires
            reserve_in >= 1,
            amount_out >= 1,
    ;
    if net == 0 {
        assert(net * left == 0) by (nonlinear_arith)
            requires
                net == 0,
        ;
    }
    assert(amount_in * keep == amount_in * 10_000 - amount_in * fee_bps) by (nonlinear_arith)
        requires
            keep == 10_000 - fee_bps,
    ;
    assert((reserve_in + net) * (reserve_out - amount_out) == reserve_in * reserve_out + net
        * left - reserve_in * amount_out) by (nonlinear_arith)
        requires
            left == reserve_out - amount_out,
    ;
}

/// The deltas of a swap for an exact output on a well-formed pool can be
/// committed unless the input reserve would leave 64 bits.
pub proof fn lemma_swap_exact_out_commits(
    pool: Pool,
    protocol_share_bps: u64,
    amount_out: u64,
    side: Side,
    max_amount_in: u64,
)
    requires
        pool.wf(),
        spec_swap_exact_out(pool, protocol_share_bps, amount_out, side, max_amount_in) is Ok,
    ensures
        ({
            let d = spec_swap_exact_out(
                pool,
                protocol_share_bps,
                amount_out,
                side,
                max_amount_in,
            )->Ok_0;
            spec_next_pool(pool, d) is Err ==> spec_next_pool(pool, d)->Err_0
                == AmmError::MathOverflow
        }),
{
    let rin = pool.reserve_in(side) as nat;
    let rout = pool.reserve_out(side) as nat;
    let bps = pool.fee_bps_snapshot as nat;
    let net = spec_net_in(rin, rout, amount_out as nat);
    let amount_in = spec_gross_in(net, bps);
    let fee = spec_fee(amount_in, bps);
    let protocol = spec_protocol_fee(fee, protocol_share_bps as nat);
    lemma_exact_out_input_suffices(rin, rout, amount_out as nat, bps);
    lemma_part_at_most_whole(protocol_share_bps as nat, fee, MAX_BPS as nat);
    let kept = (amount_in - protocol) as nat;
    if rin + kept <= u64::MAX {
        lemma_swapped_pool_keeps_value(
            pool,
            side,
            net,
            (rin + kept) as u64,
            (rout - amount_out) as u64,
        );
    }
}

/// On a well-formed pool no operation ends in `InvariantViolation`: what
/// the accounting computes never breaks an invariant, so the check after
/// the commit is a second line of defence that is never reached.
pub proof fn lemma_deposit_never_violates(
    pool: Pool,
    position: Deposit,
    pool_key: Seq<u8>,
    signer: Seq<u8>,
    desired_a: u64,
    desired_b: u64,
    min_a: u64,
    min_b: u64,
    min_lp_out: u64,
)
    requires
        pool.wf(),
    ensures
        spec_deposit_op(
            pool,
            position,
            pool_key,
            signer,
            desired_a,
            desired_b,
            min_a,
            min_b,
            min_lp_out,
        ) != Err::<(Pool, Deposit, Deltas), AmmError>(AmmError::InvariantViolation),
{
    if spec_deposit(pool, desired_a, desired_b, min_a, min_b, min_lp_out) is Ok {
        lemma_deposit_commits(pool, desired_a, desired_b, min_a, min_b, min_lp_out);
    }
}

/// On a well-formed pool a withdrawal never ends in `InvariantViolation`,
/// and once the deltas are computed only a position that holds too few
/// shares can stop it.
pub proof fn lemma_withdraw_never_violates(
    pool: Pool,
    position: Deposit,
    pool_key: Seq<u8>,
    signer: Seq<u8>,
    lp_burn: u64,
    min_a_out: u64,
    min_b_out: u64,
)
    requires
        pool.wf(),
    ensures
        spec_withdraw_op(pool, position, pool_key, signer, lp_burn, min_a_out, min_b_out) != Err::<
            (Pool, Deposit, Deltas),
            AmmError,
        >(AmmError::InvariantViolation),
        spec_withdraw(pool, lp_burn, min_a_out, min_b_out) is Ok && position.shares >= lp_burn
            && position.pool@ == pool_key && position.owner@ == signer ==> spec_withdraw_op(
            pool,
            position,
            pool_key,
            signer,
            lp_burn,
            min_a_out,
            min_b_out,
        ) is Ok,
{
    if spec_withdraw(pool, lp_burn, min_a_out, min_b_out) is Ok {
        lemma_withdraw_commits(pool, lp_burn, min_a_out, min_b_out);
    }
}

/// On a well-formed pool a swap never ends in `InvariantViolation`.
pub proof fn lemma_swap_never_violates(
    pool: Pool,
    config: Config,
    amount_in: u64,
    side: Side,
    min_amount_out: u64,
)
    requires
        pool.wf(),
    ensures
        spec_swap_op(pool, config, amount_in, side, min_amount_out) != Err::<
            (Pool, Deltas),
            AmmError,
        >(AmmError::InvariantViolation),
{
    if spec_swap(pool, config.protocol_share_bps, amount_in, side, min_amount_out) is Ok {
        lemma_swap_commits(pool, config.protocol_share_bps, amount_in, side, min_amount_out);
    }
}

/// On a well-formed pool a swap for an exact output never ends in
/// `InvariantViolation`.
pub proof fn lemma_swap_exact_out_never_violates(
    pool: Pool,
    config: Config,
    amount_out: u64,
    side: Side,
    max_amount_in: u64,
)
    requires
        pool.wf(),
    ensures
        spec_swap_exact_out_op(pool, config, amount_out, side, max_amount_in) != Err::<
            (Pool, Deltas),
            AmmError,
        >(AmmError::InvariantViolation),
{
    if spec_swap_exact_out(pool, config.protocol_share_bps, amount_out, side, max_amount_in)
        is Ok {
        lemma_swap_exact_out_commits(
            pool,
            config.protocol_share_bps,
            amount_out,
            side,
            max_amount_in,
        );
    }
}

/// The pool with its reserves replaced, as seen from a swap on `side`.
pub open spec fn spec_swapped_pool(pool: Pool, side: Side, new_in: u64, new_out: u64) -> Pool {
    match side {
        Side::AToB => Pool { reserve_a: new_in, reserve_b: new_out, ..pool },
        Side::BToA => Pool { reserve_a: new_out, reserve_b: new_in, ..pool },
    }
}

} // verus!
