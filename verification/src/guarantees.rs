//! What holds of every deposit, withdrawal and swap: rounding goes to the
//! pool, swaps never lower `k`, deposits keep the price, the transfers
//! account for every change of the reserves, and shares are conserved.

use vstd::prelude::*;
use vstd::arithmetic::div_mod::lemma_fundamental_div_mod_converse;
use crate::accounting::{
    spec_amount_out, spec_deposit, spec_first_deposit, spec_gross_in, spec_later_deposit,
    spec_matched_amounts, spec_net_in, spec_protocol_fee, spec_swap, spec_swap_exact_out,
    spec_withdraw, Deltas, Side,
};
use crate::engine::{
    pool_gain, spec_intent, spec_next_pool, spec_next_position, spec_transfers,
    value_per_share_kept, Asset, Party, Transfer,
};
use crate::error::AmmError;
use crate::math::{
    lemma_fee_bounded, lemma_isqrt_of_product_fits, lemma_mul_div_ceil_bounds,
    lemma_mul_div_floor_bounds, lemma_part_at_most_whole, MAX_BPS, spec_fee, spec_isqrt,
    spec_mul_div_ceil, spec_mul_div_floor,
};
use crate::soundness::{
    lemma_exact_out_input_suffices, lemma_first_deposit_commits, lemma_swap_keeps_k,
};
use crate::state::{Deposit, Pool, MINIMUM_LIQUIDITY};

verus! {

/// A committed operation leaves a well-formed pool in which a share is
/// worth no less than before, whatever the operation was; the mints and
/// the fee of the pool stay as they were.
pub proof fn lemma_commit_keeps_invariants(pool: Pool, d: Deltas)
    requires
        spec_next_pool(pool, d) is Ok,
    ensures
        spec_next_pool(pool, d)->Ok_0.wf(),
        value_per_share_kept(pool, spec_next_pool(pool, d)->Ok_0),
        spec_next_pool(pool, d)->Ok_0.mint_a == pool.mint_a,
        spec_next_pool(pool, d)->Ok_0.mint_b == pool.mint_b,
        spec_next_pool(pool, d)->Ok_0.fee_bps_snapshot == pool.fee_bps_snapshot,
{
}

/// Depositing `(x, y)` into an empty pool and burning all the shares
/// received returns `(x, y)` less the worth of the locked shares, each
/// side's loss rounded up to a whole unit: the pool keeps
/// `⌈MINIMUM_LIQUIDITY·x/L⌉` and `⌈MINIMUM_LIQUIDITY·y/L⌉`, where `L` is
/// the number of shares minted.
pub proof fn lemma_deposit_withdraw_round_trip(pool: Pool, x: u64, y: u64)
    requires
        pool.wf(),
        pool.lp_supply == 0,
        spec_first_deposit(x, y, 0) is Ok,
    ensures
        ({
            let d = spec_first_deposit(x, y, 0)->Ok_0;
            let filled = spec_next_pool(pool, d);
            let received = (d.lp_mint - d.lp_locked) as u64;
            let back = spec_withdraw(filled->Ok_0, received, 0, 0);
            &&& filled is Ok
            &&& back is Ok
            &&& back->Ok_0.lp_burn == received
            &&& back->Ok_0.amount_a_out <= x
            &&& back->Ok_0.amount_b_out <= y
            &&& x - back->Ok_0.amount_a_out == spec_mul_div_ceil(
                MINIMUM_LIQUIDITY as nat,
                x as nat,
                d.lp_mint as nat,
            )
            &&& y - back->Ok_0.amount_b_out == spec_mul_div_ceil(
                MINIMUM_LIQUIDITY as nat,
                y as nat,
                d.lp_mint as nat,
            )
        }),
{
    let d = spec_first_deposit(x, y, 0)->Ok_0;
    lemma_first_deposit_commits(pool, x, y, 0);
    lemma_isqrt_of_product_fits(x as nat, y as nat);
    let minted = spec_isqrt((x as nat) * (y as nat));
    assert(d.lp_mint == minted);
    let filled = spec_next_pool(pool, d)->Ok_0;
    assert(filled.reserve_a == x && filled.reserve_b == y && filled.lp_supply == minted);
    let received = (minted - MINIMUM_LIQUIDITY) as nat;
    lemma_kept_after_burning(received, x as nat, minted, MINIMUM_LIQUIDITY as nat);
    lemma_kept_after_burning(received, y as nat, minted, MINIMUM_LIQUIDITY as nat);
}

/// Burning all but `locked` of `supply` shares leaves `⌈locked·whole/supply⌉`
/// of a reserve of `whole`.
proof fn lemma_kept_after_burning(burn: nat, whole: nat, supply: nat, locked: nat)
    requires
        supply > 0,
        burn + locked == supply,
    ensures
        spec_mul_div_floor(burn, whole, supply) <= whole,
        whole - spec_mul_div_floor(burn, whole, supply) == spec_mul_div_ceil(
            locked,
            whole,
            supply,
        ),
{
    let out = spec_mul_div_floor(burn, whole, supply);
    lemma_part_at_most_whole(burn, whole, supply);
    lemma_mul_div_floor_bounds(burn, whole, supply);
    let kept: int = whole - out;
    assert(kept * supply == whole * supply - out * supply) by (nonlinear_arith)
        requires
            kept == whole - out,
    ;
    assert(burn * whole == whole * supply - locked * whole) by (nonlinear_arith)
        requires
            burn + locked == supply,
    ;
    lemma_fundamental_div_mod_converse(
        locked * whole + supply - 1,
        supply as int,
        kept,
        locked * whole + supply - 1 - kept * supply,
    );
}

/// A fee that does not exceed a positive amount is charged at a rate of at
/// most 100%.
pub proof fn lemma_fee_rate_bounded(amount: nat, bps: nat)
    requires
        amount > 0,
        spec_fee(amount, bps) <= amount,
    ensures
        bps <= MAX_BPS,
{
    if bps > 10_000 {
        assert(amount * bps >= amount * 10_000 + 1) by (nonlinear_arith)
            requires
                bps >= 10_001,
                amount >= 1,
        ;
    }
}

/// At a rate of at most 100%, a larger amount leaves no less after the fee.
pub proof fn lemma_net_monotone(smaller: nat, larger: nat, bps: nat)
    requires
        smaller <= larger,
        bps <= MAX_BPS,
    ensures
        smaller - spec_fee(smaller, bps) <= larger - spec_fee(larger, bps),
{
    assert(larger * bps <= smaller * bps + (larger - smaller) * 10_000) by (nonlinear_arith)
        requires
            smaller <= larger,
            bps <= 10_000,
    ;
}

/// With fixed reserves, a larger net input buys no less.
pub proof fn lemma_amount_out_monotone(reserve_in: nat, reserve_out: nat, smaller: nat, larger: nat)
    requires
        reserve_in > 0,
        smaller <= larger,
    ensures
        spec_amount_out(reserve_in, reserve_out, smaller) <= spec_amount_out(
            reserve_in,
            reserve_out,
            larger,
        ),
{
    let q1 = spec_amount_out(reserve_in, reserve_out, smaller);
    let q2 = spec_amount_out(reserve_in, reserve_out, larger);
    let d1 = reserve_in + smaller;
    let d2 = reserve_in + larger;
    let n1 = reserve_out * smaller;
    let n2 = reserve_out * larger;
    lemma_mul_div_floor_bounds(reserve_out, smaller, d1);
    lemma_mul_div_floor_bounds(reserve_out, larger, d2);
    if q1 > q2 {
        assert(n1 * d2 <= n2 * d1) by (nonlinear_arith)
            requires
                n1 == reserve_out * smaller,
                n2 == reserve_out * larger,
                d1 == reserve_in + smaller,
                d2 == reserve_in + larger,
                smaller <= larger,
        ;
        assert(n1 * d2 >= (q1 * d1) * d2) by (nonlinear_arith)
            requires
                n1 >= q1 * d1,
                d2 >= 0,
        ;
        assert(n2 * d1 < (q1 * d2) * d1) by (nonlinear_arith)
            requires
                n2 < q2 * d2 + d2,
                q1 >= q2 + 1,
                d1 > 0,
                d2 > 0,
        ;
        assert((q1 * d1) * d2 == (q1 * d2) * d1) by (nonlinear_arith);
    }
}

/// For fixed reserves and fee, a swap of more pays out no less.
pub proof fn lemma_swap_monotone(
    pool: Pool,
    side: Side,
    smaller_in: u64,
    larger_in: u64,
    share_one: u64,
    share_two: u64,
    min_one: u64,
    min_two: u64,
)
    requires
        smaller_in <= larger_in,
        spec_swap(pool, share_one, smaller_in, side, min_one) is Ok,
        spec_swap(pool, share_two, larger_in, side, min_two) is Ok,
    ensures
        spec_swap(pool, share_one, smaller_in, side, min_one)->Ok_0.swapped_out(side) <= spec_swap(
            pool,
            share_two,
            larger_in,
            side,
            min_two,
        )->Ok_0.swapped_out(side),
{
    let rin = pool.reserve_in(side) as nat;
    let rout = pool.reserve_out(side) as nat;
    let bps = pool.fee_bps_snapshot as nat;
    lemma_fee_rate_bounded(smaller_in as nat, bps);
    lemma_net_monotone(smaller_in as nat, larger_in as nat, bps);
    let net_one = (smaller_in - spec_fee(smaller_in as nat, bps)) as nat;
    let net_two = (larger_in - spec_fee(larger_in as nat, bps)) as nat;
    lemma_amount_out_monotone(rin, rout, net_one, net_two);
    lemma_swap_keeps_k(rin, rout, net_one);
    lemma_swap_keeps_k(rin, rout, net_two);
}

/// A swap for an exact output asks for enough: paying the same input into
/// a swap of an exact input, on the same pool, pays out at least the
/// output asked for.
pub proof fn lemma_exact_out_pays_enough(
    pool: Pool,
    protocol_share_bps: u64,
    amount_out: u64,
    side: Side,
    max_amount_in: u64,
)
    requires
        spec_swap_exact_out(pool, protocol_share_bps, amount_out, side, max_amount_in) is Ok,
    ensures
        ({
            let d = spec_swap_exact_out(
                pool,
                protocol_share_bps,
                amount_out,
                side,
                max_amount_in,
            )->Ok_0;
            let paid = spec_swap(pool, protocol_share_bps, d.swapped_in(side), side, amount_out);
            &&& d.swapped_out(side) == amount_out
            &&& 0 < d.swapped_in(side) <= max_amount_in
            &&& paid is Ok
            &&& paid->Ok_0.swapped_out(side) >= amount_out
            &&& paid->Ok_0.swap_protocol_fee(side) == d.swap_protocol_fee(side)
        }),
{
    let rin = pool.reserve_in(side) as nat;
    let rout = pool.reserve_out(side) as nat;
    let bps = pool.fee_bps_snapshot as nat;
    let wanted = amount_out as nat;
    let net = spec_net_in(rin, rout, wanted);
    let amount_in = spec_gross_in(net, bps);
    let fee = spec_fee(amount_in, bps);
    lemma_exact_out_input_suffices(rin, rout, wanted, bps);
    lemma_fee_bounded(amount_in, bps);
    lemma_part_at_most_whole(protocol_share_bps as nat, fee, MAX_BPS as nat);
    let left_after_fee = (amount_in - fee) as nat;
    lemma_amount_out_monotone(rin, rout, net, left_after_fee);
    lemma_swap_keeps_k(rin, rout, left_after_fee);
    let with_net = spec_amount_out(rin, rout, net);
    lemma_mul_div_floor_bounds(rout, net, rin + net);
    if with_net < wanted {
        assert(with_net * (rin + net) + (rin + net) <= wanted * (rin + net)) by (nonlinear_arith)
            requires
                with_net + 1 <= wanted,
                rin + net >= 0,
        ;
        assert(wanted * (rin + net) <= rout * net) by (nonlinear_arith)
            requires
                net * (rout - wanted) >= rin * wanted,
        ;
    }
}

/// A swap for an exact output asks for no more than it must: any smaller
/// input, paid into a swap of an exact input on the same pool, pays out
/// less than the output asked for.
pub proof fn lemma_exact_out_asks_least(
    pool: Pool,
    protocol_share_bps: u64,
    amount_out: u64,
    side: Side,
    max_amount_in: u64,
    smaller_in: u64,
)
    requires
        spec_swap_exact_out(pool, protocol_share_bps, amount_out, side, max_amount_in) is Ok,
        smaller_in < spec_swap_exact_out(
            pool,
            protocol_share_bps,
            amount_out,
            side,
            max_amount_in,
        )->Ok_0.swapped_in(side),
    ensures
        spec_swap(pool, protocol_share_bps, smaller_in, side, amount_out) is Err,
        spec_swap(pool, protocol_share_bps, smaller_in, side, 0) is Ok ==> spec_swap(
            pool,
            protocol_share_bps,
            smaller_in,
            side,
            0,
        )->Ok_0.swapped_out(side) < amount_out,
{
    let rin = pool.reserve_in(side) as nat;
    let rout = pool.reserve_out(side) as nat;
    let bps = pool.fee_bps_snapshot as nat;
    let wanted = amount_out as nat;
    let left = (rout - wanted) as nat;
    let keep = (MAX_BPS - bps) as nat;
    let net = spec_net_in(rin, rout, wanted);
    let amount_in = spec_gross_in(net, bps);
    lemma_exact_out_input_suffices(rin, rout, wanted, bps);
    lemma_mul_div_ceil_bounds(rin, wanted, left);
    lemma_mul_div_ceil_bounds(net, MAX_BPS as nat, keep);
    let small = smaller_in as nat;
    let small_fee = spec_fee(small, bps);
    lemma_fee_bounded(small, bps);
    let small_net = (small - small_fee) as nat;
    assert(small * keep < net * 10_000) by (nonlinear_arith)
        requires
            small + 1 <= amount_in,
            amount_in * keep < net * 10_000 + keep,
            keep > 0,
    ;
    assert(small * keep == small * 10_000 - small * bps) by (nonlinear_arith)
        requires
            keep == 10_000 - bps,
    ;
    assert(small_net < net);
    lemma_amount_out_monotone(rin, rout, small_net, (net - 1) as nat);
    let below = (net - 1) as nat;
    let with_below = spec_amount_out(rin, rout, below);
    lemma_mul_div_floor_bounds(rout, below, rin + below);
    if with_below >= wanted {
        assert(with_below * (rin + below) >= wanted * (rin + below)) by (nonlinear_arith)
            requires
                with_below >= wanted,
                rin + below >= 0,
        ;
        assert(rout * below < wanted * (rin + below)) by (nonlinear_arith)
            requires
                below == net - 1,
                left == rout - wanted,
                net * left < rin * wanted + left,
        ;
    }
    lemma_swap_keeps_k(rin, rout, small_net);
}

/// With rates of at most 100% no swap is refused for its fee: on a
/// well-formed pool, and with a protocol share in range, a swap of an
/// exact input is never `MathOverflow`, and what is left after the fee
/// never falls below zero.
pub proof fn lemma_swap_fee_in_range(
    pool: Pool,
    protocol_share_bps: u64,
    amount_in: u64,
    side: Side,
    min_amount_out: u64,
)
    requires
        pool.wf(),
        protocol_share_bps <= MAX_BPS,
    ensures
        spec_fee(amount_in as nat, pool.fee_bps_snapshot as nat) <= amount_in,
        spec_protocol_fee(
            spec_fee(amount_in as nat, pool.fee_bps_snapshot as nat),
            protocol_share_bps as nat,
        ) <= spec_fee(amount_in as nat, pool.fee_bps_snapshot as nat),
        spec_swap(pool, protocol_share_bps, amount_in, side, min_amount_out) != Err::<
            Deltas,
            AmmError,
        >(AmmError::MathOverflow),
{
    let fee = spec_fee(amount_in as nat, pool.fee_bps_snapshot as nat);
    lemma_fee_bounded(amount_in as nat, pool.fee_bps_snapshot as nat);
    lemma_part_at_most_whole(protocol_share_bps as nat, fee, MAX_BPS as nat);
}

/// A committed swap never lowers `k`, and raises it where the pool keeps
/// any part of a fee: with a fee above zero and a protocol share below
/// 100%.
pub proof fn lemma_swap_grows_k(
    pool: Pool,
    protocol_share_bps: u64,
    amount_in: u64,
    side: Side,
    min_amount_out: u64,
)
    requires
        pool.wf(),
        spec_swap(pool, protocol_share_bps, amount_in, side, min_amount_out) is Ok,
        spec_next_pool(
            pool,
            spec_swap(pool, protocol_share_bps, amount_in, side, min_amount_out)->Ok_0,
        ) is Ok,
    ensures
        ({
            let d = spec_swap(pool, protocol_share_bps, amount_in, side, min_amount_out)->Ok_0;
            let after = spec_next_pool(pool, d)->Ok_0;
            &&& after.lp_supply == pool.lp_supply
            &&& after.k() >= pool.k()
            &&& pool.fee_bps_snapshot > 0 && protocol_share_bps < MAX_BPS ==> after.k() > pool.k()
        }),
{
    let d = spec_swap(pool, protocol_share_bps, amount_in, side, min_amount_out)->Ok_0;
    let after = spec_next_pool(pool, d)->Ok_0;
    let rin = pool.reserve_in(side) as nat;
    let rout = pool.reserve_out(side) as nat;
    let bps = pool.fee_bps_snapshot as nat;
    let fee = spec_fee(amount_in as nat, bps);
    let net = (amount_in - fee) as nat;
    let protocol = spec_protocol_fee(fee, protocol_share_bps as nat);
    let out = spec_amount_out(rin, rout, net);
    lemma_swap_keeps_k(rin, rout, net);
    lemma_part_at_most_whole(protocol_share_bps as nat, fee, MAX_BPS as nat);
    let new_in = (rin + amount_in - protocol) as nat;
    let new_out = (rout - out) as nat;
    assert(after.reserve_in(side) == new_in && after.reserve_out(side) == new_out);
    assert(new_in * new_out >= (rin + net) * new_out) by (nonlinear_arith)
        requires
            new_in >= rin + net,
            new_out >= 0,
    ;
    assert(new_out * new_in == new_in * new_out) by (nonlinear_arith);
    assert(rout * rin == rin * rout) by (nonlinear_arith);
    assert(after.k() == new_in * new_out);
    assert(pool.k() == rin * rout);
    if pool.fee_bps_snapshot > 0 && protocol_share_bps < MAX_BPS {
        assert(amount_in as nat * bps >= 1) by (nonlinear_arith)
            requires
                amount_in >= 1,
                bps >= 1,
        ;
        assert(fee >= 1);
        lemma_mul_div_floor_bounds(protocol_share_bps as nat, fee, MAX_BPS as nat);
        assert((protocol_share_bps as nat) * fee < fee * 10_000) by (nonlinear_arith)
            requires
                fee >= 1,
                protocol_share_bps < 10_000,
        ;
        assert(protocol < fee);
        assert(new_in * new_out >= (rin + net) * new_out + new_out) by (nonlinear_arith)
            requires
                new_in >= rin + net + 1,
                new_out >= 0,
        ;
    }
}

/// Across a committed swap the supply of shares stays, the reserve on the
/// input side does not go down, and the reserve on the output side goes
/// down by exactly what is paid out. So per share the input side never
/// loses, and the output side keeps its value where nothing is paid out.
pub proof fn lemma_swap_reserves_per_share(
    pool: Pool,
    protocol_share_bps: u64,
    amount_in: u64,
    side: Side,
    min_amount_out: u64,
)
    requires
        spec_swap(pool, protocol_share_bps, amount_in, side, min_amount_out) is Ok,
        spec_next_pool(
            pool,
            spec_swap(pool, protocol_share_bps, amount_in, side, min_amount_out)->Ok_0,
        ) is Ok,
    ensures
        ({
            let d = spec_swap(pool, protocol_share_bps, amount_in, side, min_amount_out)->Ok_0;
            let after = spec_next_pool(pool, d)->Ok_0;
            &&& after.lp_supply == pool.lp_supply
            &&& after.reserve_in(side) >= pool.reserve_in(side)
            &&& after.reserve_out(side) == pool.reserve_out(side) - d.swapped_out(side)
            &&& after.reserve_in(side) * pool.lp_supply >= pool.reserve_in(side) * after.lp_supply
            &&& d.swapped_out(side) == 0 ==> after.reserve_out(side) * pool.lp_supply
                >= pool.reserve_out(side) * after.lp_supply
        }),
{
    let d = spec_swap(pool, protocol_share_bps, amount_in, side, min_amount_out)->Ok_0;
    let after = spec_next_pool(pool, d)->Ok_0;
    let l = pool.lp_supply as int;
    let before_in = pool.reserve_in(side) as int;
    let after_in = after.reserve_in(side) as int;
    assert(after_in * l >= before_in * l) by (nonlinear_arith)
        requires
            after_in >= before_in,
            l >= 0,
    ;
}

/// A later deposit is taken in the ratio of the reserves, up to the
/// rounding of the matched side: the price after it differs from the
/// price before by less than one unit of that side. The matched side is
/// rounded down, so the caller never pays less of the other side than the
/// ratio asks.
pub proof fn lemma_deposit_keeps_price(
    pool: Pool,
    desired_a: u64,
    desired_b: u64,
    min_a: u64,
    min_b: u64,
    min_lp_out: u64,
)
    requires
        pool.lp_supply > 0,
        spec_later_deposit(pool, desired_a, desired_b, min_a, min_b, min_lp_out) is Ok,
    ensures
        ({
            let d = spec_later_deposit(pool, desired_a, desired_b, min_a, min_b, min_lp_out)->Ok_0;
            let b_optimal = spec_mul_div_floor(
                desired_a as nat,
                pool.reserve_b as nat,
                pool.reserve_a as nat,
            );
            let cross = d.amount_a_in * pool.reserve_b - d.amount_b_in * pool.reserve_a;
            &&& -pool.reserve_b < cross < pool.reserve_a
            &&& b_optimal <= desired_b ==> d.amount_a_in == desired_a && 0 <= cross
            &&& b_optimal > desired_b ==> d.amount_b_in == desired_b && cross <= 0
            &&& (pool.reserve_a + d.amount_a_in) * pool.reserve_b - (pool.reserve_b
                + d.amount_b_in) * pool.reserve_a == cross
        }),
{
    let d = spec_later_deposit(pool, desired_a, desired_b, min_a, min_b, min_lp_out)->Ok_0;
    let ra = pool.reserve_a as nat;
    let rb = pool.reserve_b as nat;
    let matched = spec_matched_amounts(
        ra,
        rb,
        desired_a as nat,
        desired_b as nat,
        min_a as nat,
        min_b as nat,
    );
    let (amount_a, amount_b) = matched->Some_0;
    assert(amount_a <= desired_a && amount_b <= desired_b);
    assert(d.amount_a_in == amount_a && d.amount_b_in == amount_b);
    lemma_mul_div_floor_bounds(desired_a as nat, rb, ra);
    lemma_mul_div_floor_bounds(desired_b as nat, ra, rb);
    let a = d.amount_a_in as int;
    let b = d.amount_b_in as int;
    assert((ra + a) * rb - (rb + b) * ra == a * rb - b * ra) by (nonlinear_arith);
    assert(b * ra == ra * b) by (nonlinear_arith);
    assert(a * rb == rb * a) by (nonlinear_arith);
}

/// What the transfers of `d` add to the pool's balances is what `d` adds
/// to the reserves: nothing enters or leaves the pool unaccounted.
pub proof fn lemma_transfers_balance(d: Deltas)
    ensures
        pool_gain(spec_transfers(d), Asset::A) == d.reserve_a_change(),
        pool_gain(spec_transfers(d), Asset::B) == d.reserve_b_change(),
{
    lemma_transfers_balance_of(d, Asset::A);
    lemma_transfers_balance_of(d, Asset::B);
}

/// The balance of the transfers of `d` in one asset.
proof fn lemma_transfers_balance_of(d: Deltas, asset: Asset)
    ensures
        pool_gain(spec_transfers(d), asset) == (if asset == Asset::A {
            d.reserve_a_change()
        } else {
            d.reserve_b_change()
        }),
{
    let s1 = spec_intent(Party::User, Party::Pool, Asset::A, d.amount_a_in);
    let s2 = s1 + spec_intent(Party::User, Party::Pool, Asset::B, d.amount_b_in);
    let s3 = s2 + spec_intent(Party::Pool, Party::Treasury, Asset::A, d.protocol_fee_in_a);
    let s4 = s3 + spec_intent(Party::Pool, Party::Treasury, Asset::B, d.protocol_fee_in_b);
    let s5 = s4 + spec_intent(Party::Pool, Party::User, Asset::A, d.amount_a_out);
    let s6 = s5 + spec_intent(Party::Pool, Party::User, Asset::B, d.amount_b_out);
    assert(pool_gain(Seq::<Transfer>::empty(), asset) == 0);
    lemma_gain_of_intent(Seq::empty(), Party::User, Party::Pool, Asset::A, d.amount_a_in, asset);
    assert(Seq::<Transfer>::empty() + s1 =~= s1);
    lemma_gain_of_intent(s1, Party::User, Party::Pool, Asset::B, d.amount_b_in, asset);
    lemma_gain_of_intent(s2, Party::Pool, Party::Treasury, Asset::A, d.protocol_fee_in_a, asset);
    lemma_gain_of_intent(s3, Party::Pool, Party::Treasury, Asset::B, d.protocol_fee_in_b, asset);
    lemma_gain_of_intent(s4, Party::Pool, Party::User, Asset::A, d.amount_a_out, asset);
    lemma_gain_of_intent(s5, Party::Pool, Party::User, Asset::B, d.amount_b_out, asset);
    assert(s6 == spec_transfers(d));
}

/// Appending the intent of one transfer adds that transfer's gain.
proof fn lemma_gain_of_intent(
    before: Seq<Transfer>,
    from: Party,
    to: Party,
    asset: Asset,
    amount: u64,
    of: Asset,
)
    ensures
        pool_gain(before + spec_intent(from, to, asset, amount), of) == pool_gain(before, of) + (
        Transfer { from, to, asset, amount }).pool_gain(of),
{
    let all = before + spec_intent(from, to, asset, amount);
    if amount == 0 {
        assert(all =~= before);
    } else {
        assert(all.drop_last() =~= before);
        assert(all.last() == (Transfer { from, to, asset, amount }));
    }
}

/// A committed operation moves each reserve by exactly what its transfers
/// add to the pool.
pub proof fn lemma_reserves_follow_transfers(pool: Pool, d: Deltas)
    requires
        spec_next_pool(pool, d) is Ok,
    ensures
        spec_next_pool(pool, d)->Ok_0.reserve_a - pool.reserve_a == pool_gain(
            spec_transfers(d),
            Asset::A,
        ),
        spec_next_pool(pool, d)->Ok_0.reserve_b - pool.reserve_b == pool_gain(
            spec_transfers(d),
            Asset::B,
        ),
{
    lemma_transfers_balance(d);
}

/// The ledger sees the transfers of an operation in this order: what the
/// caller pays in, then the fees for the treasury, then what the caller
/// is paid. No transfer is empty.
pub proof fn lemma_transfers_in_order(d: Deltas)
    ensures
        forall|i: int, j: int|
            0 <= i <= j < spec_transfers(d).len() ==> spec_transfers(d)[i].phase()
                <= spec_transfers(d)[j].phase(),
        forall|i: int| 0 <= i < spec_transfers(d).len() ==> spec_transfers(d)[i].amount > 0,
{
    let s0 = Seq::<Transfer>::empty();
    let s1 = s0 + spec_intent(Party::User, Party::Pool, Asset::A, d.amount_a_in);
    let s2 = s1 + spec_intent(Party::User, Party::Pool, Asset::B, d.amount_b_in);
    let s3 = s2 + spec_intent(Party::Pool, Party::Treasury, Asset::A, d.protocol_fee_in_a);
    let s4 = s3 + spec_intent(Party::Pool, Party::Treasury, Asset::B, d.protocol_fee_in_b);
    let s5 = s4 + spec_intent(Party::Pool, Party::User, Asset::A, d.amount_a_out);
    let s6 = s5 + spec_intent(Party::Pool, Party::User, Asset::B, d.amount_b_out);
    lemma_intent_in_order(s0, Party::User, Party::Pool, Asset::A, d.amount_a_in);
    lemma_intent_in_order(s1, Party::User, Party::Pool, Asset::B, d.amount_b_in);
    lemma_intent_in_order(s2, Party::Pool, Party::Treasury, Asset::A, d.protocol_fee_in_a);
    lemma_intent_in_order(s3, Party::Pool, Party::Treasury, Asset::B, d.protocol_fee_in_b);
    lemma_intent_in_order(s4, Party::Pool, Party::User, Asset::A, d.amount_a_out);
    lemma_intent_in_order(s5, Party::Pool, Party::User, Asset::B, d.amount_b_out);
    assert(s6 =~= spec_transfers(d));
}

/// The transfers are in the order of their phases, none is empty, and
/// none is of a later phase than `bound`.
spec fn in_order_up_to(list: Seq<Transfer>, bound: int) -> bool {
    &&& forall|i: int, j: int| 0 <= i <= j < list.len() ==> list[i].phase() <= list[j].phase()
    &&& forall|i: int| 0 <= i < list.len() ==> list[i].amount > 0 && list[i].phase() <= bound
}

/// Appending an intent of the latest phase so far keeps the order.
proof fn lemma_intent_in_order(
    before: Seq<Transfer>,
    from: Party,
    to: Party,
    asset: Asset,
    amount: u64,
)
    requires
        in_order_up_to(before, (Transfer { from, to, asset, amount }).phase()),
    ensures
        in_order_up_to(
            before + spec_intent(from, to, asset, amount),
            (Transfer { from, to, asset, amount }).phase(),
        ),
        forall|later: int|
            later >= (Transfer { from, to, asset, amount }).phase() ==> in_order_up_to(
                before + spec_intent(from, to, asset, amount),
                later,
            ),
{
    let all = before + spec_intent(from, to, asset, amount);
    if amount == 0 {
        assert(all =~= before);
    }
}

/// The deltas lock exactly the shares that the pool comes to lock.
pub open spec fn locks_what_pool_locks(pool: Pool, d: Deltas) -> bool {
    spec_next_pool(pool, d) is Ok ==> d.lp_locked == spec_next_pool(
        pool,
        d,
    )->Ok_0.locked_shares() - pool.locked_shares()
}

/// Shares are conserved: a committed operation whose deltas lock what the
/// pool locks changes the caller's shares by exactly the change of the
/// shares that are not locked. So while every position is changed only in
/// this way, the positions of a pool add up to its supply less the locked
/// shares.
pub proof fn lemma_shares_conserved(pool: Pool, position: Deposit, d: Deltas)
    requires
        locks_what_pool_locks(pool, d),
        spec_next_pool(pool, d) is Ok,
        spec_next_position(position, d) is Ok,
    ensures
        ({
            let after = spec_next_pool(pool, d)->Ok_0;
            let held = spec_next_position(position, d)->Ok_0;
            &&& held.shares - position.shares == (after.lp_supply - after.locked_shares()) - (
            pool.lp_supply - pool.locked_shares())
            &&& held.owner == position.owner
            &&& held.pool == position.pool
        }),
{
}

/// The shares that a list of positions holds.
pub open spec fn total_shares(positions: Seq<Deposit>) -> int
    decreases positions.len(),
{
    if positions.len() == 0 {
        0
    } else {
        total_shares(positions.drop_last()) + positions.last().shares
    }
}

/// Replacing one position changes the total by what that position gains.
pub proof fn lemma_total_after_update(positions: Seq<Deposit>, at: int, held: Deposit)
    requires
        0 <= at < positions.len(),
    ensures
        total_shares(positions.update(at, held)) == total_shares(positions) - positions[at].shares
            + held.shares,
    decreases positions.len(),
{
    let updated = positions.update(at, held);
    if at == positions.len() - 1 {
        assert(updated.drop_last() =~= positions.drop_last());
    } else {
        assert(updated.drop_last() =~= positions.drop_last().update(at, held));
        lemma_total_after_update(positions.drop_last(), at, held);
    }
}

/// The positions of a pool add up to its supply less the locked shares,
/// before an operation and after it: if the shares of all positions are
/// the supply less the locked shares, and one of them takes part in a
/// committed operation whose deltas lock what the pool locks, the same
/// holds afterwards.
pub proof fn lemma_supply_is_sum_of_positions(
    pool: Pool,
    positions: Seq<Deposit>,
    at: int,
    d: Deltas,
)
    requires
        0 <= at < positions.len(),
        total_shares(positions) == pool.lp_supply - pool.locked_shares(),
        locks_what_pool_locks(pool, d),
        spec_next_pool(pool, d) is Ok,
        spec_next_position(positions[at], d) is Ok,
    ensures
        ({
            let after = spec_next_pool(pool, d)->Ok_0;
            let held = spec_next_position(positions[at], d)->Ok_0;
            total_shares(positions.update(at, held)) == after.lp_supply - after.locked_shares()
        }),
{
    let held = spec_next_position(positions[at], d)->Ok_0;
    lemma_shares_conserved(pool, positions[at], d);
    lemma_total_after_update(positions, at, held);
}

/// The deltas of a deposit on a well-formed pool lock what the pool
/// locks: the minimum on the first deposit, nothing afterwards.
pub proof fn lemma_deposit_locks_minimum(
    pool: Pool,
    desired_a: u64,
    desired_b: u64,
    min_a: u64,
    min_b: u64,
    min_lp_out: u64,
)
    requires
        pool.wf(),
        spec_deposit(pool, desired_a, desired_b, min_a, min_b, min_lp_out) is Ok,
    ensures
        locks_what_pool_locks(
            pool,
            spec_deposit(pool, desired_a, desired_b, min_a, min_b, min_lp_out)->Ok_0,
        ),
{
    if pool.lp_supply == 0 {
        lemma_first_deposit_commits(pool, desired_a, desired_b, min_lp_out);
        lemma_isqrt_of_product_fits(desired_a as nat, desired_b as nat);
    }
}

/// The deltas of a withdrawal lock nothing and leave the locked shares in
/// the pool.
pub proof fn lemma_withdraw_locks_nothing(pool: Pool, lp_burn: u64, min_a_out: u64, min_b_out: u64)
    requires
        pool.wf(),
        spec_withdraw(pool, lp_burn, min_a_out, min_b_out) is Ok,
    ensures
        locks_what_pool_locks(pool, spec_withdraw(pool, lp_burn, min_a_out, min_b_out)->Ok_0),
{
}

} // verus!
