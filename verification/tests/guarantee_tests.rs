use amm::accounting::{compute_deposit, compute_swap, compute_withdraw, Side};
use amm::engine::{keeps_value_per_share, next_pool};
use amm::entry::{create_config, create_pool, deposit, swap, withdraw, CreateConfig, CreatePool};
use amm::key::Pubkey;
use amm::math::mul_div_ceil;
use amm::state::{Config, Deposit, Pool};

fn key(tag: u8) -> Pubkey {
    let mut bytes = [0u8; 32];
    bytes[31] = tag;
    Pubkey::new(bytes)
}

fn config_with(fee: u64, share: u64) -> Config {
    let mut config =
        create_config(&CreateConfig { authority: key(1), treasury: key(2) }, fee).unwrap();
    config.protocol_share_bps = share;
    config
}

fn empty_pool(fee: u64) -> Pool {
    let ctx = CreatePool {
        config: config_with(fee, 0),
        authority: key(1),
        mint_a: key(10),
        mint_b: key(11),
    };
    create_pool(&ctx).unwrap()
}

fn pool_of(reserve_a: u64, reserve_b: u64, lp_supply: u64, fee: u64) -> Pool {
    let mut pool = empty_pool(fee);
    pool.reserve_a = reserve_a;
    pool.reserve_b = reserve_b;
    pool.lp_supply = lp_supply;
    pool
}

fn k(pool: &Pool) -> u128 {
    pool.reserve_a as u128 * pool.reserve_b as u128
}

#[test]
fn round_trip_loses_the_locked_worth_rounded_up() {
    let cases: [(u64, u64); 4] =
        [(1_000_000, 4_000_000), (1_000_003, 3_999_999), (5_000, 7_000), (1_001, 999_999_999_999)];
    for (x, y) in cases.iter() {
        let mut pool = empty_pool(30);
        let mut position = Deposit::new(key(7), key(50));
        let first =
            deposit(&mut pool, &mut position, &key(50), &key(7), *x, *y, 0, 0, 0).unwrap();
        let minted = first.deltas.lp_mint as u128;
        let received: u64 = position.shares;
        let back =
            withdraw(&mut pool, &mut position, &key(50), &key(7), received, 0, 0).unwrap();
        let kept_a = (*x - back.deltas.amount_a_out) as u128;
        let kept_b = (*y - back.deltas.amount_b_out) as u128;
        assert_eq!(kept_a, mul_div_ceil(1_000, *x as u128, minted).unwrap());
        assert_eq!(kept_b, mul_div_ceil(1_000, *y as u128, minted).unwrap());
        assert_eq!(position.shares, 0);
        assert_eq!(pool.lp_supply, 1_000);
        assert_eq!((pool.reserve_a as u128, pool.reserve_b as u128), (kept_a, kept_b));
    }
}

#[test]
fn round_trip_exact_values() {
    let mut pool = empty_pool(30);
    let mut position = Deposit::new(key(7), key(50));
    deposit(&mut pool, &mut position, &key(50), &key(7), 1_000_003, 3_999_999, 0, 0, 0).unwrap();
    assert_eq!(pool.lp_supply, 2_000_002);
    let back =
        withdraw(&mut pool, &mut position, &key(50), &key(7), 1_999_002, 0, 0).unwrap();
    assert_eq!((back.deltas.amount_a_out, back.deltas.amount_b_out), (999_502, 3_997_999));
    assert_eq!((pool.reserve_a, pool.reserve_b), (501, 2_000));
}

#[test]
fn swap_output_grows_with_the_input() {
    let pool = pool_of(1_500_000, 6_000_000, 3_000_000, 30);
    let mut last: u64 = 0;
    let mut amount: u64 = 1;
    while amount < 3_000 {
        let d = compute_swap(&pool, 0, amount, Side::AToB, 0).unwrap();
        assert!(d.amount_b_out >= last);
        last = d.amount_b_out;
        amount += 1;
    }
    let small = compute_swap(&pool, 0, 10, Side::BToA, 0).unwrap();
    let large = compute_swap(&pool, 0, u64::MAX / 2, Side::BToA, 0).unwrap();
    assert!(small.amount_a_out <= large.amount_a_out);
    assert!(large.amount_a_out < pool.reserve_a);
}

#[test]
fn swap_with_a_fee_raises_k() {
    let config = config_with(30, 0);
    let mut pool = pool_of(1_500_000, 6_000_000, 3_000_000, 30);
    let mut amount: u64 = 1;
    while amount < 200_000 {
        let before = k(&pool);
        swap(&mut pool, &config, amount, Side::AToB, 0).unwrap();
        assert!(k(&pool) > before);
        let before = k(&pool);
        swap(&mut pool, &config, amount, Side::BToA, 0).unwrap();
        assert!(k(&pool) > before);
        amount = amount * 3 + 1;
    }
    assert_eq!(pool.lp_supply, 3_000_000);
}

#[test]
fn swap_without_a_retained_fee_keeps_k_at_least() {
    // no fee at all
    let mut pool = pool_of(1_000, 1_000, 1_000, 0);
    let before = k(&pool);
    swap(&mut pool, &config_with(0, 0), 1, Side::AToB, 0).unwrap();
    assert!(k(&pool) >= before);
    // the whole fee goes to the treasury: k may stay as it is
    let mut pool = pool_of(1_000_000, 1_000_000, 1_000_000, 10_000);
    let before = k(&pool);
    let receipt = swap(&mut pool, &config_with(10_000, 10_000), 500, Side::AToB, 0).unwrap();
    assert_eq!(receipt.deltas.protocol_fee_in_a, 500);
    assert_eq!(k(&pool), before);
}

#[test]
fn swap_never_lowers_the_input_side_per_share() {
    let config = config_with(30, 5_000);
    let mut pool = pool_of(1_500_000, 6_000_000, 3_000_000, 30);
    let before = pool;
    let receipt = swap(&mut pool, &config, 12_345, Side::AToB, 0).unwrap();
    assert_eq!(pool.lp_supply, before.lp_supply);
    assert!(pool.reserve_a >= before.reserve_a);
    assert_eq!(pool.reserve_b, before.reserve_b - receipt.deltas.amount_b_out);
    assert!(keeps_value_per_share(&before, &pool));
}

#[test]
fn later_deposit_keeps_the_price_within_a_unit() {
    let pool = pool_of(1_500_007, 6_000_011, 3_000_000, 30);
    let cases: [(u64, u64); 5] =
        [(1_000, 5_000), (1_000, 3_000), (999_999, 17), (17, 999_999), (1, 1)];
    for (a, b) in cases.iter() {
        let d = compute_deposit(&pool, *a, *b, 0, 0, 0).unwrap();
        let cross = d.amount_a_in as i128 * pool.reserve_b as i128
            - d.amount_b_in as i128 * pool.reserve_a as i128;
        assert!(-(pool.reserve_b as i128) < cross && cross < pool.reserve_a as i128);
        assert!(d.amount_a_in <= *a && d.amount_b_in <= *b);
        assert!(d.amount_a_in == *a || d.amount_b_in == *b);
    }
}

#[test]
fn no_operation_lowers_the_value_of_a_share() {
    let config = config_with(30, 2_500);
    let mut pool = empty_pool(30);
    let mut position = Deposit::new(key(7), key(50));
    let mut before = pool;
    deposit(&mut pool, &mut position, &key(50), &key(7), 1_000_003, 3_999_999, 0, 0, 0).unwrap();
    assert!(keeps_value_per_share(&before, &pool));
    before = pool;
    deposit(&mut pool, &mut position, &key(50), &key(7), 333, 77_777, 0, 0, 0).unwrap();
    assert!(keeps_value_per_share(&before, &pool));
    before = pool;
    swap(&mut pool, &config, 54_321, Side::BToA, 0).unwrap();
    assert!(keeps_value_per_share(&before, &pool));
    before = pool;
    withdraw(&mut pool, &mut position, &key(50), &key(7), 1_234_567, 0, 0).unwrap();
    assert!(keeps_value_per_share(&before, &pool));
    assert!(pool.check_invariants());
    before = pool;
    let rest: u64 = position.shares;
    withdraw(&mut pool, &mut position, &key(50), &key(7), rest, 0, 0).unwrap();
    assert!(keeps_value_per_share(&before, &pool));
    assert_eq!(pool.lp_supply, 1_000);
    assert!(pool.check_invariants());
}

#[test]
fn computed_deltas_always_commit() {
    let pool = pool_of(1_500_007, 6_000_011, 3_000_000, 30);
    let d = compute_deposit(&pool, 123_456, 654_321, 0, 0, 0).unwrap();
    assert!(next_pool(&pool, &d).unwrap().check_invariants());
    let d = compute_withdraw(&pool, 2_999_000, 0, 0).unwrap();
    assert!(next_pool(&pool, &d).unwrap().check_invariants());
    let d = compute_swap(&pool, 10_000, 987_654, Side::BToA, 0).unwrap();
    assert!(next_pool(&pool, &d).unwrap().check_invariants());
    let d = compute_deposit(&empty_pool(30), 1_001, 1_002, 0, 0, 0).unwrap();
    assert!(next_pool(&empty_pool(30), &d).unwrap().check_invariants());
}

#[test]
fn shares_of_all_positions_add_up_to_the_supply_less_the_locked() {
    let mut pool = empty_pool(30);
    let mut one = Deposit::new(key(7), key(50));
    let mut two = Deposit::new(key(8), key(50));
    deposit(&mut pool, &mut one, &key(50), &key(7), 1_000_000, 4_000_000, 0, 0, 0).unwrap();
    assert_eq!(one.shares + two.shares + 1_000, pool.lp_supply);
    deposit(&mut pool, &mut two, &key(50), &key(8), 500_000, 2_000_000, 0, 0, 0).unwrap();
    assert_eq!(one.shares + two.shares + 1_000, pool.lp_supply);
    withdraw(&mut pool, &mut one, &key(50), &key(7), 999_000, 0, 0).unwrap();
    assert_eq!(one.shares + two.shares + 1_000, pool.lp_supply);
    withdraw(&mut pool, &mut two, &key(50), &key(8), 1_000_000, 0, 0).unwrap();
    assert_eq!(one.shares + two.shares + 1_000, pool.lp_supply);
    assert_eq!((one.shares, two.shares), (1_000_000, 0));
}
