use amm::accounting::{compute_swap, compute_swap_exact_out, Side};
use amm::engine::next_pool;
use amm::entry::{create_config, create_pool, swap_exact_out, CreateConfig, CreatePool};
use amm::error::AmmError;
use amm::key::Pubkey;
use amm::state::{Config, Pool};

fn key(tag: u8) -> Pubkey {
    let mut bytes = [0u8; 32];
    bytes[31] = tag;
    Pubkey::new(bytes)
}

fn config_with(fee: u64, share: u64) -> Config {
    let mut config =
        create_config(&CreateConfig { authority: key(1), treasury: key(2) }, fee).unwrap();
    config.protocol_share_bps = share;
    config
}

fn pool_of(reserve_a: u64, reserve_b: u64, lp_supply: u64, fee: u64) -> Pool {
    let ctx = CreatePool {
        config: config_with(fee, 0),
        authority: key(1),
        mint_a: key(10),
        mint_b: key(11),
    };
    let mut pool = create_pool(&ctx).unwrap();
    pool.reserve_a = reserve_a;
    pool.reserve_b = reserve_b;
    pool.lp_supply = lp_supply;
    pool
}

#[test]
fn exact_out_asks_for_the_least_input() {
    let pool = pool_of(1_500_000, 6_000_000, 3_000_000, 30);
    let d = compute_swap_exact_out(&pool, 0, 373_945, Side::AToB, u64::MAX).unwrap();
    // net = ceil(1_500_000 * 373_945 / 5_626_055) = 99_700,
    // input = ceil(99_700 * 10_000 / 9_970) = 100_000
    assert_eq!(d.amount_a_in, 100_000);
    assert_eq!(d.amount_b_out, 373_945);
    assert_eq!(d.protocol_fee_in_a, 0);
    let d = compute_swap_exact_out(&pool, 0, 1_000, Side::AToB, u64::MAX).unwrap();
    assert_eq!((d.amount_a_in, d.amount_b_out), (252, 1_000));
    let d = compute_swap_exact_out(&pool, 0, 1, Side::AToB, u64::MAX).unwrap();
    assert_eq!((d.amount_a_in, d.amount_b_out), (2, 1));
    let d = compute_swap_exact_out(&pool, 0, 5_999_999, Side::AToB, u64::MAX).unwrap();
    assert_eq!(d.amount_a_in, 9_027_079_739_218);
}

#[test]
fn exact_out_without_a_fee() {
    let pool = pool_of(1_500_000, 6_000_000, 3_000_000, 0);
    let d = compute_swap_exact_out(&pool, 0, 1_000, Side::AToB, u64::MAX).unwrap();
    assert_eq!(d.amount_a_in, 251);
}

#[test]
fn exact_out_b_for_a() {
    let pool = pool_of(1_500_000, 6_000_000, 3_000_000, 30);
    let d = compute_swap_exact_out(&pool, 0, 1_000, Side::BToA, u64::MAX).unwrap();
    assert_eq!((d.amount_b_in, d.amount_a_out), (4_016, 1_000));
    assert_eq!((d.amount_a_in, d.amount_b_out), (0, 0));
}

#[test]
fn exact_out_agrees_with_exact_in() {
    let pool = pool_of(1_500_007, 6_000_011, 3_000_000, 30);
    let mut wanted: u64 = 1;
    while wanted < 6_000_000 {
        let d = compute_swap_exact_out(&pool, 0, wanted, Side::AToB, u64::MAX).unwrap();
        let paid = compute_swap(&pool, 0, d.amount_a_in, Side::AToB, 0).unwrap();
        assert!(paid.amount_b_out >= wanted);
        if d.amount_a_in > 1 {
            let less = compute_swap(&pool, 0, d.amount_a_in - 1, Side::AToB, 0).unwrap();
            assert!(less.amount_b_out < wanted);
        }
        assert_eq!(
            compute_swap(&pool, 0, d.amount_a_in - 1, Side::AToB, wanted).is_err(),
            true
        );
        wanted = wanted * 2 + 1;
    }
}

#[test]
fn exact_out_errors() {
    let pool = pool_of(1_500_000, 6_000_000, 3_000_000, 30);
    assert_eq!(
        compute_swap_exact_out(&pool, 0, 0, Side::AToB, u64::MAX),
        Err(AmmError::ZeroAmount)
    );
    assert_eq!(
        compute_swap_exact_out(&pool, 0, 6_000_000, Side::AToB, u64::MAX),
        Err(AmmError::InsufficientLiquidity)
    );
    assert_eq!(
        compute_swap_exact_out(&pool, 0, 6_000_001, Side::AToB, u64::MAX),
        Err(AmmError::InsufficientLiquidity)
    );
    assert_eq!(
        compute_swap_exact_out(&pool, 0, 1_500_000, Side::BToA, u64::MAX),
        Err(AmmError::InsufficientLiquidity)
    );
    assert_eq!(
        compute_swap_exact_out(&pool, 0, 1_000, Side::AToB, 251),
        Err(AmmError::SlippageExceeded)
    );
    assert!(compute_swap_exact_out(&pool, 0, 1_000, Side::AToB, 252).is_ok());
    assert_eq!(
        compute_swap_exact_out(&pool, 10_001, 1_000, Side::AToB, u64::MAX),
        Err(AmmError::MathOverflow)
    );
    let all_fee = pool_of(1_500_000, 6_000_000, 3_000_000, 10_000);
    assert_eq!(
        compute_swap_exact_out(&all_fee, 0, 1_000, Side::AToB, u64::MAX),
        Err(AmmError::MathOverflow)
    );
    let empty = pool_of(0, 0, 0, 30);
    assert_eq!(
        compute_swap_exact_out(&empty, 0, 1, Side::AToB, u64::MAX),
        Err(AmmError::InsufficientLiquidity)
    );
}

#[test]
fn exact_out_of_an_input_beyond_64_bits_is_slippage() {
    let pool = pool_of(1u64 << 63, 1u64 << 63, 1u64 << 63, 30);
    assert_eq!(
        compute_swap_exact_out(&pool, 0, (1u64 << 63) - 1, Side::AToB, u64::MAX),
        Err(AmmError::SlippageExceeded)
    );
}

#[test]
fn exact_out_commits_and_pays_the_treasury() {
    let mut pool = pool_of(1_500_000, 6_000_000, 3_000_000, 30);
    let config = config_with(30, 2_500);
    let receipt = swap_exact_out(&mut pool, &config, 373_945, Side::AToB, 100_000).unwrap();
    assert_eq!(receipt.deltas.amount_a_in, 100_000);
    assert_eq!(receipt.deltas.protocol_fee_in_a, 75);
    assert_eq!((pool.reserve_a, pool.reserve_b), (1_599_925, 5_626_055));
    assert_eq!((receipt.new_reserve_a, receipt.new_reserve_b), (1_599_925, 5_626_055));
    assert_eq!(receipt.transfers.len(), 3);
    assert_eq!(
        swap_exact_out(&mut pool, &config, 373_945, Side::AToB, 100_000).unwrap_err(),
        AmmError::SlippageExceeded
    );
    assert_eq!((pool.reserve_a, pool.reserve_b), (1_599_925, 5_626_055));
    let d = compute_swap_exact_out(&pool, 2_500, 77, Side::BToA, u64::MAX).unwrap();
    assert!(next_pool(&pool, &d).unwrap().check_invariants());
}
