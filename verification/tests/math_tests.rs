use amm::error::AmmError;
use amm::math::{apply_fee, isqrt, mul_div_ceil, mul_div_floor, product_ge};

#[test]
fn mul_div_floor_small_values() {
    assert_eq!(mul_div_floor(7, 3, 2), Ok(10));
    assert_eq!(mul_div_floor(0, 3, 2), Ok(0));
    assert_eq!(mul_div_floor(6, 4, 8), Ok(3));
    assert_eq!(mul_div_floor(500_000, 2_000_000, 1_000_000), Ok(1_000_000));
}

#[test]
fn mul_div_ceil_small_values() {
    assert_eq!(mul_div_ceil(7, 3, 2), Ok(11));
    assert_eq!(mul_div_ceil(6, 4, 8), Ok(3));
    assert_eq!(mul_div_ceil(0, 3, 2), Ok(0));
    assert_eq!(mul_div_ceil(1, 1, 10_000), Ok(1));
}

#[test]
fn mul_div_rejects_zero_divisor() {
    assert_eq!(mul_div_floor(1, 1, 0), Err(AmmError::MathOverflow));
    assert_eq!(mul_div_ceil(1, 1, 0), Err(AmmError::MathOverflow));
    assert_eq!(mul_div_floor(0, 0, 0), Err(AmmError::MathOverflow));
}

#[test]
fn mul_div_uses_a_wide_product() {
    let max = u128::MAX;
    assert_eq!(mul_div_floor(max, max, max), Ok(max));
    assert_eq!(mul_div_ceil(max, max, max), Ok(max));
    assert_eq!(mul_div_floor(max, 3, 7), Ok(145835300108973627198589117470757804909));
    assert_eq!(mul_div_ceil(max, 3, 7), Ok(145835300108973627198589117470757804910));
    let a: u128 = (1u128 << 100) + 12345;
    let b: u128 = (1u128 << 90) + 777;
    let d: u128 = (1u128 << 70) + 3;
    assert_eq!(mul_div_floor(a, b, d), Ok(1329227995784915872900430207801884672));
    assert_eq!(mul_div_ceil(a, b, d), Ok(1329227995784915872900430207801884673));
}

#[test]
fn mul_div_rejects_a_quotient_beyond_128_bits() {
    let max = u128::MAX;
    assert_eq!(mul_div_floor(max, 2, 1), Err(AmmError::MathOverflow));
    assert_eq!(mul_div_floor(max, max, max - 1), Err(AmmError::MathOverflow));
    assert_eq!(
        mul_div_floor(
            123456789012345678901234567890,
            987654321098765432109876543210,
            1000000007000000049
        ),
        Err(AmmError::MathOverflow)
    );
    assert_eq!(mul_div_ceil(max, 2, 1), Err(AmmError::MathOverflow));
}

#[test]
fn mul_div_ceil_overflows_only_by_rounding() {
    // 2^129 - 1 = (2^86 + 2^43 + 1) * (2^43 - 1); half of it is 2^128 - 1/2.
    let a: u128 = (1u128 << 86) + (1u128 << 43) + 1;
    let b: u128 = (1u128 << 43) - 1;
    assert_eq!(mul_div_floor(a, b, 2), Ok(u128::MAX));
    assert_eq!(mul_div_ceil(a, b, 2), Err(AmmError::MathOverflow));
    let max = u128::MAX;
    let d: u128 = 1u128 << 64;
    assert_eq!(mul_div_floor(max, d + 1, d + 1), Ok(max));
    assert_eq!(mul_div_floor(max, d + 1, d), Err(AmmError::MathOverflow));
    let p: u128 = 18446744073709551557;
    let q = mul_div_floor(max, p, p + 1).unwrap();
    assert_eq!(mul_div_ceil(max, p, p + 1), Ok(q + 1));
}

#[test]
fn isqrt_exact_values() {
    assert_eq!(isqrt(0), 0);
    assert_eq!(isqrt(1), 1);
    assert_eq!(isqrt(2), 1);
    assert_eq!(isqrt(3), 1);
    assert_eq!(isqrt(4), 2);
    assert_eq!(isqrt(15), 3);
    assert_eq!(isqrt(16), 4);
    assert_eq!(isqrt(4_000_000_000_000), 2_000_000);
    assert_eq!(isqrt(999_999_999_999_999_999), 999_999_999);
    assert_eq!(isqrt(1_000_000_000_000_000_000_000_000_000_000), 1_000_000_000_000_000);
    assert_eq!(isqrt(u128::MAX), 18446744073709551615);
}

#[test]
fn isqrt_is_the_floor_on_a_range() {
    let mut n: u128 = 0;
    while n < 2_000 {
        let r = isqrt(n);
        assert!(r * r <= n);
        assert!((r + 1) * (r + 1) > n);
        n += 1;
    }
}

#[test]
fn apply_fee_rounds_the_fee_up() {
    assert_eq!(apply_fee(100_000, 30), Ok((99_700, 300)));
    assert_eq!(apply_fee(1, 1), Ok((0, 1)));
    assert_eq!(apply_fee(12_345, 25), Ok((12_314, 31)));
    assert_eq!(apply_fee(10_000, 1), Ok((9_999, 1)));
    assert_eq!(apply_fee(10_001, 1), Ok((9_999, 2)));
}

#[test]
fn apply_fee_at_the_edges() {
    assert_eq!(apply_fee(0, 30), Ok((0, 0)));
    assert_eq!(apply_fee(0, 20_000), Ok((0, 0)));
    assert_eq!(apply_fee(500, 0), Ok((500, 0)));
    assert_eq!(apply_fee(500, 10_000), Ok((0, 500)));
    assert_eq!(apply_fee(u64::MAX, 10_000), Ok((0, u64::MAX)));
    assert_eq!(apply_fee(u64::MAX, u64::MAX), Err(AmmError::MathOverflow));
}

#[test]
fn apply_fee_rejects_a_fee_above_the_amount() {
    assert_eq!(apply_fee(500, 10_001), Err(AmmError::MathOverflow));
    assert_eq!(apply_fee(1, 20_000), Err(AmmError::MathOverflow));
}

#[test]
fn product_ge_compares_wide_products() {
    assert!(product_ge(3, 4, 6, 2));
    assert!(product_ge(3, 4, 11, 1));
    assert!(!product_ge(3, 4, 13, 1));
    let max = u128::MAX;
    assert!(product_ge(max, max, max, max - 1));
    assert!(!product_ge(max, max - 1, max, max));
    assert!(product_ge(max, 2, 2, max));
    assert!(!product_ge(1u128 << 127, 2, max, 2));
    assert!(product_ge(0, 0, 0, max));
}
