//! Integer-only arithmetic: products held in 256 bits, division with floor
//! and ceiling rounding, the integer square root and basis-point fees.

use vstd::prelude::*;
use vstd::arithmetic::div_mod::{
    lemma_fundamental_div_mod, lemma_fundamental_div_mod_converse, lemma_mod_bound,
};
use vstd::arithmetic::power2::{
    pow2, lemma_pow2_unfold, lemma_pow2_strictly_increases, lemma_pow2_adds, lemma2_to64,
    lemma2_to64_rest,
};
use crate::error::AmmError;

verus! {

/// The largest rate in basis points: 100%. One basis point is 1/10_000.
pub const MAX_BPS: u64 = 10_000;

/// 2^64, the base of the limbs that a wide product is built from.
pub const LIMB: u128 = 0x1_0000_0000_0000_0000;

/// 2^127, the weight of the top bit of a `u128`.
pub const TOP_BIT: u128 = 0x8000_0000_0000_0000_0000_0000_0000_0000;

/// 2^128 as a mathematical integer.
pub open spec fn word() -> int {
    0x1_0000_0000_0000_0000_0000_0000_0000_0000int
}

/// ⌊a·b/d⌋ over the naturals.
pub open spec fn spec_mul_div_floor(a: nat, b: nat, d: nat) -> nat
    recommends
        d > 0,
{
    (a * b) / d
}

/// ⌈a·b/d⌉ over the naturals.
pub open spec fn spec_mul_div_ceil(a: nat, b: nat, d: nat) -> nat
    recommends
        d > 0,
{
    ((a * b + d - 1) / (d as int)) as nat
}

/// `r` is the floor of the square root of `n`.
pub open spec fn is_isqrt(n: nat, r: nat) -> bool {
    r * r <= n && n < (r + 1) * (r + 1)
}

/// The floor of the square root of `n`.
pub open spec fn spec_isqrt(n: nat) -> nat {
    choose|r: nat| is_isqrt(n, r)
}

/// The fee on `amount` at `bps` basis points, rounded up.
pub open spec fn spec_fee(amount: nat, bps: nat) -> nat {
    (amount * bps + 9_999) / 10_000
}

/// At most one natural number is the integer square root of `n`.
pub proof fn lemma_isqrt_unique(n: nat, r: nat, s: nat)
    requires
        is_isqrt(n, r),
        is_isqrt(n, s),
    ensures
        r == s,
{
    if r < s {
        assert((r + 1) * (r + 1) <= s * s) by (nonlinear_arith)
            requires
                r + 1 <= s,
        ;
    }
    if s < r {
        assert((s + 1) * (s + 1) <= r * r) by (nonlinear_arith)
            requires
                s + 1 <= r,
        ;
    }
}

/// Every natural number has an integer square root.
pub proof fn lemma_isqrt_exists(n: nat)
    ensures
        is_isqrt(n, spec_isqrt(n)),
    decreases n,
{
    if n == 0 {
        assert(0nat * 0nat <= 0 && 0 < (0nat + 1) * (0nat + 1)) by (nonlinear_arith);
        assert(is_isqrt(0, 0));
    } else {
        lemma_isqrt_exists((n - 1) as nat);
        let r = spec_isqrt((n - 1) as nat);
        if (r + 1) * (r + 1) <= n {
            assert((r + 2) * (r + 2) > (r + 1) * (r + 1)) by (nonlinear_arith);
            assert(n <= (r + 1) * (r + 1));
            assert(is_isqrt(n, r + 1));
        } else {
            assert(is_isqrt(n, r));
        }
    }
}

/// A number that squares to at most `n` and whose successor squares above
/// `n` is the integer square root.
pub proof fn lemma_isqrt_is(n: nat, r: nat)
    requires
        is_isqrt(n, r),
    ensures
        spec_isqrt(n) == r,
{
    lemma_isqrt_unique(n, r, spec_isqrt(n));
}

/// A fee of at most 100% never exceeds the amount it is taken from.
pub proof fn lemma_fee_bounded(amount: nat, bps: nat)
    requires
        bps <= 10_000,
    ensures
        spec_fee(amount, bps) <= amount,
{
    assert(amount * bps <= amount * 10_000) by (nonlinear_arith)
        requires
            bps <= 10_000,
    ;
}

/// What makes `⌊a·b/d⌋` the floor: it is the one `q` with
/// `q·d ≤ a·b < q·d + d`.
pub proof fn lemma_mul_div_floor_bounds(a: nat, b: nat, d: nat)
    requires
        d > 0,
    ensures
        spec_mul_div_floor(a, b, d) * d <= a * b,
        a * b < spec_mul_div_floor(a, b, d) * d + d,
{
    let n: int = (a * b) as int;
    lemma_fundamental_div_mod(n, d as int);
    lemma_mod_bound(n, d as int);
    assert((n / (d as int)) * d == d * (n / (d as int))) by (nonlinear_arith);
}

/// Any `q` with `q·d ≤ a·b < q·d + d` is `⌊a·b/d⌋`: the way to the value
/// of a quotient on given numbers.
pub proof fn lemma_mul_div_floor_is(a: nat, b: nat, d: nat, q: nat)
    requires
        d > 0,
        q * d <= a * b,
        a * b < q * d + d,
    ensures
        spec_mul_div_floor(a, b, d) == q,
{
    lemma_fundamental_div_mod_converse((a * b) as int, d as int, q as int, a * b - q * d);
}

/// What makes `⌈a·b/d⌉` the ceiling: it is the one `c` with
/// `a·b ≤ c·d < a·b + d`.
pub proof fn lemma_mul_div_ceil_bounds(a: nat, b: nat, d: nat)
    requires
        d > 0,
    ensures
        a * b <= spec_mul_div_ceil(a, b, d) * d,
        spec_mul_div_ceil(a, b, d) * d < a * b + d,
        spec_mul_div_ceil(a, b, d) <= a * b,
{
    let n: int = a * b + d - 1;
    let c = spec_mul_div_ceil(a, b, d);
    lemma_fundamental_div_mod(n, d as int);
    lemma_mod_bound(n, d as int);
    assert(c * d == d * (n / (d as int))) by (nonlinear_arith)
        requires
            c == n / (d as int),
    ;
    if c > a * b {
        assert(c * d >= (a * b + 1) * d) by (nonlinear_arith)
            requires
                c >= a * b + 1,
                d > 0,
        ;
        assert((a * b + 1) * d >= a * b + d) by (nonlinear_arith)
            requires
                a * b >= 0,
                d >= 1,
        ;
    }
}

/// With factors of 64 bits and a positive divisor, `⌊a·b/d⌋` fits in 128
/// bits, so `mul_div_floor` succeeds.
pub proof fn lemma_mul_div_floor_fits(a: nat, b: nat, d: nat)
    requires
        a <= u64::MAX,
        b <= u64::MAX,
        d > 0,
    ensures
        spec_mul_div_floor(a, b, d) <= a * b,
        a * b <= 0xFFFF_FFFF_FFFF_FFFE_0000_0000_0000_0001,
        spec_mul_div_floor(a, b, d) <= u128::MAX,
{
    lemma_limb_product(a as int, b as int);
    lemma_mul_div_floor_bounds(a, b, d);
    let q = spec_mul_div_floor(a, b, d);
    assert(q <= q * d) by (nonlinear_arith)
        requires
            d >= 1,
            q >= 0,
    ;
}

/// The product of two numbers of 64 bits fits in 128 bits.
pub proof fn lemma_product_fits(a: nat, b: nat)
    requires
        a <= u64::MAX,
        b <= u64::MAX,
    ensures
        a * b <= 0xFFFF_FFFF_FFFF_FFFE_0000_0000_0000_0001,
{
    lemma_limb_product(a as int, b as int);
}

/// The integer square root of a product of two numbers of 64 bits fits in
/// 64 bits.
pub proof fn lemma_isqrt_of_product_fits(a: nat, b: nat)
    requires
        a <= u64::MAX,
        b <= u64::MAX,
    ensures
        is_isqrt(a * b, spec_isqrt(a * b)),
        spec_isqrt(a * b) <= u64::MAX,
{
    let root = spec_isqrt(a * b);
    lemma_isqrt_exists(a * b);
    lemma_product_fits(a, b);
    if root >= 0x1_0000_0000_0000_0000 {
        assert(root * root >= 0x1_0000_0000_0000_0000 * 0x1_0000_0000_0000_0000)
            by (nonlinear_arith)
            requires
                root >= 0x1_0000_0000_0000_0000,
        ;
    }
}

/// The powers of two that the bitwise division meets.
proof fn lemma_word_powers()
    ensures
        pow2(0) == 1,
        pow2(127) == 0x8000_0000_0000_0000_0000_0000_0000_0000,
        pow2(128) == word(),
{
    lemma2_to64();
    lemma2_to64_rest();
    lemma_pow2_adds(64, 63);
    lemma_pow2_adds(64, 64);
    assert(0x1_0000_0000_0000_0000 * 0x8000_0000_0000_0000
        == 0x8000_0000_0000_0000_0000_0000_0000_0000int) by (nonlinear_arith);
    assert(0x1_0000_0000_0000_0000 * 0x1_0000_0000_0000_0000
        == 0x1_0000_0000_0000_0000_0000_0000_0000_0000int) by (nonlinear_arith);
}

/// The product of two limbs fits in a `u128`.
proof fn lemma_limb_product(x: int, y: int)
    by (nonlinear_arith)
    requires
        0 <= x < 0x1_0000_0000_0000_0000,
        0 <= y < 0x1_0000_0000_0000_0000,
    ensures
        0 <= x * y <= 0xFFFF_FFFF_FFFF_FFFE_0000_0000_0000_0001,
{
}

/// The full 256-bit product of two 128-bit numbers, as a high and a low word.
fn wide_mul(a: u128, b: u128) -> (res: (u128, u128))
    ensures
        res.0 * word() + res.1 == a * b,
{
    let al: u128 = a % LIMB;
    let ah: u128 = a / LIMB;
    let bl: u128 = b % LIMB;
    let bh: u128 = b / LIMB;
    proof {
        lemma_limb_product(al as int, bl as int);
        lemma_limb_product(al as int, bh as int);
        lemma_limb_product(ah as int, bl as int);
        lemma_limb_product(ah as int, bh as int);
    }
    let ll: u128 = al * bl;
    let lh: u128 = al * bh;
    let hl: u128 = ah * bl;
    let hh: u128 = ah * bh;
    let mid: u128 = ll / LIMB + lh % LIMB + hl % LIMB;
    let lo: u128 = (mid % LIMB) * LIMB + ll % LIMB;
    let hi: u128 = hh + lh / LIMB + hl / LIMB + mid / LIMB;
    proof {
        let base: int = 0x1_0000_0000_0000_0000;
        assert(a * b == (ah * bh) * word() + (al * bh + ah * bl) * base + al * bl)
            by (nonlinear_arith)
            requires
                a == ah * base + al,
                b == bh * base + bl,
                base == 0x1_0000_0000_0000_0000,
                word() == 0x1_0000_0000_0000_0000_0000_0000_0000_0000int,
        ;
    }
    (hi, lo)
}

/// Divides the 256-bit number `hi·2^128 + lo` by `d`, one bit at a time.
/// The quotient fits in a word because `hi < d`.
fn wide_div(hi: u128, lo: u128, d: u128) -> (res: (u128, u128))
    requires
        hi < d,
    ensures
        hi * word() + lo == res.0 * d + res.1,
        res.1 < d,
{
    let ghost total: int = hi * word() + lo;
    let mut q: u128 = 0;
    let mut r: u128 = hi;
    let mut cur: u128 = lo;
    let mut i: u32 = 0;
    proof {
        lemma_word_powers();
    }
    while i < 128
        invariant
            i <= 128,
            r < d,
            0 <= q < pow2(i as nat),
            total == hi * word() + lo,
            total * pow2(i as nat) == (q * d + r) * word() + cur,
        decreases 128 - i,
    {
        let ghost p: int = pow2(i as nat) as int;
        let ghost qd: int = q * d;
        proof {
            lemma_pow2_unfold((i + 1) as nat);
            if i < 127 {
                lemma_pow2_strictly_increases(i as nat, 127);
            }
            lemma_word_powers();
            assert(total * (2 * p) == 2 * (total * p)) by (nonlinear_arith);
        }
        let top: u128 = if cur >= TOP_BIT { 1 } else { 0 };
        let rest: u128 = if cur >= TOP_BIT { cur - TOP_BIT } else { cur };
        let gap: u128 = d - r;
        if r + top >= gap {
            proof {
                assert((2 * q + 1) * d == 2 * qd + d) by (nonlinear_arith)
                    requires
                        qd == q * d,
                ;
            }
            r = r + top - gap;
            q = q * 2 + 1;
        } else {
            proof {
                assert((2 * q) * d == 2 * qd) by (nonlinear_arith)
                    requires
                        qd == q * d,
                ;
            }
            r = r + r + top;
            q = q * 2;
        }
        cur = rest * 2;
        i = i + 1;
    }
    proof {
        lemma_word_powers();
        let sum: int = q * d + r;
        assert(total == sum) by (nonlinear_arith)
            requires
                total * 0x1_0000_0000_0000_0000_0000_0000_0000_0000int == sum
                    * 0x1_0000_0000_0000_0000_0000_0000_0000_0000int + cur,
                0 <= cur < 0x1_0000_0000_0000_0000_0000_0000_0000_0000int,
        ;
    }
    (q, r)
}

/// ⌊a·b/d⌋, with the product held in 256 bits. Fails with `MathOverflow`
/// exactly when `d` is zero or the quotient does not fit in a `u128`.
pub fn mul_div_floor(a: u128, b: u128, d: u128) -> (res: Result<u128, AmmError>)
    ensures
        res is Ok <==> d != 0 && spec_mul_div_floor(a as nat, b as nat, d as nat) <= u128::MAX,
        res is Ok ==> res->Ok_0 == spec_mul_div_floor(a as nat, b as nat, d as nat),
        res is Err ==> res->Err_0 == AmmError::MathOverflow,
{
    if d == 0 {
        return Err(AmmError::MathOverflow);
    }
    let (hi, lo) = wide_mul(a, b);
    if hi >= d {
        proof {
            lemma_quotient_too_large(a * b, hi as int, lo as int, d as int);
        }
        return Err(AmmError::MathOverflow);
    }
    let (q, r) = wide_div(hi, lo, d);
    proof {
        lemma_fundamental_div_mod_converse(a * b, d as int, q as int, r as int);
    }
    Ok(q)
}

/// ⌈a·b/d⌉, with the product held in 256 bits. Fails with `MathOverflow`
/// exactly when `d` is zero or the rounded quotient does not fit in a `u128`.
pub fn mul_div_ceil(a: u128, b: u128, d: u128) -> (res: Result<u128, AmmError>)
    ensures
        res is Ok <==> d != 0 && spec_mul_div_ceil(a as nat, b as nat, d as nat) <= u128::MAX,
        res is Ok ==> res->Ok_0 == spec_mul_div_ceil(a as nat, b as nat, d as nat),
        res is Err ==> res->Err_0 == AmmError::MathOverflow,
{
    if d == 0 {
        return Err(AmmError::MathOverflow);
    }
    let (hi, lo) = wide_mul(a, b);
    if hi >= d {
        proof {
            lemma_quotient_too_large(a * b, hi as int, lo as int, d as int);
            lemma_quotient_too_large(a * b + d - 1, hi as int, lo + d - 1, d as int);
        }
        return Err(AmmError::MathOverflow);
    }
    let (q, r) = wide_div(hi, lo, d);
    if r == 0 {
        proof {
            lemma_fundamental_div_mod_converse(a * b + d - 1, d as int, q as int, d - 1);
        }
        Ok(q)
    } else {
        proof {
            assert((q + 1) * d == q * d + d) by (nonlinear_arith);
            lemma_fundamental_div_mod_converse(a * b + d - 1, d as int, q + 1, r - 1);
        }
        if q == u128::MAX {
            Err(AmmError::MathOverflow)
        } else {
            Ok(q + 1)
        }
    }
}

/// A 256-bit number whose high word is at least `d` has a quotient by `d`
/// of at least 2^128.
proof fn lemma_quotient_too_large(n: int, hi: int, lo: int, d: int)
    requires
        n == hi * word() + lo,
        0 < d <= hi,
        0 <= lo,
    ensures
        n / d >= word(),
{
    let q: int = n / d;
    let r: int = n % d;
    lemma_fundamental_div_mod(n, d);
    lemma_mod_bound(n, d);
    if q < word() {
        assert(d * q <= d * (word() - 1)) by (nonlinear_arith)
            requires
                q <= word() - 1,
                d > 0,
        ;
        assert(d * (word() - 1) == d * word() - d) by (nonlinear_arith);
        assert(hi * word() >= d * word()) by (nonlinear_arith)
            requires
                hi >= d,
        ;
    }
}

/// Whether `a·b ≥ c·d`, with both products held in 256 bits.
pub fn product_ge(a: u128, b: u128, c: u128, d: u128) -> (ge: bool)
    ensures
        ge == (a * b >= c * d),
{
    let (left_hi, left_lo) = wide_mul(a, b);
    let (right_hi, right_lo) = wide_mul(c, d);
    left_hi > right_hi || (left_hi == right_hi && left_lo >= right_lo)
}

/// A proportional part of `whole`, rounded down, is at most `whole`.
pub proof fn lemma_part_at_most_whole(part: nat, whole: nat, total: nat)
    requires
        part <= total,
        total > 0,
    ensures
        spec_mul_div_floor(part, whole, total) <= whole,
{
    let q = spec_mul_div_floor(part, whole, total);
    lemma_mul_div_floor_bounds(part, whole, total);
    if q > whole {
        assert(q * total >= (whole + 1) * total) by (nonlinear_arith)
            requires
                q >= whole + 1,
                total > 0,
        ;
        assert((whole + 1) * total > part * whole) by (nonlinear_arith)
            requires
                part <= total,
                total > 0,
        ;
    }
}

/// The floor of the square root of `n`.
pub fn isqrt(n: u128) -> (r: u128)
    ensures
        is_isqrt(n as nat, r as nat),
        r == spec_isqrt(n as nat),
        r < 0x1_0000_0000_0000_0000,
{
    let mut lo: u128 = 0;
    let mut hi: u128 = LIMB;
    while hi - lo > 1
        invariant
            lo < hi <= LIMB,
            lo * lo <= n,
            n < hi * hi,
        decreases hi - lo,
    {
        let mid: u128 = lo + (hi - lo) / 2;
        proof {
            lemma_limb_product(mid as int, mid as int);
        }
        if mid * mid <= n {
            lo = mid;
        } else {
            hi = mid;
        }
    }
    proof {
        lemma_isqrt_is(n as nat, lo as nat);
    }
    lo
}

/// Splits `amount` into what is left after the fee and the fee itself:
/// `fee = ⌈amount·bps/10_000⌉`, `net = amount − fee`. Fails with
/// `MathOverflow` exactly when the fee exceeds the amount, which a rate of
/// at most 10_000 never does.
pub fn apply_fee(amount: u64, bps: u64) -> (res: Result<(u64, u64), AmmError>)
    ensures
        res is Ok <==> spec_fee(amount as nat, bps as nat) <= amount,
        bps <= MAX_BPS ==> res is Ok,
        res is Ok ==> res->Ok_0.1 == spec_fee(amount as nat, bps as nat) && res->Ok_0.0
            == amount - res->Ok_0.1,
        res is Err ==> res->Err_0 == AmmError::MathOverflow,
{
    proof {
        lemma_product_fits(amount as nat, bps as nat);
        if bps <= 10_000 {
            lemma_fee_bounded(amount as nat, bps as nat);
        }
    }
    let wide_amount: u128 = amount as u128;
    let product: u128 = wide_amount * (bps as u128);
    let fee: u128 = (product + 9_999) / 10_000;
    if fee > wide_amount {
        Err(AmmError::MathOverflow)
    } else {
        let fee64: u64 = fee as u64;
        Ok((amount - fee64, fee64))
    }
}

} // verus!
