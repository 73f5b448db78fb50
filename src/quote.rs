//! Spot prices normalised to a fixed 10^18 scale, whatever the tokens' decimals.
use vstd::prelude::*;
use crate::uint::{U256, u256_bound, pow10};

verus! {

/// Both spot prices of a venue, each scaled by 10^18.
pub struct Quote {
    /// Units of token B paid for one unit of token A.
    pub price_a_to_b: U256,
    /// Units of token A paid for one unit of token B.
    pub price_b_to_a: U256,
}

/// Why a venue gives no quote.
#[derive(Clone, Copy, Debug, PartialEq, Eq, Structural)]
pub enum QuoteError {
    /// The decimals give a negative normalisation exponent.
    InvalidDecimals,
    /// A reserve is zero.
    ZeroReserve,
}

/// The normalisation exponent `18 - decimals_b + decimals_a`.
pub open spec fn normalization_exponent(decimals_a: nat, decimals_b: nat) -> int {
    18 - decimals_b + decimals_a
}

/// The normalisation exponent is not negative.
pub open spec fn decimals_valid(decimals_a: nat, decimals_b: nat) -> bool {
    normalization_exponent(decimals_a, decimals_b) >= 0
}

/// Exponent of the scale applied to `reserve_a` for `price_b_to_a`: the
/// normalisation exponent when `decimals_a < 18`, else 18.
pub open spec fn exponent_b_to_a(decimals_a: nat, decimals_b: nat) -> int {
    if decimals_a < 18 { normalization_exponent(decimals_a, decimals_b) } else { 18 }
}

/// Exponent of the scale applied to `reserve_b` for `price_a_to_b`: the
/// normalisation exponent when `decimals_b < 18`, else 18.
pub open spec fn exponent_a_to_b(decimals_a: nat, decimals_b: nat) -> int {
    if decimals_b < 18 { normalization_exponent(decimals_a, decimals_b) } else { 18 }
}

/// `reserve_a * 10^exponent_b_to_a / reserve_b`.
pub open spec fn price_b_to_a(reserve_a: nat, reserve_b: nat, decimals_a: nat, decimals_b: nat) -> nat {
    reserve_a * pow10(exponent_b_to_a(decimals_a, decimals_b) as nat) / reserve_b
}

/// `reserve_b * 10^exponent_a_to_b / reserve_a`.
pub open spec fn price_a_to_b(reserve_a: nat, reserve_b: nat, decimals_a: nat, decimals_b: nat) -> nat {
    reserve_b * pow10(exponent_a_to_b(decimals_a, decimals_b) as nat) / reserve_a
}

/// Where prices are computed (valid decimals, no zero reserve), both scales
/// and both scaled reserves fit in 256 bits (10^77 is the largest power of ten that does).
pub open spec fn quote_fits(reserve_a: nat, reserve_b: nat, decimals_a: nat, decimals_b: nat) -> bool {
    decimals_valid(decimals_a, decimals_b) && reserve_a > 0 && reserve_b > 0 ==> {
        &&& exponent_b_to_a(decimals_a, decimals_b) <= 77
        &&& exponent_a_to_b(decimals_a, decimals_b) <= 77
        &&& reserve_a * pow10(exponent_b_to_a(decimals_a, decimals_b) as nat) < u256_bound()
        &&& reserve_b * pow10(exponent_a_to_b(decimals_a, decimals_b) as nat) < u256_bound()
    }
}

/// Spot prices of a venue in both directions, scaled by 10^18, with the
/// normalisation exponent `e = 18 - decimals_b + decimals_a`:
/// `price_b_to_a = reserve_a * 10^e / reserve_b` when `decimals_a < 18`, else
/// `reserve_a * 10^18 / reserve_b`; `price_a_to_b = reserve_b * 10^e / reserve_a`
/// when `decimals_b < 18`, else `reserve_b * 10^18 / reserve_a`. Fails with
/// `InvalidDecimals` when `e` is negative, and else with `ZeroReserve` when a
/// reserve is zero.
pub fn normalized_prices(reserve_a: U256, reserve_b: U256, decimals_a: u8, decimals_b: u8) -> (r: Result<Quote, QuoteError>)
    requires
        quote_fits(reserve_a@, reserve_b@, decimals_a as nat, decimals_b as nat),
    ensures
        r == Err::<Quote, QuoteError>(QuoteError::InvalidDecimals)
            <==> !decimals_valid(decimals_a as nat, decimals_b as nat),
        r == Err::<Quote, QuoteError>(QuoteError::ZeroReserve)
            <==> decimals_valid(decimals_a as nat, decimals_b as nat) && (reserve_a@ == 0 || reserve_b@ == 0),
        r is Ok ==> {
            &&& r->Ok_0.price_b_to_a@ == price_b_to_a(reserve_a@, reserve_b@, decimals_a as nat, decimals_b as nat)
            &&& r->Ok_0.price_a_to_b@ == price_a_to_b(reserve_a@, reserve_b@, decimals_a as nat, decimals_b as nat)
        },
{
    if decimals_b as u32 > 18 + decimals_a as u32 {
        return Err(QuoteError::InvalidDecimals);
    }
    if reserve_a.is_zero() || reserve_b.is_zero() {
        return Err(QuoteError::ZeroReserve);
    }
    let e: u32 = 18 + decimals_a as u32 - decimals_b as u32;
    let scale_a = if decimals_a < 18 {
        U256::exp10(e)
    } else {
        U256::exp10(18)
    };
    let scale_b = if decimals_b < 18 {
        U256::exp10(e)
    } else {
        U256::exp10(18)
    };
    let price_b_to_a = reserve_a.times(scale_a).over(reserve_b);
    let price_a_to_b = reserve_b.times(scale_b).over(reserve_a);
    Ok(Quote { price_a_to_b, price_b_to_a })
}

/// Whether `normalized_prices` can run on these inputs: `r == quote_fits(..)`.
pub fn quote_in_range(reserve_a: U256, reserve_b: U256, decimals_a: u8, decimals_b: u8) -> (r: bool)
    ensures
        r == quote_fits(reserve_a@, reserve_b@, decimals_a as nat, decimals_b as nat),
{
    if decimals_b as u32 > 18 + decimals_a as u32 || reserve_a.is_zero() || reserve_b.is_zero() {
        return true;
    }
    let e: u32 = 18 + decimals_a as u32 - decimals_b as u32;
    let exponent_a: u32 = if decimals_a < 18 { e } else { 18 };
    let exponent_b: u32 = if decimals_b < 18 { e } else { 18 };
    if exponent_a > 77 || exponent_b > 77 {
        return false;
    }
    let scale_a = U256::exp10(exponent_a);
    let scale_b = U256::exp10(exponent_b);
    reserve_a.checked_times(scale_a).is_some() && reserve_b.checked_times(scale_b).is_some()
}

/// `10^n` never exceeds `10^m` for `n <= m`.
proof fn lemma_pow10_monotone(n: nat, m: nat)
    requires
        n <= m,
    ensures
        pow10(n) <= pow10(m),
        pow10(n) > 0,
    decreases m,
{
    if n < m {
        lemma_pow10_monotone(n, (m - 1) as nat);
    } else if n > 0 {
        lemma_pow10_monotone((n - 1) as nat, (n - 1) as nat);
    }
}

/// `10^(a+b) == 10^a * 10^b`.
proof fn lemma_pow10_add(a: nat, b: nat)
    ensures
        pow10(a + b) == pow10(a) * pow10(b),
    decreases b,
{
    if b == 0 {
        assert(pow10(0) == 1);
        assert(a + b == a);
    } else {
        let c = (b - 1) as nat;
        lemma_pow10_add(a, c);
        assert(a + b == (a + c) + 1);
        assert(pow10(a + b) == 10 * pow10(a + c));
        assert(pow10(b) == 10 * pow10(c));
        let x = pow10(a);
        let y = pow10(c);
        assert(pow10(a + c) == x * y);
        assert(10 * (x * y) == x * (10 * y)) by (nonlinear_arith);
    }
}

/// `3 * 10^76` is below 2^256.
proof fn lemma_three_pow10_76()
    ensures
        pow10(76) * 3 < u256_bound(),
{
    reveal_with_fuel(pow10, 5);
    assert(pow10(4) == 10000);
    lemma_pow10_add(4, 4);
    assert(pow10(8) == 100_000_000);
    lemma_pow10_add(8, 8);
    assert(pow10(16) == 10_000_000_000_000_000);
    lemma_pow10_add(16, 16);
    assert(pow10(32) == 100_000_000_000_000_000_000_000_000_000_000);
    lemma_pow10_add(32, 32);
    lemma_pow10_add(64, 8);
    lemma_pow10_add(72, 4);
    assert(pow10(76) == pow10(32) * pow10(32) * pow10(8) * pow10(4));
}

/// The sizes swept for a token with `token_decimals` decimals: one, two and
/// three whole tokens, as `(start, end, step)` = `(10^d, 3 * 10^d, 10^d)`.
pub fn create_trade_amount_range(token_decimals: u8) -> (r: (U256, U256, U256))
    requires
        token_decimals <= 76,
    ensures
        r.0@ == pow10(token_decimals as nat),
        r.1@ == 3 * pow10(token_decimals as nat),
        r.2@ == pow10(token_decimals as nat),
{
    proof {
        lemma_pow10_monotone(token_decimals as nat, 76);
        lemma_three_pow10_76();
    }
    let unit = U256::exp10(token_decimals as u32);
    let trade_amount = U256::from_u64(1).times(unit);
    let max_trade_amount = U256::from_u64(3).times(unit);
    let trade_amount_step = U256::from_u64(1).times(unit);
    (trade_amount, max_trade_amount, trade_amount_step)
}

} // verus!
