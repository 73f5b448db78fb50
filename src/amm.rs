//! The constant-product swap with its 0.3% fee, and the price impact of a swap.
use vstd::prelude::*;
use vstd::arithmetic::div_mod::{lemma_fundamental_div_mod, lemma_mod_pos_bound};
use crate::uint::{U256, u256_bound, e18, pow10};

verus! {

/// Output of a constant-product pool for `amount` in, after the 0.3% fee:
/// `amount*997*r_out / (r_in*1000 + amount*997)`, floored.
pub open spec fn swap_out(amount: nat, r_in: nat, r_out: nat) -> nat {
    (amount * 997 * r_out) / (r_in * 1000 + amount * 997)
}

/// The reserve that receives the input: `reserve_a` when trading token A for token B.
pub open spec fn reserve_in(reserve_a: nat, reserve_b: nat, a_to_b: bool) -> nat {
    if a_to_b { reserve_a } else { reserve_b }
}

/// The reserve that pays out.
pub open spec fn reserve_out(reserve_a: nat, reserve_b: nat, a_to_b: bool) -> nat {
    if a_to_b { reserve_b } else { reserve_a }
}

/// `calc_amount` in the given direction.
pub open spec fn amount_out(amount: nat, reserve_a: nat, reserve_b: nat, a_to_b: bool) -> nat {
    swap_out(amount, reserve_in(reserve_a, reserve_b, a_to_b), reserve_out(reserve_a, reserve_b, a_to_b))
}

/// Every intermediate of the swap formula fits in 256 bits, and its divisor is not zero.
pub open spec fn swap_fits(amount: nat, r_in: nat, r_out: nat) -> bool {
    &&& amount * 997 * r_out < u256_bound()
    &&& r_in * 1000 + amount * 997 < u256_bound()
    &&& r_in * 1000 + amount * 997 > 0
}

/// `swap_fits` in the given direction.
pub open spec fn leg_fits(amount: nat, reserve_a: nat, reserve_b: nat, a_to_b: bool) -> bool {
    swap_fits(amount, reserve_in(reserve_a, reserve_b, a_to_b), reserve_out(reserve_a, reserve_b, a_to_b))
}

/// Spot price of the output token, scaled by 10^18, from the raw reserve ratio.
pub open spec fn mid_price(reserve_a: nat, reserve_b: nat, a_to_b: bool) -> nat {
    reserve_out(reserve_a, reserve_b, a_to_b) * e18() / reserve_in(reserve_a, reserve_b, a_to_b)
}

/// Realised price of a swap of `amount`, scaled by 10^18.
#[verifier::opaque]
pub open spec fn execution_price(amount: nat, reserve_a: nat, reserve_b: nat, a_to_b: bool) -> nat {
    amount_out(amount, reserve_a, reserve_b, a_to_b) * e18() / amount
}

/// `|a - b|`.
pub open spec fn abs_diff(a: nat, b: nat) -> nat {
    if a > b { (a - b) as nat } else { (b - a) as nat }
}

/// Deviation of the execution price from the mid price, in basis points, floored.
#[verifier::opaque]
pub open spec fn impact_bps(amount: nat, reserve_a: nat, reserve_b: nat, a_to_b: bool) -> nat {
    let mid = mid_price(reserve_a, reserve_b, a_to_b);
    abs_diff(execution_price(amount, reserve_a, reserve_b, a_to_b), mid) * 10000 / mid
}

/// `(impact_bps, execution_price)`, or nothing when the amount or a reserve is zero.
pub open spec fn price_impact(amount: nat, reserve_a: nat, reserve_b: nat, a_to_b: bool) -> Option<(nat, nat)> {
    if amount == 0 || reserve_a == 0 || reserve_b == 0 {
        None
    } else {
        Some((impact_bps(amount, reserve_a, reserve_b, a_to_b), execution_price(amount, reserve_a, reserve_b, a_to_b)))
    }
}

/// On the inputs where `price_impact` gives a result, every intermediate fits in
/// 256 bits and the mid price it divides by is not zero.
pub open spec fn impact_fits(amount: nat, reserve_a: nat, reserve_b: nat, a_to_b: bool) -> bool {
    amount == 0 || reserve_a == 0 || reserve_b == 0 || {
        &&& reserve_out(reserve_a, reserve_b, a_to_b) * e18() < u256_bound()
        &&& leg_fits(amount, reserve_a, reserve_b, a_to_b)
        &&& mid_price(reserve_a, reserve_b, a_to_b) > 0
        &&& abs_diff(execution_price(amount, reserve_a, reserve_b, a_to_b), mid_price(reserve_a, reserve_b, a_to_b)) * 10000 < u256_bound()
    }
}

/// The two bounds of floored division: `(x/d)*d <= x < (x/d)*d + d`.
pub proof fn lemma_div_bounds(x: nat, d: nat)
    requires
        d > 0,
    ensures
        (x / d) * d <= x,
        x < (x / d) * d + d,
{
    lemma_fundamental_div_mod(x as int, d as int);
    lemma_mod_pos_bound(x as int, d as int);
    assert((x / d) * d == d * (x / d)) by (nonlinear_arith);
}

/// A swap never pays out more than the whole output reserve.
pub proof fn lemma_swap_out_le_reserve(amount: nat, r_in: nat, r_out: nat)
    requires
        r_in * 1000 + amount * 997 > 0,
    ensures
        swap_out(amount, r_in, r_out) <= r_out,
{
    let n = amount * 997 * r_out;
    let d = r_in * 1000 + amount * 997;
    let q = n / d;
    lemma_div_bounds(n, d);
    assert(q <= r_out) by (nonlinear_arith)
        requires
            q * d <= n,
            n == amount * 997 * r_out,
            d == r_in * 1000 + amount * 997,
            d > 0,
    {
        if amount == 0 {
            assert(n == 0);
            assert(q * d >= q);
        } else {
            if q > r_out {
                assert(q * d >= q * (amount * 997));
                assert(q * (amount * 997) > r_out * (amount * 997));
            }
        }
    }
}

/// If `x1/d1 <= x2/d2` as fractions, then also after flooring.
pub proof fn lemma_floor_le(x1: nat, d1: nat, x2: nat, d2: nat)
    requires
        d1 > 0,
        d2 > 0,
        x1 * d2 <= x2 * d1,
    ensures
        x1 / d1 <= x2 / d2,
{
    let q1 = x1 / d1;
    let q2 = x2 / d2;
    lemma_div_bounds(x1, d1);
    lemma_div_bounds(x2, d2);
    assert(q1 * d2 <= x2) by (nonlinear_arith)
        requires
            q1 * d1 <= x1,
            x1 * d2 <= x2 * d1,
            d1 > 0,
            d2 > 0,
    {
        assert(q1 * d1 * d2 <= x1 * d2);
        assert(q1 * d2 * d1 <= x2 * d1);
    }
    assert(q1 <= q2) by (nonlinear_arith)
        requires
            q1 * d2 <= x2,
            x2 < q2 * d2 + d2,
            d2 > 0,
    ;
}

/// The fee costs something: a swap pays strictly less than the fee-less
/// constant-product quote `amount * r_out / r_in`, compared exactly.
pub proof fn lemma_fee_bound(amount: nat, r_in: nat, r_out: nat)
    requires
        amount > 0,
        r_in > 0,
        r_out > 0,
    ensures
        swap_out(amount, r_in, r_out) * r_in < amount * r_out,
{
    let n = amount * 997 * r_out;
    let d = r_in * 1000 + amount * 997;
    let q = n / d;
    assert(d > 0) by (nonlinear_arith)
        requires
            d == r_in * 1000 + amount * 997,
            r_in > 0,
    ;
    lemma_div_bounds(n, d);
    assert(q * r_in < amount * r_out) by (nonlinear_arith)
        requires
            q * d <= n,
            n == amount * 997 * r_out,
            d == r_in * 1000 + amount * 997,
            amount > 0,
            r_in > 0,
            r_out > 0,
    {
        assert(q * d >= q * (r_in * 1000));
        assert(amount * 997 * r_out < amount * 1000 * r_out);
    }
}

/// The fee strictly lowers the output below that of a fee-less constant-product
/// pool, `amount * r_out / (r_in + amount)`, compared exactly.
pub proof fn lemma_below_fee_less_output(amount: nat, r_in: nat, r_out: nat)
    requires
        amount > 0,
        r_in > 0,
        r_out > 0,
    ensures
        swap_out(amount, r_in, r_out) * (r_in + amount) < amount * r_out,
{
    let n = amount * 997 * r_out;
    let d = r_in * 1000 + amount * 997;
    let q = n / d;
    assert(d > 0) by (nonlinear_arith)
        requires
            d == r_in * 1000 + amount * 997,
            r_in > 0,
    ;
    lemma_div_bounds(n, d);
    assert(q * (r_in + amount) < amount * r_out) by (nonlinear_arith)
        requires
            q * d <= n,
            n == amount * 997 * r_out,
            d == r_in * 1000 + amount * 997,
            amount > 0,
            r_in > 0,
            r_out > 0,
    {
        if q == 0 {
            assert(amount * r_out > 0);
        } else {
            assert(q * (r_in + amount) * 997 < q * d);
        }
    }
}

/// The fee bound in a given direction: `amount_out * reserve_in < amount * reserve_out`.
pub proof fn lemma_amount_out_fee_bound(amount: nat, reserve_a: nat, reserve_b: nat, a_to_b: bool)
    requires
        amount > 0,
        reserve_a > 0,
        reserve_b > 0,
    ensures
        amount_out(amount, reserve_a, reserve_b, a_to_b) * reserve_in(reserve_a, reserve_b, a_to_b)
            < amount * reserve_out(reserve_a, reserve_b, a_to_b),
{
    lemma_fee_bound(amount, reserve_in(reserve_a, reserve_b, a_to_b), reserve_out(reserve_a, reserve_b, a_to_b));
}

/// For fixed reserves and direction, a larger input never gives a smaller output.
pub proof fn lemma_amount_out_monotone(a1: nat, a2: nat, reserve_a: nat, reserve_b: nat, a_to_b: bool)
    requires
        a1 <= a2,
        reserve_in(reserve_a, reserve_b, a_to_b) > 0,
    ensures
        amount_out(a1, reserve_a, reserve_b, a_to_b) <= amount_out(a2, reserve_a, reserve_b, a_to_b),
{
    let r_in = reserve_in(reserve_a, reserve_b, a_to_b);
    let r_out = reserve_out(reserve_a, reserve_b, a_to_b);
    let n1 = a1 * 997 * r_out;
    let d1 = r_in * 1000 + a1 * 997;
    let n2 = a2 * 997 * r_out;
    let d2 = r_in * 1000 + a2 * 997;
    assert(d1 > 0 && d2 > 0) by (nonlinear_arith)
        requires
            d1 == r_in * 1000 + a1 * 997,
            d2 == r_in * 1000 + a2 * 997,
            r_in > 0,
    ;
    assert(n1 * d2 <= n2 * d1) by (nonlinear_arith)
        requires
            n1 == a1 * 997 * r_out,
            n2 == a2 * 997 * r_out,
            d1 == r_in * 1000 + a1 * 997,
            d2 == r_in * 1000 + a2 * 997,
            a1 <= a2,
    {
        assert(n2 * d1 - n1 * d2 == 997 * r_out * r_in * 1000 * (a2 - a1));
        assert(r_out * r_in * (a2 - a1) >= 0);
    }
    lemma_floor_le(n1, d1, n2, d2);
}

/// For fixed reserves and direction, the output grows strictly with the input
/// wherever the exact (unfloored) output grows by at least one unit, that is
/// when `997000 * r_in * r_out * (a2 - a1) >= d1 * d2`, with `d1`, `d2` the two
/// divisors of the swap formula. Flooring can leave the output equal for inputs
/// closer than that (1000 in the input reserve and 1 in the output reserve pay
/// 0 for both 1 and 2 in).
pub proof fn lemma_amount_out_strictly_increasing(a1: nat, a2: nat, reserve_a: nat, reserve_b: nat, a_to_b: bool)
    requires
        0 < a1 < a2,
        reserve_in(reserve_a, reserve_b, a_to_b) > 0,
        997000 * reserve_in(reserve_a, reserve_b, a_to_b) * reserve_out(reserve_a, reserve_b, a_to_b) * (a2 - a1)
            >= (reserve_in(reserve_a, reserve_b, a_to_b) * 1000 + a1 * 997)
            * (reserve_in(reserve_a, reserve_b, a_to_b) * 1000 + a2 * 997),
    ensures
        amount_out(a1, reserve_a, reserve_b, a_to_b) < amount_out(a2, reserve_a, reserve_b, a_to_b),
{
    let r_in = reserve_in(reserve_a, reserve_b, a_to_b);
    let r_out = reserve_out(reserve_a, reserve_b, a_to_b);
    let n1 = a1 * 997 * r_out;
    let d1 = r_in * 1000 + a1 * 997;
    let n2 = a2 * 997 * r_out;
    let d2 = r_in * 1000 + a2 * 997;
    let q1 = n1 / d1;
    let q2 = n2 / d2;
    assert(d1 > 0 && d2 > 0) by (nonlinear_arith)
        requires
            d1 == r_in * 1000 + a1 * 997,
            d2 == r_in * 1000 + a2 * 997,
            r_in > 0,
    ;
    lemma_div_bounds(n1, d1);
    lemma_div_bounds(n2, d2);
    assert(n2 * d1 - n1 * d2 == 997000 * r_in * r_out * (a2 - a1)) by (nonlinear_arith)
        requires
            n1 == a1 * 997 * r_out,
            n2 == a2 * 997 * r_out,
            d1 == r_in * 1000 + a1 * 997,
            d2 == r_in * 1000 + a2 * 997,
    ;
    assert((q1 + 1) * d2 <= n2) by (nonlinear_arith)
        requires
            q1 * d1 <= n1,
            n2 * d1 - n1 * d2 >= d1 * d2,
            d1 > 0,
            d2 > 0,
    {
        assert(q1 * d1 * d2 <= n1 * d2);
        assert((q1 + 1) * d2 * d1 == q1 * d1 * d2 + d1 * d2);
        assert((q1 + 1) * d2 * d1 <= n2 * d1);
    }
    assert(q1 + 1 <= q2) by (nonlinear_arith)
        requires
            (q1 + 1) * d2 <= n2,
            n2 < q2 * d2 + d2,
            d2 > 0,
    ;
}

/// A swap never executes above the mid price.
pub proof fn lemma_execution_below_mid(amount: nat, reserve_a: nat, reserve_b: nat, a_to_b: bool)
    requires
        amount > 0,
        reserve_a > 0,
        reserve_b > 0,
    ensures
        execution_price(amount, reserve_a, reserve_b, a_to_b) <= mid_price(reserve_a, reserve_b, a_to_b),
{
    reveal(execution_price);
    let r_in = reserve_in(reserve_a, reserve_b, a_to_b);
    let r_out = reserve_out(reserve_a, reserve_b, a_to_b);
    let out = amount_out(amount, reserve_a, reserve_b, a_to_b);
    lemma_amount_out_fee_bound(amount, reserve_a, reserve_b, a_to_b);
    assert(out * e18() * r_in <= r_out * e18() * amount) by (nonlinear_arith)
        requires
            out * r_in < amount * r_out,
    ;
    lemma_floor_le(out * e18(), amount, r_out * e18(), r_in);
}

/// For fixed reserves and direction, the price impact does not fall as the
/// trade grows from `a1` to `a2`, provided the floored output per unit of input
/// does not rise (`out(a2) * a1 <= out(a1) * a2`). Without that proviso it can
/// fall: with 1000 in the input reserve and 10 in the output reserve, 111 in
/// pays nothing (impact 10000 bps) while 112 in pays 1 (impact 1071 bps).
pub proof fn lemma_price_impact_monotone(a1: nat, a2: nat, reserve_a: nat, reserve_b: nat, a_to_b: bool)
    requires
        0 < a1 <= a2,
        reserve_a > 0,
        reserve_b > 0,
        mid_price(reserve_a, reserve_b, a_to_b) > 0,
        amount_out(a2, reserve_a, reserve_b, a_to_b) * a1 <= amount_out(a1, reserve_a, reserve_b, a_to_b) * a2,
    ensures
        impact_bps(a1, reserve_a, reserve_b, a_to_b) <= impact_bps(a2, reserve_a, reserve_b, a_to_b),
{
    reveal(impact_bps);
    let mid = mid_price(reserve_a, reserve_b, a_to_b);
    let out1 = amount_out(a1, reserve_a, reserve_b, a_to_b);
    let out2 = amount_out(a2, reserve_a, reserve_b, a_to_b);
    lemma_execution_below_mid(a1, reserve_a, reserve_b, a_to_b);
    lemma_execution_below_mid(a2, reserve_a, reserve_b, a_to_b);
    assert(out2 * e18() * a1 <= out1 * e18() * a2) by (nonlinear_arith)
        requires
            out2 * a1 <= out1 * a2,
    ;
    lemma_floor_le(out2 * e18(), a2, out1 * e18(), a1);
    reveal(execution_price);
    let x1 = execution_price(a1, reserve_a, reserve_b, a_to_b);
    let x2 = execution_price(a2, reserve_a, reserve_b, a_to_b);
    assert(x2 <= x1);
    let g1 = abs_diff(x1, mid);
    let g2 = abs_diff(x2, mid);
    assert(g1 <= g2);
    assert(g1 * 10000 * mid <= g2 * 10000 * mid) by (nonlinear_arith)
        requires
            g1 <= g2,
    ;
    lemma_floor_le(g1 * 10000, mid, g2 * 10000, mid);
}

/// Without any proviso, the price impact falls by less than one basis point
/// plus a rounding allowance as the trade grows from `a1` to `a2`:
/// `impact(a1) < impact(a2) + 1 + 10000 * (10^18 / a1 + 1) / mid`, compared exactly.
pub proof fn lemma_price_impact_nearly_monotone(a1: nat, a2: nat, reserve_a: nat, reserve_b: nat, a_to_b: bool)
    requires
        0 < a1 <= a2,
        reserve_a > 0,
        reserve_b > 0,
        mid_price(reserve_a, reserve_b, a_to_b) > 0,
    ensures
        impact_bps(a1, reserve_a, reserve_b, a_to_b) * mid_price(reserve_a, reserve_b, a_to_b) * a1
            < (impact_bps(a2, reserve_a, reserve_b, a_to_b) + 1) * mid_price(reserve_a, reserve_b, a_to_b) * a1
            + 10000 * (e18() + a1),
{
    reveal(impact_bps);
    reveal(execution_price);
    let r = reserve_in(reserve_a, reserve_b, a_to_b);
    let big_r = reserve_out(reserve_a, reserve_b, a_to_b);
    let e = e18();
    let mid = mid_price(reserve_a, reserve_b, a_to_b);
    let q1 = amount_out(a1, reserve_a, reserve_b, a_to_b);
    let q2 = amount_out(a2, reserve_a, reserve_b, a_to_b);
    let n1 = a1 * 997 * big_r;
    let d1 = r * 1000 + a1 * 997;
    let n2 = a2 * 997 * big_r;
    let d2 = r * 1000 + a2 * 997;
    let x1 = execution_price(a1, reserve_a, reserve_b, a_to_b);
    let x2 = execution_price(a2, reserve_a, reserve_b, a_to_b);
    assert(d1 > 0 && d2 >= d1) by (nonlinear_arith)
        requires
            d1 == r * 1000 + a1 * 997,
            d2 == r * 1000 + a2 * 997,
            r > 0,
            a1 <= a2,
    ;
    lemma_div_bounds(n1, d1);
    lemma_div_bounds(n2, d2);
    lemma_div_bounds(q1 * e, a1);
    lemma_div_bounds(q2 * e, a2);
    lemma_execution_below_mid(a1, reserve_a, reserve_b, a_to_b);
    lemma_execution_below_mid(a2, reserve_a, reserve_b, a_to_b);
    // x2 <= 997*R*e/d2 <= 997*R*e/d1, and x1 > 997*R*e/d1 - e/a1 - 1
    assert(x2 * a2 * d2 <= 997 * big_r * e * a2) by (nonlinear_arith)
        requires
            x2 * a2 <= q2 * e,
            q2 * d2 <= n2,
            n2 == a2 * 997 * big_r,
            d2 > 0,
    {
        assert(x2 * a2 * d2 <= q2 * e * d2);
        assert(q2 * d2 * e <= n2 * e);
    }
    assert(x2 * d1 <= 997 * big_r * e) by (nonlinear_arith)
        requires
            x2 * a2 * d2 <= 997 * big_r * e * a2,
            a2 > 0,
            d2 >= d1,
    {
        assert(x2 * d2 <= 997 * big_r * e);
        assert(x2 * d1 <= x2 * d2);
    }
    assert(997 * big_r * e * a1 < (x1 + 1) * a1 * d1 + e * d1) by (nonlinear_arith)
        requires
            q1 * e < x1 * a1 + a1,
            n1 < q1 * d1 + d1,
            n1 == a1 * 997 * big_r,
            d1 > 0,
            a1 > 0,
            e > 0,
    {
        assert(n1 * e < q1 * d1 * e + d1 * e);
        assert(q1 * e * d1 < (x1 * a1 + a1) * d1);
    }
    assert((x2 - x1 - 1) * a1 < e) by (nonlinear_arith)
        requires
            x2 * d1 <= 997 * big_r * e,
            997 * big_r * e * a1 < (x1 + 1) * a1 * d1 + e * d1,
            d1 > 0,
            a1 > 0,
    {
        assert(x2 * d1 * a1 <= 997 * big_r * e * a1);
        assert((x2 - x1 - 1) * a1 * d1 < e * d1);
    }
    let g1 = (mid - x1) as nat;
    let g2 = (mid - x2) as nat;
    let i1 = impact_bps(a1, reserve_a, reserve_b, a_to_b);
    let i2 = impact_bps(a2, reserve_a, reserve_b, a_to_b);
    assert(abs_diff(x1, mid) == g1 && abs_diff(x2, mid) == g2);
    lemma_div_bounds(g1 * 10000, mid);
    lemma_div_bounds(g2 * 10000, mid);
    assert(i1 * mid * a1 < (i2 + 1) * mid * a1 + 10000 * (e + a1)) by (nonlinear_arith)
        requires
            i1 * mid <= g1 * 10000,
            g2 * 10000 < i2 * mid + mid,
            g1 == mid - x1,
            g2 == mid - x2,
            (x2 - x1 - 1) * a1 < e,
            a1 > 0,
    {
        assert(i1 * mid * a1 <= g1 * 10000 * a1);
        assert(g1 * a1 < g2 * a1 + a1 + e);
        assert(g2 * 10000 * a1 < (i2 + 1) * mid * a1);
    }
}

/// Swapping there and back on one set of reserves returns strictly less than
/// was put in: each leg pays less than the fee-less quote.
pub proof fn lemma_round_trip_loses(amount: nat, reserve_a: nat, reserve_b: nat, a_to_b: bool)
    requires
        amount > 0,
        reserve_a > 0,
        reserve_b > 0,
    ensures
        amount_out(amount_out(amount, reserve_a, reserve_b, a_to_b), reserve_a, reserve_b, !a_to_b) < amount,
{
    let r_in = reserve_in(reserve_a, reserve_b, a_to_b);
    let r_out = reserve_out(reserve_a, reserve_b, a_to_b);
    let out1 = amount_out(amount, reserve_a, reserve_b, a_to_b);
    let out2 = amount_out(out1, reserve_a, reserve_b, !a_to_b);
    lemma_amount_out_fee_bound(amount, reserve_a, reserve_b, a_to_b);
    if out1 == 0 {
        assert(out2 == 0) by (nonlinear_arith)
            requires
                out2 == swap_out(0, r_out, r_in),
                r_out > 0,
        ;
    } else {
        lemma_amount_out_fee_bound(out1, reserve_a, reserve_b, !a_to_b);
        assert(out2 < amount) by (nonlinear_arith)
            requires
                out2 * r_out < out1 * r_in,
                out1 * r_in < amount * r_out,
                r_out > 0,
        ;
    }
}

/// How much a round trip on one set of reserves returns at most: the fee is paid
/// twice, so with `r_in` the first leg's input reserve,
/// `back * (1000000 * r_in + 1991009 * amount) <= 994009 * amount * r_in`.
pub proof fn lemma_round_trip_bound(amount: nat, reserve_a: nat, reserve_b: nat, a_to_b: bool)
    requires
        amount > 0,
        reserve_a > 0,
        reserve_b > 0,
    ensures
        ({
            let back = amount_out(amount_out(amount, reserve_a, reserve_b, a_to_b), reserve_a, reserve_b, !a_to_b);
            let r_in = reserve_in(reserve_a, reserve_b, a_to_b);
            back * (1000000 * r_in + 1991009 * amount) <= 994009 * amount * r_in
        }),
{
    let r = reserve_in(reserve_a, reserve_b, a_to_b);
    let big_r = reserve_out(reserve_a, reserve_b, a_to_b);
    let q1 = amount_out(amount, reserve_a, reserve_b, a_to_b);
    let q2 = amount_out(q1, reserve_a, reserve_b, !a_to_b);
    let n1 = amount * 997 * big_r;
    let d1 = r * 1000 + amount * 997;
    let n2 = q1 * 997 * r;
    let d2 = big_r * 1000 + q1 * 997;
    assert(d1 > 0 && d2 > 0) by (nonlinear_arith)
        requires
            d1 == r * 1000 + amount * 997,
            d2 == big_r * 1000 + q1 * 997,
            r > 0,
            big_r > 0,
    ;
    lemma_div_bounds(n1, d1);
    lemma_div_bounds(n2, d2);
    lemma_swap_out_le_reserve(q1, big_r, r);
    assert(q2 * (1000000 * r + 1991009 * amount) <= 994009 * amount * r) by (nonlinear_arith)
        requires
            q1 * d1 <= n1,
            q2 * d2 <= n2,
            n1 == amount * 997 * big_r,
            d1 == r * 1000 + amount * 997,
            n2 == q1 * 997 * r,
            d2 == big_r * 1000 + q1 * 997,
            q2 <= r,
            big_r > 0,
            r > 0,
    {
        assert(q2 * 1000 * big_r <= 997 * q1 * (r - q2));
        assert(997 * (r - q2) * (q1 * d1) <= 997 * (r - q2) * n1);
        assert(q2 * 1000 * big_r * d1 <= 997 * q1 * (r - q2) * d1);
        assert(big_r * (1000 * q2 * d1) <= big_r * (994009 * amount * (r - q2)));
        assert(1000 * q2 * d1 <= 994009 * amount * (r - q2));
    }
}

/// Output of a constant-product pool with a 0.3% fee for `amount` in; with
/// `token0_to_token1` the input goes to `reserve0`, else to `reserve1`.
pub fn calc_amount(amount: U256, reserve0: U256, reserve1: U256, token0_to_token1: bool) -> (r: U256)
    requires
        leg_fits(amount@, reserve0@, reserve1@, token0_to_token1),
    ensures
        r@ == amount_out(amount@, reserve0@, reserve1@, token0_to_token1),
{
    let in_amount_fee_adjusted = amount.times(U256::from_u64(997));
    let (r_in, r_out) = if token0_to_token1 {
        (reserve0, reserve1)
    } else {
        (reserve1, reserve0)
    };
    let numerator = in_amount_fee_adjusted.times(r_out);
    let denominator = r_in.times(U256::from_u64(1000)).plus(in_amount_fee_adjusted);
    numerator.over(denominator)
}

/// `10^18` as a `U256`.
fn scale() -> (r: U256)
    ensures
        r@ == e18(),
{
    proof {
        reveal_with_fuel(pow10, 19);
    }
    U256::exp10(18)
}

/// Price impact of a swap of `amount`: `Some((impact_bps, execution_price))`,
/// or `None` when the amount or a reserve is zero.
pub fn calculate_price_impact(amount: U256, reserve_a: U256, reserve_b: U256, token0_to_token1: bool) -> (r: Option<(U256, U256)>)
    requires
        impact_fits(amount@, reserve_a@, reserve_b@, token0_to_token1),
    ensures
        r is None <==> price_impact(amount@, reserve_a@, reserve_b@, token0_to_token1) is None,
        r is Some ==> price_impact(amount@, reserve_a@, reserve_b@, token0_to_token1)
            == Some(((r->0).0@, (r->0).1@)),
{
    if amount.is_zero() || reserve_a.is_zero() || reserve_b.is_zero() {
        return None;
    }
    reveal(execution_price);
    reveal(impact_bps);
    let ghost dir = token0_to_token1;
    let e = scale();
    let mid_price = if token0_to_token1 {
        reserve_b.times(e).over(reserve_a)
    } else {
        reserve_a.times(e).over(reserve_b)
    };
    let out_amount = calc_amount(amount, reserve_a, reserve_b, token0_to_token1);
    proof {
        let r_in = reserve_in(reserve_a@, reserve_b@, dir);
        let r_out = reserve_out(reserve_a@, reserve_b@, dir);
        lemma_swap_out_le_reserve(amount@, r_in, r_out);
        assert(out_amount@ * e18() <= r_out * e18()) by (nonlinear_arith)
            requires
                out_amount@ <= r_out,
        ;
    }
    let execution_price = out_amount.times(e).over(amount);
    let price_impact = if mid_price.less_than(&execution_price) {
        execution_price.minus(mid_price).times(U256::from_u64(10000)).over(mid_price)
    } else {
        mid_price.minus(execution_price).times(U256::from_u64(10000)).over(mid_price)
    };
    Some((price_impact, execution_price))
}

/// Whether `calc_amount` can run on these inputs: `r == leg_fits(..)`.
pub fn swap_in_range(amount: U256, reserve0: U256, reserve1: U256, token0_to_token1: bool) -> (r: bool)
    ensures
        r == leg_fits(amount@, reserve0@, reserve1@, token0_to_token1),
{
    let (r_in, r_out) = if token0_to_token1 {
        (reserve0, reserve1)
    } else {
        (reserve1, reserve0)
    };
    let fee_adjusted = match amount.checked_times(U256::from_u64(997)) {
        Some(v) => v,
        None => return false,
    };
    let numerator_fits = fee_adjusted.checked_times(r_out).is_some();
    let scaled_in = match r_in.checked_times(U256::from_u64(1000)) {
        Some(v) => v,
        None => return false,
    };
    match scaled_in.checked_plus(fee_adjusted) {
        Some(denominator) => numerator_fits && !denominator.is_zero(),
        None => false,
    }
}

/// Whether `calculate_price_impact` can run on these inputs: `r == impact_fits(..)`.
pub fn impact_in_range(amount: U256, reserve_a: U256, reserve_b: U256, token0_to_token1: bool) -> (r: bool)
    ensures
        r == impact_fits(amount@, reserve_a@, reserve_b@, token0_to_token1),
{
    if amount.is_zero() || reserve_a.is_zero() || reserve_b.is_zero() {
        return true;
    }
    let ghost dir = token0_to_token1;
    let (r_in, r_out) = if token0_to_token1 {
        (reserve_a, reserve_b)
    } else {
        (reserve_b, reserve_a)
    };
    let e = scale();
    let scaled_out = match r_out.checked_times(e) {
        Some(v) => v,
        None => return false,
    };
    if !swap_in_range(amount, reserve_a, reserve_b, token0_to_token1) {
        return false;
    }
    let mid_price = scaled_out.over(r_in);
    if mid_price.is_zero() {
        return false;
    }
    let out_amount = calc_amount(amount, reserve_a, reserve_b, token0_to_token1);
    proof {
        reveal(execution_price);
        lemma_swap_out_le_reserve(amount@, r_in@, r_out@);
        assert(out_amount@ * e18() <= r_out@ * e18()) by (nonlinear_arith)
            requires
                out_amount@ <= r_out@,
        ;
    }
    let execution_price = out_amount.times(e).over(amount);
    let gap = if mid_price.less_than(&execution_price) {
        execution_price.minus(mid_price)
    } else {
        mid_price.minus(execution_price)
    };
    gap.checked_times(U256::from_u64(10000)).is_some()
}

} // verus!
