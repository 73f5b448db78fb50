use arbitrage_bot::amm::{calc_amount, calculate_price_impact};
use arbitrage_bot::quote::{create_trade_amount_range, normalized_prices, QuoteError};
use arbitrage_bot::uint::U256;

fn u(v: u64) -> U256 {
    U256::from(v)
}

#[test]
fn swap_output_exact_values() {
    assert_eq!(calc_amount(u(10), u(1000), u(1000), true), u(9));
    assert_eq!(calc_amount(u(10), u(1000), u(500), true), u(4));
    assert_eq!(calc_amount(u(9), u(1000), u(500), false), u(17));
    assert_eq!(calc_amount(u(1000), u(1000), u(1000), true), u(499));
    assert_eq!(calc_amount(u(0), u(1000), u(1000), true), u(0));
}

#[test]
fn swap_output_grows_with_the_input() {
    let mut last = u(0);
    for amount in 1..200u64 {
        let out = calc_amount(u(amount), u(100_000), u(1_000_000), true);
        assert!(out.limbs()[0] > last.limbs()[0]);
        last = out;
    }
}

#[test]
fn flooring_can_leave_the_output_flat() {
    assert_eq!(calc_amount(u(1), u(1000), u(1), true), u(0));
    assert_eq!(calc_amount(u(2), u(1000), u(1), true), u(0));
}

#[test]
fn fee_keeps_output_below_the_fee_less_quote() {
    for (amount, r_in, r_out) in [(10u64, 1000u64, 1000u64), (1, 1, 1), (500, 700, 300), (3, 9, 1_000_000)] {
        let out = calc_amount(u(amount), u(r_in), u(r_out), true).limbs()[0];
        assert!((out as u128) * (r_in as u128) < (amount as u128) * (r_out as u128));
    }
}

#[test]
fn price_impact_exact_values() {
    let r = calculate_price_impact(u(10), u(1000), u(1000), true);
    assert_eq!(r, Some((u(1000), u(900_000_000_000_000_000))));
    let r = calculate_price_impact(u(10), u(1000), u(500), true);
    assert_eq!(r, Some((u(2000), u(400_000_000_000_000_000))));
    let r = calculate_price_impact(u(10), u(500), u(1000), false);
    assert_eq!(r, Some((u(2000), u(400_000_000_000_000_000))));
}

#[test]
fn price_impact_needs_amount_and_reserves() {
    assert_eq!(calculate_price_impact(u(0), u(1000), u(1000), true), None);
    assert_eq!(calculate_price_impact(u(10), u(0), u(1000), true), None);
    assert_eq!(calculate_price_impact(u(10), u(1000), u(0), false), None);
}

#[test]
fn price_impact_grows_with_the_trade() {
    let mut last = 0u64;
    for amount in (1_000..100_000u64).step_by(1_000) {
        let (bps, _) = calculate_price_impact(u(amount), u(1_000_000), u(2_000_000), true).unwrap();
        let bps = bps.limbs()[0];
        assert!(bps >= last);
        last = bps;
    }
}

#[test]
fn price_impact_can_fall_where_flooring_bites() {
    let (a, _) = calculate_price_impact(u(111), u(1000), u(10), true).unwrap();
    let (b, _) = calculate_price_impact(u(112), u(1000), u(10), true).unwrap();
    assert_eq!(a, u(10000));
    assert_eq!(b, u(1071));
}

#[test]
fn normalized_prices_with_equal_decimals() {
    let q = normalized_prices(u(1000), u(500), 18, 18).unwrap();
    assert_eq!(q.price_b_to_a, u(2_000_000_000_000_000_000));
    assert_eq!(q.price_a_to_b, u(500_000_000_000_000_000));
}

#[test]
fn normalized_prices_with_mixed_decimals() {
    let q = normalized_prices(u(3), u(2_000_000), 6, 6).unwrap();
    assert_eq!(q.price_b_to_a, U256::from_limbs([1_500_000_000_000_000_000 / 1_000_000, 0, 0, 0]));
    let q = normalized_prices(u(1_000_000), u(2_000_000_000_000_000_000), 6, 18).unwrap();
    // price_b_to_a: 10^(18 - 18 + 6) * 10^6 / (2 * 10^18)
    assert_eq!(q.price_b_to_a, u(0));
    // price_a_to_b: decimals_b = 18, so the plain 10^18 scale: 2*10^18 * 10^18 / 10^6
    assert_eq!(q.price_a_to_b.limbs(), {
        let v: u128 = 2_000_000_000_000_000_000_000_000_000_000;
        [v as u64, (v >> 64) as u64, 0, 0]
    });
    let q = normalized_prices(u(7), u(3), 8, 6).unwrap();
    // e = 18 - 6 + 8 = 20: 7 * 10^20 / 3 and 3 * 10^20 / 7
    assert_eq!(q.price_b_to_a.limbs(), {
        let v: u128 = 700_000_000_000_000_000_000 / 3;
        [v as u64, (v >> 64) as u64, 0, 0]
    });
    assert_eq!(q.price_a_to_b.limbs(), {
        let v: u128 = 300_000_000_000_000_000_000 / 7;
        [v as u64, (v >> 64) as u64, 0, 0]
    });
}

#[test]
fn normalized_prices_use_one_exponent_for_both_directions() {
    // e = 18 - 8 + 6 = 16
    let q = normalized_prices(u(1), u(1), 6, 8).unwrap();
    assert_eq!(q.price_b_to_a, u(10_000_000_000_000_000));
    assert_eq!(q.price_a_to_b, u(10_000_000_000_000_000));
    // e = 18 - 6 + 8 = 20
    let q = normalized_prices(u(1), u(1), 8, 6).unwrap();
    assert_eq!(q.price_a_to_b.limbs(), {
        let v: u128 = 100_000_000_000_000_000_000;
        [v as u64, (v >> 64) as u64, 0, 0]
    });
}

#[test]
fn normalized_prices_reject_a_zero_reserve() {
    assert_eq!(normalized_prices(u(0), u(5), 18, 18).err(), Some(QuoteError::ZeroReserve));
    assert_eq!(normalized_prices(u(5), u(0), 6, 18).err(), Some(QuoteError::ZeroReserve));
}

#[test]
fn normalized_prices_reject_a_negative_exponent() {
    assert_eq!(normalized_prices(u(5), u(5), 0, 19).err(), Some(QuoteError::InvalidDecimals));
    assert_eq!(normalized_prices(u(1), u(1), 18, 40).err(), Some(QuoteError::InvalidDecimals));
    assert_eq!(normalized_prices(u(0), u(5), 30, 6).err(), Some(QuoteError::ZeroReserve));
    assert!(normalized_prices(u(5), u(5), 30, 6).is_ok());
    assert!(normalized_prices(u(5), u(5), 18, 36).is_ok());
    assert_eq!(normalized_prices(u(5), u(5), 18, 37).err(), Some(QuoteError::InvalidDecimals));
}

#[test]
fn trade_amount_range_for_decimals() {
    assert_eq!(create_trade_amount_range(18), (u(1_000_000_000_000_000_000), u(3_000_000_000_000_000_000), u(1_000_000_000_000_000_000)));
    assert_eq!(create_trade_amount_range(6), (u(1_000_000), u(3_000_000), u(1_000_000)));
    assert_eq!(create_trade_amount_range(0), (u(1), u(3), u(1)));
}

#[test]
fn fee_keeps_output_below_the_fee_less_pool() {
    for (amount, r_in, r_out) in [(10u64, 1000u64, 1000u64), (1, 1, 1), (500, 700, 300), (999, 1, 1_000_000)] {
        let out = calc_amount(u(amount), u(r_in), u(r_out), true).limbs()[0] as u128;
        assert!(out * (r_in as u128 + amount as u128) < (amount as u128) * (r_out as u128));
    }
}

#[test]
fn round_trip_returns_at_most_the_double_fee_bound() {
    for (amount, ra, rb) in [(10u64, 1000u64, 1000u64), (1000, 1000, 1000), (7, 50, 90_000), (123_456, 1_000_000, 3)] {
        for dir in [true, false] {
            let out = calc_amount(u(amount), u(ra), u(rb), dir);
            let back = calc_amount(out, u(ra), u(rb), !dir).limbs()[0] as u128;
            let r_in = if dir { ra } else { rb } as u128;
            let a = amount as u128;
            assert!(back < a);
            assert!(back * (1_000_000 * r_in + 1_991_009 * a) <= 994_009 * a * r_in);
        }
    }
}

#[test]
fn price_impact_falls_by_at_most_the_rounding_allowance() {
    let (i1, _) = calculate_price_impact(u(1), u(1000), u(1000), true).unwrap();
    let (i2, _) = calculate_price_impact(u(2), u(1000), u(1000), true).unwrap();
    assert_eq!(i1, u(10000));
    assert_eq!(i2, u(5000));
    let mid: u128 = 1_000_000_000_000_000_000;
    let (i1, i2) = (i1.limbs()[0] as u128, i2.limbs()[0] as u128);
    assert!(i1 * mid * 1 < (i2 + 1) * mid * 1 + 10000 * (1_000_000_000_000_000_000 + 1));
}
