use arbitrage_bot::amm::{impact_in_range, swap_in_range};
use arbitrage_bot::quote::quote_in_range;
use arbitrage_bot::scanner::{scan_in_range, sweep_in_range};
use arbitrage_bot::uint::U256;

fn u(v: u64) -> U256 {
    U256::from(v)
}

/// 2^192
fn big() -> U256 {
    U256::from_limbs([0, 0, 0, 1])
}

/// 2^200
fn bigger() -> U256 {
    U256::from_limbs([0, 0, 0, 1 << 8])
}

#[test]
fn swap_range_follows_the_products() {
    assert!(swap_in_range(u(10), u(1000), u(1000), true));
    assert!(swap_in_range(big(), u(1000), u(1), true));
    assert!(!swap_in_range(big(), u(1000), U256::from_limbs([0, 1, 0, 0]), true));
    assert!(swap_in_range(big(), U256::from_limbs([0, 1, 0, 0]), u(1000), false) == false);
    assert!(!swap_in_range(u(0), u(0), u(5), true));
    assert!(swap_in_range(u(0), u(0), u(5), false));
}

#[test]
fn impact_range_needs_a_nonzero_mid_price() {
    assert!(impact_in_range(u(10), u(1000), u(1000), true));
    assert!(impact_in_range(u(0), u(1000), u(1000), true));
    assert!(impact_in_range(u(10), u(0), u(1000), true));
    assert!(!impact_in_range(u(10), u(10_000_000_000_000_000_000), u(1), true));
    assert!(impact_in_range(u(10), u(10_000_000_000_000_000_000), u(1), false));
    assert!(impact_in_range(u(10), u(1000), big(), true));
    assert!(!impact_in_range(u(10), u(1000), bigger(), true));
}

#[test]
fn scan_range_covers_every_venue() {
    let fine = vec![
        (String::from("Exchange1"), u(100), u(1000), u(1000)),
        (String::from("Exchange2"), u(200), u(1000), u(500)),
    ];
    assert!(scan_in_range(&fine, u(10), true));
    let mut wide = fine.clone();
    wide.push((String::from("Exchange3"), u(1), u(1000), big()));
    assert!(scan_in_range(&wide, u(10), true));
    wide.push((String::from("Exchange4"), u(1), u(1000), bigger()));
    assert!(!scan_in_range(&wide, u(10), true));
    assert!(scan_in_range(&wide, u(0), true));
}

#[test]
fn sweep_range_needs_a_step() {
    let prices = vec![
        (String::from("Exchange1"), u(100), u(1000), u(1000)),
        (String::from("Exchange2"), u(200), u(1000), u(500)),
    ];
    assert!(sweep_in_range(&prices, (u(10), u(30), u(10)), true));
    assert!(!sweep_in_range(&prices, (u(10), u(30), u(0)), true));
    assert!(sweep_in_range(&prices[..1], (u(10), u(30), u(10)), true));
    assert!(sweep_in_range(&prices, (u(10), big(), big()), true));
    let top = U256::from_limbs([u64::MAX; 4]);
    let half = U256::from_limbs([0, 0, 0, 1 << 63]);
    assert!(!sweep_in_range(&prices, (u(10), top, half), true));
}

#[test]
fn quote_range_follows_the_scale() {
    assert!(quote_in_range(u(1000), u(500), 18, 18));
    assert!(quote_in_range(u(1000), big(), 6, 18));
    assert!(!quote_in_range(u(1000), bigger(), 6, 18));
    assert!(quote_in_range(u(1000), u(500), 0, 19));
    assert!(quote_in_range(u(1), u(1), 60, 6));
    assert!(!quote_in_range(u(1), u(1), 200, 6));
    assert!(quote_in_range(u(0), u(1), 200, 6));
}

#[test]
fn only_the_chosen_round_trip_must_fit() {
    let p99 = U256::from_limbs([0, 1 << 35, 0, 0]);
    let p127 = U256::from_limbs([0, 1 << 63, 0, 0]);
    let prices = vec![
        (String::from("Exchange1"), u(1), p99, p127),
        (String::from("Exchange2"), u(1), p127, p127),
    ];
    assert!(scan_in_range(&prices, p99, true));
    let e = arbitrage_bot::scanner::evaluate_opportunity(&prices, u(1), p99, true);
    assert_eq!(e.buy, Some(1));
    assert_eq!(e.sell, Some(0));
    let v: u128 = 2347037375227207326003;
    assert_eq!(e.round_trip.map(|r| r.1), Some(U256::from_limbs([v as u64, (v >> 64) as u64, 0, 0])));
    assert!(e.candidate.is_none());
}
