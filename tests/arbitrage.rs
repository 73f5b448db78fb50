use arbitrage_bot::scanner::{check_arbitrage_opportunity, count_candidates, evaluate_opportunity, scan_direction};
use arbitrage_bot::uint::U256;

fn venue(name: &str, price: u64, reserve_a: u64, reserve_b: u64) -> (String, U256, U256, U256) {
    (String::from(name), U256::from(price), U256::from(reserve_a), U256::from(reserve_b))
}

#[test]
fn test_arbitrage_opportunity() {
    let token_pair = ("TokenA", "TokenB");
    let prices = vec![
        (
            String::from("Exchange1"),
            U256::from(100),
            U256::from(1000),
            U256::from(1000),
        ),
        (
            String::from("Exchange2"),
            U256::from(200),
            U256::from(1000),
            U256::from(500),
        ),
    ];
    let threshold = U256::from(1);
    let trade_amount = U256::from(10);
    let token0_to_token1 = true;

    let op = check_arbitrage_opportunity(
        token_pair,
        &prices,
        threshold,
        trade_amount,
        token0_to_token1,
        18,
        18,
    );
    assert_eq!(op, true);
}

#[test]
fn test_no_arbitrage_opportunity() {
    let token_pair = ("TokenA", "TokenB");
    let prices = vec![
        (
            String::from("Exchange1"),
            U256::from(100),
            U256::from(1000),
            U256::from(1000),
        ),
        (
            String::from("Exchange2"),
            U256::from(100),
            U256::from(1000),
            U256::from(1000),
        ),
    ];
    let threshold = U256::from(1);
    let trade_amount = U256::from(10);
    let token0_to_token1 = true;

    let op = check_arbitrage_opportunity(
        token_pair,
        &prices,
        threshold,
        trade_amount,
        token0_to_token1,
        18,
        18,
    );
    assert_eq!(op, false);
}

#[test]
fn evaluation_of_a_profitable_round_trip() {
    let prices = vec![venue("Exchange1", 100, 1000, 1000), venue("Exchange2", 200, 1000, 500)];
    let e = evaluate_opportunity(&prices, U256::from(1), U256::from(10), true);
    assert_eq!(e.impacts.len(), 2);
    assert_eq!(e.impacts[0], Some((U256::from(1000), U256::from(900_000_000_000_000_000))));
    assert_eq!(e.impacts[1], Some((U256::from(2000), U256::from(400_000_000_000_000_000))));
    assert_eq!(e.buy, Some(0));
    assert_eq!(e.sell, Some(1));
    assert_eq!(e.round_trip, Some((U256::from(9), U256::from(17))));
    let c = e.candidate.expect("a candidate");
    assert_eq!(c.buy_venue, "Exchange1");
    assert_eq!(c.sell_venue, "Exchange2");
    assert_eq!(c.buy_price, U256::from(100));
    assert_eq!(c.sell_price, U256::from(200));
    assert_eq!(c.buy_impact_bps, U256::from(1000));
    assert_eq!(c.sell_impact_bps, U256::from(2000));
    assert_eq!(c.profit, U256::from(7));
}

#[test]
fn profit_below_threshold_gives_no_candidate() {
    let prices = vec![venue("Exchange1", 100, 1000, 1000), venue("Exchange2", 200, 1000, 500)];
    let e = evaluate_opportunity(&prices, U256::from(8), U256::from(10), true);
    assert_eq!(e.round_trip, Some((U256::from(9), U256::from(17))));
    assert!(e.candidate.is_none());
    let e = evaluate_opportunity(&prices, U256::from(7), U256::from(10), true);
    assert_eq!(e.candidate.map(|c| c.profit), Some(U256::from(7)));
}

#[test]
fn identical_venues_pick_the_same_venue_on_both_sides() {
    let prices = vec![
        venue("Exchange1", 100, 5000, 7000),
        venue("Exchange2", 100, 5000, 7000),
        venue("Exchange3", 100, 5000, 7000),
    ];
    for amount in [1u64, 10, 100, 1000, 4999] {
        for dir in [true, false] {
            let e = evaluate_opportunity(&prices, U256::from(0), U256::from(amount), dir);
            assert_eq!(e.buy, Some(0));
            assert_eq!(e.sell, Some(0));
            assert!(e.round_trip.is_none());
            assert!(e.candidate.is_none());
        }
    }
}

#[test]
fn ties_go_to_the_first_venue() {
    let prices = vec![
        venue("Exchange1", 100, 1000, 500),
        venue("Exchange2", 100, 1000, 1000),
        venue("Exchange3", 100, 1000, 1000),
        venue("Exchange4", 100, 1000, 500),
    ];
    let e = evaluate_opportunity(&prices, U256::from(1), U256::from(10), true);
    assert_eq!(e.buy, Some(1));
    assert_eq!(e.sell, Some(0));
}

#[test]
fn a_zero_reserve_excludes_the_venue() {
    let prices = vec![venue("Exchange1", 100, 0, 1000), venue("Exchange2", 200, 1000, 500)];
    let e = evaluate_opportunity(&prices, U256::from(1), U256::from(10), true);
    assert_eq!(e.impacts[0], None);
    assert_eq!(e.buy, Some(1));
    assert_eq!(e.sell, Some(1));
    assert!(e.candidate.is_none());
}

#[test]
fn a_lone_zero_reserve_venue_gives_nothing() {
    let prices = vec![venue("Exchange1", 100, 0, 1000)];
    let e = evaluate_opportunity(&prices, U256::from(1), U256::from(10), true);
    assert_eq!(e.impacts, vec![None]);
    assert_eq!(e.buy, None);
    assert_eq!(e.sell, None);
    assert!(e.round_trip.is_none());
    assert!(e.candidate.is_none());
}

#[test]
fn a_zero_amount_gives_nothing() {
    let prices = vec![venue("Exchange1", 100, 1000, 1000), venue("Exchange2", 200, 1000, 500)];
    let e = evaluate_opportunity(&prices, U256::from(1), U256::from(0), true);
    assert_eq!(e.impacts, vec![None, None]);
    assert!(e.buy.is_none() && e.candidate.is_none());
}

#[test]
fn a_pair_with_one_venue_is_skipped() {
    let prices = vec![venue("Exchange1", 100, 1000, 1000)];
    let steps = scan_direction(&prices, (U256::from(1), U256::from(30), U256::from(1)), U256::from(1), true);
    assert!(steps.is_empty());
    assert_eq!(count_candidates(&steps), 0);
}

#[test]
fn sweep_covers_every_size_up_to_the_end() {
    let prices = vec![venue("Exchange1", 100, 1000, 1000), venue("Exchange2", 200, 1000, 500)];
    let steps = scan_direction(&prices, (U256::from(10), U256::from(40), U256::from(10)), U256::from(1), true);
    let sizes: Vec<U256> = steps.iter().map(|s| s.0).collect();
    assert_eq!(sizes, vec![U256::from(10), U256::from(20), U256::from(30), U256::from(40)]);
    assert!(steps[0].1.candidate.is_some());
    let expected = steps.iter().filter(|s| s.1.candidate.is_some()).count();
    assert_eq!(count_candidates(&steps), expected);
    assert!(expected >= 1);
    let steps = scan_direction(&prices, (U256::from(10), U256::from(35), U256::from(10)), U256::from(1), true);
    assert_eq!(steps.len(), 3);
    let steps = scan_direction(&prices, (U256::from(50), U256::from(40), U256::from(10)), U256::from(1), true);
    assert!(steps.is_empty());
}

#[test]
fn reverse_direction_round_trip() {
    let prices = vec![venue("Exchange1", 100, 1000, 1000), venue("Exchange2", 200, 500, 1000)];
    let e = evaluate_opportunity(&prices, U256::from(1), U256::from(10), false);
    assert_eq!(e.buy, Some(0));
    assert_eq!(e.sell, Some(1));
    assert_eq!(e.round_trip, Some((U256::from(9), U256::from(17))));
    assert!(e.candidate.is_some());
}

#[test]
fn removing_a_zero_reserve_venue_changes_nothing() {
    let with_zero = vec![
        venue("Exchange0", 300, 0, 800),
        venue("Exchange1", 100, 1000, 1000),
        venue("Exchange3", 300, 900, 0),
        venue("Exchange2", 200, 1000, 500),
    ];
    let without = vec![venue("Exchange1", 100, 1000, 1000), venue("Exchange2", 200, 1000, 500)];
    for amount in [1u64, 10, 100] {
        for threshold in [1u64, 7, 8] {
            let a = check_arbitrage_opportunity(("TokenA", "TokenB"), &with_zero, U256::from(threshold), U256::from(amount), true, 18, 18);
            let b = check_arbitrage_opportunity(("TokenA", "TokenB"), &without, U256::from(threshold), U256::from(amount), true, 18, 18);
            assert_eq!(a, b);
        }
    }
}
