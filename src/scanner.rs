//! Selection of a buy and a sell venue for one trade size, the round trip
//! between them, and the sweep over a range of trade sizes.
use vstd::prelude::*;
use crate::amm::{
    amount_out, calc_amount, calculate_price_impact, impact_bps, impact_fits, impact_in_range,
    leg_fits, price_impact, swap_in_range,
};
use crate::uint::{U256, u256_bound, lemma_u256_bounded};

verus! {

/// A round trip that clears the profit threshold.
pub struct ArbitrageCandidate {
    pub buy_venue: String,
    pub sell_venue: String,
    pub buy_price: U256,
    pub sell_price: U256,
    pub buy_impact_bps: U256,
    pub sell_impact_bps: U256,
    pub profit: U256,
}

/// Everything decided for one trade size.
pub struct SizeEvaluation {
    /// Per venue, in input order: `(impact_bps, execution_price)`, or `None` when it gives no quote.
    pub impacts: Vec<Option<(U256, U256)>>,
    /// Index of the venue with the least impact.
    pub buy: Option<usize>,
    /// Index of the venue with the greatest impact.
    pub sell: Option<usize>,
    /// `(amount_out_buy, amount_out_sell)` when buy and sell venues differ.
    pub round_trip: Option<(U256, U256)>,
    pub candidate: Option<ArbitrageCandidate>,
}

/// `price_impact` of one venue `(name, price, reserve_a, reserve_b)`.
pub open spec fn venue_impact(v: (String, U256, U256, U256), amount: nat, a_to_b: bool) -> Option<(nat, nat)> {
    price_impact(amount, v.2@, v.3@, a_to_b)
}

/// The venue quotes this size: its amount and reserves are not zero.
pub open spec fn quotes(v: (String, U256, U256, U256), amount: nat, a_to_b: bool) -> bool {
    venue_impact(v, amount, a_to_b) is Some
}

/// Impact in basis points of venue `i`.
pub open spec fn impact_of(venues: Seq<(String, U256, U256, U256)>, i: int, amount: nat, a_to_b: bool) -> nat {
    impact_bps(amount, venues[i].2@, venues[i].3@, a_to_b)
}

/// Some venue among the first `n` quotes this size.
pub open spec fn some_quote(venues: Seq<(String, U256, U256, U256)>, n: int, amount: nat, a_to_b: bool) -> bool {
    exists|j: int| 0 <= j < n && #[trigger] quotes(venues[j], amount, a_to_b)
}

/// Among the first `n` venues, `i` quotes with the least impact, and is the first to do so.
pub open spec fn least_impact(venues: Seq<(String, U256, U256, U256)>, n: int, amount: nat, a_to_b: bool, i: int) -> bool {
    &&& 0 <= i < n <= venues.len()
    &&& quotes(venues[i], amount, a_to_b)
    &&& forall|j: int| 0 <= j < n && #[trigger] quotes(venues[j], amount, a_to_b)
        ==> impact_of(venues, i, amount, a_to_b) <= impact_of(venues, j, amount, a_to_b)
    &&& forall|j: int| 0 <= j < i && #[trigger] quotes(venues[j], amount, a_to_b)
        ==> impact_of(venues, i, amount, a_to_b) < impact_of(venues, j, amount, a_to_b)
}

/// Among the first `n` venues, `i` quotes with the greatest impact, and is the first to do so.
pub open spec fn greatest_impact(venues: Seq<(String, U256, U256, U256)>, n: int, amount: nat, a_to_b: bool, i: int) -> bool {
    &&& 0 <= i < n <= venues.len()
    &&& quotes(venues[i], amount, a_to_b)
    &&& forall|j: int| 0 <= j < n && #[trigger] quotes(venues[j], amount, a_to_b)
        ==> impact_of(venues, i, amount, a_to_b) >= impact_of(venues, j, amount, a_to_b)
    &&& forall|j: int| 0 <= j < i && #[trigger] quotes(venues[j], amount, a_to_b)
        ==> impact_of(venues, i, amount, a_to_b) > impact_of(venues, j, amount, a_to_b)
}

/// The buy venue: least impact, first on ties.
pub open spec fn is_buy_venue(venues: Seq<(String, U256, U256, U256)>, amount: nat, a_to_b: bool, i: int) -> bool {
    least_impact(venues, venues.len() as int, amount, a_to_b, i)
}

/// The sell venue: greatest impact, first on ties.
pub open spec fn is_sell_venue(venues: Seq<(String, U256, U256, U256)>, amount: nat, a_to_b: bool, i: int) -> bool {
    greatest_impact(venues, venues.len() as int, amount, a_to_b, i)
}

/// `(amount_out_buy, amount_out_sell)`: `amount` swapped at venue `b`, and the
/// result swapped back the other way at venue `s`.
pub open spec fn round_trip_out(venues: Seq<(String, U256, U256, U256)>, amount: nat, a_to_b: bool, b: int, s: int) -> (nat, nat) {
    let out_buy = amount_out(amount, venues[b].2@, venues[b].3@, a_to_b);
    (out_buy, amount_out(out_buy, venues[s].2@, venues[s].3@, !a_to_b))
}

/// The round trip from buy venue `b` to sell venue `s` gains at least `threshold`, and more than nothing.
pub open spec fn clears(venues: Seq<(String, U256, U256, U256)>, threshold: nat, amount: nat, a_to_b: bool, b: int, s: int) -> bool {
    let out_sell = round_trip_out(venues, amount, a_to_b, b, s).1;
    out_sell > amount && out_sell - amount >= threshold
}

/// A candidate is reported for this size.
pub open spec fn opportunity_found(venues: Seq<(String, U256, U256, U256)>, threshold: nat, amount: nat, a_to_b: bool) -> bool {
    exists|b: int, s: int|
        #[trigger] is_buy_venue(venues, amount, a_to_b, b) && #[trigger] is_sell_venue(venues, amount, a_to_b, s)
        && b != s && clears(venues, threshold, amount, a_to_b, b, s)
}

/// Every venue's price impact stays within 256 bits.
pub open spec fn impacts_fit(venues: Seq<(String, U256, U256, U256)>, amount: nat, a_to_b: bool) -> bool {
    forall|i: int| 0 <= i < venues.len() ==> impact_fits(amount, #[trigger] venues[i].2@, venues[i].3@, a_to_b)
}

/// Every venue's price impact stays within 256 bits, and so does the round
/// trip from the buy venue to the sell venue when they differ.
pub open spec fn scan_fits(venues: Seq<(String, U256, U256, U256)>, amount: nat, a_to_b: bool) -> bool {
    &&& impacts_fit(venues, amount, a_to_b)
    &&& forall|b: int, s: int|
        #[trigger] is_buy_venue(venues, amount, a_to_b, b) && #[trigger] is_sell_venue(venues, amount, a_to_b, s) && b != s
        ==> leg_fits(amount_out(amount, venues[b].2@, venues[b].3@, a_to_b), venues[s].2@, venues[s].3@, !a_to_b)
}

/// An optional pair of numbers, as values.
pub open spec fn pair_view(p: Option<(U256, U256)>) -> Option<(nat, nat)> {
    match p {
        Some((x, y)) => Some((x@, y@)),
        None => None,
    }
}

/// `e` is the evaluation of `venues` for a trade of `amount`.
pub open spec fn evaluates(venues: Seq<(String, U256, U256, U256)>, threshold: nat, amount: nat, a_to_b: bool, e: SizeEvaluation) -> bool {
    &&& e.impacts@.len() == venues.len()
    &&& forall|i: int| 0 <= i < venues.len() ==> pair_view(#[trigger] e.impacts@[i]) == venue_impact(venues[i], amount, a_to_b)
    &&& (e.buy is None <==> !some_quote(venues, venues.len() as int, amount, a_to_b))
    &&& (e.buy is Some ==> is_buy_venue(venues, amount, a_to_b, e.buy->0 as int))
    &&& (e.sell is None <==> !some_quote(venues, venues.len() as int, amount, a_to_b))
    &&& (e.sell is Some ==> is_sell_venue(venues, amount, a_to_b, e.sell->0 as int))
    &&& (e.round_trip is Some <==> (e.buy is Some && e.sell is Some && e.buy != e.sell))
    &&& (e.round_trip is Some ==> ((e.round_trip->0).0@, (e.round_trip->0).1@)
        == round_trip_out(venues, amount, a_to_b, e.buy->0 as int, e.sell->0 as int))
    &&& (e.candidate is Some <==> (e.round_trip is Some
        && clears(venues, threshold, amount, a_to_b, e.buy->0 as int, e.sell->0 as int)))
    &&& (e.candidate is Some ==> {
        let c = e.candidate->0;
        let b = e.buy->0 as int;
        let s = e.sell->0 as int;
        &&& c.buy_venue@ == venues[b].0@
        &&& c.sell_venue@ == venues[s].0@
        &&& c.buy_price == venues[b].1
        &&& c.sell_price == venues[s].1
        &&& c.buy_impact_bps@ == impact_of(venues, b, amount, a_to_b)
        &&& c.sell_impact_bps@ == impact_of(venues, s, amount, a_to_b)
        &&& c.profit@ == round_trip_out(venues, amount, a_to_b, b, s).1 - amount
    })
}

/// The impacts of all venues, and the buy and sell venues with their impacts.
struct Selection {
    impacts: Vec<Option<(U256, U256)>>,
    buy: Option<usize>,
    sell: Option<usize>,
    buy_bps: U256,
    sell_bps: U256,
}

/// Computes every venue's impact and picks the buy venue (least impact) and
/// the sell venue (greatest impact), first in input order on ties.
fn select_venues(prices: &[(String, U256, U256, U256)], trade_amount: U256, token0_to_token1: bool) -> (r: Selection)
    requires
        impacts_fit(prices@, trade_amount@, token0_to_token1),
    ensures
        r.impacts@.len() == prices@.len(),
        forall|k: int| 0 <= k < prices@.len()
            ==> pair_view(#[trigger] r.impacts@[k]) == venue_impact(prices@[k], trade_amount@, token0_to_token1),
        r.buy is None <==> !some_quote(prices@, prices@.len() as int, trade_amount@, token0_to_token1),
        r.sell is None <==> !some_quote(prices@, prices@.len() as int, trade_amount@, token0_to_token1),
        r.buy is Some ==> is_buy_venue(prices@, trade_amount@, token0_to_token1, r.buy->0 as int),
        r.buy is Some ==> r.buy_bps@ == impact_of(prices@, r.buy->0 as int, trade_amount@, token0_to_token1),
        r.sell is Some ==> is_sell_venue(prices@, trade_amount@, token0_to_token1, r.sell->0 as int),
        r.sell is Some ==> r.sell_bps@ == impact_of(prices@, r.sell->0 as int, trade_amount@, token0_to_token1),
{
    let ghost venues = prices@;
    let ghost amount = trade_amount@;
    let ghost dir = token0_to_token1;
    let mut impacts: Vec<Option<(U256, U256)>> = Vec::new();
    let mut buy: Option<usize> = None;
    let mut sell: Option<usize> = None;
    let mut buy_bps = U256::from_u64(0);
    let mut sell_bps = U256::from_u64(0);
    let mut i: usize = 0;
    while i < prices.len()
        invariant
            venues == prices@,
            amount == trade_amount@,
            dir == token0_to_token1,
            impacts_fit(venues, amount, dir),
            i <= venues.len(),
            impacts@.len() == i,
            forall|k: int| 0 <= k < i ==> pair_view(#[trigger] impacts@[k]) == venue_impact(venues[k], amount, dir),
            buy is None <==> !some_quote(venues, i as int, amount, dir),
            sell is None <==> !some_quote(venues, i as int, amount, dir),
            buy is Some ==> least_impact(venues, i as int, amount, dir, buy->0 as int),
            buy is Some ==> buy_bps@ == impact_of(venues, buy->0 as int, amount, dir),
            sell is Some ==> greatest_impact(venues, i as int, amount, dir, sell->0 as int),
            sell is Some ==> sell_bps@ == impact_of(venues, sell->0 as int, amount, dir),
        decreases prices.len() - i,
    {
        assert(impact_fits(amount, venues[i as int].2@, venues[i as int].3@, dir));
        let imp = calculate_price_impact(trade_amount, prices[i].2, prices[i].3, token0_to_token1);
        impacts.push(imp);
        match imp {
            Some((bps, _)) => {
                assert(quotes(venues[i as int], amount, dir));
                let take_buy = match buy {
                    None => true,
                    Some(_) => bps.less_than(&buy_bps),
                };
                if take_buy {
                    buy = Some(i);
                    buy_bps = bps;
                }
                let take_sell = match sell {
                    None => true,
                    Some(_) => sell_bps.less_than(&bps),
                };
                if take_sell {
                    sell = Some(i);
                    sell_bps = bps;
                }
            },
            None => {},
        }
        i = i + 1;
    }
    Selection { impacts, buy, sell, buy_bps, sell_bps }
}

/// Evaluates one trade size: the impact at every venue, the buy venue (least
/// impact) and the sell venue (greatest impact), first in input order on ties,
/// and the round trip between them when they differ.
pub fn evaluate_opportunity(
    prices: &[(String, U256, U256, U256)],
    threshold: U256,
    trade_amount: U256,
    token0_to_token1: bool,
) -> (r: SizeEvaluation)
    requires
        scan_fits(prices@, trade_amount@, token0_to_token1),
    ensures
        evaluates(prices@, threshold@, trade_amount@, token0_to_token1, r),
{
    let ghost venues = prices@;
    let ghost amount = trade_amount@;
    let ghost dir = token0_to_token1;
    let Selection { impacts, buy, sell, buy_bps, sell_bps } = select_venues(prices, trade_amount, token0_to_token1);
    let mut round_trip: Option<(U256, U256)> = None;
    let mut candidate: Option<ArbitrageCandidate> = None;
    match (buy, sell) {
        (Some(b), Some(s)) => {
            if b != s {
                assert(impact_fits(amount, venues[b as int].2@, venues[b as int].3@, dir));
                assert(is_buy_venue(venues, amount, dir, b as int) && is_sell_venue(venues, amount, dir, s as int));
                let amount_out_buy = calc_amount(trade_amount, prices[b].2, prices[b].3, token0_to_token1);
                assert(quotes(venues[s as int], amount, dir));
                let amount_out_sell = calc_amount(amount_out_buy, prices[s].2, prices[s].3, !token0_to_token1);
                round_trip = Some((amount_out_buy, amount_out_sell));
                if trade_amount.less_than(&amount_out_sell) {
                    let profit = amount_out_sell.minus(trade_amount);
                    if !profit.less_than(&threshold) {
                        candidate = Some(ArbitrageCandidate {
                            buy_venue: prices[b].0.clone(),
                            sell_venue: prices[s].0.clone(),
                            buy_price: prices[b].1,
                            sell_price: prices[s].1,
                            buy_impact_bps: buy_bps,
                            sell_impact_bps: sell_bps,
                            profit,
                        });
                    }
                }
            }
        },
        _ => {},
    }
    SizeEvaluation { impacts, buy, sell, round_trip, candidate }
}

/// At most one venue is the buy venue.
pub proof fn lemma_buy_venue_unique(venues: Seq<(String, U256, U256, U256)>, amount: nat, a_to_b: bool, i: int, j: int)
    requires
        is_buy_venue(venues, amount, a_to_b, i),
        is_buy_venue(venues, amount, a_to_b, j),
    ensures
        i == j,
{
    if i < j {
        assert(quotes(venues[i], amount, a_to_b));
    } else if j < i {
        assert(quotes(venues[j], amount, a_to_b));
    }
}

/// At most one venue is the sell venue.
pub proof fn lemma_sell_venue_unique(venues: Seq<(String, U256, U256, U256)>, amount: nat, a_to_b: bool, i: int, j: int)
    requires
        is_sell_venue(venues, amount, a_to_b, i),
        is_sell_venue(venues, amount, a_to_b, j),
    ensures
        i == j,
{
    if i < j {
        assert(quotes(venues[i], amount, a_to_b));
    } else if j < i {
        assert(quotes(venues[j], amount, a_to_b));
    }
}

/// The evaluation holds a candidate exactly when one is found for this size.
pub proof fn lemma_candidate_iff_found(venues: Seq<(String, U256, U256, U256)>, threshold: nat, amount: nat, a_to_b: bool, e: SizeEvaluation)
    requires
        evaluates(venues, threshold, amount, a_to_b, e),
    ensures
        e.candidate is Some <==> opportunity_found(venues, threshold, amount, a_to_b),
{
    if opportunity_found(venues, threshold, amount, a_to_b) {
        let (b, s) = choose|b: int, s: int|
            #[trigger] is_buy_venue(venues, amount, a_to_b, b) && #[trigger] is_sell_venue(venues, amount, a_to_b, s)
            && b != s && clears(venues, threshold, amount, a_to_b, b, s);
        assert(some_quote(venues, venues.len() as int, amount, a_to_b)) by {
            assert(quotes(venues[b], amount, a_to_b));
        }
        lemma_buy_venue_unique(venues, amount, a_to_b, b, e.buy->0 as int);
        lemma_sell_venue_unique(venues, amount, a_to_b, s, e.sell->0 as int);
    }
    if e.candidate is Some {
        let b = e.buy->0 as int;
        let s = e.sell->0 as int;
        assert(is_buy_venue(venues, amount, a_to_b, b) && is_sell_venue(venues, amount, a_to_b, s));
    }
}

/// Whether some trade of `trade_amount` round-trips between two distinct venues
/// at a profit of at least `threshold` (and above zero). `token_pair` and the
/// decimals name the tokens in reports only; they do not change the answer.
pub fn check_arbitrage_opportunity(
    _token_pair: (&str, &str),
    prices: &[(String, U256, U256, U256)],
    threshold: U256,
    trade_amount: U256,
    token0_to_token1: bool,
    _decimals_a: u8,
    _decimals_b: u8,
) -> (r: bool)
    requires
        scan_fits(prices@, trade_amount@, token0_to_token1),
    ensures
        r == opportunity_found(prices@, threshold@, trade_amount@, token0_to_token1),
{
    let e = evaluate_opportunity(prices, threshold, trade_amount, token0_to_token1);
    proof {
        lemma_candidate_iff_found(prices@, threshold@, trade_amount@, token0_to_token1, e);
    }
    e.candidate.is_some()
}

/// Index in `venues` of entry `k` of `venues.remove(j)`.
pub open spec fn index_after_removal(j: int, k: int) -> int {
    if k < j { k } else { k + 1 }
}

/// Entry of `venues.remove(j)` that holds entry `i` of `venues` (for `i != j`).
pub open spec fn index_before_removal(j: int, i: int) -> int {
    if i < j { i } else { i - 1 }
}

/// Removing a venue that does not quote keeps the buy venue, at its shifted index.
proof fn lemma_buy_venue_after_removal(venues: Seq<(String, U256, U256, U256)>, amount: nat, a_to_b: bool, j: int, b: int)
    requires
        0 <= j < venues.len(),
        !quotes(venues[j], amount, a_to_b),
        is_buy_venue(venues, amount, a_to_b, b),
    ensures
        is_buy_venue(venues.remove(j), amount, a_to_b, index_before_removal(j, b)),
{
    let q = venues.remove(j);
    venues.remove_ensures(j);
    let c = index_before_removal(j, b);
    assert(b != j);
    assert(q[c] == venues[b]);
    assert forall|k: int| 0 <= k < q.len() && #[trigger] quotes(q[k], amount, a_to_b)
        implies impact_of(q, c, amount, a_to_b) <= impact_of(q, k, amount, a_to_b) by {
        assert(q[k] == venues[index_after_removal(j, k)]);
        assert(quotes(venues[index_after_removal(j, k)], amount, a_to_b));
    }
    assert forall|k: int| 0 <= k < c && #[trigger] quotes(q[k], amount, a_to_b)
        implies impact_of(q, c, amount, a_to_b) < impact_of(q, k, amount, a_to_b) by {
        assert(q[k] == venues[index_after_removal(j, k)]);
        assert(quotes(venues[index_after_removal(j, k)], amount, a_to_b));
    }
}

/// Removing a venue that does not quote keeps the sell venue, at its shifted index.
proof fn lemma_sell_venue_after_removal(venues: Seq<(String, U256, U256, U256)>, amount: nat, a_to_b: bool, j: int, s: int)
    requires
        0 <= j < venues.len(),
        !quotes(venues[j], amount, a_to_b),
        is_sell_venue(venues, amount, a_to_b, s),
    ensures
        is_sell_venue(venues.remove(j), amount, a_to_b, index_before_removal(j, s)),
{
    let q = venues.remove(j);
    venues.remove_ensures(j);
    let c = index_before_removal(j, s);
    assert(s != j);
    assert(q[c] == venues[s]);
    assert forall|k: int| 0 <= k < q.len() && #[trigger] quotes(q[k], amount, a_to_b)
        implies impact_of(q, c, amount, a_to_b) >= impact_of(q, k, amount, a_to_b) by {
        assert(q[k] == venues[index_after_removal(j, k)]);
        assert(quotes(venues[index_after_removal(j, k)], amount, a_to_b));
    }
    assert forall|k: int| 0 <= k < c && #[trigger] quotes(q[k], amount, a_to_b)
        implies impact_of(q, c, amount, a_to_b) > impact_of(q, k, amount, a_to_b) by {
        assert(q[k] == venues[index_after_removal(j, k)]);
        assert(quotes(venues[index_after_removal(j, k)], amount, a_to_b));
    }
}

/// The buy venue after removing a venue that does not quote was the buy venue before.
proof fn lemma_buy_venue_before_removal(venues: Seq<(String, U256, U256, U256)>, amount: nat, a_to_b: bool, j: int, c: int)
    requires
        0 <= j < venues.len(),
        !quotes(venues[j], amount, a_to_b),
        is_buy_venue(venues.remove(j), amount, a_to_b, c),
    ensures
        is_buy_venue(venues, amount, a_to_b, index_after_removal(j, c)),
{
    let q = venues.remove(j);
    venues.remove_ensures(j);
    let b = index_after_removal(j, c);
    assert(q[c] == venues[b]);
    assert forall|k: int| 0 <= k < venues.len() && #[trigger] quotes(venues[k], amount, a_to_b)
        implies impact_of(venues, b, amount, a_to_b) <= impact_of(venues, k, amount, a_to_b) by {
        assert(k != j);
        assert(q[index_before_removal(j, k)] == venues[k]);
        assert(quotes(q[index_before_removal(j, k)], amount, a_to_b));
    }
    assert forall|k: int| 0 <= k < b && #[trigger] quotes(venues[k], amount, a_to_b)
        implies impact_of(venues, b, amount, a_to_b) < impact_of(venues, k, amount, a_to_b) by {
        assert(k != j);
        assert(q[index_before_removal(j, k)] == venues[k]);
        assert(quotes(q[index_before_removal(j, k)], amount, a_to_b));
    }
}

/// The sell venue after removing a venue that does not quote was the sell venue before.
proof fn lemma_sell_venue_before_removal(venues: Seq<(String, U256, U256, U256)>, amount: nat, a_to_b: bool, j: int, c: int)
    requires
        0 <= j < venues.len(),
        !quotes(venues[j], amount, a_to_b),
        is_sell_venue(venues.remove(j), amount, a_to_b, c),
    ensures
        is_sell_venue(venues, amount, a_to_b, index_after_removal(j, c)),
{
    let q = venues.remove(j);
    venues.remove_ensures(j);
    let s = index_after_removal(j, c);
    assert(q[c] == venues[s]);
    assert forall|k: int| 0 <= k < venues.len() && #[trigger] quotes(venues[k], amount, a_to_b)
        implies impact_of(venues, s, amount, a_to_b) >= impact_of(venues, k, amount, a_to_b) by {
        assert(k != j);
        assert(q[index_before_removal(j, k)] == venues[k]);
        assert(quotes(q[index_before_removal(j, k)], amount, a_to_b));
    }
    assert forall|k: int| 0 <= k < s && #[trigger] quotes(venues[k], amount, a_to_b)
        implies impact_of(venues, s, amount, a_to_b) > impact_of(venues, k, amount, a_to_b) by {
        assert(k != j);
        assert(q[index_before_removal(j, k)] == venues[k]);
        assert(quotes(q[index_before_removal(j, k)], amount, a_to_b));
    }
}

/// A venue that gives no quote for this size, such as one with a zero reserve,
/// takes no part in the selection: removing it from the list leaves the answer
/// for this size unchanged.
pub proof fn lemma_non_quoting_venue_is_excluded(venues: Seq<(String, U256, U256, U256)>, threshold: nat, amount: nat, a_to_b: bool, j: int)
    requires
        0 <= j < venues.len(),
        !quotes(venues[j], amount, a_to_b),
    ensures
        opportunity_found(venues.remove(j), threshold, amount, a_to_b) == opportunity_found(venues, threshold, amount, a_to_b),
{
    let q = venues.remove(j);
    venues.remove_ensures(j);
    if opportunity_found(venues, threshold, amount, a_to_b) {
        let (b, s) = choose|b: int, s: int|
            #[trigger] is_buy_venue(venues, amount, a_to_b, b) && #[trigger] is_sell_venue(venues, amount, a_to_b, s)
            && b != s && clears(venues, threshold, amount, a_to_b, b, s);
        lemma_buy_venue_after_removal(venues, amount, a_to_b, j, b);
        lemma_sell_venue_after_removal(venues, amount, a_to_b, j, s);
        let cb = index_before_removal(j, b);
        let cs = index_before_removal(j, s);
        assert(b != j && s != j);
        assert(q[cb] == venues[b] && q[cs] == venues[s]);
        assert(is_buy_venue(q, amount, a_to_b, cb) && is_sell_venue(q, amount, a_to_b, cs)
            && cb != cs && clears(q, threshold, amount, a_to_b, cb, cs));
    }
    if opportunity_found(q, threshold, amount, a_to_b) {
        let (cb, cs) = choose|b: int, s: int|
            #[trigger] is_buy_venue(q, amount, a_to_b, b) && #[trigger] is_sell_venue(q, amount, a_to_b, s)
            && b != s && clears(q, threshold, amount, a_to_b, b, s);
        lemma_buy_venue_before_removal(venues, amount, a_to_b, j, cb);
        lemma_sell_venue_before_removal(venues, amount, a_to_b, j, cs);
        let b = index_after_removal(j, cb);
        let s = index_after_removal(j, cs);
        assert(q[cb] == venues[b] && q[cs] == venues[s]);
        assert(is_buy_venue(venues, amount, a_to_b, b) && is_sell_venue(venues, amount, a_to_b, s)
            && b != s && clears(venues, threshold, amount, a_to_b, b, s));
    }
}

/// All venues hold the same reserves.
pub open spec fn same_reserves(venues: Seq<(String, U256, U256, U256)>) -> bool {
    forall|i: int, j: int| 0 <= i < venues.len() && 0 <= j < venues.len()
        ==> #[trigger] venues[i].2@ == #[trigger] venues[j].2@ && venues[i].3@ == venues[j].3@
}

/// When every venue holds the same reserves, no trade size yields a candidate:
/// all impacts tie, so the buy and the sell venue are both the first quoting venue.
pub proof fn lemma_identical_venues_no_opportunity(venues: Seq<(String, U256, U256, U256)>, threshold: nat, amount: nat, a_to_b: bool)
    requires
        same_reserves(venues),
    ensures
        !opportunity_found(venues, threshold, amount, a_to_b),
{
    if opportunity_found(venues, threshold, amount, a_to_b) {
        let (b, s) = choose|b: int, s: int|
            #[trigger] is_buy_venue(venues, amount, a_to_b, b) && #[trigger] is_sell_venue(venues, amount, a_to_b, s)
            && b != s && clears(venues, threshold, amount, a_to_b, b, s);
        assert(venues[b].2@ == venues[s].2@ && venues[b].3@ == venues[s].3@);
        if b < s {
            assert(quotes(venues[b], amount, a_to_b));
        } else {
            assert(quotes(venues[s], amount, a_to_b));
        }
    }
}

/// How many sizes `start, start + step, ...` stay at or below `end`.
pub open spec fn sweep_len(start: nat, end: nat, step: nat) -> nat {
    if start > end || step == 0 {
        0
    } else {
        ((end - start) as nat / step + 1) as nat
    }
}

/// The `k`-th trade size of a sweep.
pub open spec fn sweep_size(start: nat, step: nat, k: nat) -> nat {
    start + k * step
}

/// Every size of the sweep can be evaluated within 256 bits, and so can the
/// step past the last size, which ends the sweep.
pub open spec fn sweep_fits(venues: Seq<(String, U256, U256, U256)>, start: nat, end: nat, step: nat, a_to_b: bool) -> bool {
    &&& forall|k: nat| k < sweep_len(start, end, step)
        ==> #[trigger] scan_fits(venues, sweep_size(start, step, k), a_to_b)
    &&& sweep_size(start, step, sweep_len(start, end, step)) < u256_bound()
}

/// `k * d <= x` exactly when `k <= x / d`.
proof fn lemma_mul_le_iff_le_div(k: nat, x: nat, d: nat)
    requires
        d > 0,
    ensures
        (k * d <= x) <==> (k <= x / d),
{
    crate::amm::lemma_div_bounds(x, d);
    let q = x / d;
    if k <= q {
        assert(k * d <= q * d) by (nonlinear_arith)
            requires
                k <= q,
                d > 0,
        ;
    } else {
        assert(k * d >= q * d + d) by (nonlinear_arith)
            requires
                k >= q + 1,
                d > 0,
        ;
    }
}

/// Evaluates every trade size from `start` to `end` inclusive, stepping by
/// `step`, where `range` is `(start, end, step)`, and returns each size with its
/// evaluation. A pair quoted by fewer than two venues is skipped whole: no size
/// is evaluated.
pub fn scan_direction(
    prices: &[(String, U256, U256, U256)],
    range: (U256, U256, U256),
    threshold: U256,
    token0_to_token1: bool,
) -> (r: Vec<(U256, SizeEvaluation)>)
    requires
        range.2@ > 0,
        prices@.len() >= 2 ==> sweep_fits(prices@, range.0@, range.1@, range.2@, token0_to_token1),
    ensures
        prices@.len() < 2 ==> r@.len() == 0,
        prices@.len() >= 2 ==> r@.len() == sweep_len(range.0@, range.1@, range.2@),
        forall|k: int| 0 <= k < r@.len() ==> (#[trigger] r@[k]).0@ == sweep_size(range.0@, range.2@, k as nat)
            && evaluates(prices@, threshold@, r@[k].0@, token0_to_token1, r@[k].1),
{
    let mut steps: Vec<(U256, SizeEvaluation)> = Vec::new();
    if prices.len() < 2 {
        return steps;
    }
    let (start, end, step) = range;
    let ghost len = sweep_len(start@, end@, step@);
    let mut trade_amount = start;
    proof {
        if start@ <= end@ {
            lemma_mul_le_iff_le_div(0, (end@ - start@) as nat, step@);
        }
    }
    while !end.less_than(&trade_amount)
        invariant
            step@ > 0,
            len == sweep_len(start@, end@, step@),
            sweep_fits(prices@, start@, end@, step@, token0_to_token1),
            steps@.len() <= len,
            trade_amount@ == sweep_size(start@, step@, steps@.len()),
            (steps@.len() < len) <==> (trade_amount@ <= end@),
            forall|k: int| 0 <= k < steps@.len() ==> (#[trigger] steps@[k]).0@ == sweep_size(start@, step@, k as nat)
                && evaluates(prices@, threshold@, steps@[k].0@, token0_to_token1, steps@[k].1),
        decreases len - steps@.len(),
    {
        let ghost k = steps@.len();
        assert(scan_fits(prices@, sweep_size(start@, step@, k), token0_to_token1));
        let e = evaluate_opportunity(prices, threshold, trade_amount, token0_to_token1);
        proof {
            assert(sweep_size(start@, step@, (k + 1) as nat) <= sweep_size(start@, step@, len)) by (nonlinear_arith)
                requires
                    k + 1 <= len,
                    step@ > 0,
            ;
            assert(sweep_size(start@, step@, (k + 1) as nat) == trade_amount@ + step@) by (nonlinear_arith)
                requires
                    trade_amount@ == start@ + k * step@,
            ;
        }
        steps.push((trade_amount, e));
        trade_amount = trade_amount.plus(step);
        proof {
            assert(start@ <= end@);
            lemma_mul_le_iff_le_div((k + 1) as nat, (end@ - start@) as nat, step@);
        }
    }
    steps
}

/// Number of evaluated sizes that hold a candidate.
pub open spec fn candidates_in(steps: Seq<(U256, SizeEvaluation)>) -> nat
    decreases steps.len(),
{
    if steps.len() == 0 {
        0
    } else {
        candidates_in(steps.drop_last()) + if steps.last().1.candidate is Some { 1nat } else { 0nat }
    }
}

/// Counts the evaluated sizes that hold a candidate.
pub fn count_candidates(steps: &Vec<(U256, SizeEvaluation)>) -> (r: usize)
    ensures
        r == candidates_in(steps@),
{
    let mut n: usize = 0;
    let mut i: usize = 0;
    while i < steps.len()
        invariant
            i <= steps@.len(),
            n == candidates_in(steps@.subrange(0, i as int)),
            n <= i,
        decreases steps@.len() - i,
    {
        assert(steps@.subrange(0, i as int + 1).drop_last() =~= steps@.subrange(0, i as int));
        if steps[i].1.candidate.is_some() {
            n = n + 1;
        }
        i = i + 1;
    }
    assert(steps@.subrange(0, i as int) =~= steps@);
    n
}

/// Whether `evaluate_opportunity` can run on these inputs: `r == scan_fits(..)`.
pub fn scan_in_range(prices: &[(String, U256, U256, U256)], trade_amount: U256, token0_to_token1: bool) -> (r: bool)
    ensures
        r == scan_fits(prices@, trade_amount@, token0_to_token1),
{
    let ghost venues = prices@;
    let ghost amount = trade_amount@;
    let ghost dir = token0_to_token1;
    let mut i: usize = 0;
    while i < prices.len()
        invariant
            venues == prices@,
            amount == trade_amount@,
            dir == token0_to_token1,
            i <= venues.len(),
            forall|k: int| 0 <= k < i ==> impact_fits(amount, #[trigger] venues[k].2@, venues[k].3@, dir),
        decreases venues.len() - i,
    {
        if !impact_in_range(trade_amount, prices[i].2, prices[i].3, token0_to_token1) {
            assert(!impact_fits(amount, venues[i as int].2@, venues[i as int].3@, dir));
            return false;
        }
        i = i + 1;
    }
    let sel = select_venues(prices, trade_amount, token0_to_token1);
    match (sel.buy, sel.sell) {
        (Some(b), Some(s)) => {
            if b == s {
                proof {
                    assert forall|b2: int, s2: int|
                        #[trigger] is_buy_venue(venues, amount, dir, b2) && #[trigger] is_sell_venue(venues, amount, dir, s2)
                        implies b2 == s2 by {
                        lemma_buy_venue_unique(venues, amount, dir, b2, b as int);
                        lemma_sell_venue_unique(venues, amount, dir, s2, s as int);
                    }
                }
                return true;
            }
            assert(impact_fits(amount, venues[b as int].2@, venues[b as int].3@, dir));
            assert(quotes(venues[b as int], amount, dir));
            let out = calc_amount(trade_amount, prices[b].2, prices[b].3, token0_to_token1);
            let fits = swap_in_range(out, prices[s].2, prices[s].3, !token0_to_token1);
            proof {
                assert forall|b2: int, s2: int|
                    #[trigger] is_buy_venue(venues, amount, dir, b2) && #[trigger] is_sell_venue(venues, amount, dir, s2)
                    implies b2 == b && s2 == s by {
                    lemma_buy_venue_unique(venues, amount, dir, b2, b as int);
                    lemma_sell_venue_unique(venues, amount, dir, s2, s as int);
                }
            }
            fits
        },
        _ => {
            proof {
                assert forall|b2: int, s2: int|
                    #[trigger] is_buy_venue(venues, amount, dir, b2) && #[trigger] is_sell_venue(venues, amount, dir, s2)
                    implies false by {
                    assert(quotes(venues[b2], amount, dir));
                }
            }
            true
        },
    }
}

/// Whether `scan_direction` can run on these inputs: the step is not zero, and
/// for a pair with two venues or more, `sweep_fits` holds.
pub fn sweep_in_range(prices: &[(String, U256, U256, U256)], range: (U256, U256, U256), token0_to_token1: bool) -> (r: bool)
    ensures
        r == (range.2@ > 0 && (prices@.len() >= 2 ==> sweep_fits(prices@, range.0@, range.1@, range.2@, token0_to_token1))),
{
    let (start, end, step) = range;
    if step.is_zero() {
        return false;
    }
    if prices.len() < 2 {
        return true;
    }
    let ghost len = sweep_len(start@, end@, step@);
    let ghost mut k: nat = 0;
    let mut trade_amount = start;
    proof {
        if start@ <= end@ {
            lemma_mul_le_iff_le_div(0, (end@ - start@) as nat, step@);
        }
    }
    while !end.less_than(&trade_amount)
        invariant
            step@ > 0,
            prices@.len() >= 2,
            range == (start, end, step),
            len == sweep_len(start@, end@, step@),
            k <= len,
            trade_amount@ == sweep_size(start@, step@, k),
            (k < len) <==> (trade_amount@ <= end@),
            forall|m: nat| m < k ==> #[trigger] scan_fits(prices@, sweep_size(start@, step@, m), token0_to_token1),
        decreases len - k,
    {
        if !scan_in_range(prices, trade_amount, token0_to_token1) {
            assert(k < len && !scan_fits(prices@, sweep_size(start@, step@, k), token0_to_token1));
            return false;
        }
        proof {
            assert(sweep_size(start@, step@, (k + 1) as nat) <= sweep_size(start@, step@, len)) by (nonlinear_arith)
                requires
                    k + 1 <= len,
                    step@ > 0,
            ;
            assert(sweep_size(start@, step@, (k + 1) as nat) == trade_amount@ + step@) by (nonlinear_arith)
                requires
                    trade_amount@ == start@ + k * step@,
            ;
        }
        match trade_amount.checked_plus(step) {
            Some(next) => {
                trade_amount = next;
            },
            None => {
                assert(sweep_size(start@, step@, len) >= u256_bound());
                return false;
            },
        }
        proof {
            assert(start@ <= end@);
            lemma_mul_le_iff_le_div((k + 1) as nat, (end@ - start@) as nat, step@);
            k = k + 1;
        }
    }
    proof {
        lemma_u256_bounded(trade_amount);
    }
    true
}

} // verus!
