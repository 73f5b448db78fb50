//! Matching the pairs that several exchanges list, and the family of an exchange.
use vstd::prelude::*;

verus! {

/// How reserves are read from an exchange.
#[derive(Clone, Copy, Debug, PartialEq, Eq, Structural)]
pub enum VenueFamily {
    /// A constant-product pair contract that reports its two reserves.
    ConstantProductPair,
    /// A pool whose balances are held by a vault, looked up by pool id.
    VaultPool,
}

/// The family of a named exchange, or `None` for one that is not supported.
pub fn venue_family(exchange: &str) -> (r: Option<VenueFamily>)
    ensures
        r == Some(VenueFamily::ConstantProductPair) <==> (exchange@ == "UniswapV2"@
            || exchange@ == "Sushiswap"@ || exchange@ == "Pancakeswap"@),
        r == Some(VenueFamily::VaultPool) <==> exchange@ == "Balancer"@,
{
    proof {
        reveal_strlit("UniswapV2");
        reveal_strlit("Sushiswap");
        reveal_strlit("Pancakeswap");
        reveal_strlit("Balancer");
        assert("UniswapV2"@.len() == 9 && "Sushiswap"@.len() == 9 && "Pancakeswap"@.len() == 11);
        assert("Balancer"@.len() == 8);
    }
    let name = exchange.to_owned();
    if name == "UniswapV2".to_owned() || name == "Sushiswap".to_owned() || name == "Pancakeswap".to_owned() {
        Some(VenueFamily::ConstantProductPair)
    } else if name == "Balancer".to_owned() {
        Some(VenueFamily::VaultPool)
    } else {
        None
    }
}

/// A pair of token symbols, as text.
pub open spec fn key_view(k: (String, String)) -> (Seq<char>, Seq<char>) {
    (k.0@, k.1@)
}

/// Where one exchange lists `key`: the address of its last listing of it.
pub open spec fn listed_at<A>(pairs: Seq<((String, String), A)>, key: (Seq<char>, Seq<char>)) -> Option<A>
    decreases pairs.len(),
{
    if pairs.len() == 0 {
        None
    } else if key_view(pairs.last().0) == key {
        Some(pairs.last().1)
    } else {
        listed_at(pairs.drop_last(), key)
    }
}

/// The venues that list `key`: `(exchange, address)`, in the order of the exchanges.
pub open spec fn venues_of<A>(listings: Seq<(String, Vec<((String, String), A)>)>, key: (Seq<char>, Seq<char>)) -> Seq<(Seq<char>, A)>
    decreases listings.len(),
{
    if listings.len() == 0 {
        Seq::empty()
    } else {
        let rest = venues_of(listings.drop_last(), key);
        match listed_at(listings.last().1@, key) {
            Some(a) => rest.push((listings.last().0@, a)),
            None => rest,
        }
    }
}

/// Some exchange lists `key`.
pub open spec fn is_listed<A>(listings: Seq<(String, Vec<((String, String), A)>)>, key: (Seq<char>, Seq<char>)) -> bool {
    exists|e: int, j: int| 0 <= e < listings.len() && 0 <= j < listings[e].1@.len()
        && key_view(#[trigger] listings[e].1@[j].0) == key
}

/// Venues as text.
pub open spec fn venues_view<A>(v: Seq<(String, A)>) -> Seq<(Seq<char>, A)> {
    v.map_values(|x: (String, A)| (x.0@, x.1))
}

/// The keys of `found` are pairwise distinct.
pub open spec fn distinct_keys<T>(found: Seq<((String, String), T)>) -> bool {
    forall|i: int, j: int| 0 <= i < found.len() && 0 <= j < found.len() && i != j
        ==> key_view(#[trigger] found[i].0) != key_view(#[trigger] found[j].0)
}

/// `pairs` lists `key` exactly when `listed_at` finds it.
proof fn lemma_listed_at_some<A>(pairs: Seq<((String, String), A)>, key: (Seq<char>, Seq<char>))
    ensures
        listed_at(pairs, key) is Some <==> exists|j: int| 0 <= j < pairs.len() && key_view(#[trigger] pairs[j].0) == key,
    decreases pairs.len(),
{
    if pairs.len() > 0 {
        lemma_listed_at_some(pairs.drop_last(), key);
        if listed_at(pairs.drop_last(), key) is Some {
            let j = choose|j: int| 0 <= j < pairs.drop_last().len() && key_view(#[trigger] pairs.drop_last()[j].0) == key;
            assert(key_view(pairs[j].0) == key);
        }
        if exists|j: int| 0 <= j < pairs.len() && key_view(#[trigger] pairs[j].0) == key {
            let j = choose|j: int| 0 <= j < pairs.len() && key_view(#[trigger] pairs[j].0) == key;
            if j < pairs.len() - 1 {
                assert(key_view(pairs.drop_last()[j].0) == key);
            }
        }
    }
}

/// Whether two symbol pairs are the same.
fn same_key(a: &(String, String), b: &(String, String)) -> (r: bool)
    ensures
        r == (key_view(*a) == key_view(*b)),
{
    a.0 == b.0 && a.1 == b.1
}

/// Where one exchange lists `key`: its last listing of it.
fn find_listing<A: Copy>(pairs: &Vec<((String, String), A)>, key: &(String, String)) -> (r: Option<A>)
    ensures
        r == listed_at(pairs@, key_view(*key)),
{
    let mut found: Option<A> = None;
    let mut j: usize = 0;
    while j < pairs.len()
        invariant
            j <= pairs@.len(),
            found == listed_at(pairs@.subrange(0, j as int), key_view(*key)),
        decreases pairs@.len() - j,
    {
        assert(pairs@.subrange(0, j as int + 1).drop_last() =~= pairs@.subrange(0, j as int));
        if same_key(&pairs[j].0, key) {
            found = Some(pairs[j].1);
        }
        j = j + 1;
    }
    assert(pairs@.subrange(0, j as int) =~= pairs@);
    found
}

/// The venues that list `key`, in the order of the exchanges.
fn collect_venues<A: Copy>(listings: &Vec<(String, Vec<((String, String), A)>)>, key: &(String, String)) -> (r: Vec<(String, A)>)
    ensures
        venues_view(r@) == venues_of(listings@, key_view(*key)),
{
    let mut venues: Vec<(String, A)> = Vec::new();
    let mut e: usize = 0;
    while e < listings.len()
        invariant
            e <= listings@.len(),
            venues_view(venues@) == venues_of(listings@.subrange(0, e as int), key_view(*key)),
        decreases listings@.len() - e,
    {
        let ghost before = venues@;
        assert(listings@.subrange(0, e as int + 1).drop_last() =~= listings@.subrange(0, e as int));
        match find_listing(&listings[e].1, key) {
            Some(address) => {
                venues.push((listings[e].0.clone(), address));
                assert(venues_view(venues@) =~= venues_view(before).push((listings@[e as int].0@, address)));
            },
            None => {},
        }
        e = e + 1;
    }
    assert(listings@.subrange(0, e as int) =~= listings@);
    venues
}

/// Whether `key` is among the keys of `keys`.
fn has_key(keys: &Vec<(String, String)>, key: &(String, String)) -> (r: bool)
    ensures
        r == exists|i: int| 0 <= i < keys@.len() && key_view(#[trigger] keys@[i]) == key_view(*key),
{
    let mut i: usize = 0;
    while i < keys.len()
        invariant
            i <= keys@.len(),
            forall|k: int| 0 <= k < i ==> key_view(#[trigger] keys@[k]) != key_view(*key),
        decreases keys@.len() - i,
    {
        if same_key(&keys[i], key) {
            return true;
        }
        i = i + 1;
    }
    false
}

/// `key` is among the keys of `keys`.
pub open spec fn holds_key(keys: Seq<(String, String)>, key: (Seq<char>, Seq<char>)) -> bool {
    exists|i: int| 0 <= i < keys.len() && key_view(#[trigger] keys[i]) == key
}

/// Adding a key keeps the keys that were there.
proof fn lemma_holds_key_push(keys: Seq<(String, String)>, k: (String, String), key: (Seq<char>, Seq<char>))
    requires
        holds_key(keys, key) || key_view(k) == key,
    ensures
        holds_key(keys.push(k), key),
{
    if holds_key(keys, key) {
        let i = choose|i: int| 0 <= i < keys.len() && key_view(#[trigger] keys[i]) == key;
        assert(keys.push(k)[i] == keys[i]);
    } else {
        assert(keys.push(k)[keys.len() as int] == k);
    }
}

/// Every symbol pair that some exchange lists, once each.
fn listed_keys<A: Copy>(listings: &Vec<(String, Vec<((String, String), A)>)>) -> (r: Vec<(String, String)>)
    ensures
        forall|i: int, j: int| 0 <= i < r@.len() && 0 <= j < r@.len() && i != j
            ==> key_view(#[trigger] r@[i]) != key_view(#[trigger] r@[j]),
        forall|key: (Seq<char>, Seq<char>)| #[trigger] is_listed(listings@, key) ==> holds_key(r@, key),
{
    let mut keys: Vec<(String, String)> = Vec::new();
    let mut e: usize = 0;
    while e < listings.len()
        invariant
            e <= listings@.len(),
            forall|i: int, j: int| 0 <= i < keys@.len() && 0 <= j < keys@.len() && i != j
                ==> key_view(#[trigger] keys@[i]) != key_view(#[trigger] keys@[j]),
            forall|f: int, j: int| 0 <= f < e && 0 <= j < listings@[f].1@.len()
                ==> holds_key(keys@, key_view(#[trigger] listings@[f].1@[j].0)),
        decreases listings@.len() - e,
    {
        let pairs = &listings[e].1;
        let mut j: usize = 0;
        while j < pairs.len()
            invariant
                e < listings@.len(),
                pairs@ == listings@[e as int].1@,
                j <= pairs@.len(),
                forall|i: int, k: int| 0 <= i < keys@.len() && 0 <= k < keys@.len() && i != k
                    ==> key_view(#[trigger] keys@[i]) != key_view(#[trigger] keys@[k]),
                forall|f: int, m: int| 0 <= f < e && 0 <= m < listings@[f].1@.len()
                    ==> holds_key(keys@, key_view(#[trigger] listings@[f].1@[m].0)),
                forall|m: int| 0 <= m < j ==> holds_key(keys@, key_view(#[trigger] pairs@[m].0)),
            decreases pairs@.len() - j,
        {
            let key = &pairs[j].0;
            if !has_key(&keys, key) {
                let ghost before = keys@;
                let k = (key.0.clone(), key.1.clone());
                keys.push(k);
                assert forall|m: int| 0 <= m < j + 1 implies holds_key(keys@, key_view(#[trigger] pairs@[m].0)) by {
                    lemma_holds_key_push(before, k, key_view(pairs@[m].0));
                }
                assert forall|f: int, m: int| 0 <= f < e && 0 <= m < listings@[f].1@.len()
                    implies holds_key(keys@, key_view(#[trigger] listings@[f].1@[m].0)) by {
                    lemma_holds_key_push(before, k, key_view(listings@[f].1@[m].0));
                }
            }
            j = j + 1;
        }
        assert forall|f: int, m: int| 0 <= f < e + 1 && 0 <= m < listings@[f].1@.len()
            implies holds_key(keys@, key_view(#[trigger] listings@[f].1@[m].0)) by {
            if f == e {
                assert(listings@[f].1@[m] == pairs@[m]);
            }
        }
        e = e + 1;
    }
    assert forall|key: (Seq<char>, Seq<char>)| #[trigger] is_listed(listings@, key) implies holds_key(keys@, key) by {
        let (f, m) = choose|f: int, m: int| 0 <= f < listings@.len() && 0 <= m < listings@[f].1@.len()
            && key_view(#[trigger] listings@[f].1@[m].0) == key;
    }
    keys
}

/// The symbol pairs that two or more venues list, each with its venues
/// `(exchange, address)` in the order of the exchanges; an exchange that lists
/// a pair more than once counts once, with the address of its last listing.
/// `listings` holds, per exchange, its name and the pairs it lists.
pub fn common_pairs<A: Copy>(listings: &Vec<(String, Vec<((String, String), A)>)>) -> (r: Vec<((String, String), Vec<(String, A)>)>)
    ensures
        distinct_keys(r@),
        forall|i: int| 0 <= i < r@.len() ==> venues_view((#[trigger] r@[i]).1@) == venues_of(listings@, key_view(r@[i].0)),
        forall|i: int| 0 <= i < r@.len() ==> (#[trigger] r@[i]).1@.len() >= 2,
        forall|key: (Seq<char>, Seq<char>)| #[trigger] venues_of(listings@, key).len() >= 2
            ==> exists|i: int| 0 <= i < r@.len() && key_view(#[trigger] r@[i].0) == key,
{
    let keys = listed_keys(listings);
    let mut result: Vec<((String, String), Vec<(String, A)>)> = Vec::new();
    let mut i: usize = 0;
    while i < keys.len()
        invariant
            i <= keys@.len(),
            forall|a: int, b: int| 0 <= a < keys@.len() && 0 <= b < keys@.len() && a != b
                ==> key_view(#[trigger] keys@[a]) != key_view(#[trigger] keys@[b]),
            forall|n: int| 0 <= n < result@.len() ==> exists|k: int| 0 <= k < i && key_view(#[trigger] keys@[k]) == key_view(#[trigger] result@[n].0),
            distinct_keys(result@),
            forall|n: int| 0 <= n < result@.len() ==> venues_view((#[trigger] result@[n]).1@) == venues_of(listings@, key_view(result@[n].0)),
            forall|n: int| 0 <= n < result@.len() ==> (#[trigger] result@[n]).1@.len() >= 2,
            forall|k: int| 0 <= k < i && #[trigger] venues_of(listings@, key_view(keys@[k])).len() >= 2
                ==> exists|n: int| 0 <= n < result@.len() && key_view(#[trigger] result@[n].0) == key_view(keys@[k]),
        decreases keys@.len() - i,
    {
        let venues = collect_venues(listings, &keys[i]);
        let ghost before = result@;
        if venues.len() >= 2 {
            result.push(((keys[i].0.clone(), keys[i].1.clone()), venues));
            let ghost last = result@.len() - 1;
            assert(key_view(result@[last].0) == key_view(keys@[i as int]));
            assert forall|n: int| 0 <= n < result@.len()
                implies exists|k: int| 0 <= k < i + 1 && key_view(#[trigger] keys@[k]) == key_view(#[trigger] result@[n].0) by {
                if n < last {
                    assert(result@[n] == before[n]);
                } else {
                    assert(key_view(keys@[i as int]) == key_view(result@[n].0));
                }
            }
            assert forall|a: int, b: int| 0 <= a < result@.len() && 0 <= b < result@.len() && a != b
                implies key_view(#[trigger] result@[a].0) != key_view(#[trigger] result@[b].0) by {
                if a == last && b < last {
                    assert(result@[b] == before[b]);
                    let k = choose|k: int| 0 <= k < i && key_view(#[trigger] keys@[k]) == key_view(before[b].0);
                } else if b == last && a < last {
                    assert(result@[a] == before[a]);
                    let k = choose|k: int| 0 <= k < i && key_view(#[trigger] keys@[k]) == key_view(before[a].0);
                } else if a < last && b < last {
                    assert(result@[a] == before[a] && result@[b] == before[b]);
                }
            }
            assert forall|k: int| 0 <= k < i + 1 && #[trigger] venues_of(listings@, key_view(keys@[k])).len() >= 2
                implies exists|n: int| 0 <= n < result@.len() && key_view(#[trigger] result@[n].0) == key_view(keys@[k]) by {
                if k < i {
                    let n = choose|n: int| 0 <= n < before.len() && key_view(#[trigger] before[n].0) == key_view(keys@[k]);
                    assert(result@[n] == before[n]);
                } else {
                    assert(key_view(result@[last].0) == key_view(keys@[k]));
                }
            }
        } else {
            assert(venues_view(venues@).len() == venues@.len());
        }
        i = i + 1;
    }
    assert forall|key: (Seq<char>, Seq<char>)| #[trigger] venues_of(listings@, key).len() >= 2
        implies exists|i: int| 0 <= i < result@.len() && key_view(#[trigger] result@[i].0) == key by {
        lemma_listed_not_empty(listings@, key);
        assert(holds_key(keys@, key));
        let k = choose|k: int| 0 <= k < keys@.len() && key_view(#[trigger] keys@[k]) == key;
        assert(venues_of(listings@, key_view(keys@[k])).len() >= 2);
    }
    result
}

/// A key with a venue is listed.
proof fn lemma_listed_not_empty<A>(listings: Seq<(String, Vec<((String, String), A)>)>, key: (Seq<char>, Seq<char>))
    requires
        venues_of(listings, key).len() >= 1,
    ensures
        is_listed(listings, key),
    decreases listings.len(),
{
    let rest = listings.drop_last();
    lemma_listed_at_some(listings.last().1@, key);
    if listed_at(listings.last().1@, key) is Some {
        let j = choose|j: int| 0 <= j < listings.last().1@.len() && key_view(#[trigger] listings.last().1@[j].0) == key;
        assert(key_view(listings[listings.len() - 1].1@[j].0) == key);
    } else {
        lemma_listed_not_empty(rest, key);
        let (e, j) = choose|e: int, j: int| 0 <= e < rest.len() && 0 <= j < rest[e].1@.len()
            && key_view(#[trigger] rest[e].1@[j].0) == key;
        assert(key_view(listings[e].1@[j].0) == key);
    }
}

} // verus!
