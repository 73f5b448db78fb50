use arbitrage_bot::hex::bytes32_from_hex;
use arbitrage_bot::pairs::{common_pairs, venue_family, VenueFamily};

#[test]
fn hex_is_decoded_and_padded() {
    let b = bytes32_from_hex("0x0a1bFF");
    assert_eq!(&b[..3], &[0x0a, 0x1b, 0xff]);
    assert!(b[3..].iter().all(|x| *x == 0));
    let full = "5c6ee304399dbdb9c8ef030ab642b10820db8f56000200000000000000000014";
    let b = bytes32_from_hex(full);
    assert_eq!(b[0], 0x5c);
    assert_eq!(b[31], 0x14);
    assert_eq!(bytes32_from_hex(""), [0u8; 32]);
}

#[test]
fn exchange_families() {
    assert_eq!(venue_family("UniswapV2"), Some(VenueFamily::ConstantProductPair));
    assert_eq!(venue_family("Sushiswap"), Some(VenueFamily::ConstantProductPair));
    assert_eq!(venue_family("Pancakeswap"), Some(VenueFamily::ConstantProductPair));
    assert_eq!(venue_family("Balancer"), Some(VenueFamily::VaultPool));
    assert_eq!(venue_family("Curve"), None);
    assert_eq!(venue_family("uniswapv2"), None);
}

fn key(a: &str, b: &str) -> (String, String) {
    (String::from(a), String::from(b))
}

#[test]
fn only_pairs_on_two_venues_are_kept() {
    let listings = vec![
        (String::from("Sushiswap"), vec![(key("WETH", "USDC"), 1u32), (key("LINK", "WETH"), 2), (key("WETH", "USDC"), 3)]),
        (String::from("UniswapV2"), vec![(key("LINK", "WETH"), 4)]),
        (String::from("Pancakeswap"), vec![(key("WETH", "USDC"), 5), (key("USDC", "WETH"), 6)]),
    ];
    let mut found = common_pairs(&listings);
    found.sort_by(|a, b| a.0.cmp(&b.0));
    assert_eq!(found.len(), 2);
    assert_eq!(found[0].0, key("LINK", "WETH"));
    assert_eq!(found[0].1, vec![(String::from("Sushiswap"), 2), (String::from("UniswapV2"), 4)]);
    assert_eq!(found[1].0, key("WETH", "USDC"));
    assert_eq!(found[1].1, vec![(String::from("Sushiswap"), 3), (String::from("Pancakeswap"), 5)]);
}

#[test]
fn a_pair_on_one_venue_is_dropped() {
    let listings = vec![
        (String::from("Sushiswap"), vec![(key("WETH", "USDC"), 1u32)]),
        (String::from("UniswapV2"), vec![(key("LINK", "WETH"), 2)]),
    ];
    assert!(common_pairs(&listings).is_empty());
}
