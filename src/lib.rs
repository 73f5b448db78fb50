//! Constant-product AMM pricing and cross-venue round-trip search.
pub mod amm;
pub mod hex;
pub mod pairs;
pub mod quote;
pub mod scanner;
pub mod uint;

use vstd::prelude::*;

verus! {

/// Settings of a scan; the scan itself takes all of its inputs as arguments.
pub struct Config {}

} // verus!
