//! A 256-bit unsigned integer held as four little-endian 64-bit limbs.
//!
//! The arithmetic is done by ethers' `U256`, which stores the same four limbs;
//! each operation is a thin wrapper whose contract states its exact result.
use vstd::prelude::*;

verus! {

/// 2^64, the weight of one limb.
pub open spec fn limb_base() -> nat {
    0x1_0000_0000_0000_0000nat
}

/// 2^256: every `U256` is below it.
pub open spec fn u256_bound() -> nat {
    0x1_0000_0000_0000_0000_0000_0000_0000_0000_0000_0000_0000_0000_0000_0000_0000_0000_0000_0000_0000_0000nat
}

/// 10^18, the fixed-point scale of prices.
pub open spec fn e18() -> nat {
    1_000_000_000_000_000_000nat
}

/// 10^n.
pub open spec fn pow10(n: nat) -> nat
    decreases n,
{
    if n == 0 {
        1
    } else {
        10 * pow10((n - 1) as nat)
    }
}

/// The number that four little-endian limbs stand for.
pub open spec fn limbs_value(w0: u64, w1: u64, w2: u64, w3: u64) -> nat {
    (w0 + limb_base() * (w1 + limb_base() * (w2 + limb_base() * w3))) as nat
}

/// An unsigned integer below 2^256.
#[derive(Clone, Copy, Debug, PartialEq, Eq, Structural)]
pub struct U256 {
    w0: u64,
    w1: u64,
    w2: u64,
    w3: u64,
}

impl View for U256 {
    type V = nat;

    closed spec fn view(&self) -> nat {
        limbs_value(self.w0, self.w1, self.w2, self.w3)
    }
}

/// Every `U256` is below 2^256.
pub proof fn lemma_u256_bounded(x: U256)
    ensures
        x@ < u256_bound(),
{
    let b = limb_base();
    let t2 = x.w2 + b * x.w3;
    let t1 = x.w1 + b * t2;
    assert(t2 <= b * b - 1);
    assert(t1 <= b * b * b - 1);
    assert(x@ <= b * b * b * b - 1);
}

impl U256 {
    /// The value `v`.
    pub fn from_u64(v: u64) -> (r: U256)
        ensures
            r@ == v,
    {
        U256 { w0: v, w1: 0, w2: 0, w3: 0 }
    }

    /// The number with the given little-endian limbs.
    pub fn from_limbs(limbs: [u64; 4]) -> (r: U256)
        ensures
            r@ == limbs_value(limbs[0], limbs[1], limbs[2], limbs[3]),
    {
        U256 { w0: limbs[0], w1: limbs[1], w2: limbs[2], w3: limbs[3] }
    }

    /// The little-endian limbs of this number.
    pub fn limbs(&self) -> (r: [u64; 4])
        ensures
            limbs_value(r[0], r[1], r[2], r[3]) == self@,
    {
        [self.w0, self.w1, self.w2, self.w3]
    }

    /// Relies on ethers' `U256 * U256`: the exact product, which panics past 2^256.
    #[verifier::external_body]
    pub(crate) fn times(self, o: U256) -> (r: U256)
        requires
            self@ * o@ < u256_bound(),
        ensures
            r@ == self@ * o@,
    {
        let l = (ethers::types::U256([self.w0, self.w1, self.w2, self.w3]) * ethers::types::U256([o.w0, o.w1, o.w2, o.w3])).0;
        U256 { w0: l[0], w1: l[1], w2: l[2], w3: l[3] }
    }

    /// Relies on ethers' `U256::checked_mul`: the exact product, or `None` from 2^256 on.
    #[verifier::external_body]
    pub(crate) fn checked_times(self, o: U256) -> (r: Option<U256>)
        ensures
            r is Some <==> self@ * o@ < u256_bound(),
            r is Some ==> r->0@ == self@ * o@,
    {
        match ethers::types::U256([self.w0, self.w1, self.w2, self.w3]).checked_mul(ethers::types::U256([o.w0, o.w1, o.w2, o.w3])) {
            Some(p) => Some(U256 { w0: p.0[0], w1: p.0[1], w2: p.0[2], w3: p.0[3] }),
            None => None,
        }
    }

    /// Relies on ethers' `U256::checked_add`: the exact sum, or `None` from 2^256 on.
    #[verifier::external_body]
    pub(crate) fn checked_plus(self, o: U256) -> (r: Option<U256>)
        ensures
            r is Some <==> self@ + o@ < u256_bound(),
            r is Some ==> r->0@ == self@ + o@,
    {
        match ethers::types::U256([self.w0, self.w1, self.w2, self.w3]).checked_add(ethers::types::U256([o.w0, o.w1, o.w2, o.w3])) {
            Some(p) => Some(U256 { w0: p.0[0], w1: p.0[1], w2: p.0[2], w3: p.0[3] }),
            None => None,
        }
    }

    /// Relies on ethers' `U256 + U256`: the exact sum, which panics past 2^256.
    #[verifier::external_body]
    pub(crate) fn plus(self, o: U256) -> (r: U256)
        requires
            self@ + o@ < u256_bound(),
        ensures
            r@ == self@ + o@,
    {
        let l = (ethers::types::U256([self.w0, self.w1, self.w2, self.w3]) + ethers::types::U256([o.w0, o.w1, o.w2, o.w3])).0;
        U256 { w0: l[0], w1: l[1], w2: l[2], w3: l[3] }
    }

    /// Relies on ethers' `U256 - U256`: the exact difference, which panics below zero.
    #[verifier::external_body]
    pub(crate) fn minus(self, o: U256) -> (r: U256)
        requires
            o@ <= self@,
        ensures
            r@ == self@ - o@,
    {
        let l = (ethers::types::U256([self.w0, self.w1, self.w2, self.w3]) - ethers::types::U256([o.w0, o.w1, o.w2, o.w3])).0;
        U256 { w0: l[0], w1: l[1], w2: l[2], w3: l[3] }
    }

    /// Relies on ethers' `U256 / U256`: the floored quotient, which panics on a zero divisor.
    #[verifier::external_body]
    pub(crate) fn over(self, o: U256) -> (r: U256)
        requires
            o@ > 0,
        ensures
            r@ == self@ / o@,
    {
        let l = (ethers::types::U256([self.w0, self.w1, self.w2, self.w3]) / ethers::types::U256([o.w0, o.w1, o.w2, o.w3])).0;
        U256 { w0: l[0], w1: l[1], w2: l[2], w3: l[3] }
    }

    /// Relies on ethers' `U256 < U256`: numeric order.
    #[verifier::external_body]
    pub(crate) fn less_than(&self, o: &U256) -> (r: bool)
        ensures
            r == (self@ < o@),
    {
        ethers::types::U256([self.w0, self.w1, self.w2, self.w3]) < ethers::types::U256([o.w0, o.w1, o.w2, o.w3])
    }

    /// Relies on ethers' `U256::is_zero`.
    #[verifier::external_body]
    pub(crate) fn is_zero(&self) -> (r: bool)
        ensures
            r == (self@ == 0),
    {
        ethers::types::U256([self.w0, self.w1, self.w2, self.w3]).is_zero()
    }

    /// Relies on ethers' `U256::exp10`: 10^n, which panics past 2^256 (from n = 78 on).
    #[verifier::external_body]
    pub(crate) fn exp10(n: u32) -> (r: U256)
        requires
            n <= 77,
        ensures
            r@ == pow10(n as nat),
    {
        let l = ethers::types::U256::exp10(n as usize).0;
        U256 { w0: l[0], w1: l[1], w2: l[2], w3: l[3] }
    }
}

impl From<u64> for U256 {
    fn from(v: u64) -> (r: U256) {
        U256 { w0: v, w1: 0, w2: 0, w3: 0 }
    }
}

impl vstd::std_specs::convert::FromSpecImpl<u64> for U256 {
    open spec fn obeys_from_spec() -> bool {
        true
    }

    closed spec fn from_spec(v: u64) -> U256 {
        U256 { w0: v, w1: 0, w2: 0, w3: 0 }
    }
}

} // verus!
