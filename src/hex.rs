//! Fixed 32-byte identifiers from hexadecimal text.
use vstd::prelude::*;
use vstd::string::StringSliceAdditionalSpecFns;

verus! {

/// Value of one ASCII hex digit, either case.
pub open spec fn hex_digit(c: u8) -> Option<nat> {
    if 48 <= c <= 57 {
        Some((c - 48) as nat)
    } else if 65 <= c <= 70 {
        Some((c - 55) as nat)
    } else if 97 <= c <= 102 {
        Some((c - 87) as nat)
    } else {
        None
    }
}

/// The text without a leading `0x` or `0X`.
pub open spec fn strip_hex_prefix(b: Seq<u8>) -> Seq<u8> {
    if b.len() >= 2 && b[0] == 48 && (b[1] == 120 || b[1] == 88) {
        b.subrange(2, b.len() as int)
    } else {
        b
    }
}

/// The bytes that hex text stands for: two digits per byte, high digit first,
/// after an optional `0x`; nothing when the length is odd or a digit is invalid.
pub open spec fn decoded_hex(b: Seq<u8>) -> Option<Seq<u8>> {
    let d = strip_hex_prefix(b);
    if b.len() % 2 != 0 || exists|i: int| 0 <= i < d.len() && #[trigger] hex_digit(d[i]) is None {
        None
    } else {
        Some(Seq::new(d.len() / 2, |i: int| (hex_digit(d[2 * i])->0 * 16 + hex_digit(d[2 * i + 1])->0) as u8))
    }
}

/// Relies on ethers' re-export of `const_hex::decode`: it strips an optional
/// `0x`, and decodes pairs of hex digits of either case, or fails on odd
/// length or an invalid digit.
#[verifier::external_body]
fn decode_hex(b: &[u8]) -> (r: Option<Vec<u8>>)
    ensures
        r is Some <==> decoded_hex(b@) is Some,
        r is Some ==> r->0@ == decoded_hex(b@)->0,
{
    ethers::utils::hex::decode(b).ok()
}

/// The 32 bytes that `hex` stands for, padded with zero bytes at the end.
pub fn bytes32_from_hex(hex: &str) -> (r: [u8; 32])
    requires
        decoded_hex(hex.spec_bytes()) is Some,
        decoded_hex(hex.spec_bytes())->0.len() <= 32,
    ensures
        forall|i: int| 0 <= i < 32 ==> #[trigger] r@[i] == if i < decoded_hex(hex.spec_bytes())->0.len() {
            decoded_hex(hex.spec_bytes())->0[i]
        } else {
            0u8
        },
{
    let ghost d = decoded_hex(hex.spec_bytes())->0;
    let mut array = [0u8; 32];
    match decode_hex(hex.as_bytes()) {
        Some(bytes) => {
            let mut i: usize = 0;
            while i < bytes.len()
                invariant
                    bytes@ == d,
                    d.len() <= 32,
                    i <= d.len(),
                    forall|k: int| 0 <= k < 32 ==> #[trigger] array@[k] == if k < i { d[k] } else { 0u8 },
                decreases d.len() - i,
            {
                array[i] = bytes[i];
                i = i + 1;
            }
        },
        None => {},
    }
    array
}

} // verus!
