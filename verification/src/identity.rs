//! Caller identity fingerprints.

use vstd::prelude::*;

verus! {

/// One hexadecimal digit, lower case, for a nibble value below sixteen.
pub open spec fn hex_digit(n: u8) -> u8 {
    if n < 10 {
        (0x30 + n) as u8
    } else {
        (0x57 + n) as u8
    }
}

/// The lower-case hexadecimal encoding of a byte string: each byte becomes
/// its high nibble's digit followed by its low nibble's digit.
pub open spec fn hex_lower_of(bytes: Seq<u8>) -> Seq<u8>
    decreases bytes.len(),
{
    if bytes.len() == 0 {
        Seq::empty()
    } else {
        seq![hex_digit(bytes[0] / 16), hex_digit(bytes[0] % 16)]
            + hex_lower_of(bytes.drop_first())
    }
}

/// Relies on base16::encode_lower: each input byte becomes two lower-case
/// hexadecimal digits, in input order.
#[verifier::external_body]
fn encode_lower_bytes(bytes: &Vec<u8>) -> (r: Vec<u8>)
    ensures
        r@ == hex_lower_of(bytes@),
{
    base16::encode_lower(bytes.as_slice()).into_bytes()
}

/// The stable fingerprint of a calling account: the lower-case hexadecimal
/// form of its raw account-hash bytes, usable as a rating-map key.
pub fn caller_key(account_hash: &Vec<u8>) -> (r: Vec<u8>)
    ensures
        r@ == hex_lower_of(account_hash@),
{
    encode_lower_bytes(account_hash)
}

} // verus!
