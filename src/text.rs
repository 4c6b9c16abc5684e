use vstd::prelude::*;
use vstd::arithmetic::power2::pow2;

verus! {

/// The hexadecimal digit for `d < 16`, lower case.
pub open spec fn lower_digit(d: nat) -> char {
    if d == 0 { '0' } else if d == 1 { '1' } else if d == 2 { '2' } else if d == 3 { '3' }
    else if d == 4 { '4' } else if d == 5 { '5' } else if d == 6 { '6' } else if d == 7 { '7' }
    else if d == 8 { '8' } else if d == 9 { '9' } else if d == 10 { 'a' } else if d == 11 { 'b' }
    else if d == 12 { 'c' } else if d == 13 { 'd' } else if d == 14 { 'e' } else { 'f' }
}

/// The hexadecimal digit for `d < 16`, upper case.
pub open spec fn upper_digit(d: nat) -> char {
    if d == 10 { 'A' } else if d == 11 { 'B' } else if d == 12 { 'C' } else if d == 13 { 'D' }
    else if d == 14 { 'E' } else if d == 15 { 'F' } else { lower_digit(d) }
}

/// Base-10 digits of `n`, most significant first, with no leading zeros.
pub open spec fn decimal(n: nat) -> Seq<char>
    decreases n,
{
    if n < 10 {
        seq![lower_digit(n)]
    } else {
        decimal(n / 10).push(lower_digit(n % 10))
    }
}

/// The number that little-endian 64-bit limbs hold.
pub open spec fn limbs_value(l: Seq<u64>) -> nat
    decreases l.len(),
{
    if l.len() == 0 {
        0
    } else {
        l[0] as nat + 18446744073709551616 * limbs_value(l.drop_first())
    }
}

/// A 256-bit word read as two's complement, in base 10 with a leading `-`
/// when negative.
pub open spec fn signed_decimal(l: Seq<u64>) -> Seq<char> {
    let v = limbs_value(l);
    if v >= pow2(255) {
        seq!['-'] + decimal((pow2(256) - v) as nat)
    } else {
        decimal(v)
    }
}

/// Two lower-case hexadecimal digits per byte, no prefix.
pub open spec fn hex_lower(b: Seq<u8>) -> Seq<char>
    decreases b.len(),
{
    if b.len() == 0 {
        seq![]
    } else {
        hex_lower(b.drop_last()) + seq![lower_digit(b.last() as nat / 16), lower_digit(b.last() as nat % 16)]
    }
}

/// `0x` followed by the lower-case hexadecimal digits of `b`.
pub open spec fn prefixed_hex(b: Seq<u8>) -> Seq<char> {
    seq!['0', 'x'] + hex_lower(b)
}

/// The mixed-case checksummed form of a 20-byte account address.
pub uninterp spec fn checksum_text(a: Seq<u8>) -> Seq<char>;

/// Relies on `Display` for `u64`: its base-10 digits.
#[verifier::external_body]
pub(crate) fn u64_text(n: u64) -> (r: String)
    ensures
        r@ == decimal(n as nat),
{
    n.to_string()
}

/// Relies on `Display` for alloy's `U256` (ruint's `Uint`): base-10 digits of
/// the number that the limbs hold.
#[verifier::external_body]
pub(crate) fn uint_text(limbs: [u64; 4]) -> (r: String)
    ensures
        r@ == decimal(limbs_value(limbs@)),
{
    alloy::primitives::U256::from_limbs(limbs).to_string()
}

/// Relies on `Display` for alloy's `I256`: the sign, then the base-10 digits of
/// the magnitude of the two's complement word.
#[verifier::external_body]
pub(crate) fn int_text(limbs: [u64; 4]) -> (r: String)
    ensures
        r@ == signed_decimal(limbs@),
{
    alloy::primitives::I256::from_raw(alloy::primitives::U256::from_limbs(limbs)).to_string()
}

/// Relies on `Display` for alloy's `B256`: `0x` and every byte in lower-case hex.
#[verifier::external_body]
pub(crate) fn word_text(word: [u8; 32]) -> (r: String)
    ensures
        r@ == prefixed_hex(word@),
{
    alloy::primitives::B256::from(word).to_string()
}

/// Relies on `Display` for alloy's `Function` (a 24-byte `FixedBytes`): `0x`
/// and every byte in lower-case hex.
#[verifier::external_body]
pub(crate) fn function_text(f: [u8; 24]) -> (r: String)
    ensures
        r@ == prefixed_hex(f@),
{
    alloy::primitives::Function::from(f).to_string()
}

/// Relies on `Display` for alloy's `Address`: its checksummed hex form.
#[verifier::external_body]
pub(crate) fn address_text(a: [u8; 20]) -> (r: String)
    ensures
        r@ == checksum_text(a@),
{
    alloy::primitives::Address::from(a).to_string()
}

/// Relies on `String::push`: appends one character.
#[verifier::external_body]
pub(crate) fn push_char(s: &mut String, c: char)
    ensures
        final(s)@ == old(s)@.push(c),
{
    s.push(c)
}

} // verus!
