//! Conversions between upstream's numbers and the store's columns.

use vstd::prelude::*;
use vstd::string::*;
use ethers_core::abi::AbiEncode;

verus! {

/// Byte `j` of a limb, counted from the least significant.
pub open spec fn limb_byte(limb: u64, j: nat) -> int
    decreases j,
{
    if j == 0 {
        limb as int % 256
    } else {
        limb_byte(limb / 256, (j - 1) as nat)
    }
}

/// The 32 bytes of a 256-bit number, most significant first, the number
/// being given as four limbs, least significant first.
pub open spec fn word_bytes(limbs: Seq<u64>) -> Seq<u8> {
    Seq::new(32, |k: int| limb_byte(limbs[(31 - k) / 8], ((31 - k) % 8) as nat) as u8)
}

/// `ethers_core`'s `AbiEncode::encode` on a `U256` built from the limbs. The
/// encoding of an unsigned number is one word of 32 bytes, big-endian.
#[verifier::external_body]
pub(crate) fn abi_encode_u256(limbs: &[u64; 4]) -> (bytes: Vec<u8>)
    ensures
        bytes@ == word_bytes(limbs@),
{
    ethers_core::types::U256(*limbs).encode()
}

/// The bytes under which an address is stored.
pub fn address_bytes(address: &[u8; 20]) -> (bytes: Vec<u8>)
    ensures
        bytes@ == address@,
{
    let mut bytes: Vec<u8> = Vec::new();
    let mut i: usize = 0;
    while i < 20
        invariant
            i <= 20,
            bytes@ == address@.take(i as int),
        decreases 20 - i,
    {
        bytes.push(address[i]);
        assert(address@.take(i + 1) =~= address@.take(i as int).push(address@[i as int]));
        i += 1;
    }
    assert(address@.take(20) =~= address@);
    bytes
}

/// An upstream number in a 64-bit signed column: the low 64 bits.
pub fn column_i64(n: u64) -> (column: i64)
    ensures
        column == n as i64,
{
    #[verifier::truncate]
    (n as i64)
}

/// An upstream number in a 32-bit signed column: the low 32 bits.
pub fn column_i32(n: u64) -> (column: i32)
    ensures
        column == n as i32,
{
    #[verifier::truncate]
    (n as i32)
}

/// The character of a decimal digit.
pub open spec fn digit_char(d: int) -> char
    recommends
        0 <= d < 10,
{
    if d == 0 {
        '0'
    } else if d == 1 {
        '1'
    } else if d == 2 {
        '2'
    } else if d == 3 {
        '3'
    } else if d == 4 {
        '4'
    } else if d == 5 {
        '5'
    } else if d == 6 {
        '6'
    } else if d == 7 {
        '7'
    } else if d == 8 {
        '8'
    } else {
        '9'
    }
}

/// A number in decimal: its digits, most significant first, without a
/// leading zero but for zero itself.
pub open spec fn decimal_digits(n: nat) -> Seq<char>
    decreases n,
{
    if n < 10 {
        seq![digit_char(n as int)]
    } else {
        decimal_digits(n / 10).push(digit_char(n as int % 10))
    }
}

fn digit_text(d: u64) -> (text: &'static str)
    requires
        d < 10,
    ensures
        text@ == seq![digit_char(d as int)],
{
    proof {
        reveal_strlit("0");
        reveal_strlit("1");
        reveal_strlit("2");
        reveal_strlit("3");
        reveal_strlit("4");
        reveal_strlit("5");
        reveal_strlit("6");
        reveal_strlit("7");
        reveal_strlit("8");
        reveal_strlit("9");
    }
    let text = if d == 0 {
        "0"
    } else if d == 1 {
        "1"
    } else if d == 2 {
        "2"
    } else if d == 3 {
        "3"
    } else if d == 4 {
        "4"
    } else if d == 5 {
        "5"
    } else if d == 6 {
        "6"
    } else if d == 7 {
        "7"
    } else if d == 8 {
        "8"
    } else {
        "9"
    };
    assert(text@ =~= seq![digit_char(d as int)]);
    text
}

/// Writes a number in decimal behind `text`.
pub fn push_decimal(n: u64, text: &mut String)
    ensures
        final(text)@ == old(text)@ + decimal_digits(n as nat),
    decreases n,
{
    if n >= 10 {
        push_decimal(n / 10, text);
    }
    text.append(digit_text(n % 10));
    assert(text@ =~= old(text)@ + decimal_digits(n as nat));
}

/// A number in decimal.
pub fn decimal_text(n: u64) -> (text: String)
    ensures
        text@ == decimal_digits(n as nat),
{
    let mut text = String::new();
    push_decimal(n, &mut text);
    assert(text@ =~= decimal_digits(n as nat));
    text
}

} // verus!
