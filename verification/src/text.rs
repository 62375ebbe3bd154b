//! Text helpers: decimal rendering of integers and lossy UTF-8 decoding.

use vstd::prelude::*;

verus! {

/// The decimal digit character for `d`, which must be in 0..10.
pub open spec fn dec_digit(d: int) -> char {
    ((48 + d) as u8) as char
}

/// The decimal digits of a non-negative number, most significant first.
pub open spec fn dec_str_nat(n: nat) -> Seq<char>
    decreases n,
{
    if n < 10 {
        seq![dec_digit(n as int)]
    } else {
        dec_str_nat(n / 10).push(dec_digit((n % 10) as int))
    }
}

/// The decimal rendering of an integer, with a leading minus sign when
/// negative.
pub open spec fn int_str(v: int) -> Seq<char> {
    if v < 0 {
        seq!['-'] + dec_str_nat((-v) as nat)
    } else {
        dec_str_nat(v as nat)
    }
}

/// What `String::from_utf8_lossy` returns for a byte sequence: a pure
/// function of the bytes alone.
pub uninterp spec fn utf8_lossy(bytes: Seq<u8>) -> Seq<char>;

/// Relies on `String::from_utf8_lossy`: the result depends on the bytes
/// alone, and bytes that are valid UTF-8 decode unchanged, as its
/// documentation promises.
#[verifier::external_body]
pub fn utf8_lossy_exec(bytes: &[u8]) -> (r: String)
    ensures
        r@ == utf8_lossy(bytes@),
        vstd::utf8::valid_utf8(bytes@) ==> r@ == vstd::utf8::decode_utf8(bytes@),
{
    String::from_utf8_lossy(bytes).into_owned()
}

/// Relies on the `Display` rendering of `u64`: decimal digits, most
/// significant first, no sign and no leading zeros.
#[verifier::external_body]
pub fn fmt_u64(v: u64) -> (r: String)
    ensures
        r@ == int_str(v as int),
{
    format!("{}", v)
}

/// Relies on the `Display` rendering of `i64`: decimal digits with a
/// leading minus sign when negative, no leading zeros.
#[verifier::external_body]
pub fn fmt_i64(v: i64) -> (r: String)
    ensures
        r@ == int_str(v as int),
{
    format!("{}", v)
}

/// Relies on `String::from(char)`: a string of exactly that character.
#[verifier::external_body]
pub fn char_string(c: char) -> (r: String)
    ensures
        r@ == seq![c],
{
    String::from(c)
}

} // verus!
