//! Character classes used by the lexer, and the wrapping factorial.
use vstd::prelude::*;

verus! {

/// Whether `c` has the Unicode `Alphabetic` property.
pub uninterp spec fn alphabetic(c: char) -> bool;

/// Relies on `char::is_alphabetic`: the Unicode `Alphabetic` property of `c`,
/// which among ASCII characters holds exactly of the Latin letters.
#[verifier::external_body]
fn char_is_alphabetic(c: char) -> (r: bool)
    ensures
        r == alphabetic(c),
        (c as u32) < 128 ==> (r <==> (('a' <= c && c <= 'z') || ('A' <= c && c <= 'Z'))),
{
    c.is_alphabetic()
}

pub open spec fn spec_is_digit(c: char) -> bool {
    '0' <= c && c <= '9'
}

/// An underscore or an alphabetic character; among ASCII characters the
/// alphabetic ones are exactly the Latin letters.
pub open spec fn spec_is_identifier_start(c: char) -> bool {
    c == '_' || if (c as u32) < 128 {
        ('a' <= c && c <= 'z') || ('A' <= c && c <= 'Z')
    } else {
        alphabetic(c)
    }
}

pub open spec fn spec_is_identifier_continue(c: char) -> bool {
    spec_is_identifier_start(c) || spec_is_digit(c)
}

/// Whether `c` may begin an identifier: an underscore or an alphabetic character.
pub fn is_identifier_start(c: char) -> (r: bool)
    ensures
        r == spec_is_identifier_start(c),
{
    c == '_' || char_is_alphabetic(c)
}

/// Whether `c` may continue an identifier: an identifier start or an ASCII digit.
pub fn is_identifier_continue(c: char) -> (r: bool)
    ensures
        r == spec_is_identifier_continue(c),
{
    is_identifier_start(c) || is_number(c)
}

/// Whether `c` is an ASCII decimal digit.
pub fn is_number(c: char) -> (r: bool)
    ensures
        r == spec_is_digit(c),
{
    '0' <= c && c <= '9'
}

/// The product `2 * 3 * ... * n` taken modulo 2^32 (1 for `n < 2`).
pub open spec fn wrapping_factorial(n: nat) -> nat
    decreases n,
{
    if n < 2 {
        1
    } else {
        (wrapping_factorial((n - 1) as nat) * n) % 0x1_0000_0000
    }
}

/// Factorial of `num` with every multiplication wrapping modulo 2^32.
pub fn factorial(num: u32) -> (r: u32)
    ensures
        r as nat == wrapping_factorial(num as nat),
{
    let mut result: u32 = 1;
    let mut i: u32 = 2;
    if num < 2 {
        return 1;
    }
    while i <= num
        invariant
            2 <= i <= num as int + 1,
            result as nat == wrapping_factorial((i - 1) as nat),
        decreases num as int + 1 - i,
    {
        result = result.wrapping_mul(i);
        proof {
            assert(wrapping_factorial(i as nat) == (wrapping_factorial((i - 1) as nat) * i as nat) % 0x1_0000_0000);
        }
        if i == num {
            return result;
        }
        i = i + 1;
    }
    result
}

} // verus!
