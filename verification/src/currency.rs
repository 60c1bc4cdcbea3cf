//! The arbitrary-precision currency primitive.
//!
//! Scores and prices are `num::BigInt` values. The simulation only ever
//! builds them from machine integers and combines them with exact integer
//! arithmetic, so every operation is described here by its mathematical
//! value `big_value`, and everything downstream is proved against that
//! model.

use vstd::prelude::*;
use num::bigint::BigInt;

verus! {

#[verifier::external_type_specification]
#[verifier::external_body]
pub struct ExBigInt(BigInt);

/// The mathematical integer that a `BigInt` holds.
pub uninterp spec fn big_value(b: BigInt) -> int;

/// `b^e` over mathematical integers.
pub open spec fn pow_int(b: int, e: nat) -> int
    decreases e,
{
    if e == 0 {
        1
    } else {
        b * pow_int(b, (e - 1) as nat)
    }
}

pub proof fn lemma_pow_ge_one(b: int, e: nat)
    requires
        b >= 1,
    ensures
        pow_int(b, e) >= 1,
    decreases e,
{
    if e > 0 {
        lemma_pow_ge_one(b, (e - 1) as nat);
        assert(b * pow_int(b, (e - 1) as nat) >= 1) by (nonlinear_arith)
            requires
                b >= 1,
                pow_int(b, (e - 1) as nat) >= 1,
        ;
    }
}

/// Relies on num's `impl From<u64> for BigInt`: the result holds exactly
/// the given value.
#[verifier::external_body]
pub fn big_from_u64(x: u64) -> (r: BigInt)
    ensures
        big_value(r) == x as int,
{
    BigInt::from(x)
}

/// Relies on num's `impl Add for &BigInt`: exact addition.
#[verifier::external_body]
pub fn big_add(a: &BigInt, b: &BigInt) -> (r: BigInt)
    ensures
        big_value(r) == big_value(*a) + big_value(*b),
{
    a + b
}

/// Relies on num's `impl Sub for &BigInt`: exact subtraction.
#[verifier::external_body]
pub fn big_sub(a: &BigInt, b: &BigInt) -> (r: BigInt)
    ensures
        big_value(r) == big_value(*a) - big_value(*b),
{
    a - b
}

/// Relies on num's `impl Mul for &BigInt`: exact multiplication.
#[verifier::external_body]
pub fn big_mul(a: &BigInt, b: &BigInt) -> (r: BigInt)
    ensures
        big_value(r) == big_value(*a) * big_value(*b),
{
    a * b
}

/// Relies on num's `impl Div for &BigInt`, which truncates toward zero;
/// on non-negative operands that agrees with flooring division.
#[verifier::external_body]
pub fn big_div(a: &BigInt, b: &BigInt) -> (r: BigInt)
    requires
        big_value(*a) >= 0,
        big_value(*b) > 0,
    ensures
        big_value(r) == big_value(*a) / big_value(*b),
{
    a / b
}

/// Relies on num's `BigInt::pow`: exact integer exponentiation.
#[verifier::external_body]
pub fn big_pow(a: &BigInt, e: u32) -> (r: BigInt)
    ensures
        big_value(r) == pow_int(big_value(*a), e as nat),
{
    a.pow(e)
}

/// Relies on num's `impl Ord for BigInt`: the order of the held values.
#[verifier::external_body]
pub fn big_le(a: &BigInt, b: &BigInt) -> (r: bool)
    ensures
        r == (big_value(*a) <= big_value(*b)),
{
    a <= b
}

/// Relies on num's `impl Clone for BigInt`: the copy holds the same value.
#[verifier::external_body]
pub fn big_clone(a: &BigInt) -> (r: BigInt)
    ensures
        big_value(r) == big_value(*a),
{
    a.clone()
}


/// The character of one decimal digit.
pub open spec fn spec_dec_digit(d: int) -> char {
    if d == 0 { '0' }
    else if d == 1 { '1' }
    else if d == 2 { '2' }
    else if d == 3 { '3' }
    else if d == 4 { '4' }
    else if d == 5 { '5' }
    else if d == 6 { '6' }
    else if d == 7 { '7' }
    else if d == 8 { '8' }
    else { '9' }
}

/// The decimal digits of a non-negative integer, most significant first.
pub open spec fn spec_dec_chars(n: nat) -> Seq<char>
    decreases n,
{
    if n < 10 {
        seq![spec_dec_digit(n as int)]
    } else {
        spec_dec_chars(n / 10).push(spec_dec_digit((n % 10) as int))
    }
}

/// Relies on num's `BigInt::to_str_radix` with radix 10: the usual
/// decimal digit string, without sign for a non-negative value.
#[verifier::external_body]
pub fn big_to_dec_chars(b: &BigInt) -> (r: Vec<char>)
    requires
        big_value(*b) >= 0,
    ensures
        r@ == spec_dec_chars(big_value(*b) as nat),
{
    b.to_str_radix(10).chars().collect()
}

/// Relies on std's `FromIterator` for `String` over `char`s: the string
/// of exactly those characters.
#[verifier::external_body]
pub fn chars_to_string(v: &Vec<char>) -> (r: String)
    ensures
        r@ == v@,
{
    v.iter().collect()
}

} // verus!
