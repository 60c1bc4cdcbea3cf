//! Score and price display formatting: a decimal integer, abbreviated
//! once its digit count passes a threshold from a fixed descending table
//! of (threshold, long name, short abbreviation) entries. The thresholds
//! run 66, 63, ..., 3; above one, the number shows its leading digits,
//! one decimal digit, and the selected name — the long form for the
//! score line, the short form for prices.

use vstd::prelude::*;
use num::bigint::BigInt;

use crate::currency::big_value;
use crate::currency::spec_dec_chars;
use crate::currency::big_to_dec_chars;
use crate::currency::chars_to_string;
use crate::state::GameState;

verus! {

/// The digit-count threshold of table row `i`: 66, 63, ..., 3.
pub open spec fn spec_threshold(i: int) -> int {
    66 - 3 * i
}

pub open spec fn spec_long_name(i: int) -> Seq<char> {
    if i == 0 { "Unvigintillion"@ }
    else if i == 1 { "Vigintillion"@ }
    else if i == 2 { "Novemdecillion"@ }
    else if i == 3 { "Octodecillion"@ }
    else if i == 4 { "Septendecillion"@ }
    else if i == 5 { "Sexdecillion"@ }
    else if i == 6 { "Quindecillion"@ }
    else if i == 7 { "Quattuordecillion"@ }
    else if i == 8 { "Tredecillion"@ }
    else if i == 9 { "Duodecillion"@ }
    else if i == 10 { "Undecillion"@ }
    else if i == 11 { "Decillion"@ }
    else if i == 12 { "Nonillion"@ }
    else if i == 13 { "Octillion"@ }
    else if i == 14 { "Septillion"@ }
    else if i == 15 { "Sextillion"@ }
    else if i == 16 { "Quintillion"@ }
    else if i == 17 { "Quadrillion"@ }
    else if i == 18 { "Trillion"@ }
    else if i == 19 { "Billion"@ }
    else if i == 20 { "Million"@ }
    else { "Thousand"@ }
}

pub open spec fn spec_short_name(i: int) -> Seq<char> {
    if i == 0 { "c"@ }
    else if i == 1 { "v"@ }
    else if i == 2 { "N"@ }
    else if i == 3 { "O"@ }
    else if i == 4 { "St"@ }
    else if i == 5 { "Sd"@ }
    else if i == 6 { "Qd"@ }
    else if i == 7 { "Qt"@ }
    else if i == 8 { "T"@ }
    else if i == 9 { "D"@ }
    else if i == 10 { "U"@ }
    else if i == 11 { "d"@ }
    else if i == 12 { "n"@ }
    else if i == 13 { "o"@ }
    else if i == 14 { "S"@ }
    else if i == 15 { "s"@ }
    else if i == 16 { "Q"@ }
    else if i == 17 { "q"@ }
    else if i == 18 { "t"@ }
    else if i == 19 { "B"@ }
    else if i == 20 { "M"@ }
    else { "K"@ }
}

/// The first table row whose threshold the digit count exceeds,
/// scanning from the largest; 22 where none applies.
pub open spec fn spec_abbrev_row(len: int, i: int) -> int
    decreases 22 - i,
{
    if i >= 22 {
        22
    } else if len > spec_threshold(i) {
        i
    } else {
        spec_abbrev_row(len, i + 1)
    }
}

/// The displayed text of a non-negative number: the full digit string
/// below the smallest threshold, else the leading digits, a point, one
/// more digit, a space and the selected name.
pub open spec fn spec_format_num(n: nat, short: bool) -> Seq<char> {
    let d = spec_dec_chars(n);
    let i = spec_abbrev_row(d.len() as int, 0);
    if i >= 22 {
        d
    } else {
        let cut = d.len() - spec_threshold(i);
        d.subrange(0, cut as int) + seq!['.'] + seq![d[cut as int]] + seq![' '] + (if short {
            spec_short_name(i)
        } else {
            spec_long_name(i)
        })
    }
}

fn long_name(i: usize) -> (r: &'static str)
    requires
        i < 22,
    ensures
        r@ == spec_long_name(i as int),
{
    match i {
        0 => "Unvigintillion",
        1 => "Vigintillion",
        2 => "Novemdecillion",
        3 => "Octodecillion",
        4 => "Septendecillion",
        5 => "Sexdecillion",
        6 => "Quindecillion",
        7 => "Quattuordecillion",
        8 => "Tredecillion",
        9 => "Duodecillion",
        10 => "Undecillion",
        11 => "Decillion",
        12 => "Nonillion",
        13 => "Octillion",
        14 => "Septillion",
        15 => "Sextillion",
        16 => "Quintillion",
        17 => "Quadrillion",
        18 => "Trillion",
        19 => "Billion",
        20 => "Million",
        _ => "Thousand",
    }
}

fn short_name(i: usize) -> (r: &'static str)
    requires
        i < 22,
    ensures
        r@ == spec_short_name(i as int),
{
    match i {
        0 => "c",
        1 => "v",
        2 => "N",
        3 => "O",
        4 => "St",
        5 => "Sd",
        6 => "Qd",
        7 => "Qt",
        8 => "T",
        9 => "D",
        10 => "U",
        11 => "d",
        12 => "n",
        13 => "o",
        14 => "S",
        15 => "s",
        16 => "Q",
        17 => "q",
        18 => "t",
        19 => "B",
        20 => "M",
        _ => "K",
    }
}

/// Renders a non-negative currency amount for display.
pub fn format_num(n: &BigInt, short: bool) -> (r: String)
    requires
        big_value(*n) >= 0,
    ensures
        r@ == spec_format_num(big_value(*n) as nat, short),
{
    let digits = big_to_dec_chars(n);
    let len = digits.len();
    let mut i: usize = 0;
    while i < 22
        invariant
            i <= 22,
            len == digits@.len(),
            digits@ == spec_dec_chars(big_value(*n) as nat),
            spec_abbrev_row(len as int, 0) == spec_abbrev_row(len as int, i as int),
        decreases 22 - i,
    {
        let thr: usize = 66 - 3 * i;
        if len > thr {
            assert(spec_abbrev_row(len as int, 0) == i);
            let cut = len - thr;
            let mut out: Vec<char> = Vec::new();
            let mut j: usize = 0;
            while j < cut
                invariant
                    j <= cut,
                    cut <= len,
                    len == digits@.len(),
                    out@ == digits@.subrange(0, j as int),
                decreases cut - j,
            {
                out.push(digits[j]);
                proof {
                    assert(out@ =~= digits@.subrange(0, j + 1));
                }
                j += 1;
            }
            out.push('.');
            out.push(digits[cut]);
            out.push(' ');
            let name = if short {
                short_name(i)
            } else {
                long_name(i)
            };
            let r = chars_to_string(&out).concat(name);
            proof {
                assert(r@ =~= spec_format_num(big_value(*n) as nat, short));
            }
            return r;
        }
        i += 1;
    }
    assert(spec_abbrev_row(len as int, 0) == 22);
    chars_to_string(&digits)
}

/// The score line of the display.
pub fn format_score(state: &GameState) -> (r: String)
    requires
        big_value(state.score) >= 0,
    ensures
        r@ == "Score: "@ + spec_format_num(big_value(state.score) as nat, false),
{
    let body = format_num(&state.score, false);
    let prefix = String::from_str("Score: ");
    prefix.concat(body.as_str())
}

} // verus!
