//! Turning a line the player typed into a move.

use vstd::prelude::*;
use crate::grid::PALETTE_SIZE;

verus! {

/// `c` is an ASCII decimal digit.
pub open spec fn is_digit(c: char) -> bool {
    '0' <= c && c <= '9'
}

/// The number written by the decimal digits of `s`, most significant first.
pub open spec fn digits_value(s: Seq<char>) -> int
    decreases s.len(),
{
    if s.len() == 0 {
        0
    } else {
        digits_value(s.drop_last()) * 10 + (s.last() as u32 - '0' as u32)
    }
}

/// What parsing `s` as a `u8` gives: an optional `+` followed by one or more
/// decimal digits whose value fits in a byte; anything else is refused.
pub open spec fn u8_of(s: Seq<char>) -> Option<u8> {
    let d = if s.len() > 0 && s[0] == '+' {
        s.drop_first()
    } else {
        s
    };
    if d.len() > 0 && (forall|k: int| 0 <= k < d.len() ==> is_digit(#[trigger] d[k]))
        && digits_value(d) <= 255 {
        Some(digits_value(d) as u8)
    } else {
        None
    }
}

/// The move that a typed number `a` stands for: moves are typed 1-based, from
/// 1 to the palette size, and are colours counted from 0.
pub open spec fn move_of(a: Option<u8>) -> Option<u8> {
    match a {
        Some(v) => if 1 <= v && v <= PALETTE_SIZE {
            Some((v - 1) as u8)
        } else {
            None
        },
        None => None,
    }
}

/// Relies on `<u8 as FromStr>::from_str` (through `str::parse`): it accepts an
/// optional `+` and decimal digits whose value fits in a `u8`, and errs on
/// everything else.
#[verifier::external_body]
fn parse_u8(s: &str) -> (r: Option<u8>)
    ensures
        r == u8_of(s@),
{
    s.parse::<u8>().ok()
}

/// The move written on `line` (already stripped of surrounding whitespace),
/// or `None` when it is not a number from 1 to the palette size.
pub fn parse_move(line: &str) -> (r: Option<u8>)
    ensures
        r == move_of(u8_of(line@)),
        r matches Some(c) ==> c < PALETTE_SIZE,
{
    match parse_u8(line) {
        Some(a) => {
            if 1 <= a && a <= PALETTE_SIZE {
                Some(a - 1)
            } else {
                None
            }
        },
        None => None,
    }
}

} // verus!
