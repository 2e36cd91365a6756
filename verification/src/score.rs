//! Scores as integers.
//!
//! A score is a single-precision number in the IEEE 754 binary format. The
//! library never computes with such numbers; it only orders words by them.
//! For that it holds each score as an integer code that orders as the
//! numbers do.

use vstd::prelude::*;

verus! {

/// The lowest bit pattern that has the sign bit set.
pub const SIGN_BIT: u32 = 0x8000_0000;

/// The code of the score with the given bit pattern.
///
/// A pattern without the sign bit is a number that is not negative, and such
/// numbers grow with their patterns: the code is the pattern. A pattern with
/// the sign bit is a negative number, and those fall as their patterns grow:
/// the code counts down from `-1`, which stands for negative zero. Codes so
/// order as the numbers do, with negative zero below zero.
pub open spec fn code_of_bits(bits: u32) -> int {
    if bits < SIGN_BIT {
        bits as int
    } else {
        SIGN_BIT - 1 - bits
    }
}

/// The code of the score with the given bit pattern.
pub fn score_code(bits: u32) -> (code: i32)
    ensures
        code == code_of_bits(bits),
{
    if bits < SIGN_BIT {
        bits as i32
    } else {
        let below_zero: i64 = (SIGN_BIT as i64) - 1 - (bits as i64);
        below_zero as i32
    }
}

/// The bit pattern of the score with the given code.
pub fn score_bits(code: i32) -> (bits: u32)
    ensures
        code_of_bits(bits) == code,
{
    if code >= 0 {
        code as u32
    } else {
        let pattern: i64 = (SIGN_BIT as i64) - 1 - (code as i64);
        pattern as u32
    }
}

/// No two bit patterns share a code: a score is found again from its code.
pub proof fn lemma_code_is_one_to_one(first: u32, second: u32)
    requires
        code_of_bits(first) == code_of_bits(second),
    ensures
        first == second,
{
}

/// Among the patterns without the sign bit the codes rise with the patterns,
/// among those with the sign bit they fall, and every pattern with the sign
/// bit has a code below that of every pattern without.
pub proof fn lemma_code_order(first: u32, second: u32)
    ensures
        first < second < SIGN_BIT ==> code_of_bits(first) < code_of_bits(second),
        SIGN_BIT <= first < second ==> code_of_bits(first) > code_of_bits(second),
        first >= SIGN_BIT > second ==> code_of_bits(first) < code_of_bits(second),
{
}

} // verus!
