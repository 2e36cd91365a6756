//! Laws of the pattern numbers: every five colors are one pattern, and no
//! two patterns show the same colors.

use crate::models::{Color, WORD_LENGTH};
use crate::patterns::{
    color_of_digit, digit, digit_of_color, lemma_digit_in_base, number_of, pattern, PATTERN_COUNT,
};
use vstd::prelude::*;

verus! {

/// Writing a digit behind a number in base three: the digit comes back as
/// the remainder and the number as the quotient.
proof fn lemma_last_digit(front: int, last: int)
    requires
        0 <= last < 3,
    ensures
        (3 * front + last) / 3 == front,
        (3 * front + last) % 3 == last,
{
}

/// The five digits of a pattern number and the number that five digits
/// make.
proof fn lemma_digits_of_number(d0: int, d1: int, d2: int, d3: int, d4: int)
    requires
        0 <= d0 < 3,
        0 <= d1 < 3,
        0 <= d2 < 3,
        0 <= d3 < 3,
        0 <= d4 < 3,
    ensures
        0 <= d0 * 81 + d1 * 27 + d2 * 9 + d3 * 3 + d4 < 243,
        digit(d0 * 81 + d1 * 27 + d2 * 9 + d3 * 3 + d4, 3, 4) == d0,
        digit(d0 * 81 + d1 * 27 + d2 * 9 + d3 * 3 + d4, 3, 3) == d1,
        digit(d0 * 81 + d1 * 27 + d2 * 9 + d3 * 3 + d4, 3, 2) == d2,
        digit(d0 * 81 + d1 * 27 + d2 * 9 + d3 * 3 + d4, 3, 1) == d3,
        digit(d0 * 81 + d1 * 27 + d2 * 9 + d3 * 3 + d4, 3, 0) == d4,
{
    let n4 = d0 * 81 + d1 * 27 + d2 * 9 + d3 * 3 + d4;
    let n3 = d0 * 27 + d1 * 9 + d2 * 3 + d3;
    let n2 = d0 * 9 + d1 * 3 + d2;
    let n1 = d0 * 3 + d1;
    lemma_last_digit(n3, d4);
    lemma_last_digit(n2, d3);
    lemma_last_digit(n1, d2);
    lemma_last_digit(d0, d1);
    lemma_last_digit(0, d0);
    assert(n4 == 3 * n3 + d4);
    assert(n3 == 3 * n2 + d3);
    assert(n2 == 3 * n1 + d2);
    assert(n1 == 3 * d0 + d1);
    assert(digit(d0, 3, 0) == d0);
    assert(digit(n1, 3, 0) == d1);
    assert(digit(n1, 3, 1) == digit(d0, 3, 0));
    assert(digit(n2, 3, 0) == d2);
    assert(digit(n2, 3, 1) == digit(n1, 3, 0));
    assert(digit(n2, 3, 2) == digit(n1, 3, 1));
    assert(digit(n3, 3, 0) == d3);
    assert(digit(n3, 3, 1) == digit(n2, 3, 0));
    assert(digit(n3, 3, 2) == digit(n2, 3, 1));
    assert(digit(n3, 3, 3) == digit(n2, 3, 2));
    assert(digit(n4, 3, 0) == d4);
    assert(digit(n4, 3, 1) == digit(n3, 3, 0));
    assert(digit(n4, 3, 2) == digit(n3, 3, 1));
    assert(digit(n4, 3, 3) == digit(n3, 3, 2));
    assert(digit(n4, 3, 4) == digit(n3, 3, 3));
}

/// A number is made of its digits in base three.
proof fn lemma_number_of_digits(number: int)
    requires
        0 <= number < 243,
    ensures
        number == digit(number, 3, 4) * 81 + digit(number, 3, 3) * 27 + digit(number, 3, 2) * 9
            + digit(number, 3, 1) * 3 + digit(number, 3, 0),
{
    let n3 = number / 3;
    let n2 = n3 / 3;
    let n1 = n2 / 3;
    let n0 = n1 / 3;
    assert(number == 3 * n3 + number % 3);
    assert(n3 == 3 * n2 + n3 % 3);
    assert(n2 == 3 * n1 + n2 % 3);
    assert(n1 == 3 * n0 + n1 % 3);
    assert(0 <= n0 < 3);
    assert(n0 % 3 == n0);
    assert(digit(number, 3, 0) == number % 3);
    assert(digit(n3, 3, 0) == n3 % 3);
    assert(digit(n2, 3, 0) == n2 % 3);
    assert(digit(n1, 3, 0) == n1 % 3);
    assert(digit(n0, 3, 0) == n0);
    assert(digit(n1, 3, 1) == digit(n0, 3, 0));
    assert(digit(n2, 3, 1) == digit(n1, 3, 0));
    assert(digit(n2, 3, 2) == digit(n1, 3, 1));
    assert(digit(n3, 3, 1) == digit(n2, 3, 0));
    assert(digit(n3, 3, 2) == digit(n2, 3, 1));
    assert(digit(n3, 3, 3) == digit(n2, 3, 2));
    assert(digit(number, 3, 1) == digit(n3, 3, 0));
    assert(digit(number, 3, 2) == digit(n3, 3, 1));
    assert(digit(number, 3, 3) == digit(n3, 3, 2));
    assert(digit(number, 3, 4) == digit(n3, 3, 3));
}

/// Any five colors are a feedback pattern, and `number_of` gives its number.
pub proof fn lemma_pattern_of_number(colors: Seq<Color>)
    requires
        colors.len() == WORD_LENGTH,
    ensures
        0 <= number_of(colors) < PATTERN_COUNT,
        pattern(number_of(colors)) == colors,
{
    lemma_digits_of_number(
        digit_of_color(colors[0]),
        digit_of_color(colors[1]),
        digit_of_color(colors[2]),
        digit_of_color(colors[3]),
        digit_of_color(colors[4]),
    );
    let number = number_of(colors);
    assert forall|i: int| 0 <= i < WORD_LENGTH implies pattern(number)[i] == colors[i] by {
        assert(color_of_digit(digit_of_color(colors[i])) == colors[i]);
    }
    assert(pattern(number) =~= colors);
}

/// `number_of` gives every feedback pattern its own number back.
pub proof fn lemma_number_of_pattern(number: int)
    requires
        0 <= number < PATTERN_COUNT,
    ensures
        number_of(pattern(number)) == number,
{
    lemma_number_of_digits(number);
    lemma_digit_in_base(number, 3, 0);
    lemma_digit_in_base(number, 3, 1);
    lemma_digit_in_base(number, 3, 2);
    lemma_digit_in_base(number, 3, 3);
    lemma_digit_in_base(number, 3, 4);
    assert(pattern(number)[0] == color_of_digit(digit(number, 3, 4)));
    assert(pattern(number)[1] == color_of_digit(digit(number, 3, 3)));
    assert(pattern(number)[2] == color_of_digit(digit(number, 3, 2)));
    assert(pattern(number)[3] == color_of_digit(digit(number, 3, 1)));
    assert(pattern(number)[4] == color_of_digit(digit(number, 3, 0)));
}

} // verus!
