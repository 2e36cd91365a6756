//! The feedback patterns that one guess can produce, in a fixed order.

use crate::models::{Color, WORD_LENGTH};
use itertools::Itertools;
use vstd::arithmetic::power::pow;
use vstd::prelude::*;

verus! {

/// Number of feedback patterns that one guess can produce: three colors at
/// each of the five positions.
pub const PATTERN_COUNT: usize = 243;

/// The digit of `number` at `place` when written in base `base`, where place
/// zero holds the least significant digit.
pub open spec fn digit(number: int, base: int, place: nat) -> int
    decreases place,
{
    if place == 0 {
        number % base
    } else {
        digit(number / base, base, (place - 1) as nat)
    }
}

/// The colors in the order in which the patterns run through them.
pub open spec fn color_of_digit(d: int) -> Color {
    if d == 0 {
        Color::Grey
    } else if d == 1 {
        Color::Yellow
    } else {
        Color::Green
    }
}

/// The feedback pattern with the given number: one color for each position.
///
/// The patterns are numbered like the readings of an odometer whose wheels
/// show `Grey`, `Yellow`, `Green` in turn, the wheel of the last position
/// turning fastest.
pub open spec fn pattern(number: int) -> Seq<Color> {
    Seq::new(
        WORD_LENGTH as nat,
        |position: int| color_of_digit(digit(number, 3, (WORD_LENGTH - 1 - position) as nat)),
    )
}

/// Every way to give each of `positions` positions one of three colors.
///
/// Calls `Itertools::multi_cartesian_product` on `positions` copies of
/// `colors`. The contract claims what that iterator yields: one vector for
/// each of the `3^positions` colorings, each of `positions` items, and in
/// odometer order: the color at position `i` of the vector with number `k`
/// is the color whose index in `colors` is the digit of `k` in base three
/// that has `positions - 1 - i` digits after it.
#[verifier::external_body]
fn every_coloring(colors: [Color; 3], positions: usize) -> (colorings: Vec<Vec<Color>>)
    requires
        positions <= WORD_LENGTH,
    ensures
        colorings@.len() == pow(3, positions as nat),
        forall|k: int|
            0 <= k < colorings@.len() ==> (#[trigger] colorings@[k])@.len() == positions,
        forall|k: int, i: int|
            0 <= k < colorings@.len() && 0 <= i < positions ==> (#[trigger] colorings@[k]@[i])
                == colors@[digit(k, 3, (positions - 1 - i) as nat)],
{
    std::iter::repeat(colors).take(positions).multi_cartesian_product().collect()
}

/// A digit in base `base` lies below `base`.
pub proof fn lemma_digit_in_base(number: int, base: int, place: nat)
    requires
        base > 0,
    ensures
        0 <= digit(number, base, place) < base,
    decreases place,
{
    if place > 0 {
        lemma_digit_in_base(number / base, base, (place - 1) as nat);
    }
}

/// All feedback patterns that one guess can produce, in the order of their
/// numbers.
pub fn feedback_patterns() -> (patterns: Vec<Vec<Color>>)
    ensures
        patterns@.len() == PATTERN_COUNT,
        forall|k: int| 0 <= k < PATTERN_COUNT ==> (#[trigger] patterns@[k])@ == pattern(k),
{
    let patterns = every_coloring([Color::Grey, Color::Yellow, Color::Green], WORD_LENGTH);
    proof {
        reveal_with_fuel(pow, 6);
        assert(pow(3, 5) == 243);
        assert forall|k: int| 0 <= k < PATTERN_COUNT implies (#[trigger] patterns@[k])@
            == pattern(k) by {
            assert forall|i: int| 0 <= i < WORD_LENGTH implies patterns@[k]@[i] == pattern(k)[i] by {
                lemma_digit_in_base(k, 3, (WORD_LENGTH - 1 - i) as nat);
            }
            assert(patterns@[k]@ =~= pattern(k));
        }
    }
    patterns
}

/// The place of a color in the order in which the patterns run through
/// the colors.
pub open spec fn digit_of_color(color: Color) -> int {
    match color {
        Color::Grey => 0,
        Color::Yellow => 1,
        Color::Green => 2,
    }
}

/// The number of the feedback pattern that shows the given five colors.
pub open spec fn number_of(colors: Seq<Color>) -> int {
    digit_of_color(colors[0]) * 81 + digit_of_color(colors[1]) * 27 + digit_of_color(colors[2])
        * 9 + digit_of_color(colors[3]) * 3 + digit_of_color(colors[4])
}

} // verus!
