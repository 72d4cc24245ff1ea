//! An evaluation that weighs what each side could still score against the
//! turns it would need to score it.
//!
//! Both sides are taken to race for their score bands without getting in
//! each other's way. The race is over as soon as either side has scored
//! everything, so each side's points are counted in proportion to the turns
//! it gets.

use crate::board::{potential_upto, Board, Height, Piece, Winner};
use crate::fraction::{lowest_terms, Fraction};
use crate::geometry::Color;
use crate::go_fast::{turns_for, turns_needed};
use crate::heuristic::{HResult, Heuristic};
use vstd::prelude::*;

verus! {

/// How far a piece is from the band in which it scores.
pub open spec fn zone_distance(piece: Piece) -> int {
    match piece.color {
        Color::White => 8 - piece.position@.1,
        Color::Black => 1 + piece.position@.1,
    }
}

/// The turns that a piece needs to score, counted for `color`: no turns for
/// a piece of the other color, or a dead one.
pub open spec fn zone_turns(piece: Piece, color: Color) -> int {
    if piece.color == color && piece.alive() {
        turns_needed(zone_distance(piece), piece.height.value())
    } else {
        0
    }
}

/// The summed turns to score of the first `n` of `pieces`.
pub open spec fn zone_turns_upto(pieces: Seq<Piece>, color: Color, n: int) -> int
    decreases n,
{
    if n <= 0 {
        0
    } else {
        zone_turns_upto(pieces, color, n - 1) + zone_turns(pieces[n - 1], color)
    }
}

/// The turns that `color` needs to score with all its pieces.
pub open spec fn scoring_turns(board: Board, color: Color) -> int {
    zone_turns_upto(board.pieces@, color, 8)
}

/// The fraction with the given parts.
pub open spec fn fraction_of(parts: (int, int)) -> Fraction {
    Fraction { numer: parts.0 as i32, denom: parts.1 as i32 }
}

/// The share of `points` that a side gets which needs `own_turns` turns
/// for them, when the race lasts `turns` turns: a fraction in lowest terms.
pub open spec fn share(points: int, turns: int, own_turns: int) -> (int, int) {
    lowest_terms(points * turns, own_turns)
}

/// By how much the first of two fractions exceeds the second, in lowest
/// terms.
pub open spec fn difference(a: (int, int), b: (int, int)) -> (int, int) {
    lowest_terms(a.0 * b.1 - b.0 * a.1, a.1 * b.1)
}

/// The estimate for an open board: the points that `color` gets out of the
/// race less those that its opponent gets.
pub open spec fn race_estimate(board: Board, color: Color) -> Fraction {
    let ours = board.potential(color);
    let theirs = board.potential(color.inverted());
    let our_turns = scoring_turns(board, color);
    let their_turns = scoring_turns(board, color.inverted());
    let turns = if our_turns <= their_turns {
        our_turns
    } else {
        their_turns
    };
    fraction_of(difference(share(ours, turns, our_turns), share(theirs, turns, their_turns)))
}

/// The value to `color` of a game that ended as `winner` says.
pub open spec fn outcome_value<T>(winner: Winner, color: Color) -> HResult<T> {
    match winner.color_spec() {
        None => HResult::Draw,
        Some(c) => if c == color {
            HResult::Win
        } else {
            HResult::Loss
        },
    }
}

/// On a board with its pieces in place, a side's potential is at most 12,
/// its turns to score are at most 32, and it needs at least one turn while
/// it has any potential.
pub proof fn lemma_race_bounds(board: Board, color: Color)
    requires
        board.placed(),
    ensures
        0 <= board.potential(color) <= 12,
        0 <= scoring_turns(board, color) <= 32,
        board.potential(color) > 0 ==> scoring_turns(board, color) >= 1,
{
    reveal_with_fuel(potential_upto, 9);
    reveal_with_fuel(zone_turns_upto, 9);
    assert forall|i: int| 0 <= i < 8 implies 0 <= zone_turns(#[trigger] board.pieces@[i], color)
        <= 8 && (crate::board::worth(board.pieces@[i], color) > 0 ==> zone_turns(
        board.pieces@[i],
        color,
    ) >= 1) by {
        let piece = board.pieces[i];
        assert(piece.position.wf());
    }
    assert(board.pieces[0].color == Color::White);
    assert(board.pieces[1].color == Color::White);
    assert(board.pieces[2].color == Color::White);
    assert(board.pieces[3].color == Color::White);
    assert(board.pieces[4].color == Color::Black);
    assert(board.pieces[5].color == Color::Black);
    assert(board.pieces[6].color == Color::Black);
    assert(board.pieces[7].color == Color::Black);
}

/// The value to `color` of a game that `winner` won.
pub fn value_of_outcome<T>(winner: &Winner, color: &Color) -> (r: HResult<T>)
    ensures
        r == outcome_value::<T>(*winner, *color),
{
    match winner.color() {
        None => HResult::Draw,
        Some(c) => if c == *color {
            HResult::Win
        } else {
            HResult::Loss
        },
    }
}

/// Weighs points against turns, for a race in which nobody captures.
pub struct NaiveHeuristic();

impl Heuristic<HResult<Fraction>> for NaiveHeuristic {
    open spec fn evaluate_spec(&self, board: Board, color: Color) -> HResult<Fraction> {
        match board.winner_spec() {
            Some(winner) => outcome_value(winner, color),
            None => HResult::Unknown(race_estimate(board, color)),
        }
    }

    open spec fn max_spec() -> HResult<Fraction> {
        HResult::Win
    }

    open spec fn min_spec() -> HResult<Fraction> {
        HResult::Loss
    }

    open spec fn draw_spec() -> HResult<Fraction> {
        HResult::Draw
    }

    fn evaluate(&self, board: &Board, color: &Color) -> (r: HResult<Fraction>) {
        if let Some(winner) = board.winner() {
            return value_of_outcome(&winner, color);
        }
        let (our_score, our_turns) = Self::score_and_turns(board, color);
        let (their_score, their_turns) = Self::score_and_turns(board, &color.invert());
        let turns = if our_turns <= their_turns {
            our_turns
        } else {
            their_turns
        };
        proof {
            lemma_race_bounds(*board, *color);
            lemma_race_bounds(*board, color.inverted());
            assert(0 <= our_score * turns <= 12 * 32) by (nonlinear_arith)
                requires
                    0 <= our_score <= 12,
                    0 <= turns <= 32,
            ;
            assert(0 <= their_score * turns <= 12 * 32) by (nonlinear_arith)
                requires
                    0 <= their_score <= 12,
                    0 <= turns <= 32,
            ;
        }
        let ours = Fraction::new(our_score * turns, our_turns);
        let theirs = Fraction::new(their_score * turns, their_turns);
        proof {
            let (a, b) = (ours.numer as int, ours.denom as int);
            let (c, d) = (theirs.numer as int, theirs.denom as int);
            assert(b * d <= 32 * 32 && (if a < 0 {
                -a
            } else {
                a
            }) * d + (if c < 0 {
                -c
            } else {
                c
            }) * b <= 2 * 384 * 32) by (nonlinear_arith)
                requires
                    -384 <= a <= 384,
                    -384 <= c <= 384,
                    0 < b <= 32,
                    0 < d <= 32,
            ;
        }
        HResult::Unknown(ours.sub(&theirs))
    }

    fn min() -> (r: HResult<Fraction>) {
        HResult::Loss
    }

    fn max() -> (r: HResult<Fraction>) {
        HResult::Win
    }

    fn draw() -> (r: HResult<Fraction>) {
        HResult::Draw
    }
}

impl NaiveHeuristic {
    /// What `color` could still score, and the turns it would need to score
    /// it with every piece.
    pub fn score_and_turns(board: &Board, color: &Color) -> (r: (i32, i32))
        requires
            board.wf(),
        ensures
            r.0 == board.potential(*color),
            r.1 == scoring_turns(*board, *color),
    {
        let mut score: i32 = 0;
        let mut sum_turns: i32 = 0;
        let mut i: usize = 0;
        while i < 8
            invariant
                0 <= i <= 8,
                board.wf(),
                score == potential_upto(board.pieces@, *color, i as int),
                sum_turns == zone_turns_upto(board.pieces@, *color, i as int),
                0 <= score <= 3 * i,
                0 <= sum_turns <= 8 * i,
            decreases 8 - i,
        {
            let piece = &board.pieces[i];
            if piece.color == *color && piece.height != Height::Dead {
                let distance: i8 = if *color == Color::White {
                    8 - piece.position.y()
                } else {
                    1 + piece.position.y()
                };
                score += height_points(&piece.height);
                sum_turns += wide(turns_for(distance, &piece.height));
            }
            i += 1;
        }
        (score, sum_turns)
    }
}

/// The height as a 32-bit number.
fn height_points(height: &Height) -> (r: i32)
    ensures
        r == height.value(),
{
    height.points() as i32
}

/// A small number in 32 bits.
fn wide(x: i8) -> (r: i32)
    ensures
        r == x,
{
    x as i32
}

} // verus!
