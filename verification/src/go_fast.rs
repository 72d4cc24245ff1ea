//! Two evaluations that only count turns: how soon a side could have all
//! its pieces on the far rank.

use crate::board::{Board, Height, Piece};
use crate::geometry::Color;
use crate::heuristic::{Heuristic, HeuristicPlayer};
use vstd::prelude::*;

verus! {

/// The turns that a piece of the given height needs to cover a distance:
/// the distance divided by the height, rounded up.
pub open spec fn turns_needed(distance: int, height: int) -> int {
    (distance + height - 1) / height
}

/// How far a piece is from the rank that lies farthest from its home.
pub open spec fn rank_distance(piece: Piece) -> int {
    match piece.color {
        Color::White => 7 - piece.position@.1,
        Color::Black => piece.position@.1,
    }
}

/// The turns that a piece needs to reach the far rank, counted for `color`:
/// no turns for a piece of the other color, or a dead one.
pub open spec fn rank_turns(piece: Piece, color: Color) -> int {
    if piece.color == color && piece.alive() {
        turns_needed(rank_distance(piece), piece.height.value())
    } else {
        0
    }
}

/// The summed turns to the far rank of the first `n` of `pieces`.
pub open spec fn rank_turns_upto(pieces: Seq<Piece>, color: Color, n: int) -> int
    decreases n,
{
    if n <= 0 {
        0
    } else {
        rank_turns_upto(pieces, color, n - 1) + rank_turns(pieces[n - 1], color)
    }
}

/// The turns that `color` needs to bring all its pieces to the far rank.
pub open spec fn race_length(board: Board, color: Color) -> int {
    rank_turns_upto(board.pieces@, color, 8)
}

/// The turns that a piece of height `height` needs for `distance` squares.
pub fn turns_for(distance: i8, height: &Height) -> (r: i8)
    requires
        0 <= distance <= 8,
    ensures
        r == if height.value() == 0 {
            0
        } else {
            turns_needed(distance as int, height.value())
        },
        0 <= r <= distance,
        *height != Height::Dead && distance > 0 ==> r >= 1,
{
    match height {
        Height::Dead => 0,
        Height::One => distance,
        Height::Two => (distance + 1) / 2,
        Height::Three => (distance + 2) / 3,
    }
}

/// The turns that `color` needs to bring all its pieces to the far rank.
pub fn race_turns(board: &Board, color: &Color) -> (r: i8)
    requires
        board.wf(),
    ensures
        r == race_length(*board, *color),
        0 <= r <= 56,
{
    let mut total: i8 = 0;
    let mut i: usize = 0;
    while i < 8
        invariant
            0 <= i <= 8,
            board.wf(),
            total == rank_turns_upto(board.pieces@, *color, i as int),
            0 <= total <= 7 * i,
        decreases 8 - i,
    {
        let piece = &board.pieces[i];
        if piece.color == *color && piece.height != Height::Dead {
            let distance = if *color == Color::White {
                7 - piece.position.y()
            } else {
                piece.position.y()
            };
            total += turns_for(distance, &piece.height);
        }
        i += 1;
    }
    total
}

/// Try to end the game as soon as possible: the fewer turns a side needs
/// to reach the far rank with everything, the better.
pub struct GoFastHeuristic();

impl Heuristic<i8> for GoFastHeuristic {
    open spec fn evaluate_spec(&self, board: Board, color: Color) -> i8 {
        (-race_length(board, color)) as i8
    }

    open spec fn max_spec() -> i8 {
        i8::MAX
    }

    open spec fn min_spec() -> i8 {
        i8::MIN
    }

    open spec fn draw_spec() -> i8 {
        0
    }

    fn evaluate(&self, board: &Board, color: &Color) -> (r: i8) {
        -race_turns(board, color)
    }

    fn min() -> (r: i8) {
        i8::MIN
    }

    fn max() -> (r: i8) {
        i8::MAX
    }

    fn draw() -> (r: i8) {
        0
    }
}

impl GoFastHeuristic {
    /// The player that follows this evaluation one move ahead.
    pub fn player() -> (player: HeuristicPlayer<GoFastHeuristic, i8>)
        ensures
            player.heuristic() == GoFastHeuristic(),
    {
        HeuristicPlayer::new(GoFastHeuristic())
    }
}

/// Try to always end the game faster than the opponent: what counts is by
/// how many turns a side is ahead in the race. This makes a capture worth
/// while where it slows the opponent down.
pub struct GoFasterHeuristic();

impl Heuristic<i8> for GoFasterHeuristic {
    open spec fn evaluate_spec(&self, board: Board, color: Color) -> i8 {
        (race_length(board, color.inverted()) - race_length(board, color)) as i8
    }

    open spec fn max_spec() -> i8 {
        i8::MAX
    }

    open spec fn min_spec() -> i8 {
        i8::MIN
    }

    open spec fn draw_spec() -> i8 {
        0
    }

    fn evaluate(&self, board: &Board, color: &Color) -> (r: i8) {
        race_turns(board, &color.invert()) - race_turns(board, color)
    }

    fn min() -> (r: i8) {
        i8::MIN
    }

    fn max() -> (r: i8) {
        i8::MAX
    }

    fn draw() -> (r: i8) {
        0
    }
}

impl GoFasterHeuristic {
    /// The player that follows this evaluation one move ahead.
    pub fn player() -> (player: HeuristicPlayer<GoFasterHeuristic, i8>)
        ensures
            player.heuristic() == GoFasterHeuristic(),
    {
        HeuristicPlayer::new(GoFasterHeuristic())
    }
}

} // verus!
