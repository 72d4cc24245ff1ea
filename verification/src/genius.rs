//! An evaluation by point density: what a side's pieces are worth, set
//! against the turns they need to reach the far rank, averaged over the
//! scenarios in which the opponent captures or does not.
//!
//! Each live piece of a side is described by its height, its distance from
//! the far rank, and whether the opponent could capture it right now. With
//! `n` such pieces there are `2^n` scenarios. In a scenario a piece counts
//! with its height, less one if the scenario has it captured, and with the
//! turns that this height needs for its distance. The scenarios are
//! numbered, and scenario `mask` has the piece at `index` captured if the
//! lowest bit of `mask << index` is set: that is the first piece in the odd
//! scenarios, and no other piece in any.

use crate::board::{Board, Height, Move};
use crate::fraction::{lowest_terms, magnitude, Fraction};
use crate::geometry::Color;
use crate::go_fast::{rank_distance, turns_needed};
use crate::heuristic::{HResult, Heuristic, HeuristicPlayer};
use crate::naive::{fraction_of, outcome_value, value_of_outcome};
use crate::rank::{lower, Ranked};
use vstd::prelude::*;

verus! {

/// Whether scenario `mask` has the piece at `index` captured.
pub open spec fn captured_in(mask: int, index: int) -> bool {
    index == 0 && mask % 2 == 1
}

/// The height with which an entry counts in scenario `mask`.
pub open spec fn scenario_height(mask: int, index: int, entry: (i8, i8, bool)) -> int {
    if entry.2 && captured_in(mask, index) {
        entry.0 - 1
    } else {
        entry.0 as int
    }
}

/// The summed heights, in scenario `mask`, of the first `n` entries.
pub open spec fn scenario_score_upto(mask: int, data: Seq<(i8, i8, bool)>, n: int) -> int
    decreases n,
{
    if n <= 0 {
        0
    } else {
        let height = scenario_height(mask, n - 1, data[n - 1]);
        scenario_score_upto(mask, data, n - 1) + if height > 0 {
            height
        } else {
            0
        }
    }
}

/// The summed turns, in scenario `mask`, of the first `n` entries. An
/// entry that counts with no height takes no turns.
pub open spec fn scenario_turns_upto(mask: int, data: Seq<(i8, i8, bool)>, n: int) -> int
    decreases n,
{
    if n <= 0 {
        0
    } else {
        let height = scenario_height(mask, n - 1, data[n - 1]);
        scenario_turns_upto(mask, data, n - 1) + if height > 0 {
            turns_needed(data[n - 1].1 as int, height)
        } else {
            0
        }
    }
}

/// Whether the entries are such as a board gives: at most eight, heights
/// up to 3, distances up to 8.
pub open spec fn plausible(data: Seq<(i8, i8, bool)>) -> bool {
    &&& data.len() <= 8
    &&& forall|i: int|
        0 <= i < data.len() ==> 0 <= (#[trigger] data[i]).0 <= 3 && 0 <= data[i].1 <= 8
}

/// The scores of the scenarios below `count`, summed.
pub open spec fn total_score(data: Seq<(i8, i8, bool)>, count: int) -> int
    decreases count,
{
    if count <= 0 {
        0
    } else {
        total_score(data, count - 1) + scenario_score_upto(count - 1, data, data.len() as int)
    }
}

/// The turns of the scenarios below `count`, summed.
pub open spec fn total_turns(data: Seq<(i8, i8, bool)>, count: int) -> int
    decreases count,
{
    if count <= 0 {
        0
    } else {
        total_turns(data, count - 1) + scenario_turns_upto(count - 1, data, data.len() as int)
    }
}

/// Two to the power `n`.
pub open spec fn two_to(n: int) -> int
    decreases n,
{
    if n <= 0 {
        1
    } else {
        2 * two_to(n - 1)
    }
}

/// Whether the opponent of the piece in slot `i` has a move that captures
/// it.
pub open spec fn capturable(board: Board, i: int) -> bool {
    board.side_moves(board.pieces[i].color.inverted()).contains(Move::Boom(i as usize))
}

/// How the piece in slot `i` enters the estimate.
pub open spec fn entry_of(board: Board, i: int) -> (i8, i8, bool) {
    let piece = board.pieces[i];
    (piece.height.value() as i8, rank_distance(piece) as i8, capturable(board, i))
}

/// The entries of the live pieces of `color` in the slots below `n`.
pub open spec fn entries_upto(board: Board, color: Color, n: int) -> Seq<(i8, i8, bool)>
    decreases n,
{
    if n <= 0 {
        Seq::empty()
    } else {
        let piece = board.pieces[n - 1];
        entries_upto(board, color, n - 1) + if piece.color == color && piece.alive() {
            seq![entry_of(board, n - 1)]
        } else {
            Seq::empty()
        }
    }
}

/// What `color` can expect to score in all, and the turns it can expect to
/// need: its banked points plus the average scenario score, in lowest
/// terms, and the average scenario turns, as summed turns over the number
/// of scenarios.
pub open spec fn estimate_spec(board: Board, color: Color) -> (Fraction, Fraction) {
    let data = entries_upto(board, color, 8);
    let count = two_to(data.len() as int);
    (
        fraction_of(
            lowest_terms(total_score(data, count) + count * board.score(color), count),
        ),
        fraction_of((total_turns(data, count), count)),
    )
}

/// The product of two fractions, in lowest terms.
pub open spec fn product(a: Fraction, b: Fraction) -> Fraction {
    fraction_of(lowest_terms(a.numer * b.numer, a.denom * b.denom))
}

/// The quotient of two fractions, in lowest terms.
pub open spec fn quotient(a: Fraction, b: Fraction) -> Fraction {
    fraction_of(lowest_terms(a.numer * b.denom, a.denom * b.numer))
}

/// The points of a side cut down to the share of its turns that the race
/// lasts. A side that needs no turns keeps its points.
pub open spec fn scaled(points: Fraction, race: Fraction, own_turns: Fraction) -> Fraction {
    if own_turns.numer > 0 {
        quotient(product(points, race), own_turns)
    } else {
        points
    }
}

/// The estimate for an open board: the scaled points of `color` less those
/// of its opponent, or zero where the difference cannot be taken in 32
/// bits.
pub open spec fn density_estimate(board: Board, color: Color) -> Fraction {
    let (our_score, our_turns) = estimate_spec(board, color);
    let (their_score, their_turns) = estimate_spec(board, color.inverted());
    let race = if their_turns.le(&our_turns) && !our_turns.le(&their_turns) {
        their_turns
    } else {
        our_turns
    };
    let ours = scaled(our_score, race, our_turns);
    let theirs = scaled(their_score, race, their_turns);
    if ours.can_sub(&theirs) {
        fraction_of(
            lowest_terms(
                ours.numer * theirs.denom - theirs.numer * ours.denom,
                ours.denom * theirs.denom,
            ),
        )
    } else {
        Fraction::zero_spec()
    }
}

/// In a scenario, plausible entries score at most 3 each and take at most
/// 8 turns each.
pub proof fn lemma_scenario_bounds(mask: int, data: Seq<(i8, i8, bool)>, n: int)
    requires
        plausible(data),
        0 <= n <= data.len(),
    ensures
        0 <= scenario_score_upto(mask, data, n) <= 3 * n,
        0 <= scenario_turns_upto(mask, data, n) <= 8 * n,
    decreases n,
{
    if n > 0 {
        lemma_scenario_bounds(mask, data, n - 1);
        let entry = data[n - 1];
        let height = scenario_height(mask, n - 1, entry);
        if height > 0 {
            assert(0 <= turns_needed(entry.1 as int, height) <= 8) by (nonlinear_arith)
                requires
                    1 <= height <= 3,
                    0 <= entry.1 <= 8,
                    turns_needed(entry.1 as int, height) == (entry.1 + height - 1) / height,
            ;
        }
    }
}

/// The sums over the scenarios are bounded by the number of scenarios.
pub proof fn lemma_total_bounds(data: Seq<(i8, i8, bool)>, count: int)
    requires
        plausible(data),
        0 <= count,
    ensures
        0 <= total_score(data, count) <= 3 * data.len() * count,
        0 <= total_turns(data, count) <= 8 * data.len() * count,
    decreases count,
{
    if count > 0 {
        lemma_total_bounds(data, count - 1);
        lemma_scenario_bounds(count - 1, data, data.len() as int);
        let n = data.len() as int;
        assert(3 * n * (count - 1) + 3 * n == 3 * n * count) by (nonlinear_arith);
        assert(8 * n * (count - 1) + 8 * n == 8 * n * count) by (nonlinear_arith);
    }
}

/// On a board with its pieces in place, a side has at most four entries,
/// and they are plausible.
pub proof fn lemma_entries(board: Board, color: Color, n: int)
    requires
        board.placed(),
        0 <= n <= 8,
    ensures
        plausible(entries_upto(board, color, n)),
        entries_upto(board, color, n).len() <= match color {
            Color::White => if n <= 4 {
                n
            } else {
                4
            },
            Color::Black => if n <= 4 {
                0
            } else {
                n - 4
            },
        },
        forall|i: int|
            0 <= i < entries_upto(board, color, n).len() ==> (#[trigger] entries_upto(
                board,
                color,
                n,
            )[i]).1 <= 7,
    decreases n,
{
    if n > 0 {
        lemma_entries(board, color, n - 1);
        let piece = board.pieces[n - 1];
        assert(piece.position.wf());
    }
}

/// Whether scenario `mask` has the piece at `index` captured.
fn captured(mask: usize, index: usize) -> (r: bool)
    requires
        index < 8,
    ensures
        r == captured_in(mask as int, index as int),
{
    proof {
        assert(((mask << index) & 1 == 1) == (index == 0 && mask % 2 == 1)) by (bit_vector)
            requires
                index < 8,
        ;
    }
    (mask << index) & 1 == 1
}

/// The turns that a height of 1 to 3 needs for a distance.
fn turns_of(distance: i8, height: i8) -> (r: i8)
    requires
        1 <= height <= 3,
        0 <= distance <= 8,
    ensures
        r == turns_needed(distance as int, height as int),
        0 <= r <= 8,
{
    if height == 1 {
        distance
    } else if height == 2 {
        (distance + 1) / 2
    } else {
        (distance + 2) / 3
    }
}

/// The number of scenarios for `n` pieces.
fn scenario_count(n: usize) -> (r: usize)
    requires
        n <= 4,
    ensures
        r == two_to(n as int),
        1 <= r <= 16,
{
    proof {
        reveal_with_fuel(two_to, 5);
        assert(1usize << 0usize == 1) by (bit_vector);
        assert(1usize << 1usize == 2) by (bit_vector);
        assert(1usize << 2usize == 4) by (bit_vector);
        assert(1usize << 3usize == 8) by (bit_vector);
        assert(1usize << 4usize == 16) by (bit_vector);
    }
    1usize << n
}

/// Estimates by point density, over the scenarios of capture.
pub struct GeniusHeuristic();

impl Heuristic<HResult<Fraction>> for GeniusHeuristic {
    open spec fn evaluate_spec(&self, board: Board, color: Color) -> HResult<Fraction> {
        match board.winner_spec() {
            Some(winner) => outcome_value(winner, color),
            None => HResult::Unknown(density_estimate(board, color)),
        }
    }

    open spec fn max_spec() -> HResult<Fraction> {
        HResult::Win
    }

    open spec fn min_spec() -> HResult<Fraction> {
        HResult::Loss
    }

    open spec fn draw_spec() -> HResult<Fraction> {
        HResult::Draw
    }

    fn evaluate(&self, board: &Board, color: &Color) -> (r: HResult<Fraction>) {
        if let Some(winner) = board.winner() {
            return value_of_outcome(&winner, color);
        }
        let (our_score, our_turns) = Self::estimate_score_and_turns(board, color);
        let (their_score, their_turns) = Self::estimate_score_and_turns(board, &color.invert());
        let race = lower(our_turns, their_turns);
        let ours = Self::scale(our_score, &race, &our_turns);
        let theirs = Self::scale(their_score, &race, &their_turns);
        match ours.checked_sub(&theirs) {
            Some(estimate) => HResult::Unknown(estimate),
            None => HResult::Unknown(Fraction::zero()),
        }
    }

    fn min() -> (r: HResult<Fraction>) {
        HResult::Loss
    }

    fn max() -> (r: HResult<Fraction>) {
        HResult::Win
    }

    fn draw() -> (r: HResult<Fraction>) {
        HResult::Draw
    }
}

impl GeniusHeuristic {
    /// Whether a pair of fractions is within what a board can give: the
    /// points up to what sixteen scenarios and a full counter add up to,
    /// the turns up to what sixteen scenarios of four pieces take.
    pub open spec fn in_range(estimate: (Fraction, Fraction)) -> bool {
        &&& 0 < estimate.0.denom <= 16
        &&& -4272 <= estimate.0.numer <= 4272
        &&& 0 < estimate.1.denom <= 16
        &&& 0 <= estimate.1.numer <= 512
    }

    /// The player that follows this evaluation one move ahead.
    pub fn player() -> (player: HeuristicPlayer<GeniusHeuristic, HResult<Fraction>>)
        ensures
            player.heuristic() == GeniusHeuristic(),
    {
        HeuristicPlayer::new(GeniusHeuristic())
    }

    /// Cuts the points of a side down to the share of its turns that the
    /// race lasts.
    fn scale(points: Fraction, race: &Fraction, own_turns: &Fraction) -> (r: Fraction)
        requires
            0 < points.denom <= 16,
            -4272 <= points.numer <= 4272,
            0 < race.denom <= 16,
            0 <= race.numer <= 512,
            0 < own_turns.denom <= 16,
            0 <= own_turns.numer <= 512,
        ensures
            r == scaled(points, *race, *own_turns),
            r.denom > 0,
    {
        if own_turns.numer > 0 {
            proof {
                let a = magnitude(points.numer as int);
                let b = points.denom as int;
                let c = magnitude(race.numer as int);
                let d = race.denom as int;
                assert(0 <= a * c <= 4272 * 512 && 0 < b * d <= 256) by (nonlinear_arith)
                    requires
                        0 <= a <= 4272,
                        0 <= c <= 512,
                        0 < b <= 16,
                        0 < d <= 16,
                ;
                let n = points.numer * race.numer;
                assert(magnitude(n) == a * c) by (nonlinear_arith)
                    requires
                        n == points.numer * race.numer,
                        a == magnitude(points.numer as int),
                        c == magnitude(race.numer as int),
                ;
            }
            let through = points.mul(race);
            proof {
                let a = magnitude(through.numer as int);
                let b = through.denom as int;
                let c = magnitude(own_turns.numer as int);
                let d = own_turns.denom as int;
                assert(0 <= a * d <= 2187264 * 16 && 0 < b * c <= 256 * 512) by (nonlinear_arith)
                    requires
                        0 <= a <= 2187264,
                        0 < c <= 512,
                        0 < b <= 256,
                        0 < d <= 16,
                ;
            }
            through.div(own_turns)
        } else {
            points
        }
    }

    /// What `color` can expect to score in all, and the turns it can expect
    /// to need for it.
    pub fn estimate_score_and_turns(board: &Board, color: &Color) -> (r: (Fraction, Fraction))
        requires
            board.wf(),
        ensures
            r == estimate_spec(*board, *color),
            Self::in_range(r),
    {
        // Which pieces the opponent could capture right now.
        let threats = board.legal_moves(&color.invert()).collect();
        let mut exposed: [bool; 8] = [false;8];
        let mut k: usize = 0;
        while k < threats.len()
            invariant
                0 <= k <= threats.len(),
                forall|j: int|
                    0 <= j < 8 ==> (#[trigger] exposed[j] <==> exists|t: int|
                        0 <= t < k && threats[t] == Move::Boom(j as usize)),
            decreases threats.len() - k,
        {
            if let Move::Boom(target) = threats[k] {
                if target < 8 {
                    exposed[target] = true;
                }
            }
            k += 1;
        }
        // Height, distance and exposure of each live piece of the side.
        let mut data: Vec<(i8, i8, bool)> = Vec::new();
        let mut i: usize = 0;
        while i < 8
            invariant
                0 <= i <= 8,
                board.wf(),
                threats@ == board.side_moves(color.inverted()),
                forall|j: int|
                    0 <= j < 8 ==> (#[trigger] exposed[j] <==> threats@.contains(
                        Move::Boom(j as usize),
                    )),
                data@ == entries_upto(*board, *color, i as int),
            decreases 8 - i,
        {
            let piece = &board.pieces[i];
            if piece.color == *color && piece.height != Height::Dead {
                let distance = if *color == Color::White {
                    7 - piece.position.y()
                } else {
                    piece.position.y()
                };
                data.push((small(piece.height.points()), distance, exposed[i]));
            }
            i += 1;
        }
        proof {
            lemma_entries(*board, *color, 8);
        }
        let scenarios = scenario_count(data.len());
        let mut sum_score: i32 = 0;
        let mut sum_turns: i32 = 0;
        let mut mask: usize = 0;
        while mask < scenarios
            invariant
                0 <= mask <= scenarios <= 16,
                plausible(data@),
                data@.len() <= 4,
                sum_score == total_score(data@, mask as int),
                sum_turns == total_turns(data@, mask as int),
                0 <= sum_score <= 12 * mask,
                0 <= sum_turns <= 32 * mask,
            decreases scenarios - mask,
        {
            let (score, turns) = Self::score_and_turns(mask, data.as_slice());
            proof {
                lemma_scenario_bounds(mask as int, data@, data@.len() as int);
            }
            sum_score += widen(score);
            sum_turns += widen(turns);
            mask += 1;
        }
        let banked: i32 = match color {
            Color::White => board.white_score as i32,
            Color::Black => board.black_score as i32,
        };
        let count: i32 = scenarios as i32;
        proof {
            assert(0 <= count * banked <= 16 * 255) by (nonlinear_arith)
                requires
                    0 < count <= 16,
                    0 <= banked <= 255,
            ;
        }
        let average_score = Fraction::new(sum_score + count * banked, count);
        let average_turns = Fraction { numer: sum_turns, denom: count };
        (average_score, average_turns)
    }

    /// What the pieces described by `data` score in scenario `mask`, and
    /// the turns they need for it.
    pub fn score_and_turns(mask: usize, data: &[(i8, i8, bool)]) -> (r: (i8, i8))
        requires
            plausible(data@),
        ensures
            r.0 == scenario_score_upto(mask as int, data@, data@.len() as int),
            r.1 == scenario_turns_upto(mask as int, data@, data@.len() as int),
    {
        let mut score: i8 = 0;
        let mut sum_turns: i8 = 0;
        let mut index: usize = 0;
        while index < data.len()
            invariant
                0 <= index <= data@.len(),
                plausible(data@),
                score == scenario_score_upto(mask as int, data@, index as int),
                sum_turns == scenario_turns_upto(mask as int, data@, index as int),
                0 <= score <= 3 * index,
                0 <= sum_turns <= 8 * index,
            decreases data@.len() - index,
        {
            let (height, distance, boomable) = data[index];
            let height = if boomable && captured(mask, index) {
                height - 1
            } else {
                height
            };
            if height > 0 {
                score += height;
                sum_turns += turns_of(distance, height);
            }
            index += 1;
        }
        (score, sum_turns)
    }
}

/// A height as a signed byte.
fn small(points: u8) -> (r: i8)
    requires
        points <= 3,
    ensures
        r == points,
{
    points as i8
}

/// A small number in 32 bits.
fn widen(x: i8) -> (r: i32)
    ensures
        r == x,
{
    x as i32
}

} // verus!
