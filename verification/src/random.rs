//! Players that leave the choice to chance.

use crate::board::{Board, Height, Move};
use crate::chance::{choose_index, thread_generator};
use crate::game::GamePlayer;
use crate::geometry::Color;
use crate::moves::LegalMoveIterator;
use vstd::prelude::*;

verus! {

/// Whether `m` takes the piece that stands on row `from` forward, as
/// `color` sees it: a relocation towards its score band, or the scoring
/// move.
pub open spec fn goes_forward(m: Move, color: Color, from: int) -> bool {
    match m {
        Move::Zoom(_, position) => match color {
            Color::White => position@.1 > from,
            Color::Black => position@.1 < from,
        },
        Move::Score(_) => true,
        Move::Boom(_) => false,
        Move::Concede(_) => false,
    }
}

/// Whether slot `slot` holds a live piece of `color`.
pub open spec fn in_play(board: Board, color: Color, slot: usize) -> bool {
    slot < 8 && board.pieces[slot as int].color == color && board.pieces[slot as int].alive()
}

/// The eight slots, in order.
pub open spec fn all_slots() -> Seq<usize> {
    Seq::new(8, |i: int| i as usize)
}

/// The slots of the live pieces of `color`, in order.
pub fn live_slots(board: &Board, color: &Color) -> (slots: Vec<usize>)
    ensures
        slots@ == all_slots().filter(|slot: usize| in_play(*board, *color, slot)),
        forall|k: int| 0 <= k < slots@.len() ==> in_play(*board, *color, #[trigger] slots@[k]),
{
    let mut slots: Vec<usize> = Vec::new();
    let mut i: usize = 0;
    proof {
        assert(all_slots().take(0) =~= Seq::<usize>::empty());
    }
    while i < 8
        invariant
            0 <= i <= 8,
            slots@ == all_slots().take(i as int).filter(
                |slot: usize| in_play(*board, *color, slot),
            ),
            forall|k: int| 0 <= k < slots@.len() ==> in_play(*board, *color, #[trigger] slots@[k]),
        decreases 8 - i,
    {
        proof {
            let done = all_slots().take(i as int);
            assert(all_slots().take(i + 1) =~= done.push(i));
            assert(done.push(i).drop_last() =~= done);
            reveal_with_fuel(Seq::filter, 2);
        }
        if board.pieces[i].color == *color && board.pieces[i].height != Height::Dead {
            slots.push(i);
        }
        i += 1;
    }
    proof {
        assert(all_slots().take(8) =~= all_slots());
    }
    slots
}

/// A legal move of `color` left to chance among all that it has, or giving
/// up where it has none.
pub fn any_move(board: &Board, color: &Color) -> (m: Move)
    requires
        board.wf(),
    ensures
        board.allows(*color, m),
{
    let mut generator = thread_generator();
    let moves = board.legal_moves(color).collect();
    match choose_index(&mut generator, moves.len()) {
        Some(k) => moves[k],
        None => Move::Concede(*color),
    }
}

/// Picks a live piece at random and one of its moves at random.
pub struct RandomPlayer();

impl GamePlayer for RandomPlayer {
    /// Makes a move left to chance: one of the moves of a live piece left
    /// to chance, or, where that piece has none, any legal move.
    fn decide(&mut self, board: &Board, color: &Color) -> (m: Move) {
        let mut generator = thread_generator();
        let slots = live_slots(board, color);
        if let Some(pick) = choose_index(&mut generator, slots.len()) {
            let slot = slots[pick];
            let moves = LegalMoveIterator::for_piece(board, slot).collect();
            if let Some(k) = choose_index(&mut generator, moves.len()) {
                proof {
                    board.lemma_piece_moves_legal(slot as int, k as int);
                }
                return moves[k];
            }
        }
        any_move(board, color)
    }
}

/// Picks a random piece and moves it forward.
pub struct ForwardRandomPlayer();

impl ForwardRandomPlayer {
    /// Those of `moves` that take the piece on row `from` forward, in
    /// order.
    pub fn forward_moves(moves: &Vec<Move>, color: &Color, from: i8) -> (kept: Vec<Move>)
        ensures
            kept@ == moves@.filter(|m: Move| goes_forward(m, *color, from as int)),
    {
        let mut kept: Vec<Move> = Vec::new();
        let mut i: usize = 0;
        proof {
            assert(moves@.take(0) =~= Seq::<Move>::empty());
        }
        while i < moves.len()
            invariant
                0 <= i <= moves@.len(),
                kept@ == moves@.take(i as int).filter(
                    |m: Move| goes_forward(m, *color, from as int),
                ),
            decreases moves@.len() - i,
        {
            let keep = match moves[i] {
                Move::Zoom(_, position) => match color {
                    Color::White => position.y() > from,
                    Color::Black => position.y() < from,
                },
                Move::Score(_) => true,
                Move::Boom(_) => false,
                // Giving up is never among the moves of a piece.
                Move::Concede(_) => false,
            };
            proof {
                let pred = |m: Move| goes_forward(m, *color, from as int);
                let done = moves@.take(i as int);
                assert(moves@.take(i + 1) =~= done.push(moves@[i as int]));
                assert(done.push(moves@[i as int]).drop_last() =~= done);
                reveal_with_fuel(Seq::filter, 2);
            }
            if keep {
                kept.push(moves[i]);
            }
            i += 1;
        }
        proof {
            assert(moves@.take(moves@.len() as int) =~= moves@);
        }
        kept
    }
}

impl GamePlayer for ForwardRandomPlayer {
    /// Makes a forward move, left to chance, of a live piece left to
    /// chance, or, where that piece has none, moves as `RandomPlayer` does.
    fn decide(&mut self, board: &Board, color: &Color) -> (m: Move) {
        let mut generator = thread_generator();
        let slots = live_slots(board, color);
        if let Some(pick) = choose_index(&mut generator, slots.len()) {
            let slot = slots[pick];
            let piece = &board.pieces[slot];
            let moves = LegalMoveIterator::for_piece(board, slot).collect();
            let forward = ForwardRandomPlayer::forward_moves(&moves, color, piece.position.y());
            if let Some(k) = choose_index(&mut generator, forward.len()) {
                proof {
                    let pred = |m: Move| goes_forward(m, *color, piece.position@.1);
                    moves@.lemma_filter_contains_rev(pred, forward@[k as int]);
                    let at = choose|at: int| 0 <= at < moves@.len() && moves@[at] == forward@[k as int];
                    board.lemma_piece_moves_legal(slot as int, at);
                }
                return forward[k];
            }
        }
        let mut fallback = RandomPlayer();
        fallback.decide(board, color)
    }
}

} // verus!
