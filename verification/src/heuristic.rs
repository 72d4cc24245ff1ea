//! Evaluations of a board, and the player that follows one a single move
//! ahead.
//!
//! An evaluation tells how good a board looks to one side. Its values are
//! ranked, and `HResult` is the usual shape for them: a forced win, a
//! forced loss and a draw stand apart from every estimate, so that a proven
//! outcome is never mistaken for a number.

use crate::board::{Board, Move};
use crate::game::GamePlayer;
use crate::geometry::Color;
use crate::rank::{ordering_of, three_way, Ranked};
use std::cmp::Ordering;
use std::marker::PhantomData;
use vstd::prelude::*;

verus! {

/// The value of a board to one side: a proven outcome, or an estimate.
///
/// A win ranks above everything and a loss below everything. A draw ranks
/// against an estimate as the zero of the estimates does: below the
/// positive ones and above the negative ones.
#[derive(Copy, Debug, PartialEq, Eq)]
pub enum HResult<T> {
    Win,
    Draw,
    Loss,
    Unknown(T),
}

impl<T: Copy> Clone for HResult<T> {
    fn clone(&self) -> (r: Self)
        ensures
            r == *self,
    {
        *self
    }
}

impl<T: Ranked> HResult<T> {
    /// Whether `self` ranks no higher than `other`.
    pub open spec fn le(&self, other: &Self) -> bool {
        match (*self, *other) {
            (HResult::Loss, _) => true,
            (_, HResult::Win) => true,
            (HResult::Win, _) => false,
            (_, HResult::Loss) => false,
            (HResult::Draw, HResult::Draw) => true,
            (HResult::Draw, HResult::Unknown(y)) => T::zero_spec().rank_le(&y),
            (HResult::Unknown(x), HResult::Draw) => x.rank_le(&T::zero_spec()),
            (HResult::Unknown(x), HResult::Unknown(y)) => x.rank_le(&y),
        }
    }

    /// Whether the estimate inside, if there is one, is well formed.
    pub open spec fn wf(&self) -> bool {
        match *self {
            HResult::Unknown(x) => x.well_formed(),
            _ => true,
        }
    }

    /// Orders two values.
    pub fn cmp(&self, other: &Self) -> (o: Ordering)
        requires
            self.wf(),
            other.wf(),
        ensures
            o == ordering_of(self.le(other), other.le(self)),
    {
        proof {
            T::lemma_zero_well_formed();
            T::lemma_rank_total(T::zero_spec(), T::zero_spec());
        }
        match self {
            HResult::Win => match other {
                HResult::Win => Ordering::Equal,
                _ => Ordering::Greater,
            },
            HResult::Draw => match other {
                HResult::Win => Ordering::Less,
                HResult::Draw => Ordering::Equal,
                HResult::Loss => Ordering::Greater,
                HResult::Unknown(ev) => three_way(&T::zero(), ev),
            },
            HResult::Loss => match other {
                HResult::Loss => Ordering::Equal,
                _ => Ordering::Less,
            },
            HResult::Unknown(ev) => match other {
                HResult::Win => Ordering::Less,
                HResult::Draw => three_way(ev, &T::zero()),
                HResult::Loss => Ordering::Greater,
                HResult::Unknown(other_ev) => three_way(ev, other_ev),
            },
        }
    }
}

impl<T: Ranked> Ranked for HResult<T> {
    open spec fn well_formed(&self) -> bool {
        self.wf()
    }

    open spec fn rank_le(&self, other: &Self) -> bool {
        self.le(other)
    }

    open spec fn zero_spec() -> Self {
        HResult::Draw
    }

    proof fn lemma_zero_well_formed() {
    }

    proof fn lemma_rank_total(a: Self, b: Self) {
        T::lemma_zero_well_formed();
        let zero = T::zero_spec();
        match (a, b) {
            (HResult::Draw, HResult::Unknown(y)) => {
                T::lemma_rank_total(zero, y);
            },
            (HResult::Unknown(x), HResult::Draw) => {
                T::lemma_rank_total(x, zero);
            },
            (HResult::Unknown(x), HResult::Unknown(y)) => {
                T::lemma_rank_total(x, y);
            },
            _ => {},
        }
    }

    proof fn lemma_rank_transitive(a: Self, b: Self, c: Self) {
        T::lemma_zero_well_formed();
        let zero = T::zero_spec();
        match (a, b, c) {
            (HResult::Unknown(x), HResult::Unknown(y), HResult::Unknown(z)) => {
                T::lemma_rank_transitive(x, y, z);
            },
            (HResult::Unknown(x), HResult::Unknown(y), HResult::Draw) => {
                T::lemma_rank_transitive(x, y, zero);
            },
            (HResult::Unknown(x), HResult::Draw, HResult::Unknown(z)) => {
                T::lemma_rank_transitive(x, zero, z);
            },
            (HResult::Draw, HResult::Unknown(y), HResult::Unknown(z)) => {
                T::lemma_rank_transitive(zero, y, z);
            },
            _ => {},
        }
    }

    fn zero() -> (z: Self) {
        HResult::Draw
    }

    fn outranks(&self, other: &Self) -> (r: bool) {
        match self.cmp(other) {
            Ordering::Greater => true,
            _ => false,
        }
    }
}

/// An evaluation of boards with values of type `T`.
pub trait Heuristic<T: Ranked> {
    /// The value of `board` to `color`.
    spec fn evaluate_spec(&self, board: Board, color: Color) -> T;

    /// The value of a board that is won.
    spec fn max_spec() -> T;

    /// The value of a board that is lost.
    spec fn min_spec() -> T;

    /// The value of a board that is drawn.
    spec fn draw_spec() -> T;

    /// Tells how good `board` looks to `color`.
    fn evaluate(&self, board: &Board, color: &Color) -> (r: T)
        requires
            board.wf(),
        ensures
            r == self.evaluate_spec(*board, *color),
            r.well_formed(),
    ;

    /// The value of a lost board, which no value ranks below.
    fn min() -> (r: T)
        ensures
            r == Self::min_spec(),
            r.well_formed(),
            forall|x: T| x.well_formed() ==> r.rank_le(&x),
    ;

    /// The value of a won board, which no value ranks above.
    fn max() -> (r: T)
        ensures
            r == Self::max_spec(),
            r.well_formed(),
            forall|x: T| x.well_formed() ==> x.rank_le(&r),
    ;

    /// The value of a drawn board.
    fn draw() -> (r: T)
        ensures
            r == Self::draw_spec(),
            r.well_formed(),
    ;
}

/// A player that makes the move after which the board looks best to it.
pub struct HeuristicPlayer<H, T> where H: Heuristic<T>, T: Ranked {
    heuristic: H,
    phantom: PhantomData<T>,
}

impl<H, T> HeuristicPlayer<H, T> where H: Heuristic<T>, T: Ranked {
    /// The evaluation that the player follows.
    pub closed spec fn heuristic(&self) -> H {
        self.heuristic
    }

    /// The value to `color` of the board after the `k`-th legal move.
    pub open spec fn value_after(&self, board: Board, color: Color, k: int) -> T {
        self.heuristic().evaluate_spec(board.apply_spec(board.side_moves(color)[k]), color)
    }

    /// Whether the `k`-th legal move is the one to make: none leads to a
    /// board of higher value, and none after it to one of the same value.
    pub open spec fn prefers(&self, board: Board, color: Color, k: int) -> bool {
        forall|j: int|
            0 <= j < board.side_moves(color).len() ==> {
                let other = #[trigger] self.value_after(board, color, j);
                let best = self.value_after(board, color, k);
                other.rank_le(&best) && (j > k ==> !best.rank_le(&other))
            }
    }

    /// A player that follows `heuristic`.
    pub fn new(heuristic: H) -> (player: HeuristicPlayer<H, T>)
        ensures
            player.heuristic() == heuristic,
    {
        HeuristicPlayer { heuristic, phantom: PhantomData }
    }

    /// Picks, among the legal moves of `color`, the one that leads to the
    /// board of the highest value, and the last of these if there are
    /// several. Gives up where there is no legal move.
    pub fn choose_move(&mut self, board: &Board, color: &Color) -> (m: Move)
        requires
            board.wf(),
        ensures
            final(self).heuristic() == old(self).heuristic(),
            board.allows(*color, m),
            board.side_moves(*color).len() > 0 ==> exists|k: int|
                0 <= k < board.side_moves(*color).len() && m == board.side_moves(*color)[k]
                    && old(self).prefers(*board, *color, k),
    {
        let moves = board.legal_moves(color).collect();
        if moves.len() == 0 {
            return Move::Concede(*color);
        }
        proof {
            board.lemma_side_moves_sound(*color, 0);
        }
        let mut best: usize = 0;
        let mut best_value = self.heuristic.evaluate(&board.apply_move(&moves[0]), color);
        let mut i: usize = 1;
        proof {
            T::lemma_rank_total(best_value, best_value);
        }
        while i < moves.len()
            invariant
                board.wf(),
                moves@ == board.side_moves(*color),
                self.heuristic() == old(self).heuristic(),
                0 <= best < i <= moves.len(),
                best_value == self.value_after(*board, *color, best as int),
                forall|j: int|
                    0 <= j < i ==> {
                        let other = #[trigger] self.value_after(*board, *color, j);
                        other.well_formed() && other.rank_le(&best_value) && (j > best
                            ==> !best_value.rank_le(&other))
                    },
            decreases moves.len() - i,
        {
            proof {
                board.lemma_side_moves_sound(*color, i as int);
            }
            let value = self.heuristic.evaluate(&board.apply_move(&moves[i]), color);
            proof {
                T::lemma_rank_total(value, value);
                T::lemma_rank_total(value, best_value);
            }
            if !best_value.outranks(&value) {
                proof {
                    assert forall|j: int| 0 <= j < i + 1 implies {
                        let other = #[trigger] self.value_after(*board, *color, j);
                        other.well_formed() && other.rank_le(&value) && (j > i ==> !value.rank_le(
                            &other,
                        ))
                    } by {
                        let other = self.value_after(*board, *color, j);
                        if j < i {
                            T::lemma_rank_transitive(other, best_value, value);
                        }
                    }
                }
                best = i;
                best_value = value;
            }
            i += 1;
        }
        proof {
            assert(self.prefers(*board, *color, best as int));
            assert(board.side_moves(*color)[best as int] == moves[best as int]);
        }
        moves[best]
    }
}

impl<H, T> GamePlayer for HeuristicPlayer<H, T> where H: Heuristic<T>, T: Ranked {
    fn decide(&mut self, board: &Board, color: &Color) -> (m: Move) {
        self.choose_move(board, color)
    }
}

} // verus!
