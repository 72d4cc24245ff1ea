//! Two players taking turns on one board.

use crate::board::{Board, Move, Winner};
use crate::geometry::Color;
use vstd::prelude::*;

verus! {

/// Something that answers a board with a move.
pub trait GamePlayer {
    /// Picks the move that `color` makes on `board`: one of its legal
    /// moves, or, where it has none, giving up.
    fn decide(&mut self, board: &Board, color: &Color) -> (m: Move)
        requires
            board.wf(),
        ensures
            board.allows(*color, m),
    ;
}

/// The board that `moves`, applied in order, lead to from `start`.
pub open spec fn replay(start: Board, moves: Seq<Move>) -> Board
    decreases moves.len(),
{
    if moves.len() == 0 {
        start
    } else {
        replay(start, moves.drop_last()).apply_spec(moves.last())
    }
}

/// The side that is to move once `n` moves have been made. White begins.
pub open spec fn turn_after(n: nat) -> Color {
    if n % 2 == 0 {
        Color::White
    } else {
        Color::Black
    }
}

/// Whether every move is structurally valid.
pub open spec fn all_valid(moves: Seq<Move>) -> bool {
    forall|k: int| 0 <= k < moves.len() ==> (#[trigger] moves[k]).valid()
}

/// A game in progress: the board, the two players and whose turn it is.
pub struct Game<W: GamePlayer, B: GamePlayer> {
    board: Board,
    white_player: W,
    black_player: B,
    turn: Color,
    history: Ghost<Seq<Move>>,
}

impl<W, B> Game<W, B> where W: GamePlayer, B: GamePlayer {
    /// The current board.
    pub closed spec fn board_spec(&self) -> Board {
        self.board
    }

    /// The side that is to move.
    pub closed spec fn turn_spec(&self) -> Color {
        self.turn
    }

    /// The moves made so far, in order.
    pub closed spec fn moves(&self) -> Seq<Move> {
        self.history@
    }

    /// The game is what its moves made of the initial board, and the sides
    /// have taken turns.
    pub closed spec fn wf(&self) -> bool {
        &&& all_valid(self.history@)
        &&& self.board == replay(Board::initial(), self.history@)
        &&& self.turn == turn_after(self.history@.len())
        &&& self.board.wf()
    }

    /// Whether the moves from `from` on were each made on an open board and
    /// were answers that the side to move may give.
    pub open spec fn by_the_rules(&self, from: int) -> bool {
        forall|k: int|
            from <= k < self.moves().len() ==> {
                let before = #[trigger] replay(Board::initial(), self.moves().take(k));
                before.winner_spec() is None && before.allows(
                    turn_after(k as nat),
                    self.moves()[k],
                )
            }
    }

    /// A game on the initial board, with White to move.
    pub fn new(white_player: W, black_player: B) -> (game: Self)
        ensures
            game.wf(),
            game.moves() == Seq::<Move>::empty(),
            game.board_spec() == Board::initial(),
            game.turn_spec() == Color::White,
    {
        Self {
            board: Board::default(),
            white_player,
            black_player,
            turn: Color::White,
            history: Ghost(Seq::empty()),
        }
    }

    /// Lets the side to move decide and makes its move. Returns the winner
    /// if the move decided the game.
    pub fn play_turn(&mut self) -> (r: Option<Winner>)
        requires
            old(self).wf(),
        ensures
            final(self).wf(),
            final(self).moves().len() == old(self).moves().len() + 1,
            final(self).moves().drop_last() == old(self).moves(),
            old(self).board_spec().allows(old(self).turn_spec(), final(self).moves().last()),
            final(self).board_spec() == old(self).board_spec().apply_spec(
                final(self).moves().last(),
            ),
            final(self).turn_spec() == old(self).turn_spec().inverted(),
            r == final(self).board_spec().winner_spec(),
    {
        let mov = match self.turn {
            Color::White => self.white_player.decide(&self.board, &self.turn),
            Color::Black => self.black_player.decide(&self.board, &self.turn),
        };
        proof {
            self.board.lemma_allows_valid(self.turn, mov);
        }
        self.apply_move(&mov);
        self.winner()
    }

    /// Makes a move for the side to move and passes the turn on.
    pub fn apply_move(&mut self, mov: &Move)
        requires
            old(self).wf(),
            mov.valid(),
        ensures
            final(self).wf(),
            final(self).moves() == old(self).moves().push(*mov),
            final(self).board_spec() == old(self).board_spec().apply_spec(*mov),
            final(self).turn_spec() == old(self).turn_spec().inverted(),
    {
        self.board = self.board.apply_move(mov);
        self.turn = self.turn.invert();
        proof {
            let before = self.history@;
            self.history@ = before.push(*mov);
            assert(before.push(*mov).drop_last() =~= before);
        }
    }

    /// Plays on until the game is decided, but for no more than
    /// `max_turns` turns. Returns the winner, or `None` if the game is
    /// still open after that many turns. A game that is decided already is
    /// left as it is.
    pub fn finish_game(&mut self, max_turns: usize) -> (r: Option<Winner>)
        requires
            old(self).wf(),
        ensures
            final(self).wf(),
            r == final(self).board_spec().winner_spec(),
            old(self).moves().len() <= final(self).moves().len() <= old(self).moves().len()
                + max_turns,
            final(self).moves().take(old(self).moves().len() as int) == old(self).moves(),
            final(self).by_the_rules(old(self).moves().len() as int),
            r is None ==> final(self).moves().len() == old(self).moves().len() + max_turns,
            old(self).board_spec().winner_spec() is Some ==> {
                &&& final(self).moves() == old(self).moves()
                &&& final(self).board_spec() == old(self).board_spec()
                &&& final(self).turn_spec() == old(self).turn_spec()
            },
    {
        let mut turns: usize = 0;
        proof {
            assert(self.moves().take(self.moves().len() as int) =~= self.moves());
        }
        while turns < max_turns && self.board.winner().is_none()
            invariant
                self.wf(),
                turns <= max_turns,
                self.moves().len() == old(self).moves().len() + turns,
                self.moves().take(old(self).moves().len() as int) == old(self).moves(),
                self.by_the_rules(old(self).moves().len() as int),
                turns == 0 ==> {
                    &&& self.moves() == old(self).moves()
                    &&& self.board_spec() == old(self).board_spec()
                    &&& self.turn_spec() == old(self).turn_spec()
                },
                old(self).board_spec().winner_spec() is Some ==> turns == 0,
            decreases max_turns - turns,
        {
            let ghost before = self.moves();
            self.play_turn();
            turns += 1;
            proof {
                let after = self.moves();
                let start = old(self).moves().len() as int;
                assert(after.take(before.len() as int) =~= before);
                assert(after.take(start) =~= before.take(start));
                assert forall|k: int| start <= k < after.len() implies {
                    let prior = #[trigger] replay(Board::initial(), after.take(k));
                    prior.winner_spec() is None && prior.allows(turn_after(k as nat), after[k])
                } by {
                    if k < before.len() {
                        assert(after.take(k) =~= before.take(k));
                        assert(after[k] == before[k]);
                    }
                }
            }
        }
        self.winner()
    }

    /// Who has won, if the game is decided.
    pub fn winner(&self) -> (r: Option<Winner>)
        ensures
            r == self.board_spec().winner_spec(),
    {
        self.board.winner()
    }

    /// The current board.
    pub fn board(&self) -> (r: &Board)
        ensures
            *r == self.board_spec(),
    {
        &self.board
    }

    /// The side that is to move.
    pub fn turn(&self) -> (r: &Color)
        ensures
            *r == self.turn_spec(),
    {
        &self.turn
    }
}

} // verus!
