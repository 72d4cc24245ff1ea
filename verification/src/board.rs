//! Pieces, moves and the board, with the transition and the outcome rules.

use crate::geometry::{on_board, Color, Position};
use vstd::array::spec_array_update;
use vstd::prelude::*;
use vstd::std_specs::convert::{FromSpecImpl, TryFromSpecImpl};

verus! {

/// How tall a piece stands. The height is both its reach and its worth.
#[derive(Clone, Copy, Debug, PartialEq, Eq, Structural)]
pub enum Height {
    Dead,
    One,
    Two,
    Three,
}

impl Height {
    /// The height as a number, 0 for a dead piece.
    pub open spec fn value(self) -> int {
        match self {
            Height::Dead => 0,
            Height::One => 1,
            Height::Two => 2,
            Height::Three => 3,
        }
    }

    /// The height with the given value, if it is one of 0 to 3.
    pub open spec fn of_value(v: int) -> Option<Height> {
        if v == 0 {
            Some(Height::Dead)
        } else if v == 1 {
            Some(Height::One)
        } else if v == 2 {
            Some(Height::Two)
        } else if v == 3 {
            Some(Height::Three)
        } else {
            None
        }
    }

    /// The height after one capture: one step lower, and `Dead` stays
    /// `Dead`.
    pub open spec fn boomed(self) -> Height {
        match self {
            Height::Three => Height::Two,
            Height::Two => Height::One,
            Height::One => Height::Dead,
            Height::Dead => Height::Dead,
        }
    }

    /// The height after `n` captures in a row.
    pub open spec fn boomed_times(self, n: nat) -> Height
        decreases n,
    {
        if n == 0 {
            self
        } else {
            self.boomed().boomed_times((n - 1) as nat)
        }
    }

    /// Lowers the height by one capture.
    pub fn boom(&self) -> (r: Height)
        ensures
            r == self.boomed(),
            r.value() == if self.value() == 0 {
                0
            } else {
                self.value() - 1
            },
    {
        match self {
            Height::Three => Height::Two,
            Height::Two => Height::One,
            Height::One => Height::Dead,
            Height::Dead => Height::Dead,
        }
    }

    /// The height as a number.
    pub fn points(&self) -> (r: u8)
        ensures
            r == self.value(),
    {
        match self {
            Height::Dead => 0,
            Height::One => 1,
            Height::Two => 2,
            Height::Three => 3,
        }
    }

    /// Captures never push a height below `Dead`: after `n` of them the
    /// value is the old one less `n`, or 0 where that would be negative. So
    /// as many captures as the piece is tall, or more, leave it dead.
    pub proof fn lemma_boomed_times(self, n: nat)
        ensures
            self.boomed_times(n).value() == if n >= self.value() {
                0
            } else {
                self.value() - n
            },
            n >= self.value() ==> self.boomed_times(n) == Height::Dead,
        decreases n,
    {
        if n > 0 {
            self.boomed().lemma_boomed_times((n - 1) as nat);
        }
    }
}

impl TryFrom<u8> for Height {
    type Error = ();

    fn try_from(height: u8) -> (r: Result<Height, ()>) {
        match height {
            0 => Ok(Height::Dead),
            1 => Ok(Height::One),
            2 => Ok(Height::Two),
            3 => Ok(Height::Three),
            _ => Err(()),
        }
    }
}

impl TryFromSpecImpl<u8> for Height {
    open spec fn obeys_try_from_spec() -> bool {
        true
    }

    open spec fn try_from_spec(height: u8) -> Result<Height, ()> {
        match Height::of_value(height as int) {
            Some(h) => Ok(h),
            None => Err(()),
        }
    }
}

impl TryFrom<i8> for Height {
    type Error = ();

    fn try_from(height: i8) -> (r: Result<Height, ()>) {
        match height {
            0 => Ok(Height::Dead),
            1 => Ok(Height::One),
            2 => Ok(Height::Two),
            3 => Ok(Height::Three),
            _ => Err(()),
        }
    }
}

impl TryFromSpecImpl<i8> for Height {
    open spec fn obeys_try_from_spec() -> bool {
        true
    }

    open spec fn try_from_spec(height: i8) -> Result<Height, ()> {
        match Height::of_value(height as int) {
            Some(h) => Ok(h),
            None => Err(()),
        }
    }
}

impl<'a> From<&'a Height> for u8 {
    fn from(height: &'a Height) -> (r: u8) {
        match height {
            Height::Dead => 0,
            Height::One => 1,
            Height::Two => 2,
            Height::Three => 3,
        }
    }
}

impl<'a> FromSpecImpl<&'a Height> for u8 {
    open spec fn obeys_from_spec() -> bool {
        true
    }

    open spec fn from_spec(height: &'a Height) -> u8 {
        height.value() as u8
    }
}

impl<'a> From<&'a Height> for i8 {
    fn from(height: &'a Height) -> (r: i8) {
        match height {
            Height::Dead => 0,
            Height::One => 1,
            Height::Two => 2,
            Height::Three => 3,
        }
    }
}

impl<'a> FromSpecImpl<&'a Height> for i8 {
    open spec fn obeys_from_spec() -> bool {
        true
    }

    open spec fn from_spec(height: &'a Height) -> i8 {
        height.value() as i8
    }
}

/// A piece: whose it is, where it stands and how tall it is. A dead piece
/// keeps its last position but is no longer on the board.
#[derive(Clone, Copy, Debug)]
pub struct Piece {
    pub color: Color,
    pub position: Position,
    pub height: Height,
}

impl Piece {
    /// Whether the piece is still in play.
    pub open spec fn alive(&self) -> bool {
        self.height != Height::Dead
    }

    /// A piece of full height on the square `(x, y)`.
    pub fn new(color: Color, position: (i8, i8)) -> (r: Piece)
        requires
            on_board(position.0 as int, position.1 as int),
        ensures
            r == (Piece {
                color,
                position: Position::at(position.0 as int, position.1 as int),
                height: Height::Three,
            }),
            r.position.wf(),
    {
        Piece { color, position: Position::new(position.0, position.1), height: Height::Three }
    }

    /// Takes one capture: the height drops a step, the rest stays.
    pub fn boom(&mut self)
        ensures
            *final(self) == (Piece { height: old(self).height.boomed(), ..*old(self) }),
    {
        self.height = self.height.boom()
    }
}

/// One turn's action. Pieces are named by their slot on the board, 0 to 7.
#[derive(Clone, Copy, Debug, PartialEq, Eq, Structural)]
pub enum Move {
    /// Capture: the piece in the given slot loses one step of height.
    Boom(usize),
    /// Relocate: the piece in the given slot goes to the given square.
    Zoom(usize, Position),
    /// The piece in the given slot banks its height and leaves play.
    Score(usize),
    /// The given side gives the game up.
    Concede(Color),
}

impl Move {
    /// A move is structurally valid when its slot is one of the eight and
    /// its square, if it has one, is well formed.
    pub open spec fn valid(&self) -> bool {
        match *self {
            Move::Boom(i) => i < 8,
            Move::Zoom(i, pos) => i < 8 && pos.wf(),
            Move::Score(i) => i < 8,
            Move::Concede(_) => true,
        }
    }
}

/// How a finished game ended.
#[derive(Clone, Copy, Debug, PartialEq, Eq, Structural)]
pub enum Winner {
    White,
    Black,
    Draw,
}

impl Winner {
    /// The outcome in which `color` wins.
    pub open spec fn of(color: Color) -> Winner {
        match color {
            Color::White => Winner::White,
            Color::Black => Winner::Black,
        }
    }

    /// The side that won, if one did.
    pub open spec fn color_spec(self) -> Option<Color> {
        match self {
            Winner::White => Some(Color::White),
            Winner::Black => Some(Color::Black),
            Winner::Draw => None,
        }
    }

    /// Returns the side that won, or `None` for a draw.
    pub fn color(&self) -> (r: Option<Color>)
        ensures
            r == self.color_spec(),
    {
        match self {
            Winner::White => Some(Color::White),
            Winner::Black => Some(Color::Black),
            Winner::Draw => None,
        }
    }
}

/// The side that owns slot `i`: slots 0 to 3 are White's, 4 to 7 Black's.
pub open spec fn slot_color(i: int) -> Color {
    if i < 4 {
        Color::White
    } else {
        Color::Black
    }
}

/// What a piece adds to the potential of `color`: its height, if it is of
/// this color.
pub open spec fn worth(piece: Piece, color: Color) -> int {
    if piece.color == color {
        piece.height.value()
    } else {
        0
    }
}

/// The summed worth to `color` of the first `n` of `pieces`.
pub open spec fn potential_upto(pieces: Seq<Piece>, color: Color, n: int) -> int
    decreases n,
{
    if n <= 0 {
        0
    } else {
        potential_upto(pieces, color, n - 1) + worth(pieces[n - 1], color)
    }
}

/// The potential is never negative, and no less than the worth of any one
/// of the pieces it counts.
pub proof fn lemma_potential_bounds(pieces: Seq<Piece>, color: Color, i: int, n: int)
    requires
        0 <= n <= pieces.len(),
    ensures
        0 <= potential_upto(pieces, color, n),
        0 <= i < n ==> worth(pieces[i], color) <= potential_upto(pieces, color, n),
    decreases n,
{
    if n > 0 {
        lemma_potential_bounds(pieces, color, i, n - 1);
    }
}

/// Replacing one piece changes the potential by the difference in worth.
pub proof fn lemma_potential_update(pieces: Seq<Piece>, i: int, p: Piece, color: Color, n: int)
    requires
        0 <= i < pieces.len(),
        0 <= n <= pieces.len(),
    ensures
        potential_upto(pieces.update(i, p), color, n) == potential_upto(pieces, color, n) + if i
            < n {
            worth(p, color) - worth(pieces[i], color)
        } else {
            0
        },
    decreases n,
{
    if n > 0 {
        lemma_potential_update(pieces, i, p, color, n - 1);
    }
}

/// The whole state of a game: eight pieces in fixed slots, the points each
/// side has banked, and the side that gave up, if one did.
#[derive(Clone, Copy, Debug)]
pub struct Board {
    pub pieces: [Piece; 8],
    pub black_score: u8,
    pub white_score: u8,
    pub conceded: Option<Color>,
}

impl Board {
    /// The points that `color` has banked.
    pub open spec fn score(&self, color: Color) -> int {
        match color {
            Color::White => self.white_score as int,
            Color::Black => self.black_score as int,
        }
    }

    /// The remaining potential of `color`: the summed heights of its
    /// pieces, which is the most it can still score.
    pub open spec fn potential(&self, color: Color) -> int {
        potential_upto(self.pieces@, color, 8)
    }

    /// The pieces are in place when each slot holds a piece of the color
    /// that owns it, on a well-formed square.
    pub open spec fn placed(&self) -> bool {
        forall|i: int|
            0 <= i < 8 ==> (#[trigger] self.pieces[i]).color == slot_color(i)
                && self.pieces[i].position.wf()
    }

    /// A board is well formed when its pieces are in place and each counter
    /// has room for all that its side can still score.
    pub open spec fn wf(&self) -> bool {
        &&& self.placed()
        &&& self.score(Color::White) + self.potential(Color::White) <= u8::MAX
        &&& self.score(Color::Black) + self.potential(Color::Black) <= u8::MAX
    }

    /// Whether slot `i` holds a live piece standing on `pos`.
    pub open spec fn occupies(&self, i: int, pos: Position) -> bool {
        self.pieces[i].alive() && self.pieces[i].position == pos
    }

    /// The lowest slot from `from` on whose live piece stands on `pos`.
    pub open spec fn first_occupant(&self, pos: Position, from: int) -> Option<usize>
        decreases 8 - from,
    {
        if from < 0 || from >= 8 {
            None
        } else if self.occupies(from, pos) {
            Some(from as usize)
        } else {
            self.first_occupant(pos, from + 1)
        }
    }

    /// The slot of the live piece on `pos`, the lowest if several stand
    /// there. Dead pieces are never found.
    pub open spec fn piece_at(&self, pos: Position) -> Option<usize> {
        self.first_occupant(pos, 0)
    }

    /// The board at the start of a game: both sides on their home rank, in
    /// the four middle columns, nothing scored.
    pub open spec fn initial() -> Board {
        Board {
            pieces: [
                Piece { color: Color::White, position: Position::at(2, 0), height: Height::Three },
                Piece { color: Color::White, position: Position::at(3, 0), height: Height::Three },
                Piece { color: Color::White, position: Position::at(4, 0), height: Height::Three },
                Piece { color: Color::White, position: Position::at(5, 0), height: Height::Three },
                Piece { color: Color::Black, position: Position::at(2, 7), height: Height::Three },
                Piece { color: Color::Black, position: Position::at(3, 7), height: Height::Three },
                Piece { color: Color::Black, position: Position::at(4, 7), height: Height::Three },
                Piece { color: Color::Black, position: Position::at(5, 7), height: Height::Three },
            ],
            black_score: 0,
            white_score: 0,
            conceded: None,
        }
    }

    /// The board with the piece in slot `i` replaced by `p`.
    pub open spec fn with_piece(&self, i: int, p: Piece) -> Board {
        Board { pieces: spec_array_update(self.pieces, i, p), ..*self }
    }

    /// The board with `points` more on the counter of `color`.
    pub open spec fn with_points(&self, color: Color, points: int) -> Board {
        match color {
            Color::White => Board { white_score: (self.white_score + points) as u8, ..*self },
            Color::Black => Board { black_score: (self.black_score + points) as u8, ..*self },
        }
    }

    /// The board that a move leads to.
    pub open spec fn apply_spec(&self, mov: Move) -> Board {
        match mov {
            Move::Boom(i) => {
                let p = self.pieces[i as int];
                self.with_piece(i as int, Piece { height: p.height.boomed(), ..p })
            },
            Move::Zoom(i, pos) => {
                let p = self.pieces[i as int];
                self.with_piece(i as int, Piece { position: pos, ..p })
            },
            Move::Score(i) => {
                let p = self.pieces[i as int];
                self.with_piece(i as int, Piece { height: Height::Dead, ..p }).with_points(
                    p.color,
                    p.height.value(),
                )
            },
            Move::Concede(color) => Board { conceded: Some(color), ..*self },
        }
    }

    /// A structurally valid move leads from a well-formed board to a
    /// well-formed board.
    pub proof fn lemma_apply_wf(&self, mov: Move)
        requires
            self.wf(),
            mov.valid(),
        ensures
            self.apply_spec(mov).wf(),
    {
        let next = self.apply_spec(mov);
        match mov {
            Move::Boom(i) => {
                let p = self.pieces[i as int];
                let q = Piece { height: p.height.boomed(), ..p };
                assert(next.pieces@ =~= self.pieces@.update(i as int, q));
                lemma_potential_update(self.pieces@, i as int, q, Color::White, 8);
                lemma_potential_update(self.pieces@, i as int, q, Color::Black, 8);
            },
            Move::Zoom(i, pos) => {
                let p = self.pieces[i as int];
                let q = Piece { position: pos, ..p };
                assert(next.pieces@ =~= self.pieces@.update(i as int, q));
                lemma_potential_update(self.pieces@, i as int, q, Color::White, 8);
                lemma_potential_update(self.pieces@, i as int, q, Color::Black, 8);
            },
            Move::Score(i) => {
                let p = self.pieces[i as int];
                let q = Piece { height: Height::Dead, ..p };
                assert(next.pieces@ =~= self.pieces@.update(i as int, q));
                lemma_potential_update(self.pieces@, i as int, q, Color::White, 8);
                lemma_potential_update(self.pieces@, i as int, q, Color::Black, 8);
            },
            Move::Concede(_) => {},
        }
    }

    /// Who has won, if the game is decided.
    ///
    /// A side that gave up has lost. Otherwise, once either side has no
    /// potential left, the scores decide, a tie being a draw. Otherwise a
    /// side whose score and whole potential together stay strictly below
    /// the other's score has lost already. In every other case the game is
    /// open.
    pub open spec fn winner_spec(&self) -> Option<Winner> {
        let white = self.potential(Color::White);
        let black = self.potential(Color::Black);
        if let Some(loser) = self.conceded {
            Some(Winner::of(loser.inverted()))
        } else if white == 0 || black == 0 {
            if self.white_score < self.black_score {
                Some(Winner::Black)
            } else if self.white_score == self.black_score {
                Some(Winner::Draw)
            } else {
                Some(Winner::White)
            }
        } else if self.white_score + white < self.black_score {
            Some(Winner::Black)
        } else if self.black_score + black < self.white_score {
            Some(Winner::White)
        } else {
            None
        }
    }
}

impl Default for Board {
    /// The board at the start of a game.
    fn default() -> (r: Board)
        ensures
            r == Board::initial(),
            r.wf(),
    {
        let r = Board {
            pieces: [
                Piece::new(Color::White, (2, 0)),
                Piece::new(Color::White, (3, 0)),
                Piece::new(Color::White, (4, 0)),
                Piece::new(Color::White, (5, 0)),
                Piece::new(Color::Black, (2, 7)),
                Piece::new(Color::Black, (3, 7)),
                Piece::new(Color::Black, (4, 7)),
                Piece::new(Color::Black, (5, 7)),
            ],
            black_score: 0,
            white_score: 0,
            conceded: None,
        };
        proof {
            reveal_with_fuel(potential_upto, 9);
            assert(r.pieces =~= Board::initial().pieces);
        }
        r
    }
}

impl Board {
    /// Applies a move and returns the board it leads to. The board it is
    /// called on is left as it was.
    pub fn apply_move(&self, mov: &Move) -> (r: Board)
        requires
            self.wf(),
            mov.valid(),
        ensures
            r == self.apply_spec(*mov),
            r.wf(),
    {
        let mut new_board = *self;
        match mov {
            Move::Boom(idx) => {
                let mut piece = new_board.pieces[*idx];
                piece.boom();
                new_board.pieces[*idx] = piece;
            },
            Move::Zoom(idx, position) => {
                let mut piece = new_board.pieces[*idx];
                piece.position = *position;
                new_board.pieces[*idx] = piece;
            },
            Move::Score(idx) => {
                let mut piece = new_board.pieces[*idx];
                let points_scored = piece.height.points();
                proof {
                    lemma_potential_bounds(self.pieces@, piece.color, *idx as int, 8);
                }
                match piece.color {
                    Color::White => new_board.white_score += points_scored,
                    Color::Black => new_board.black_score += points_scored,
                }
                piece.height = Height::Dead;
                new_board.pieces[*idx] = piece;
            },
            Move::Concede(color) => {
                new_board.conceded = Some(*color);
            },
        }
        proof {
            assert(new_board.pieces =~= self.apply_spec(*mov).pieces);
            self.lemma_apply_wf(*mov);
        }
        new_board
    }

    /// Whether the board is well formed.
    pub fn is_valid(&self) -> (r: bool)
        ensures
            r == self.wf(),
    {
        let mut i: usize = 0;
        while i < 8
            invariant
                0 <= i <= 8,
                forall|j: int|
                    0 <= j < i ==> (#[trigger] self.pieces[j]).color == slot_color(j)
                        && self.pieces[j].position.wf(),
            decreases 8 - i,
        {
            let owner = if i < 4 {
                Color::White
            } else {
                Color::Black
            };
            if self.pieces[i].color != owner || !self.pieces[i].position.is_valid() {
                return false;
            }
            i += 1;
        }
        let white = self.potential_of(&Color::White);
        let black = self.potential_of(&Color::Black);
        (self.white_score as u16) + (white as u16) <= 255 && (self.black_score as u16) + (
        black as u16) <= 255
    }

    /// The piece in slot `index`.
    pub fn get_piece(&self, index: usize) -> (r: &Piece)
        requires
            index < 8,
        ensures
            *r == self.pieces[index as int],
    {
        &self.pieces[index]
    }

    /// The slot of the live piece that stands on `position`, if there is
    /// one.
    pub fn get_piece_at(&self, position: &Position) -> (r: Option<usize>)
        requires
            self.placed(),
            position.wf(),
        ensures
            r == self.piece_at(*position),
            r matches Some(i) ==> i < 8 && self.occupies(i as int, *position),
            r is None ==> forall|j: int| 0 <= j < 8 ==> !self.occupies(j, *position),
    {
        let mut i: usize = 0;
        while i < 8
            invariant
                0 <= i <= 8,
                self.placed(),
                position.wf(),
                self.piece_at(*position) == self.first_occupant(*position, i as int),
                forall|j: int| 0 <= j < i ==> !self.occupies(j, *position),
            decreases 8 - i,
        {
            if self.pieces[i].height != Height::Dead && self.pieces[i].position.same_square(
                position,
            ) {
                return Some(i);
            }
            i += 1;
        }
        None
    }

    /// The remaining potential of `color`.
    pub fn potential_of(&self, color: &Color) -> (r: u8)
        ensures
            r == self.potential(*color),
            r <= 24,
    {
        let mut total: u8 = 0;
        let mut i: usize = 0;
        while i < 8
            invariant
                0 <= i <= 8,
                total == potential_upto(self.pieces@, *color, i as int),
                total <= 3 * i,
            decreases 8 - i,
        {
            if self.pieces[i].color == *color {
                total += self.pieces[i].height.points();
            }
            i += 1;
        }
        total
    }

    /// Decides whether the game is over, and for whom.
    pub fn winner(&self) -> (r: Option<Winner>)
        ensures
            r == self.winner_spec(),
    {
        if let Some(loser) = self.conceded {
            return Some(
                match loser {
                    Color::White => Winner::Black,
                    Color::Black => Winner::White,
                },
            );
        }
        let white = self.potential_of(&Color::White);
        let black = self.potential_of(&Color::Black);
        if white == 0 || black == 0 {
            if self.white_score < self.black_score {
                Some(Winner::Black)
            } else if self.white_score == self.black_score {
                Some(Winner::Draw)
            } else {
                Some(Winner::White)
            }
        } else if (self.white_score as u16) + (white as u16) < self.black_score as u16 {
            Some(Winner::Black)
        } else if (self.black_score as u16) + (black as u16) < self.white_score as u16 {
            Some(Winner::White)
        } else {
            None
        }
    }
}

} // verus!
