//! Coordinates on the 8x8 board and the classification of candidate squares.

use vstd::prelude::*;
use vstd::std_specs::convert::TryFromSpecImpl;
use vstd::string::StrSliceExecFns;
use vstd::string::StringExecFns;

verus! {

/// One of the two sides.
#[derive(Clone, Copy, Debug, PartialEq, Eq, Structural)]
pub enum Color {
    White,
    Black,
}

impl Color {
    /// The opposing side.
    pub open spec fn inverted(self) -> Color {
        match self {
            Color::White => Color::Black,
            Color::Black => Color::White,
        }
    }

    /// Returns the opposing side.
    pub fn invert(&self) -> (r: Color)
        ensures
            r == self.inverted(),
    {
        match self {
            Color::White => Color::Black,
            Color::Black => Color::White,
        }
    }
}

/// Whether `(x, y)` names a square of the board.
pub open spec fn on_board(x: int, y: int) -> bool {
    0 <= x < 8 && 0 <= y < 8
}

/// Whether `(x, y)` lies in the band where `color` banks its points: the
/// rank just past the far edge, widened by one column on either side.
pub open spec fn in_score_zone(x: int, y: int, color: Color) -> bool {
    -1 <= x <= 8 && y == match color {
        Color::White => 8int,
        Color::Black => -1int,
    }
}

/// The column that a letter names, `a` being column 0.
pub open spec fn column_of(c: char) -> Option<int> {
    if 'a' <= c <= 'h' {
        Some(c as int - 'a' as int)
    } else {
        None
    }
}

/// The row that a digit names, `1` being row 0.
pub open spec fn row_of(c: char) -> Option<int> {
    if '1' <= c <= '8' {
        Some(c as int - '1' as int)
    } else {
        None
    }
}

/// The letter of column `x`.
pub open spec fn column_letter(x: int) -> char {
    if x == 0 {
        'a'
    } else if x == 1 {
        'b'
    } else if x == 2 {
        'c'
    } else if x == 3 {
        'd'
    } else if x == 4 {
        'e'
    } else if x == 5 {
        'f'
    } else if x == 6 {
        'g'
    } else {
        'h'
    }
}

/// The digit of row `y`.
pub open spec fn row_digit(y: int) -> char {
    if y == 0 {
        '1'
    } else if y == 1 {
        '2'
    } else if y == 2 {
        '3'
    } else if y == 3 {
        '4'
    } else if y == 4 {
        '5'
    } else if y == 5 {
        '6'
    } else if y == 6 {
        '7'
    } else {
        '8'
    }
}

/// A square of the board. Besides its coordinates it carries their linear
/// index `x + 8 * y`, so that two squares can be told apart by one
/// comparison.
#[derive(Clone, Copy, Debug, PartialEq, Eq, Structural)]
pub struct Position {
    index: i8,
    x: i8,
    y: i8,
}

impl View for Position {
    type V = (int, int);

    /// The coordinates `(x, y)`.
    closed spec fn view(&self) -> (int, int) {
        (self.x as int, self.y as int)
    }
}

/// The outcome of stepping away from a square.
#[derive(Clone, Copy, Debug, PartialEq, Eq, Structural)]
pub enum PositionOffset {
    /// The step ends on a square of the board.
    Valid(Position),
    /// The step ends in the band where the given side scores.
    ScoreZone(Color),
    /// The step leaves the board elsewhere.
    Invalid,
}

impl Position {
    /// The square with coordinates `(x, y)`.
    pub closed spec fn at(x: int, y: int) -> Position {
        Position { index: (x + 8 * y) as i8, x: x as i8, y: y as i8 }
    }

    /// A position is well formed when it lies on the board and its stored
    /// index agrees with its coordinates.
    pub open spec fn wf(&self) -> bool {
        on_board(self@.0, self@.1) && *self == Position::at(self@.0, self@.1)
    }

    /// The linear index `x + 8 * y` of the square.
    pub open spec fn index_spec(&self) -> int {
        self@.0 + 8 * self@.1
    }

    /// The two-letter name of the square, such as `c6`.
    pub open spec fn name_spec(&self) -> Seq<char> {
        seq![column_letter(self@.0), row_digit(self@.1)]
    }

    /// What a step by `(dx, dy)` from this square reaches. The score bands
    /// are looked at first, so their corner columns do not count as off
    /// the board.
    pub open spec fn offset_spec(&self, dx: int, dy: int) -> PositionOffset {
        let x = self@.0 + dx;
        let y = self@.1 + dy;
        if in_score_zone(x, y, Color::Black) {
            PositionOffset::ScoreZone(Color::Black)
        } else if in_score_zone(x, y, Color::White) {
            PositionOffset::ScoreZone(Color::White)
        } else if !on_board(x, y) {
            PositionOffset::Invalid
        } else {
            PositionOffset::Valid(Position::at(x, y))
        }
    }

    /// On the board, `at` builds a well-formed position with the
    /// coordinates it was given.
    pub proof fn lemma_at(x: int, y: int)
        requires
            on_board(x, y),
        ensures
            Position::at(x, y)@ == (x, y),
            Position::at(x, y).wf(),
            Position::at(x, y).index_spec() == x + 8 * y,
    {
    }

    /// The square with coordinates `(x, y)`.
    pub fn new(x: i8, y: i8) -> (r: Position)
        requires
            on_board(x as int, y as int),
        ensures
            r == Position::at(x as int, y as int),
            r@ == (x as int, y as int),
            r.wf(),
    {
        Position { index: x + y * 8, x, y }
    }

    /// Whether the position is well formed.
    pub fn is_valid(&self) -> (r: bool)
        ensures
            r == self.wf(),
    {
        0 <= self.x && self.x < 8 && 0 <= self.y && self.y < 8 && self.index == self.x + self.y
            * 8
    }

    /// Classifies the square reached by stepping `(dx, dy)` away.
    pub fn offset(&self, dx: i8, dy: i8) -> (r: PositionOffset)
        ensures
            r == self.offset_spec(dx as int, dy as int),
            r matches PositionOffset::Valid(p) ==> p.wf(),
    {
        let x: i16 = self.x as i16 + dx as i16;
        let y: i16 = self.y as i16 + dy as i16;
        if y == -1 && -1 <= x && x < 9 {
            PositionOffset::ScoreZone(Color::Black)
        } else if y == 8 && -1 <= x && x < 9 {
            PositionOffset::ScoreZone(Color::White)
        } else if x < 0 || x >= 8 || y < 0 || y >= 8 {
            PositionOffset::Invalid
        } else {
            PositionOffset::Valid(Position { index: (x + y * 8) as i8, x: x as i8, y: y as i8 })
        }
    }

    /// The column, 0 to 7.
    pub fn x(&self) -> (r: i8)
        ensures
            r == self@.0,
    {
        self.x
    }

    /// The row, 0 to 7.
    pub fn y(&self) -> (r: i8)
        ensures
            r == self@.1,
    {
        self.y
    }

    /// The linear index, 0 to 63.
    pub fn index(&self) -> (r: i8)
        requires
            self.wf(),
        ensures
            r == self.index_spec(),
            0 <= r < 64,
    {
        self.index
    }

    /// Whether two squares are the same, by one comparison of indices.
    pub fn same_square(&self, other: &Position) -> (r: bool)
        requires
            self.wf(),
            other.wf(),
        ensures
            r == (*self == *other),
            r == (self@ == other@),
    {
        self.index == other.index
    }

    /// The two-letter name of the square.
    pub fn name(&self) -> (r: String)
        requires
            self.wf(),
        ensures
            r@ == self.name_spec(),
    {
        let column: &str = if self.x == 0 {
            "a"
        } else if self.x == 1 {
            "b"
        } else if self.x == 2 {
            "c"
        } else if self.x == 3 {
            "d"
        } else if self.x == 4 {
            "e"
        } else if self.x == 5 {
            "f"
        } else if self.x == 6 {
            "g"
        } else {
            "h"
        };
        let row: &str = if self.y == 0 {
            "1"
        } else if self.y == 1 {
            "2"
        } else if self.y == 2 {
            "3"
        } else if self.y == 3 {
            "4"
        } else if self.y == 4 {
            "5"
        } else if self.y == 5 {
            "6"
        } else if self.y == 6 {
            "7"
        } else {
            "8"
        };
        proof {
            reveal_strlit("a");
            reveal_strlit("b");
            reveal_strlit("c");
            reveal_strlit("d");
            reveal_strlit("e");
            reveal_strlit("f");
            reveal_strlit("g");
            reveal_strlit("h");
            reveal_strlit("1");
            reveal_strlit("2");
            reveal_strlit("3");
            reveal_strlit("4");
            reveal_strlit("5");
            reveal_strlit("6");
            reveal_strlit("7");
            reveal_strlit("8");
        }
        let mut name = String::from_str(column);
        name.append(row);
        assert(name@ =~= self.name_spec());
        name
    }
}

impl TryFrom<(i8, i8)> for Position {
    type Error = ();

    /// The square with the given coordinates, if they lie on the board.
    fn try_from(v: (i8, i8)) -> (r: Result<Position, ()>) {
        let (x, y) = v;
        if 0 <= x && x < 8 && 0 <= y && y < 8 {
            Ok(Position { index: x + y * 8, x, y })
        } else {
            Err(())
        }
    }
}

impl TryFromSpecImpl<(i8, i8)> for Position {
    open spec fn obeys_try_from_spec() -> bool {
        true
    }

    open spec fn try_from_spec(v: (i8, i8)) -> Result<Position, ()> {
        if on_board(v.0 as int, v.1 as int) {
            Ok(Position::at(v.0 as int, v.1 as int))
        } else {
            Err(())
        }
    }
}

impl TryFrom<i8> for Position {
    type Error = ();

    /// The square with the given linear index, if it is one of 0 to 63.
    fn try_from(index: i8) -> (r: Result<Position, ()>) {
        if 0 <= index && index < 64 {
            Ok(Position { index, x: index % 8, y: index / 8 })
        } else {
            Err(())
        }
    }
}

impl TryFromSpecImpl<i8> for Position {
    open spec fn obeys_try_from_spec() -> bool {
        true
    }

    open spec fn try_from_spec(index: i8) -> Result<Position, ()> {
        if 0 <= index < 64 {
            Ok(Position::at(index as int % 8, index as int / 8))
        } else {
            Err(())
        }
    }
}

/// The square that a two-letter name denotes: a column letter `a` to `h`
/// followed by a row digit `1` to `8`, and nothing else.
pub open spec fn parse_square(s: Seq<char>) -> Result<Position, ()> {
    if s.len() == 2 && column_of(s[0]) is Some && row_of(s[1]) is Some {
        Ok(Position::at(column_of(s[0])->0, row_of(s[1])->0))
    } else {
        Err(())
    }
}

impl<'a> TryFrom<&'a str> for Position {
    type Error = ();

    /// Reads a square from its two-letter name.
    fn try_from(value: &'a str) -> (r: Result<Position, ()>) {
        if value.unicode_len() != 2 {
            return Err(());
        }
        let col = value.get_char(0);
        let row = value.get_char(1);
        if 'a' <= col && col <= 'h' && '1' <= row && row <= '8' {
            let x: i8 = (col as u32 - 'a' as u32) as i8;
            let y: i8 = (row as u32 - '1' as u32) as i8;
            Ok(Position { index: x + y * 8, x, y })
        } else {
            Err(())
        }
    }
}

impl<'a> TryFromSpecImpl<&'a str> for Position {
    open spec fn obeys_try_from_spec() -> bool {
        true
    }

    open spec fn try_from_spec(value: &'a str) -> Result<Position, ()> {
        parse_square(value@)
    }
}

} // verus!
