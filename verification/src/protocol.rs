//! Moves as lines of text, and a player that is driven by such lines.
//!
//! A move is one line: a word that names its kind, then its operands in
//! decimal, each after a single space. `Boom 4` captures the piece in slot
//! 4, `Zoom 0 18` takes the piece in slot 0 to the square with index 18,
//! `Score 0` scores with the piece in slot 0, and `Concede white` gives the
//! game up for White. Reading a line is the exact inverse of writing it,
//! but for blanks at the end of the line, which are passed over.

use crate::board::{Board, Move};
use crate::game::GamePlayer;
use crate::geometry::{Color, Position};
use vstd::prelude::*;
use vstd::string::StrSliceExecFns;
use vstd::string::StringExecFns;

verus! {

/// Why a line is not a move.
#[derive(Clone, Copy, Debug, PartialEq, Eq, Structural)]
pub enum MoveParseError {
    /// The line begins with none of the words that name a move, or gives
    /// up for no side.
    Unrecognized,
    /// The slot is not a number from 0 to 7, written as `decimal` writes it.
    InvalidIndex,
    /// The relocation lacks the space between its slot and its square.
    MalformedZoom,
    /// The square is not a number from 0 to 63, written as `decimal` writes it.
    InvalidPosition,
}

/// The digit for a number below ten.
pub open spec fn digit_char(d: int) -> char {
    if d == 0 {
        '0'
    } else if d == 1 {
        '1'
    } else if d == 2 {
        '2'
    } else if d == 3 {
        '3'
    } else if d == 4 {
        '4'
    } else if d == 5 {
        '5'
    } else if d == 6 {
        '6'
    } else if d == 7 {
        '7'
    } else if d == 8 {
        '8'
    } else {
        '9'
    }
}

/// The number that a digit stands for.
pub open spec fn digit_value(c: char) -> Option<int> {
    if '0' <= c <= '9' {
        Some(c as int - '0' as int)
    } else {
        None
    }
}

/// A number below 100 in decimal, without leading zeros.
pub open spec fn decimal(n: int) -> Seq<char> {
    if n < 10 {
        seq![digit_char(n)]
    } else {
        seq![digit_char(n / 10), digit_char(n % 10)]
    }
}

/// The number that one or two digits stand for, if they are written as
/// `decimal` writes them.
pub open spec fn parse_decimal(s: Seq<char>) -> Option<int> {
    if s.len() == 1 && digit_value(s[0]) is Some {
        digit_value(s[0])
    } else if s.len() == 2 && digit_value(s[0]) is Some && digit_value(s[0]) != Some(0int)
        && digit_value(s[1]) is Some {
        Some(10 * digit_value(s[0])->0 + digit_value(s[1])->0)
    } else {
        None
    }
}

/// The word for a side.
pub open spec fn color_word(color: Color) -> Seq<char> {
    match color {
        Color::White => "white"@,
        Color::Black => "black"@,
    }
}

/// The line, without its end, that stands for a move.
pub open spec fn move_text(m: Move) -> Seq<char> {
    match m {
        Move::Boom(i) => "Boom "@ + decimal(i as int),
        Move::Zoom(i, pos) => "Zoom "@ + decimal(i as int) + seq![' '] + decimal(pos.index_spec()),
        Move::Score(i) => "Score "@ + decimal(i as int),
        Move::Concede(color) => "Concede "@ + color_word(color),
    }
}

/// Whether a character is a blank: a space, a tab or one of the two that
/// end a line.
pub open spec fn is_blank(c: char) -> bool {
    c == ' ' || c == '\n' || c == '\r' || c == '\t'
}

/// The text without the blanks at its end.
pub open spec fn trim_end(s: Seq<char>) -> Seq<char>
    decreases s.len(),
{
    if s.len() > 0 && is_blank(s.last()) {
        trim_end(s.drop_last())
    } else {
        s
    }
}

/// Whether the text begins with the word.
pub open spec fn has_prefix(s: Seq<char>, word: Seq<char>) -> bool {
    word.len() <= s.len() && s.subrange(0, word.len() as int) == word
}

/// The place of the first space in the text from `from` on.
pub open spec fn first_space(s: Seq<char>, from: int) -> Option<int>
    decreases s.len() - from,
{
    if from < 0 || from >= s.len() {
        None
    } else if s[from] == ' ' {
        Some(from)
    } else {
        first_space(s, from + 1)
    }
}

/// The slot that the text names.
pub open spec fn parse_slot(s: Seq<char>) -> Result<usize, MoveParseError> {
    match parse_decimal(s) {
        Some(i) => if i < 8 {
            Ok(i as usize)
        } else {
            Err(MoveParseError::InvalidIndex)
        },
        None => Err(MoveParseError::InvalidIndex),
    }
}

/// The square that the text names.
pub open spec fn parse_position(s: Seq<char>) -> Result<Position, MoveParseError> {
    match parse_decimal(s) {
        Some(p) => if p < 64 {
            Ok(Position::at(p % 8, p / 8))
        } else {
            Err(MoveParseError::InvalidPosition)
        },
        None => Err(MoveParseError::InvalidPosition),
    }
}

/// The operands of a relocation: a slot, a space, a square.
pub open spec fn parse_zoom(rest: Seq<char>) -> Result<Move, MoveParseError> {
    match first_space(rest, 0) {
        None => Err(MoveParseError::MalformedZoom),
        Some(at) => match parse_slot(rest.subrange(0, at)) {
            Err(e) => Err(e),
            Ok(i) => match parse_position(rest.subrange(at + 1, rest.len() as int)) {
                Err(e) => Err(e),
                Ok(pos) => Ok(Move::Zoom(i, pos)),
            },
        },
    }
}

/// The move that a line stands for, or why it stands for none.
pub open spec fn parse_move(line: Seq<char>) -> Result<Move, MoveParseError> {
    if has_prefix(line, "Boom "@) {
        match parse_slot(trim_end(line.subrange(5, line.len() as int))) {
            Ok(i) => Ok(Move::Boom(i)),
            Err(e) => Err(e),
        }
    } else if has_prefix(line, "Zoom "@) {
        parse_zoom(trim_end(line.subrange(5, line.len() as int)))
    } else if has_prefix(line, "Score "@) {
        match parse_slot(trim_end(line.subrange(6, line.len() as int))) {
            Ok(i) => Ok(Move::Score(i)),
            Err(e) => Err(e),
        }
    } else if has_prefix(line, "Concede "@) {
        let side = trim_end(line.subrange(8, line.len() as int));
        if side == "white"@ {
            Ok(Move::Concede(Color::White))
        } else if side == "black"@ {
            Ok(Move::Concede(Color::Black))
        } else {
            Err(MoveParseError::Unrecognized)
        }
    } else {
        Err(MoveParseError::Unrecognized)
    }
}

/// What the words of the grammar are made of.
pub proof fn lemma_words()
    ensures
        "Boom "@ == seq!['B', 'o', 'o', 'm', ' '],
        "Zoom "@ == seq!['Z', 'o', 'o', 'm', ' '],
        "Score "@ == seq!['S', 'c', 'o', 'r', 'e', ' '],
        "Concede "@ == seq!['C', 'o', 'n', 'c', 'e', 'd', 'e', ' '],
        "white"@ == seq!['w', 'h', 'i', 't', 'e'],
        "black"@ == seq!['b', 'l', 'a', 'c', 'k'],
{
    reveal_strlit("Boom ");
    reveal_strlit("Zoom ");
    reveal_strlit("Score ");
    reveal_strlit("Concede ");
    reveal_strlit("white");
    reveal_strlit("black");
    assert("Boom "@ =~= seq!['B', 'o', 'o', 'm', ' ']);
    assert("Zoom "@ =~= seq!['Z', 'o', 'o', 'm', ' ']);
    assert("Score "@ =~= seq!['S', 'c', 'o', 'r', 'e', ' ']);
    assert("Concede "@ =~= seq!['C', 'o', 'n', 'c', 'e', 'd', 'e', ' ']);
    assert("white"@ =~= seq!['w', 'h', 'i', 't', 'e']);
    assert("black"@ =~= seq!['b', 'l', 'a', 'c', 'k']);
}

/// Blanks behind a text that does not end in one are trimmed away, and
/// nothing else.
pub proof fn lemma_trim_end(s: Seq<char>, tail: Seq<char>)
    requires
        s.len() == 0 || !is_blank(s.last()),
        forall|i: int| 0 <= i < tail.len() ==> is_blank(#[trigger] tail[i]),
    ensures
        trim_end(s + tail) == s,
    decreases tail.len(),
{
    if tail.len() == 0 {
        assert(s + tail =~= s);
    } else {
        assert((s + tail).drop_last() =~= s + tail.drop_last());
        lemma_trim_end(s, tail.drop_last());
    }
}

/// Reading a number gives back the number that was written.
pub proof fn lemma_decimal(n: int)
    requires
        0 <= n < 100,
    ensures
        parse_decimal(decimal(n)) == Some(n),
        decimal(n).len() > 0,
        !is_blank(decimal(n).last()),
        forall|i: int| 0 <= i < decimal(n).len() ==> (#[trigger] decimal(n)[i]) != ' ',
        n < 10 ==> decimal(n).len() == 1,
{
}

/// Reading the line of a move gives back the move, whatever blanks end
/// the line.
pub proof fn lemma_read_written(m: Move, tail: Seq<char>)
    requires
        m.valid(),
        forall|i: int| 0 <= i < tail.len() ==> is_blank(#[trigger] tail[i]),
    ensures
        parse_move(move_text(m) + tail) == Ok::<Move, MoveParseError>(m),
{
    lemma_words();
    let line = move_text(m) + tail;
    match m {
        Move::Boom(i) => {
            lemma_decimal(i as int);
            assert(line.subrange(0, 5) =~= "Boom "@);
            assert(line.subrange(5, line.len() as int) =~= decimal(i as int) + tail);
            lemma_trim_end(decimal(i as int), tail);
        },
        Move::Zoom(i, pos) => {
            let p = pos.index_spec();
            lemma_decimal(i as int);
            lemma_decimal(p);
            let body = decimal(i as int) + seq![' '] + decimal(p);
            assert(line.subrange(0, 5) =~= "Zoom "@);
            assert(line.subrange(0, 5) != "Boom "@) by {
                assert(line.subrange(0, 5)[0] == 'Z');
            }
            assert(line.subrange(5, line.len() as int) =~= body + tail);
            assert(body.last() == decimal(p).last());
            lemma_trim_end(body, tail);
            assert(first_space(body, 0) == Some(1int)) by {
                reveal_with_fuel(first_space, 3);
                assert(body[0] == decimal(i as int)[0]);
                assert(decimal(i as int)[0] != ' ');
                assert(body[1] == ' ');
            }
            assert(body.subrange(0, 1) =~= decimal(i as int));
            assert(body.subrange(2, body.len() as int) =~= decimal(p));
            assert(pos == Position::at(p % 8, p / 8));
        },
        Move::Score(i) => {
            lemma_decimal(i as int);
            assert(line.subrange(0, 6) =~= "Score "@);
            assert(line.subrange(0, 5) != "Boom "@ && line.subrange(0, 5) != "Zoom "@) by {
                assert(line.subrange(0, 5)[0] == 'S');
            }
            assert(line.subrange(6, line.len() as int) =~= decimal(i as int) + tail);
            lemma_trim_end(decimal(i as int), tail);
        },
        Move::Concede(color) => {
            assert(line.subrange(0, 8) =~= "Concede "@);
            assert(line.subrange(0, 5) != "Boom "@ && line.subrange(0, 5) != "Zoom "@) by {
                assert(line.subrange(0, 5)[0] == 'C');
            }
            assert(line.subrange(0, 6) != "Score "@) by {
                assert(line.subrange(0, 6)[0] == 'C');
            }
            assert(line.subrange(8, line.len() as int) =~= color_word(color) + tail);
            lemma_trim_end(color_word(color), tail);
            assert("white"@[0] != "black"@[0]);
        },
    }
}

/// The text of a digit.
fn digit_text(d: usize) -> (r: &'static str)
    requires
        d < 10,
    ensures
        r@ == seq![digit_char(d as int)],
{
    proof {
        reveal_strlit("0");
        reveal_strlit("1");
        reveal_strlit("2");
        reveal_strlit("3");
        reveal_strlit("4");
        reveal_strlit("5");
        reveal_strlit("6");
        reveal_strlit("7");
        reveal_strlit("8");
        reveal_strlit("9");
    }
    let r = if d == 0 {
        "0"
    } else if d == 1 {
        "1"
    } else if d == 2 {
        "2"
    } else if d == 3 {
        "3"
    } else if d == 4 {
        "4"
    } else if d == 5 {
        "5"
    } else if d == 6 {
        "6"
    } else if d == 7 {
        "7"
    } else if d == 8 {
        "8"
    } else {
        "9"
    };
    assert(r@ =~= seq![digit_char(d as int)]);
    r
}

/// Writes a number below 100 behind a text.
fn push_decimal(text: &mut String, n: usize)
    requires
        n < 100,
    ensures
        final(text)@ == old(text)@ + decimal(n as int),
{
    if n < 10 {
        text.append(digit_text(n));
    } else {
        text.append(digit_text(n / 10));
        text.append(digit_text(n % 10));
    }
    assert(text@ =~= old(text)@ + decimal(n as int));
}

/// Writes a move as a line of text, without the end of the line.
pub fn serialize_move(mov: &Move) -> (line: String)
    requires
        mov.valid(),
    ensures
        line@ == move_text(*mov),
{
    match mov {
        Move::Boom(index) => {
            let mut line = String::from_str("Boom ");
            push_decimal(&mut line, *index);
            line
        },
        Move::Zoom(index, pos) => {
            let mut line = String::from_str("Zoom ");
            push_decimal(&mut line, *index);
            proof {
                reveal_strlit(" ");
                assert(" "@ =~= seq![' ']);
            }
            line.append(" ");
            push_decimal(&mut line, small_index(pos));
            line
        },
        Move::Score(index) => {
            let mut line = String::from_str("Score ");
            push_decimal(&mut line, *index);
            line
        },
        Move::Concede(color) => {
            let mut line = String::from_str("Concede ");
            match color {
                Color::White => line.append("white"),
                Color::Black => line.append("black"),
            }
            line
        },
    }
}

/// The index of a square as an unsigned number.
fn small_index(pos: &Position) -> (r: usize)
    requires
        pos.wf(),
    ensures
        r == pos.index_spec(),
        r < 64,
{
    pos.index() as usize
}

/// The characters of a text.
fn chars_of(line: &str) -> (text: Vec<char>)
    ensures
        text@ == line@,
{
    let n = line.unicode_len();
    let mut text: Vec<char> = Vec::new();
    let mut i: usize = 0;
    while i < n
        invariant
            0 <= i <= n,
            n == line@.len(),
            text@ == line@.subrange(0, i as int),
        decreases n - i,
    {
        text.push(line.get_char(i));
        proof {
            assert(line@.subrange(0, i + 1) =~= line@.subrange(0, i as int).push(line@[i as int]));
        }
        i += 1;
    }
    proof {
        assert(line@.subrange(0, n as int) =~= line@);
    }
    text
}

/// Whether the part of the text from `from` to `to` is the word.
fn matches_at(text: &Vec<char>, from: usize, to: usize, word: &str) -> (r: bool)
    requires
        from <= to <= text@.len(),
    ensures
        r == (text@.subrange(from as int, to as int) == word@),
{
    let n = word.unicode_len();
    if to - from != n {
        return false;
    }
    let mut i: usize = 0;
    while i < n
        invariant
            0 <= i <= n,
            n == word@.len(),
            to - from == n,
            from <= to <= text@.len(),
            forall|j: int| 0 <= j < i ==> text@[from + j] == word@[j],
        decreases n - i,
    {
        if text[from + i] != word.get_char(i) {
            proof {
                assert(text@.subrange(from as int, to as int)[i as int] != word@[i as int]);
            }
            return false;
        }
        i += 1;
    }
    proof {
        assert(text@.subrange(from as int, to as int) =~= word@);
    }
    true
}

/// Whether the text begins with the word.
fn begins_with(text: &Vec<char>, word: &str) -> (r: bool)
    ensures
        r == has_prefix(text@, word@),
{
    let n = word.unicode_len();
    if n > text.len() {
        return false;
    }
    matches_at(text, 0, n, word)
}

/// Where the text ends once the blanks at its end are left off.
fn end_without_blanks(text: &Vec<char>, from: usize) -> (to: usize)
    requires
        from <= text@.len(),
    ensures
        from <= to <= text@.len(),
        text@.subrange(from as int, to as int) == trim_end(
            text@.subrange(from as int, text@.len() as int),
        ),
{
    let mut to: usize = text.len();
    while to > from && (text[to - 1] == ' ' || text[to - 1] == '\n' || text[to - 1] == '\r'
        || text[to - 1] == '\t')
        invariant
            from <= to <= text@.len(),
            trim_end(text@.subrange(from as int, to as int)) == trim_end(
                text@.subrange(from as int, text@.len() as int),
            ),
        decreases to,
    {
        proof {
            assert(text@.subrange(from as int, to as int).drop_last() =~= text@.subrange(
                from as int,
                to - 1,
            ));
        }
        to -= 1;
    }
    to
}

/// The number that a character stands for, if it is a digit.
fn value_of_digit(c: char) -> (r: Option<usize>)
    ensures
        match r {
            Some(d) => digit_value(c) == Some(d as int) && d < 10,
            None => digit_value(c) is None,
        },
{
    if '0' <= c && c <= '9' {
        Some((c as u32 - '0' as u32) as usize)
    } else {
        None
    }
}

/// The number written in the part of the text from `from` to `to`.
fn read_decimal(text: &Vec<char>, from: usize, to: usize) -> (r: Option<usize>)
    requires
        from <= to <= text@.len(),
    ensures
        match r {
            Some(n) => parse_decimal(text@.subrange(from as int, to as int)) == Some(n as int)
                && n < 100,
            None => parse_decimal(text@.subrange(from as int, to as int)) is None,
        },
{
    let ghost part = text@.subrange(from as int, to as int);
    if to - from == 1 {
        assert(part[0] == text@[from as int]);
        value_of_digit(text[from])
    } else if to - from == 2 {
        assert(part[0] == text@[from as int] && part[1] == text@[from + 1]);
        match (value_of_digit(text[from]), value_of_digit(text[from + 1])) {
            (Some(tens), Some(ones)) => if tens == 0 {
                None
            } else {
                Some(10 * tens + ones)
            },
            _ => None,
        }
    } else {
        None
    }
}

/// The slot written in the part of the text from `from` to `to`.
fn read_slot(text: &Vec<char>, from: usize, to: usize) -> (r: Result<usize, MoveParseError>)
    requires
        from <= to <= text@.len(),
    ensures
        r == parse_slot(text@.subrange(from as int, to as int)),
        r matches Ok(i) ==> i < 8,
{
    match read_decimal(text, from, to) {
        Some(i) => if i < 8 {
            Ok(i)
        } else {
            Err(MoveParseError::InvalidIndex)
        },
        None => Err(MoveParseError::InvalidIndex),
    }
}

/// The operands of a relocation, written from `from` to `to`.
fn read_zoom(text: &Vec<char>, from: usize, to: usize) -> (r: Result<Move, MoveParseError>)
    requires
        from <= to <= text@.len(),
    ensures
        r == parse_zoom(text@.subrange(from as int, to as int)),
        r matches Ok(m) ==> m.valid(),
{
    let ghost rest = text@.subrange(from as int, to as int);
    let mut at: usize = from;
    while at < to && text[at] != ' '
        invariant
            from <= at <= to <= text@.len(),
            rest == text@.subrange(from as int, to as int),
            first_space(rest, 0) == first_space(rest, at - from),
        decreases to - at,
    {
        proof {
            assert(rest[at - from] == text@[at as int]);
        }
        at += 1;
    }
    if at == to {
        return Err(MoveParseError::MalformedZoom);
    }
    proof {
        assert(rest[at - from] == text@[at as int]);
        assert(rest.subrange(0, at - from) =~= text@.subrange(from as int, at as int));
        assert(rest.subrange(at - from + 1, rest.len() as int) =~= text@.subrange(
            at + 1,
            to as int,
        ));
    }
    let index = match read_slot(text, from, at) {
        Ok(index) => index,
        Err(e) => {
            return Err(e);
        },
    };
    match read_decimal(text, at + 1, to) {
        Some(p) => if p < 64 {
            Ok(Move::Zoom(index, Position::new(narrow(p % 8), narrow(p / 8))))
        } else {
            Err(MoveParseError::InvalidPosition)
        },
        None => Err(MoveParseError::InvalidPosition),
    }
}

/// A number below eight as a signed byte.
fn narrow(n: usize) -> (r: i8)
    requires
        n < 8,
    ensures
        r == n,
{
    n as i8
}

/// Reads a move from a line of text.
pub fn deserialize_move(line: &str) -> (r: Result<Move, MoveParseError>)
    ensures
        r == parse_move(line@),
        r matches Ok(m) ==> m.valid(),
{
    let text = chars_of(line);
    proof {
        lemma_words();
    }
    if begins_with(&text, "Boom ") {
        let to = end_without_blanks(&text, 5);
        match read_slot(&text, 5, to) {
            Ok(index) => Ok(Move::Boom(index)),
            Err(e) => Err(e),
        }
    } else if begins_with(&text, "Zoom ") {
        let to = end_without_blanks(&text, 5);
        read_zoom(&text, 5, to)
    } else if begins_with(&text, "Score ") {
        let to = end_without_blanks(&text, 6);
        match read_slot(&text, 6, to) {
            Ok(index) => Ok(Move::Score(index)),
            Err(e) => Err(e),
        }
    } else if begins_with(&text, "Concede ") {
        let to = end_without_blanks(&text, 8);
        if matches_at(&text, 8, to, "white") {
            Ok(Move::Concede(Color::White))
        } else if matches_at(&text, 8, to, "black") {
            Ok(Move::Concede(Color::Black))
        } else {
            Err(MoveParseError::Unrecognized)
        }
    } else {
        Err(MoveParseError::Unrecognized)
    }
}

/// Why a line could not be acted on.
#[derive(Clone, Copy, Debug, PartialEq, Eq, Structural)]
pub enum ProtocolError {
    /// The line that should name our side names neither.
    UnknownColor,
    /// A move came in before our side was named.
    NotStarted,
    /// The line is not a move.
    BadMove(MoveParseError),
    /// The line is a move, but not one that the opponent may make on the
    /// board as it stands.
    IllegalMove,
}

/// A player that is driven by lines of text: first the line that names its
/// side, then the opponent's moves, one per line. It keeps the board and
/// answers each line with its own move.
pub struct StdioGamePlayer<T> where T: GamePlayer {
    player: T,
    board: Board,
    color: Option<Color>,
}

impl<T> StdioGamePlayer<T> where T: GamePlayer {
    /// The board as the player has it.
    pub closed spec fn board_spec(&self) -> Board {
        self.board
    }

    /// The side that the player plays, once it has been named.
    pub closed spec fn color_spec(&self) -> Option<Color> {
        self.color
    }

    /// The player's board is well formed.
    pub closed spec fn wf(&self) -> bool {
        self.board.wf()
    }

    /// A driven player on the initial board, its side not yet named.
    pub fn new(player: T) -> (r: StdioGamePlayer<T>)
        ensures
            r.wf(),
            r.board_spec() == Board::initial(),
            r.color_spec() is None,
    {
        StdioGamePlayer { player, board: Board::default(), color: None }
    }

    /// Whether the game on the player's board is decided.
    pub fn finished(&self) -> (r: bool)
        ensures
            r == self.board_spec().winner_spec() is Some,
    {
        self.board.winner().is_some()
    }

    /// Takes the line that names our side, `white` or `black`. White moves
    /// first, so for `white` the answer is our first move.
    pub fn start(&mut self, line: &str) -> (r: Result<Option<Move>, ProtocolError>)
        requires
            old(self).wf(),
        ensures
            final(self).wf(),
            match r {
                Ok(Some(m)) => {
                    &&& trim_end(line@) == "white"@
                    &&& old(self).board_spec().allows(Color::White, m)
                    &&& final(self).board_spec() == old(self).board_spec().apply_spec(m)
                    &&& final(self).color_spec() == Some(Color::White)
                },
                Ok(None) => {
                    &&& trim_end(line@) == "black"@
                    &&& final(self).board_spec() == old(self).board_spec()
                    &&& final(self).color_spec() == Some(Color::Black)
                },
                Err(e) => {
                    &&& e == ProtocolError::UnknownColor
                    &&& trim_end(line@) != "white"@
                    &&& trim_end(line@) != "black"@
                    &&& final(self).board_spec() == old(self).board_spec()
                    &&& final(self).color_spec() == old(self).color_spec()
                },
            },
    {
        let text = chars_of(line);
        let to = end_without_blanks(&text, 0);
        proof {
            lemma_words();
            assert(text@.subrange(0, text@.len() as int) =~= text@);
        }
        if matches_at(&text, 0, to, "white") {
            self.color = Some(Color::White);
            let our_move = self.player.decide(&self.board, &Color::White);
            proof {
                self.board.lemma_allows_valid(Color::White, our_move);
            }
            self.board = self.board.apply_move(&our_move);
            Ok(Some(our_move))
        } else if matches_at(&text, 0, to, "black") {
            self.color = Some(Color::Black);
            Ok(None)
        } else {
            Err(ProtocolError::UnknownColor)
        }
    }

    /// Takes the line of the opponent's move. If the line is a move that
    /// the opponent may make on the board as it stands, makes that move,
    /// and answers with our move, which it makes as well. Any other line is
    /// turned down, and the board stays as it is.
    pub fn answer(&mut self, line: &str) -> (r: Result<Move, ProtocolError>)
        requires
            old(self).wf(),
        ensures
            final(self).wf(),
            final(self).color_spec() == old(self).color_spec(),
            match r {
                Ok(m) => {
                    &&& old(self).color_spec() matches Some(color)
                    &&& parse_move(line@) matches Ok(theirs)
                    &&& old(self).board_spec().allows(color.inverted(), theirs)
                    &&& old(self).board_spec().apply_spec(theirs).allows(color, m)
                    &&& final(self).board_spec() == old(self).board_spec().apply_spec(
                        theirs,
                    ).apply_spec(m)
                },
                Err(e) => {
                    &&& final(self).board_spec() == old(self).board_spec()
                    &&& e == match old(self).color_spec() {
                        None => ProtocolError::NotStarted,
                        Some(_) => match parse_move(line@) {
                            Err(reason) => ProtocolError::BadMove(reason),
                            Ok(_) => ProtocolError::IllegalMove,
                        },
                    }
                    &&& match (old(self).color_spec(), parse_move(line@)) {
                        (Some(color), Ok(theirs)) => !old(self).board_spec().allows(
                            color.inverted(),
                            theirs,
                        ),
                        _ => true,
                    }
                },
            },
    {
        let color = match self.color {
            Some(color) => color,
            None => {
                return Err(ProtocolError::NotStarted);
            },
        };
        let their_move = match deserialize_move(line) {
            Ok(their_move) => their_move,
            Err(reason) => {
                return Err(ProtocolError::BadMove(reason));
            },
        };
        if !self.board.is_allowed(&color.invert(), &their_move) {
            return Err(ProtocolError::IllegalMove);
        }
        self.board = self.board.apply_move(&their_move);
        let our_move = self.player.decide(&self.board, &color);
        proof {
            self.board.lemma_allows_valid(color, our_move);
        }
        self.board = self.board.apply_move(&our_move);
        Ok(our_move)
    }
}

} // verus!
