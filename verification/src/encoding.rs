//! The compact form of a board: one byte per piece, eight bytes in one
//! 64-bit integer, and the two score counters beside it.
//!
//! The byte of a piece holds its height in the top two bits and the linear
//! index of its square in the low six. The piece in slot 0 fills the lowest
//! byte. Colors are not stored, since the slot tells them; nor is the side
//! that gave up, so a decoded board is always one on which nobody has.

use crate::board::{slot_color, Board, Height, Piece};
use crate::geometry::{Color, Position};
use vstd::prelude::*;

verus! {

/// 256 to the power `n`.
pub open spec fn radix(n: int) -> int
    decreases n,
{
    if n <= 0 {
        1
    } else {
        256 * radix(n - 1)
    }
}

/// The byte of a piece: 64 times its height plus the index of its square.
pub open spec fn piece_code(piece: Piece) -> int {
    piece.height.value() * 64 + piece.position.index_spec()
}

/// The bytes of the pieces from slot `i` on, as one number with slot `i`
/// in the lowest place.
pub open spec fn pack_from(pieces: Seq<Piece>, i: int) -> int
    decreases 8 - i,
{
    if i < 0 || i >= 8 {
        0
    } else {
        piece_code(pieces[i]) + 256 * pack_from(pieces, i + 1)
    }
}

/// The byte in place `i` of `packed`, place 0 being the lowest.
pub open spec fn byte_at(packed: int, i: int) -> int
    decreases i,
{
    if i <= 0 {
        packed % 256
    } else {
        byte_at(packed / 256, i - 1)
    }
}

/// The height that two bits stand for.
pub open spec fn height_of_bits(bits: int) -> Height {
    if bits == 0 {
        Height::Dead
    } else if bits == 1 {
        Height::One
    } else if bits == 2 {
        Height::Two
    } else {
        Height::Three
    }
}

/// The piece that the byte `code` stands for in slot `i`.
pub open spec fn piece_of_code(i: int, code: int) -> Piece {
    Piece {
        color: slot_color(i),
        position: Position::at(code % 64 % 8, code % 64 / 8),
        height: height_of_bits(code / 64),
    }
}

/// The byte of a piece on a well-formed square fits in eight bits.
pub proof fn lemma_piece_code_bounds(piece: Piece)
    requires
        piece.position.wf(),
    ensures
        0 <= piece_code(piece) < 256,
{
}

/// The byte of a piece stands for that piece, in the slot of its color.
pub proof fn lemma_piece_of_code(piece: Piece, i: int)
    requires
        piece.position.wf(),
        piece.color == slot_color(i),
    ensures
        piece_of_code(i, piece_code(piece)) == piece,
{
    let index = piece.position.index_spec();
    let code = piece_code(piece);
    assert(code / 64 == piece.height.value() && code % 64 == index);
    assert(index % 8 == piece.position@.0 && index / 8 == piece.position@.1);
}

/// The packed bytes of the slots from `i` on fit in as many places.
pub proof fn lemma_pack_bounds(pieces: Seq<Piece>, i: int)
    requires
        pieces.len() == 8,
        forall|j: int| 0 <= j < 8 ==> (#[trigger] pieces[j]).position.wf(),
        0 <= i <= 8,
    ensures
        0 <= pack_from(pieces, i) < radix(8 - i),
    decreases 8 - i,
{
    if i < 8 {
        lemma_pack_bounds(pieces, i + 1);
        lemma_piece_code_bounds(pieces[i]);
    }
}

/// Eight places of 256 fill a 64-bit integer exactly.
pub proof fn lemma_radix_8()
    ensures
        radix(8) == 0x1_0000_0000_0000_0000,
{
    reveal_with_fuel(radix, 9);
}

/// Powers of 256 are positive and grow with the exponent.
pub proof fn lemma_radix_monotone(a: int, b: int)
    requires
        a <= b,
    ensures
        1 <= radix(a) <= radix(b),
    decreases b - a, b,
{
    if b <= 0 {
    } else if a < b {
        lemma_radix_monotone(a, b - 1);
    } else {
        lemma_radix_monotone(a - 1, b - 1);
    }
}

/// Unpacking finds each piece's byte in its place.
pub proof fn lemma_byte_of_pack(pieces: Seq<Piece>, i: int, k: int)
    requires
        pieces.len() == 8,
        forall|j: int| 0 <= j < 8 ==> (#[trigger] pieces[j]).position.wf(),
        0 <= i,
        0 <= k,
        i + k < 8,
    ensures
        byte_at(pack_from(pieces, i), k) == piece_code(pieces[i + k]),
    decreases k,
{
    lemma_piece_code_bounds(pieces[i]);
    lemma_pack_bounds(pieces, i + 1);
    if k > 0 {
        lemma_byte_of_pack(pieces, i + 1, k - 1);
    }
}

/// Packing the bytes found in a number gives the number's low places
/// back.
pub proof fn lemma_pack_of_bytes(pieces: Seq<Piece>, packed: int, i: int)
    requires
        pieces.len() == 8,
        0 <= packed,
        0 <= i <= 8,
        forall|j: int| i <= j < 8 ==> piece_code(#[trigger] pieces[j]) == byte_at(packed, j - i),
    ensures
        pack_from(pieces, i) == packed % radix(8 - i),
    decreases 8 - i,
{
    if i < 8 {
        assert forall|j: int| i + 1 <= j < 8 implies piece_code(#[trigger] pieces[j]) == byte_at(
            packed / 256,
            j - (i + 1),
        ) by {
            assert(piece_code(pieces[j]) == byte_at(packed, j - i));
        }
        lemma_pack_of_bytes(pieces, packed / 256, i + 1);
        lemma_radix_monotone(0, 7 - i);
        let r = radix(7 - i);
        let q = packed / 256;
        assert(piece_code(pieces[i]) == packed % 256);
        vstd::arithmetic::div_mod::lemma_mod_breakdown(packed, 256, r);
    } else {
        assert(radix(0) == 1);
    }
}

impl Board {
    /// The compact form of the board: the packed pieces, then White's
    /// counter, then Black's.
    pub open spec fn encode_spec(&self) -> (u64, u8, u8) {
        (pack_from(self.pieces@, 0) as u64, self.white_score, self.black_score)
    }

    /// The board that a compact form stands for.
    pub open spec fn decode_spec(packed: u64, white_score: u8, black_score: u8) -> Board {
        Board {
            pieces: [
                piece_of_code(0, byte_at(packed as int, 0)),
                piece_of_code(1, byte_at(packed as int, 1)),
                piece_of_code(2, byte_at(packed as int, 2)),
                piece_of_code(3, byte_at(packed as int, 3)),
                piece_of_code(4, byte_at(packed as int, 4)),
                piece_of_code(5, byte_at(packed as int, 5)),
                piece_of_code(6, byte_at(packed as int, 6)),
                piece_of_code(7, byte_at(packed as int, 7)),
            ],
            black_score,
            white_score,
            conceded: None,
        }
    }

    /// Decoding an encoded board gives back every piece, with its square
    /// and its height, and both counters. Only the note of who gave up is
    /// dropped.
    pub proof fn lemma_decode_encode(&self)
        requires
            self.placed(),
        ensures
            ({
                let e = self.encode_spec();
                Board::decode_spec(e.0, e.1, e.2) == (Board { conceded: None, ..*self })
            }),
    {
        let e = self.encode_spec();
        let d = Board::decode_spec(e.0, e.1, e.2);
        lemma_pack_bounds(self.pieces@, 0);
        lemma_radix_8();
        assert forall|i: int| 0 <= i < 8 implies d.pieces[i] == self.pieces[i] by {
            lemma_byte_of_pack(self.pieces@, 0, i);
            lemma_piece_of_code(self.pieces[i], i);
        }
        assert(d.pieces =~= self.pieces);
    }

    /// Encoding a decoded board gives back the compact form it was decoded
    /// from: no two compact forms stand for the same board.
    pub proof fn lemma_encode_decode(packed: u64, white_score: u8, black_score: u8)
        ensures
            Board::decode_spec(packed, white_score, black_score).placed(),
            Board::decode_spec(packed, white_score, black_score).encode_spec() == (
                packed,
                white_score,
                black_score,
            ),
    {
        let d = Board::decode_spec(packed, white_score, black_score);
        assert forall|i: int| 0 <= i < 8 implies (#[trigger] d.pieces[i]).color == slot_color(i)
            && d.pieces[i].position.wf() && piece_code(d.pieces[i]) == byte_at(
            packed as int,
            i,
        ) by {
            let code = byte_at(packed as int, i);
            lemma_byte_bounds(packed as int, i);
            Position::lemma_at(code % 64 % 8, code % 64 / 8);
        }
        lemma_pack_of_bytes(d.pieces@, packed as int, 0);
        lemma_radix_8();
    }

    /// Packs the board into its compact form.
    pub fn encode(&self) -> (r: (u64, u8, u8))
        requires
            self.placed(),
        ensures
            r == self.encode_spec(),
    {
        let mut packed: u64 = 0;
        let mut i: usize = 8;
        proof {
            lemma_radix_8();
        }
        while i > 0
            invariant
                0 <= i <= 8,
                self.placed(),
                packed == pack_from(self.pieces@, i as int),
                packed < radix(8 - i),
                radix(8) == 0x1_0000_0000_0000_0000,
            decreases i,
        {
            i -= 1;
            let piece = &self.pieces[i];
            let code: u64 = (piece.height.points() as u64) * 64 + (piece.position.index() as u64);
            proof {
                lemma_radix_monotone(8 - i, 8);
                lemma_radix_monotone(0, 7 - i);
            }
            packed = packed * 256 + code;
        }
        (packed, self.white_score, self.black_score)
    }

    /// Unpacks a compact form. Every compact form stands for a board whose
    /// pieces are in place.
    pub fn decode(packed: u64, white_score: u8, black_score: u8) -> (r: Board)
        ensures
            r == Board::decode_spec(packed, white_score, black_score),
            r.placed(),
    {
        let blank = Piece { color: Color::White, position: Position::new(0, 0), height: Height::Dead };
        let mut pieces: [Piece; 8] = [blank;8];
        let mut rest: u64 = packed;
        let mut i: usize = 0;
        while i < 8
            invariant
                0 <= i <= 8,
                forall|k: int|
                    0 <= k ==> #[trigger] byte_at(rest as int, k) == byte_at(packed as int, i + k),
                forall|j: int|
                    0 <= j < i ==> pieces[j] == piece_of_code(j, byte_at(packed as int, j)),
            decreases 8 - i,
        {
            let code: u8 = (rest % 256) as u8;
            let index: u8 = code % 64;
            let color = if i < 4 {
                Color::White
            } else {
                Color::Black
            };
            let height = match code / 64 {
                0 => Height::Dead,
                1 => Height::One,
                2 => Height::Two,
                _ => Height::Three,
            };
            let position = Position::new((index % 8) as i8, (index / 8) as i8);
            assert(byte_at(rest as int, 0) == code);
            pieces[i] = Piece { color, position, height };
            proof {
                assert forall|k: int| 0 <= k implies #[trigger] byte_at((rest / 256) as int, k)
                    == byte_at(packed as int, i + 1 + k) by {
                    assert(byte_at(rest as int, k + 1) == byte_at(packed as int, i + k + 1));
                }
            }
            rest = rest / 256;
            i += 1;
        }
        let r = Board { pieces, black_score, white_score, conceded: None };
        proof {
            assert(r.pieces =~= Board::decode_spec(packed, white_score, black_score).pieces);
            Board::lemma_encode_decode(packed, white_score, black_score);
        }
        r
    }
}

/// Every byte found in a number is a byte.
pub proof fn lemma_byte_bounds(packed: int, i: int)
    ensures
        0 <= byte_at(packed, i) < 256,
    decreases i,
{
    if i > 0 {
        lemma_byte_bounds(packed / 256, i - 1);
    }
}

} // verus!
