use baz::{Board, Color, Height, Move, Position};

fn square(name: &str) -> Position {
    Position::try_from(name).unwrap()
}

fn same_pieces_and_scores(a: &Board, b: &Board) -> bool {
    (0..8).all(|slot| {
        a.pieces[slot].position == b.pieces[slot].position
            && a.pieces[slot].height == b.pieces[slot].height
            && a.pieces[slot].color == b.pieces[slot].color
    }) && a.white_score == b.white_score
        && a.black_score == b.black_score
}

#[test]
fn the_initial_board_in_compact_form() {
    // Each byte is 64 times the height plus the index of the square; slot
    // 0 is the lowest byte.
    assert_eq!(
        Board::default().encode(),
        (0xFDFC_FBFA_C5C4_C3C2u64, 0u8, 0u8)
    );
}

#[test]
fn the_scores_stand_beside_the_pieces_white_first() {
    let mut board = Board::default();
    board.white_score = 7;
    board.black_score = 200;
    assert_eq!(board.encode(), (0xFDFC_FBFA_C5C4_C3C2u64, 7u8, 200u8));
}

#[test]
fn decoding_gives_back_what_was_encoded() {
    let mut board = Board::default();
    board = board.apply_move(&Move::Zoom(0, square("a3")));
    board = board.apply_move(&Move::Boom(5));
    board = board.apply_move(&Move::Boom(5));
    board = board.apply_move(&Move::Score(3));
    board = board.apply_move(&Move::Zoom(7, square("h1")));
    let (packed, white, black) = board.encode();
    let decoded = Board::decode(packed, white, black);
    assert!(same_pieces_and_scores(&board, &decoded));
    assert_eq!(decoded.pieces[5].height, Height::One);
    assert_eq!(decoded.pieces[3].height, Height::Dead);
    assert_eq!(decoded.white_score, 3);
    assert_eq!(decoded.encode(), (packed, white, black));
}

#[test]
fn the_compact_form_does_not_tell_who_gave_up() {
    let board = Board::default().apply_move(&Move::Concede(Color::Black));
    let (packed, white, black) = board.encode();
    assert_eq!((packed, white, black), Board::default().encode());
    assert_eq!(Board::decode(packed, white, black).conceded, None);
}

#[test]
fn the_slot_of_a_piece_counts() {
    // The same pieces on the same squares, but in other slots of their
    // color, are another compact form.
    let mut a = Board::default();
    let mut b = Board::default();
    a.pieces[0].position = square("c1");
    a.pieces[1].position = square("d1");
    b.pieces[0].position = square("d1");
    b.pieces[1].position = square("c1");
    assert_ne!(a.encode(), b.encode());
    b.pieces[0].position = square("c1");
    b.pieces[1].position = square("d1");
    assert_eq!(a.encode(), b.encode());
}

#[test]
fn every_compact_form_is_a_board() {
    let empty = Board::decode(0, 0, 0);
    for slot in 0..8 {
        assert_eq!(empty.pieces[slot].height, Height::Dead);
        assert_eq!(empty.pieces[slot].position, square("a1"));
    }
    let full = Board::decode(u64::MAX, 255, 255);
    for slot in 0..8 {
        assert_eq!(full.pieces[slot].height, Height::Three);
        assert_eq!(full.pieces[slot].position, square("h8"));
        assert_eq!(
            full.pieces[slot].color,
            if slot < 4 { Color::White } else { Color::Black }
        );
    }
    assert_eq!(full.encode(), (u64::MAX, 255, 255));
    let mixed = Board::decode(0x0000_0000_0000_4081, 1, 2);
    assert_eq!(mixed.pieces[0].height, Height::Two);
    assert_eq!(mixed.pieces[0].position, square("b1"));
    assert_eq!(mixed.pieces[1].height, Height::One);
    assert_eq!(mixed.pieces[1].position, square("a1"));
    assert_eq!(mixed.white_score, 1);
    assert_eq!(mixed.black_score, 2);
}
