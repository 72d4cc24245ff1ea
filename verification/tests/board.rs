use baz::{Board, Color, Height, Move, Piece, Position, Winner};

fn square(name: &str) -> Position {
    Position::try_from(name).unwrap()
}

fn only(board: &mut Board, alive: &[usize]) {
    for slot in 0..8 {
        if !alive.contains(&slot) {
            board.pieces[slot].height = Height::Dead;
        }
    }
}

#[test]
fn the_initial_board() {
    let board = Board::default();
    let names = ["c1", "d1", "e1", "f1", "c8", "d8", "e8", "f8"];
    for slot in 0..8 {
        let piece = board.get_piece(slot);
        assert_eq!(piece.position, square(names[slot]));
        assert_eq!(piece.height, Height::Three);
        assert_eq!(
            piece.color,
            if slot < 4 { Color::White } else { Color::Black }
        );
    }
    assert_eq!(board.white_score, 0);
    assert_eq!(board.black_score, 0);
    assert_eq!(board.conceded, None);
    assert_eq!(board.winner(), None);
}

#[test]
fn a_new_piece_stands_tall() {
    let piece = Piece::new(Color::Black, (6, 3));
    assert_eq!(piece.color, Color::Black);
    assert_eq!(piece.position, square("g4"));
    assert_eq!(piece.height, Height::Three);
}

#[test]
fn booming_lowers_step_by_step_and_stops_at_dead() {
    assert_eq!(Height::Three.boom(), Height::Two);
    assert_eq!(Height::Two.boom(), Height::One);
    assert_eq!(Height::One.boom(), Height::Dead);
    assert_eq!(Height::Dead.boom(), Height::Dead);
    let mut piece = Piece::new(Color::White, (0, 0));
    for _ in 0..10 {
        piece.boom();
    }
    assert_eq!(piece.height, Height::Dead);
    assert_eq!(piece.position, square("a1"));
}

#[test]
fn heights_and_numbers() {
    assert_eq!(Height::try_from(0u8), Ok(Height::Dead));
    assert_eq!(Height::try_from(1u8), Ok(Height::One));
    assert_eq!(Height::try_from(2u8), Ok(Height::Two));
    assert_eq!(Height::try_from(3u8), Ok(Height::Three));
    assert_eq!(Height::try_from(4u8), Err(()));
    assert_eq!(Height::try_from(3i8), Ok(Height::Three));
    assert_eq!(Height::try_from(-1i8), Err(()));
    assert_eq!(u8::from(&Height::Two), 2);
    assert_eq!(i8::from(&Height::Three), 3);
    assert_eq!(Height::Dead.points(), 0);
    assert_eq!(Height::One.points(), 1);
}

#[test]
fn a_capture_takes_one_step_of_height() {
    let board = Board::default();
    let next = board.apply_move(&Move::Boom(4));
    assert_eq!(next.pieces[4].height, Height::Two);
    assert_eq!(next.pieces[4].position, board.pieces[4].position);
    assert_eq!(next.white_score, 0);
    assert_eq!(next.black_score, 0);
    for slot in [0, 1, 2, 3, 5, 6, 7] {
        assert_eq!(next.pieces[slot].height, Height::Three);
    }
    // The board that the move was made on is as it was.
    assert_eq!(board.pieces[4].height, Height::Three);
}

#[test]
fn a_relocation_changes_the_square_only() {
    let board = Board::default();
    let next = board.apply_move(&Move::Zoom(1, square("d4")));
    assert_eq!(next.pieces[1].position, square("d4"));
    assert_eq!(next.pieces[1].height, Height::Three);
    assert_eq!(next.pieces[1].color, Color::White);
    assert_eq!(board.pieces[1].position, square("d1"));
    assert_eq!(next.get_piece_at(&square("d4")), Some(1));
    assert_eq!(next.get_piece_at(&square("d1")), None);
}

#[test]
fn scoring_banks_the_height_and_retires_the_piece() {
    let mut board = Board::default();
    board.pieces[0].height = Height::Two;
    let next = board.apply_move(&Move::Score(0));
    assert_eq!(next.white_score, 2);
    assert_eq!(next.black_score, 0);
    assert_eq!(next.pieces[0].height, Height::Dead);
    let next = next.apply_move(&Move::Score(5));
    assert_eq!(next.white_score, 2);
    assert_eq!(next.black_score, 3);
    assert_eq!(next.pieces[5].height, Height::Dead);
    // A retired piece is no longer found on its square, and scores nothing.
    assert_eq!(next.get_piece_at(&square("c1")), None);
    let again = next.apply_move(&Move::Score(0));
    assert_eq!(again.white_score, 2);
}

#[test]
fn giving_up_loses_at_once() {
    let board = Board::default();
    let next = board.apply_move(&Move::Concede(Color::White));
    assert_eq!(next.conceded, Some(Color::White));
    assert_eq!(next.winner(), Some(Winner::Black));
    let next = board.apply_move(&Move::Concede(Color::Black));
    assert_eq!(next.winner(), Some(Winner::White));
}

#[test]
fn giving_up_overrides_the_scores() {
    let mut board = Board::default();
    only(&mut board, &[]);
    board.white_score = 9;
    board.black_score = 1;
    assert_eq!(board.winner(), Some(Winner::White));
    board.conceded = Some(Color::White);
    assert_eq!(board.winner(), Some(Winner::Black));
}

#[test]
fn with_one_side_out_of_pieces_the_scores_decide() {
    let mut board = Board::default();
    only(&mut board, &[4, 5, 6, 7]);
    board.black_score = 2;
    assert_eq!(board.winner(), Some(Winner::Black));
    board.white_score = 2;
    assert_eq!(board.winner(), Some(Winner::Draw));
    board.white_score = 3;
    assert_eq!(board.winner(), Some(Winner::White));
}

#[test]
fn a_side_that_cannot_catch_up_has_lost() {
    let mut board = Board::default();
    only(&mut board, &[0, 4]);
    board.black_score = 4;
    // White has 0 banked and 3 in play: not enough against 4.
    assert_eq!(board.winner(), Some(Winner::Black));
    // Against 3 it could still draw level, so the game is open.
    board.black_score = 3;
    assert_eq!(board.winner(), None);
    board.black_score = 0;
    board.white_score = 4;
    assert_eq!(board.winner(), Some(Winner::White));
    board.white_score = 3;
    assert_eq!(board.winner(), None);
}

#[test]
fn the_winner_does_not_depend_on_earlier_calls() {
    let mut board = Board::default();
    only(&mut board, &[0, 4]);
    board.black_score = 4;
    let copy = board;
    assert_eq!(board.winner(), copy.winner());
    assert_eq!(board.winner(), board.winner());
    let _ = Board::default().winner();
    assert_eq!(board.winner(), Some(Winner::Black));
}

#[test]
fn potential_is_the_height_in_play() {
    let mut board = Board::default();
    assert_eq!(board.potential_of(&Color::White), 12);
    assert_eq!(board.potential_of(&Color::Black), 12);
    board.pieces[0].height = Height::One;
    board.pieces[1].height = Height::Dead;
    assert_eq!(board.potential_of(&Color::White), 7);
    assert_eq!(board.potential_of(&Color::Black), 12);
}

#[test]
fn the_lowest_slot_on_a_square_is_found_and_dead_pieces_are_not() {
    let mut board = Board::default();
    assert_eq!(board.get_piece_at(&square("f8")), Some(7));
    assert_eq!(board.get_piece_at(&square("a4")), None);
    board.pieces[2].position = square("f8");
    assert_eq!(board.get_piece_at(&square("f8")), Some(2));
    board.pieces[2].height = Height::Dead;
    assert_eq!(board.get_piece_at(&square("f8")), Some(7));
}

#[test]
fn winners_and_their_colors() {
    assert_eq!(Winner::White.color(), Some(Color::White));
    assert_eq!(Winner::Black.color(), Some(Color::Black));
    assert_eq!(Winner::Draw.color(), None);
}

#[test]
fn a_board_can_be_checked_for_its_form() {
    let mut board = Board::default();
    assert!(board.is_valid());
    assert!(board.pieces[0].position.is_valid());
    board.white_score = 243;
    assert!(board.is_valid());
    // A counter needs room for all that its side can still score.
    board.white_score = 244;
    assert!(!board.is_valid());
    board.pieces[0].height = Height::Two;
    assert!(board.is_valid());
    // Each slot holds a piece of the side that owns it.
    board.pieces[5].color = Color::White;
    assert!(!board.is_valid());
}
