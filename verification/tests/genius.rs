use baz::{Board, Color, Fraction, GeniusHeuristic, HResult, Heuristic, Move};

#[test]
fn score_and_turns_no_pieces() {
    assert_eq!(GeniusHeuristic::score_and_turns(0, &[]), (0, 0));
}

#[test]
fn score_and_turns_one_pieces() {
    assert_eq!(
        GeniusHeuristic::score_and_turns(0, &[(1, 1, false)]),
        (1, 1)
    );
    assert_eq!(GeniusHeuristic::score_and_turns(0, &[(1, 1, true)]), (1, 1));
}

#[test]
fn score_and_turns_turn_calculation() {
    let matrix = [
        // Height 1
        ((1, 1, false), (1, 1)),
        ((1, 2, false), (1, 2)),
        ((1, 3, false), (1, 3)),
        ((1, 4, false), (1, 4)),
        ((1, 5, false), (1, 5)),
        ((1, 6, false), (1, 6)),
        ((1, 7, false), (1, 7)),
        ((1, 8, false), (1, 8)),
        // Height 2
        ((2, 1, false), (2, 1)),
        ((2, 2, false), (2, 1)),
        ((2, 3, false), (2, 2)),
        ((2, 4, false), (2, 2)),
        ((2, 5, false), (2, 3)),
        ((2, 6, false), (2, 3)),
        ((2, 7, false), (2, 4)),
        ((2, 8, false), (2, 4)),
        // Height 3
        ((3, 1, false), (3, 1)),
        ((3, 2, false), (3, 1)),
        ((3, 3, false), (3, 1)),
        ((3, 4, false), (3, 2)),
        ((3, 5, false), (3, 2)),
        ((3, 6, false), (3, 2)),
        ((3, 7, false), (3, 3)),
        ((3, 8, false), (3, 3)),
    ];
    for (datum, expected) in matrix {
        assert_eq!(GeniusHeuristic::score_and_turns(0, &[datum]), expected);
    }
}

#[test]
fn score_and_turns_no_boom() {
    assert_eq!(
        GeniusHeuristic::score_and_turns(0, &[(3, 1, false), (2, 1, false), (1, 1, true)]),
        (6, 3)
    );
}

#[test]
fn score_and_turns_one_boom() {
    assert_eq!(
        GeniusHeuristic::score_and_turns(0b1, &[(1, 1, true)]),
        (0, 0)
    );
    assert_eq!(
        GeniusHeuristic::score_and_turns(0b1, &[(2, 1, true)]),
        (1, 1)
    );
    assert_eq!(
        GeniusHeuristic::score_and_turns(0b1, &[(3, 1, true)]),
        (2, 1)
    );
    assert_eq!(
        GeniusHeuristic::score_and_turns(0b1, &[(3, 8, true)]),
        (2, 4)
    );
}

#[test]
fn score_and_turns_only_the_first_piece_is_captured() {
    // The scenario number is shifted up by the piece's place, so no bit of
    // it ever reaches a piece other than the first.
    assert_eq!(
        GeniusHeuristic::score_and_turns(0b10, &[(3, 7, true), (3, 7, true)]),
        (6, 6)
    );
    assert_eq!(
        GeniusHeuristic::score_and_turns(0b11, &[(3, 7, true), (3, 7, true)]),
        (5, 7)
    );
    // A piece that cannot be captured keeps its height in every scenario.
    assert_eq!(
        GeniusHeuristic::score_and_turns(0b1, &[(3, 7, false)]),
        (3, 3)
    );
}

#[test]
fn estimate_on_the_initial_board() {
    let board = Board::default();
    let (score, turns) = GeniusHeuristic::estimate_score_and_turns(&board, &Color::White);
    assert_eq!(score, Fraction { numer: 12, denom: 1 });
    assert_eq!(turns, Fraction { numer: 192, denom: 16 });
}

#[test]
fn estimate_counts_banked_points_and_threats() {
    let mut board = Board::default();
    // Bring the black piece of slot 4 next to the white piece of slot 0.
    board = board.apply_move(&Move::Zoom(4, baz::Position::try_from("c2").unwrap()));
    board.white_score = 2;
    let (score, turns) = GeniusHeuristic::estimate_score_and_turns(&board, &Color::White);
    // Slot 0 can be captured: in the 8 odd scenarios it counts with height
    // 2 and needs 4 turns instead of 3.
    assert_eq!(score, Fraction { numer: 27, denom: 2 });
    assert_eq!(turns, Fraction { numer: 200, denom: 16 });
}

#[test]
fn genius_values_an_even_board_as_even() {
    let board = Board::default();
    match GeniusHeuristic().evaluate(&board, &Color::White) {
        HResult::Unknown(estimate) => assert_eq!(estimate, Fraction { numer: 0, denom: 1 }),
        other => panic!("an open board has an estimate, not {:?}", other),
    }
}

#[test]
fn genius_values_a_decided_board_by_its_outcome() {
    let mut board = Board::default();
    board.conceded = Some(Color::Black);
    assert!(matches!(
        GeniusHeuristic().evaluate(&board, &Color::White),
        HResult::Win
    ));
    assert!(matches!(
        GeniusHeuristic().evaluate(&board, &Color::Black),
        HResult::Loss
    ));
}
