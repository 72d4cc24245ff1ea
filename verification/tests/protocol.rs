use baz::{
    deserialize_move, serialize_move, Board, Color, GoFastHeuristic, Move, MoveParseError,
    Position, ProtocolError, StdioGamePlayer,
};

fn square(name: &str) -> Position {
    Position::try_from(name).unwrap()
}

#[test]
fn moves_are_written_as_lines() {
    assert_eq!(serialize_move(&Move::Boom(4)), "Boom 4");
    assert_eq!(serialize_move(&Move::Zoom(0, square("c3"))), "Zoom 0 18");
    assert_eq!(serialize_move(&Move::Zoom(7, square("a1"))), "Zoom 7 0");
    assert_eq!(serialize_move(&Move::Zoom(3, square("h8"))), "Zoom 3 63");
    assert_eq!(serialize_move(&Move::Zoom(3, square("b2"))), "Zoom 3 9");
    assert_eq!(serialize_move(&Move::Score(7)), "Score 7");
    assert_eq!(
        serialize_move(&Move::Concede(Color::White)),
        "Concede white"
    );
    assert_eq!(
        serialize_move(&Move::Concede(Color::Black)),
        "Concede black"
    );
}

#[test]
fn lines_are_read_as_moves() {
    assert_eq!(deserialize_move("Boom 4\n"), Ok(Move::Boom(4)));
    assert_eq!(deserialize_move("Boom 0"), Ok(Move::Boom(0)));
    assert_eq!(
        deserialize_move("Zoom 0 18\n"),
        Ok(Move::Zoom(0, square("c3")))
    );
    assert_eq!(
        deserialize_move("Zoom 7 63 \r\n"),
        Ok(Move::Zoom(7, square("h8")))
    );
    assert_eq!(deserialize_move("Score 7\n"), Ok(Move::Score(7)));
    assert_eq!(
        deserialize_move("Concede white\n"),
        Ok(Move::Concede(Color::White))
    );
    assert_eq!(
        deserialize_move("Concede black"),
        Ok(Move::Concede(Color::Black))
    );
}

#[test]
fn every_move_is_read_as_it_was_written() {
    let mut moves = vec![
        Move::Concede(Color::White),
        Move::Concede(Color::Black),
    ];
    for slot in 0..8 {
        moves.push(Move::Boom(slot));
        moves.push(Move::Score(slot));
        for index in 0..64i8 {
            moves.push(Move::Zoom(slot, Position::try_from(index).unwrap()));
        }
    }
    for m in moves {
        let line = serialize_move(&m);
        assert_eq!(deserialize_move(&line), Ok(m));
        assert_eq!(deserialize_move(&format!("{}\n", line)), Ok(m));
    }
}

#[test]
fn a_line_of_no_known_kind_is_unrecognized() {
    assert_eq!(deserialize_move(""), Err(MoveParseError::Unrecognized));
    assert_eq!(
        deserialize_move("Hello\n"),
        Err(MoveParseError::Unrecognized)
    );
    assert_eq!(
        deserialize_move("boom 4\n"),
        Err(MoveParseError::Unrecognized)
    );
    assert_eq!(
        deserialize_move("Boom\n"),
        Err(MoveParseError::Unrecognized)
    );
    assert_eq!(
        deserialize_move(" Boom 4\n"),
        Err(MoveParseError::Unrecognized)
    );
    assert_eq!(
        deserialize_move("Concede\n"),
        Err(MoveParseError::Unrecognized)
    );
    assert_eq!(
        deserialize_move("Concede green\n"),
        Err(MoveParseError::Unrecognized)
    );
}

#[test]
fn a_slot_must_be_a_plain_number_up_to_seven() {
    for line in [
        "Boom 8\n",
        "Boom 12\n",
        "Boom -1\n",
        "Boom +1\n",
        "Boom 01\n",
        "Boom x\n",
        "Boom \n",
        "Boom 1 2\n",
        "Score 9\n",
        "Score 100\n",
        "Zoom 8 3\n",
        "Zoom x 3\n",
        "Zoom  3\n",
    ] {
        assert_eq!(deserialize_move(line), Err(MoveParseError::InvalidIndex));
    }
}

#[test]
fn a_relocation_needs_two_operands() {
    assert_eq!(
        deserialize_move("Zoom 3\n"),
        Err(MoveParseError::MalformedZoom)
    );
    assert_eq!(
        deserialize_move("Zoom \n"),
        Err(MoveParseError::MalformedZoom)
    );
    assert_eq!(
        deserialize_move("Zoom 318\n"),
        Err(MoveParseError::MalformedZoom)
    );
}

#[test]
fn a_square_must_be_a_plain_number_up_to_sixty_three() {
    for line in [
        "Zoom 3 64\n",
        "Zoom 3 99\n",
        "Zoom 3 100\n",
        "Zoom 3 -1\n",
        "Zoom 3 07\n",
        "Zoom 3 c3\n",
        "Zoom 3 1 8\n",
        "Zoom 3  18\n",
    ] {
        assert_eq!(
            deserialize_move(line),
            Err(MoveParseError::InvalidPosition)
        );
    }
}

#[test]
fn a_driven_player_that_plays_white_moves_first() {
    let mut player = StdioGamePlayer::new(GoFastHeuristic::player());
    assert!(!player.finished());
    let first = player.start("white\n").unwrap().unwrap();
    assert!(Board::default()
        .legal_moves(&Color::White)
        .collect()
        .contains(&first));
    // GoFast takes the last of the moves that bring a piece closest.
    assert_eq!(first, Move::Zoom(3, square("c4")));
    let board = Board::default().apply_move(&first);
    let theirs = Move::Zoom(4, square("c5"));
    let ours = player.answer("Zoom 4 34\n").unwrap();
    let board = board.apply_move(&theirs);
    assert!(board.legal_moves(&Color::White).collect().contains(&ours));
}

#[test]
fn a_driven_player_that_plays_black_waits() {
    let mut player = StdioGamePlayer::new(GoFastHeuristic::player());
    assert_eq!(player.start("black\n"), Ok(None));
    let theirs = Move::Zoom(0, square("c4"));
    let ours = player.answer(&serialize_move(&theirs)).unwrap();
    let board = Board::default().apply_move(&theirs);
    assert!(board.legal_moves(&Color::Black).collect().contains(&ours));
}

#[test]
fn a_driven_player_turns_bad_lines_down() {
    let mut player = StdioGamePlayer::new(GoFastHeuristic::player());
    assert_eq!(player.answer("Boom 4\n"), Err(ProtocolError::NotStarted));
    assert_eq!(player.start("green\n"), Err(ProtocolError::UnknownColor));
    assert_eq!(player.start("White\n"), Err(ProtocolError::UnknownColor));
    assert_eq!(player.start(""), Err(ProtocolError::UnknownColor));
    assert_eq!(player.start("black\n"), Ok(None));
    assert_eq!(
        player.answer("Boom 9\n"),
        Err(ProtocolError::BadMove(MoveParseError::InvalidIndex))
    );
    assert_eq!(
        player.answer("nonsense\n"),
        Err(ProtocolError::BadMove(MoveParseError::Unrecognized))
    );
    assert_eq!(
        player.answer("Zoom 1\n"),
        Err(ProtocolError::BadMove(MoveParseError::MalformedZoom))
    );
    assert_eq!(
        player.answer("Zoom 1 77\n"),
        Err(ProtocolError::BadMove(MoveParseError::InvalidPosition))
    );
    // After all that the board is still the initial one.
    assert!(player.answer("Zoom 0 26\n").is_ok());
}

#[test]
fn a_driven_player_turns_down_a_move_that_the_rules_do_not_allow() {
    let mut player = StdioGamePlayer::new(GoFastHeuristic::player());
    assert_eq!(player.start("black\n"), Ok(None));
    // White cannot capture across the board, move a black piece, or score
    // from its home rank.
    assert_eq!(player.answer("Boom 4\n"), Err(ProtocolError::IllegalMove));
    assert_eq!(player.answer("Zoom 4 34\n"), Err(ProtocolError::IllegalMove));
    assert_eq!(player.answer("Score 0\n"), Err(ProtocolError::IllegalMove));
    assert_eq!(player.answer("Zoom 0 34\n"), Err(ProtocolError::IllegalMove));
    assert_eq!(
        player.answer("Concede white\n"),
        Err(ProtocolError::IllegalMove)
    );
    // The board is still the initial one: a first move of White is taken.
    let ours = player.answer("Zoom 0 26\n").unwrap();
    let board = Board::default().apply_move(&Move::Zoom(0, square("c4")));
    assert!(board.is_allowed(&Color::Black, &ours));
}
