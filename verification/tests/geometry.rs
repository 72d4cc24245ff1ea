use baz::{Color, Position, PositionOffset};

fn square(name: &str) -> Position {
    Position::try_from(name).unwrap()
}

#[test]
fn a_square_knows_its_coordinates_and_index() {
    let c6 = square("c6");
    assert_eq!(c6.x(), 2);
    assert_eq!(c6.y(), 5);
    assert_eq!(c6.index(), 42);
    assert_eq!(c6, Position::new(2, 5));
    assert_eq!(c6, Position::try_from((2i8, 5i8)).unwrap());
    assert_eq!(c6, Position::try_from(42i8).unwrap());
    assert_eq!(c6.name(), "c6");
}

#[test]
fn the_corners_have_their_names() {
    assert_eq!(Position::new(0, 0).name(), "a1");
    assert_eq!(Position::new(7, 0).name(), "h1");
    assert_eq!(Position::new(0, 7).name(), "a8");
    assert_eq!(Position::new(7, 7).name(), "h8");
    assert_eq!(square("a1").index(), 0);
    assert_eq!(square("h8").index(), 63);
}

#[test]
fn names_off_the_board_are_rejected() {
    assert_eq!(Position::try_from("i1"), Err(()));
    assert_eq!(Position::try_from("a9"), Err(()));
    assert_eq!(Position::try_from("a0"), Err(()));
    assert_eq!(Position::try_from("a"), Err(()));
    assert_eq!(Position::try_from(""), Err(()));
    assert_eq!(Position::try_from("a1x"), Err(()));
    assert_eq!(Position::try_from("1a"), Err(()));
    assert_eq!(Position::try_from("A1"), Err(()));
}

#[test]
fn coordinates_and_indices_off_the_board_are_rejected() {
    assert_eq!(Position::try_from((8i8, 0i8)), Err(()));
    assert_eq!(Position::try_from((0i8, 8i8)), Err(()));
    assert_eq!(Position::try_from((-1i8, 3i8)), Err(()));
    assert_eq!(Position::try_from((127i8, 127i8)), Err(()));
    assert_eq!(Position::try_from(64i8), Err(()));
    assert_eq!(Position::try_from(-1i8), Err(()));
}

#[test]
fn a_step_on_the_board_is_valid() {
    assert_eq!(
        square("c1").offset(1, 1),
        PositionOffset::Valid(square("d2"))
    );
    assert_eq!(
        square("c1").offset(0, 0),
        PositionOffset::Valid(square("c1"))
    );
    assert_eq!(
        square("a1").offset(7, 7),
        PositionOffset::Valid(square("h8"))
    );
}

#[test]
fn a_step_past_the_far_rank_reaches_the_score_band() {
    assert_eq!(
        square("c8").offset(0, 1),
        PositionOffset::ScoreZone(Color::White)
    );
    assert_eq!(
        square("c1").offset(0, -1),
        PositionOffset::ScoreZone(Color::Black)
    );
}

#[test]
fn the_score_bands_reach_one_column_past_the_board() {
    assert_eq!(
        square("a8").offset(-1, 1),
        PositionOffset::ScoreZone(Color::White)
    );
    assert_eq!(
        square("h8").offset(1, 1),
        PositionOffset::ScoreZone(Color::White)
    );
    assert_eq!(
        square("a1").offset(-1, -1),
        PositionOffset::ScoreZone(Color::Black)
    );
    assert_eq!(
        square("h1").offset(1, -1),
        PositionOffset::ScoreZone(Color::Black)
    );
    assert_eq!(square("h1").offset(2, -1), PositionOffset::Invalid);
    assert_eq!(square("a8").offset(-2, 1), PositionOffset::Invalid);
}

#[test]
fn a_step_off_the_board_elsewhere_is_invalid() {
    assert_eq!(square("a1").offset(-1, 0), PositionOffset::Invalid);
    assert_eq!(square("h4").offset(1, 0), PositionOffset::Invalid);
    assert_eq!(square("c1").offset(0, -2), PositionOffset::Invalid);
    assert_eq!(square("c8").offset(0, 2), PositionOffset::Invalid);
    assert_eq!(square("d4").offset(127, 127), PositionOffset::Invalid);
    assert_eq!(square("d4").offset(-128, -128), PositionOffset::Invalid);
}

#[test]
fn classifying_twice_gives_the_same() {
    let from = square("b7");
    for dx in -3i8..=3 {
        for dy in -3i8..=3 {
            assert_eq!(from.offset(dx, dy), from.offset(dx, dy));
        }
    }
}

#[test]
fn colors_invert() {
    assert_eq!(Color::White.invert(), Color::Black);
    assert_eq!(Color::Black.invert(), Color::White);
}
