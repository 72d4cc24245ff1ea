use baz::{
    Board, Color, Fraction, GoFastHeuristic, GoFasterHeuristic, HResult, Height, Heuristic, Move,
    NaiveHeuristic, Position, Ranked,
};
use std::cmp::Ordering;

fn square(name: &str) -> Position {
    Position::try_from(name).unwrap()
}

fn fraction(numer: i32, denom: i32) -> Fraction {
    Fraction { numer, denom }
}

#[test]
fn a_new_fraction_is_in_lowest_terms() {
    assert_eq!(Fraction::new(2, 4), fraction(1, 2));
    assert_eq!(Fraction::new(3, -6), fraction(-1, 2));
    assert_eq!(Fraction::new(-3, -6), fraction(1, 2));
    assert_eq!(Fraction::new(0, 5), fraction(0, 1));
    assert_eq!(Fraction::new(7, 7), fraction(1, 1));
    assert_eq!(Fraction::new(384, 32), fraction(12, 1));
    assert_eq!(Fraction::new(132, 13), fraction(132, 13));
}

#[test]
fn fractions_subtract() {
    assert_eq!(fraction(1, 2).sub(&fraction(1, 3)), fraction(1, 6));
    assert_eq!(fraction(1, 3).sub(&fraction(1, 2)), fraction(-1, 6));
    assert_eq!(fraction(3, 4).sub(&fraction(1, 4)), fraction(1, 2));
    assert_eq!(fraction(2, 4).sub(&fraction(1, 2)), fraction(0, 1));
    assert_eq!(fraction(12, 1).sub(&fraction(132, 13)), fraction(24, 13));
}

#[test]
fn fractions_multiply() {
    assert_eq!(fraction(2, 3).mul(&fraction(3, 4)), fraction(1, 2));
    assert_eq!(fraction(-2, 3).mul(&fraction(3, 4)), fraction(-1, 2));
    assert_eq!(fraction(12, 1).mul(&fraction(192, 16)), fraction(144, 1));
    assert_eq!(fraction(0, 7).mul(&fraction(5, 9)), fraction(0, 1));
}

#[test]
fn fractions_divide() {
    assert_eq!(fraction(1, 2).div(&fraction(1, 4)), fraction(2, 1));
    assert_eq!(fraction(1, 2).div(&fraction(-1, 4)), fraction(-2, 1));
    assert_eq!(fraction(144, 1).div(&fraction(192, 16)), fraction(12, 1));
    assert_eq!(fraction(0, 3).div(&fraction(5, 7)), fraction(0, 1));
}

#[test]
fn a_difference_that_may_not_fit_is_not_taken() {
    assert_eq!(
        fraction(i32::MAX, 1).checked_sub(&fraction(-1, 1)),
        None
    );
    assert_eq!(
        fraction(1, 65536).checked_sub(&fraction(1, 65536)),
        None
    );
    assert_eq!(fraction(1, 0).checked_sub(&fraction(1, 2)), None);
    assert_eq!(fraction(1, 2).checked_sub(&fraction(1, -2)), None);
    assert_eq!(
        fraction(1, 2).checked_sub(&fraction(1, 3)),
        Some(fraction(1, 6))
    );
    assert_eq!(
        fraction(i32::MAX - 1, 1).checked_sub(&fraction(-1, 1)),
        Some(fraction(i32::MAX, 1))
    );
}

#[test]
fn fractions_rank_by_value() {
    assert!(fraction(1, 2).outranks(&fraction(1, 3)));
    assert!(!fraction(1, 3).outranks(&fraction(1, 2)));
    assert!(!fraction(1, 2).outranks(&fraction(2, 4)));
    assert!(fraction(-1, 3).outranks(&fraction(-1, 2)));
    assert!(fraction(0, 1).outranks(&fraction(-1, 1000)));
    assert!(fraction(7, 3).outranks(&fraction(9, 4)));
    assert_eq!(Fraction::zero(), fraction(0, 1));
}

#[test]
fn small_numbers_rank_as_they_are() {
    assert!(1i8.outranks(&0));
    assert!(!0i8.outranks(&0));
    assert!(!(-1i8).outranks(&0));
    assert_eq!(<i8 as Ranked>::zero(), 0);
    assert_eq!(baz::rank::higher(3i8, 5i8), 5);
    assert_eq!(baz::rank::lower(3i8, 5i8), 3);
    assert_eq!(baz::rank::three_way(&3i8, &5i8), Ordering::Less);
}

#[test]
fn outcomes_rank_apart_from_estimates() {
    let win: HResult<Fraction> = HResult::Win;
    let loss: HResult<Fraction> = HResult::Loss;
    let draw: HResult<Fraction> = HResult::Draw;
    let up = HResult::Unknown(fraction(1, 1000));
    let even = HResult::Unknown(fraction(0, 1));
    let down = HResult::Unknown(fraction(-1, 1000));
    let far_up = HResult::Unknown(fraction(i32::MAX, 1));
    let far_down = HResult::Unknown(fraction(-i32::MAX, 1));
    let ascending = [loss, far_down, down, draw, up, far_up, win];
    for i in 0..ascending.len() {
        for j in 0..ascending.len() {
            assert_eq!(ascending[i].cmp(&ascending[j]), i.cmp(&j));
        }
    }
    // A draw ranks with an estimate of nothing, neither above nor below.
    assert_eq!(draw.cmp(&even), Ordering::Equal);
    assert_eq!(even.cmp(&draw), Ordering::Equal);
    assert_eq!(even.cmp(&up), Ordering::Less);
    assert_eq!(even.cmp(&down), Ordering::Greater);
    assert!(win.outranks(&far_up));
    assert!(!draw.outranks(&even));
    assert!(matches!(<HResult<Fraction> as Ranked>::zero(), HResult::Draw));
}

#[test]
fn outcomes_of_small_numbers() {
    let draw: HResult<i8> = HResult::Draw;
    assert_eq!(draw.cmp(&HResult::Unknown(1)), Ordering::Less);
    assert_eq!(draw.cmp(&HResult::Unknown(0)), Ordering::Equal);
    assert_eq!(draw.cmp(&HResult::Unknown(-1)), Ordering::Greater);
    assert_eq!(
        HResult::Unknown(i8::MAX).cmp(&HResult::Win),
        Ordering::Less
    );
    assert_eq!(
        HResult::Unknown(i8::MIN).cmp(&HResult::Loss),
        Ordering::Greater
    );
}

#[test]
fn go_fast_counts_the_turns_to_the_far_rank() {
    let board = Board::default();
    assert_eq!(GoFastHeuristic().evaluate(&board, &Color::White), -12);
    assert_eq!(GoFastHeuristic().evaluate(&board, &Color::Black), -12);
    let board = board.apply_move(&Move::Zoom(0, square("c4")));
    assert_eq!(GoFastHeuristic().evaluate(&board, &Color::White), -11);
    let board = board.apply_move(&Move::Zoom(0, square("c7")));
    assert_eq!(GoFastHeuristic().evaluate(&board, &Color::White), -10);
    let board = board.apply_move(&Move::Zoom(0, square("c8")));
    assert_eq!(GoFastHeuristic().evaluate(&board, &Color::White), -9);
    assert_eq!(baz::go_fast::race_turns(&board, &Color::White), 9);
}

#[test]
fn go_faster_counts_the_lead() {
    let board = Board::default();
    assert_eq!(GoFasterHeuristic().evaluate(&board, &Color::White), 0);
    let board = board.apply_move(&Move::Boom(4));
    assert_eq!(GoFasterHeuristic().evaluate(&board, &Color::White), 1);
    assert_eq!(GoFasterHeuristic().evaluate(&board, &Color::Black), -1);
}

#[test]
fn the_bounds_of_small_number_evaluations() {
    assert_eq!(<GoFastHeuristic as Heuristic<i8>>::min(), i8::MIN);
    assert_eq!(<GoFastHeuristic as Heuristic<i8>>::max(), i8::MAX);
    assert_eq!(<GoFastHeuristic as Heuristic<i8>>::draw(), 0);
    assert_eq!(<GoFasterHeuristic as Heuristic<i8>>::min(), i8::MIN);
    assert_eq!(<GoFasterHeuristic as Heuristic<i8>>::max(), i8::MAX);
    assert_eq!(<GoFasterHeuristic as Heuristic<i8>>::draw(), 0);
}

#[test]
fn turns_are_distance_over_height_rounded_up() {
    assert_eq!(baz::go_fast::turns_for(7, &Height::Three), 3);
    assert_eq!(baz::go_fast::turns_for(6, &Height::Three), 2);
    assert_eq!(baz::go_fast::turns_for(7, &Height::Two), 4);
    assert_eq!(baz::go_fast::turns_for(7, &Height::One), 7);
    assert_eq!(baz::go_fast::turns_for(0, &Height::One), 0);
    assert_eq!(baz::go_fast::turns_for(5, &Height::Dead), 0);
}

#[test]
fn naive_counts_points_and_turns_to_score() {
    let board = Board::default();
    assert_eq!(
        NaiveHeuristic::score_and_turns(&board, &Color::White),
        (12, 12)
    );
    let board = board.apply_move(&Move::Boom(4));
    assert_eq!(
        NaiveHeuristic::score_and_turns(&board, &Color::Black),
        (11, 13)
    );
    let board = board.apply_move(&Move::Zoom(0, square("c8")));
    assert_eq!(
        NaiveHeuristic::score_and_turns(&board, &Color::White),
        (12, 10)
    );
}

#[test]
fn naive_sets_points_against_turns() {
    let board = Board::default();
    match NaiveHeuristic().evaluate(&board, &Color::White) {
        HResult::Unknown(estimate) => assert_eq!(estimate, fraction(0, 1)),
        other => panic!("an open board has an estimate, not {:?}", other),
    }
    let board = board.apply_move(&Move::Boom(4));
    match NaiveHeuristic().evaluate(&board, &Color::White) {
        HResult::Unknown(estimate) => assert_eq!(estimate, fraction(24, 13)),
        other => panic!("an open board has an estimate, not {:?}", other),
    }
    match NaiveHeuristic().evaluate(&board, &Color::Black) {
        HResult::Unknown(estimate) => assert_eq!(estimate, fraction(-24, 13)),
        other => panic!("an open board has an estimate, not {:?}", other),
    }
}

#[test]
fn naive_knows_a_decided_board() {
    let mut board = Board::default();
    for slot in 0..4 {
        board.pieces[slot].height = Height::Dead;
    }
    board.black_score = 1;
    assert!(matches!(
        NaiveHeuristic().evaluate(&board, &Color::White),
        HResult::Loss
    ));
    assert!(matches!(
        NaiveHeuristic().evaluate(&board, &Color::Black),
        HResult::Win
    ));
    board.white_score = 1;
    assert!(matches!(
        NaiveHeuristic().evaluate(&board, &Color::White),
        HResult::Draw
    ));
    assert!(matches!(
        <NaiveHeuristic as Heuristic<HResult<Fraction>>>::min(),
        HResult::Loss
    ));
    assert!(matches!(
        <NaiveHeuristic as Heuristic<HResult<Fraction>>>::max(),
        HResult::Win
    ));
    assert!(matches!(
        <NaiveHeuristic as Heuristic<HResult<Fraction>>>::draw(),
        HResult::Draw
    ));
}

#[test]
fn outcomes_are_equal_when_they_are_the_same() {
    let win: HResult<Fraction> = HResult::Win;
    assert_eq!(win, HResult::Win);
    assert_ne!(win, HResult::Loss);
    assert_eq!(
        HResult::Unknown(fraction(1, 2)),
        HResult::Unknown(fraction(1, 2))
    );
    assert_ne!(
        HResult::Unknown(fraction(1, 2)),
        HResult::Unknown(fraction(2, 4))
    );
    // A draw ranks with an estimate of nothing, but is not the same.
    assert_ne!(HResult::Draw, HResult::Unknown(fraction(0, 1)));
}
