use baz::{
    Board, Color, ForwardRandomPlayer, Fraction, Game, GamePlayer, GeniusHeuristic,
    GoFastHeuristic, GoFasterHeuristic, HResult, Height, HeuristicPlayer, MinMaxPlayer, Move,
    NaiveHeuristic, Position, RandomPlayer, Winner,
};
use baz::minmax::{choose_pass, Progress};
use std::time::{Duration, Instant};

fn square(name: &str) -> Position {
    Position::try_from(name).unwrap()
}

fn allowed(board: &Board, color: &Color, m: &Move) -> bool {
    let moves = board.legal_moves(color).collect();
    if moves.is_empty() {
        *m == Move::Concede(*color)
    } else {
        moves.contains(m)
    }
}

fn endgame() -> Board {
    let mut board = Board::default();
    board.pieces[0].position = square("a4");
    board.pieces[1].height = Height::Dead;
    board.pieces[2].height = Height::Dead;
    board.pieces[3].height = Height::Dead;
    board.pieces[4].position = square("h1");
    board.pieces[5].height = Height::Dead;
    board.pieces[6].height = Height::Dead;
    board.pieces[7].height = Height::Dead;
    board
}

fn nobody_left() -> Board {
    let mut board = Board::default();
    for slot in 0..8 {
        board.pieces[slot].height = Height::Dead;
    }
    board
}

#[test]
fn a_search_of_ten_milliseconds_makes_a_legal_move() {
    let board = endgame();
    let mut player = MinMaxPlayer::new(GeniusHeuristic(), Duration::from_millis(10));
    for _ in 0..5 {
        let m = player.decide(&board, &Color::White);
        assert!(allowed(&board, &Color::White, &m));
        let m = player.decide(&board, &Color::Black);
        assert!(allowed(&board, &Color::Black, &m));
    }
    assert!(player.iterations() > 0);
}

#[test]
fn a_search_without_any_time_still_makes_a_legal_move() {
    let board = Board::default();
    let mut player = MinMaxPlayer::new(NaiveHeuristic(), Duration::from_millis(0));
    let m = player.decide(&board, &Color::White);
    assert!(allowed(&board, &Color::White, &m));
    let mut player: MinMaxPlayer<GoFasterHeuristic, i8> =
        MinMaxPlayer::new(GoFasterHeuristic(), Duration::from_nanos(1));
    let m = player.decide(&board, &Color::Black);
    assert!(allowed(&board, &Color::Black, &m));
}

#[test]
fn a_search_keeps_about_to_its_time() {
    let board = Board::default();
    let mut player = MinMaxPlayer::new(GeniusHeuristic(), Duration::from_millis(10));
    let begun = Instant::now();
    let m = player.decide(&board, &Color::White);
    assert!(allowed(&board, &Color::White, &m));
    assert!(begun.elapsed() < Duration::from_secs(10));
}

#[test]
fn a_search_scores_when_that_wins() {
    // White has a single piece one step from its band and is a point
    // behind: scoring wins the game at once.
    let mut board = nobody_left();
    board.pieces[0].height = Height::Two;
    board.pieces[0].position = square("d8");
    board.pieces[4].height = Height::One;
    board.pieces[4].position = square("h8");
    board.black_score = 1;
    let mut player = MinMaxPlayer::new(NaiveHeuristic(), Duration::from_millis(10));
    assert_eq!(player.decide(&board, &Color::White), Move::Score(0));
    let mut player = MinMaxPlayer::new(GeniusHeuristic(), Duration::from_millis(10));
    assert_eq!(player.decide(&board, &Color::White), Move::Score(0));
}

#[test]
fn a_search_gives_up_where_there_is_no_move() {
    let board = nobody_left();
    let mut player = MinMaxPlayer::new(NaiveHeuristic(), Duration::from_millis(1));
    assert_eq!(
        player.decide(&board, &Color::White),
        Move::Concede(Color::White)
    );
    assert_eq!(
        player.decide(&board, &Color::Black),
        Move::Concede(Color::Black)
    );
}

#[test]
fn the_value_of_a_decided_board_is_its_outcome() {
    let mut board = nobody_left();
    board.white_score = 2;
    let mut player = MinMaxPlayer::new(NaiveHeuristic(), Duration::from_millis(1));
    let (value, found) = player.minimax(
        &board,
        &Color::White,
        true,
        HResult::Loss,
        HResult::Win,
        0,
    );
    assert!(matches!(value, HResult::Win));
    assert_eq!(found, None);
    let (value, _) = player.minimax(
        &board,
        &Color::Black,
        true,
        HResult::Loss,
        HResult::Win,
        0,
    );
    assert!(matches!(value, HResult::Loss));
    board.black_score = 2;
    let (value, _) = player.minimax(
        &board,
        &Color::Black,
        false,
        HResult::Loss,
        HResult::Win,
        0,
    );
    assert!(matches!(value, HResult::Draw));
    assert!(matches!(
        MinMaxPlayer::<NaiveHeuristic, HResult<Fraction>>::settled(&Winner::White, &Color::White),
        HResult::Win
    ));
    assert!(matches!(
        MinMaxPlayer::<NaiveHeuristic, HResult<Fraction>>::settled(&Winner::White, &Color::Black),
        HResult::Loss
    ));
    assert!(matches!(
        MinMaxPlayer::<NaiveHeuristic, HResult<Fraction>>::settled(&Winner::Draw, &Color::Black),
        HResult::Draw
    ));
}

#[test]
fn candidates_are_followed_up_best_first() {
    let board = Board::default();
    let moves = board.legal_moves(&Color::White).collect();
    let player: MinMaxPlayer<GoFastHeuristic, i8> =
        MinMaxPlayer::new(GoFastHeuristic(), Duration::from_millis(1));
    let best_first = player.rank_children(&board, &Color::White, &moves, true);
    assert_eq!(best_first.len(), moves.len());
    for pair in best_first.windows(2) {
        assert!(pair[0].estimate >= pair[1].estimate);
    }
    let worst_first = player.rank_children(&board, &Color::White, &moves, false);
    for pair in worst_first.windows(2) {
        assert!(pair[0].estimate <= pair[1].estimate);
    }
    for m in &moves {
        assert_eq!(best_first.iter().filter(|c| c.mov == *m).count(), 1);
    }
    // Candidates of the same value keep the order of the moves.
    let first_of_best: Vec<Move> = best_first
        .iter()
        .filter(|c| c.estimate == -11)
        .map(|c| c.mov)
        .collect();
    let expected: Vec<Move> = moves
        .iter()
        .copied()
        .filter(|m| matches!(m, Move::Zoom(_, to) if to.y() > 0))
        .collect();
    assert_eq!(first_of_best, expected);
}

#[test]
fn a_heuristic_player_takes_the_last_of_the_best_moves() {
    let board = Board::default();
    let mut player = GoFastHeuristic::player();
    assert_eq!(
        player.choose_move(&board, &Color::White),
        Move::Zoom(3, square("c4"))
    );
    assert_eq!(
        player.decide(&board, &Color::White),
        Move::Zoom(3, square("c4"))
    );
    let mut player = HeuristicPlayer::new(GoFastHeuristic());
    assert_eq!(
        player.choose_move(&board, &Color::Black),
        Move::Zoom(7, square("h6"))
    );
}

#[test]
fn a_heuristic_player_captures_to_get_ahead() {
    let mut board = Board::default();
    board.pieces[0].position = square("c7");
    // Capturing a piece on the far rank slows nobody down, but a capture
    // of a piece that still has its way to go does.
    board.pieces[4].position = square("c8");
    let mut player = GoFasterHeuristic::player();
    let m = player.decide(&board, &Color::White);
    assert!(allowed(&board, &Color::White, &m));
    let mut genius = GeniusHeuristic::player();
    let m = genius.decide(&board, &Color::White);
    assert!(allowed(&board, &Color::White, &m));
}

#[test]
fn a_heuristic_player_gives_up_where_there_is_no_move() {
    let board = nobody_left();
    assert_eq!(
        GoFastHeuristic::player().decide(&board, &Color::White),
        Move::Concede(Color::White)
    );
    assert_eq!(
        GeniusHeuristic::player().choose_move(&board, &Color::Black),
        Move::Concede(Color::Black)
    );
}

#[test]
fn random_players_make_legal_moves() {
    let mut boards = vec![Board::default(), endgame()];
    let mut crowded = Board::default();
    crowded.pieces[0].position = square("d4");
    crowded.pieces[4].position = square("d5");
    crowded.pieces[5].position = square("e5");
    boards.push(crowded);
    for board in &boards {
        for color in [Color::White, Color::Black] {
            for _ in 0..50 {
                let m = RandomPlayer().decide(board, &color);
                assert!(allowed(board, &color, &m));
                let m = ForwardRandomPlayer().decide(board, &color);
                assert!(allowed(board, &color, &m));
                let m = baz::random::any_move(board, &color);
                assert!(allowed(board, &color, &m));
            }
        }
    }
}

#[test]
fn a_forward_player_goes_forward_where_it_can() {
    let board = Board::default();
    for _ in 0..50 {
        match ForwardRandomPlayer().decide(&board, &Color::White) {
            Move::Zoom(slot, to) => assert!(to.y() > board.pieces[slot].position.y()),
            other => panic!("no forward move: {:?}", other),
        }
        match ForwardRandomPlayer().decide(&board, &Color::Black) {
            Move::Zoom(slot, to) => assert!(to.y() < board.pieces[slot].position.y()),
            other => panic!("no forward move: {:?}", other),
        }
    }
}

#[test]
fn forward_moves_are_sifted_out_in_order() {
    let mut board = Board::default();
    board.pieces[0].position = square("b7");
    let moves = board.legal_moves_for(&board.pieces[0]).collect();
    let forward = ForwardRandomPlayer::forward_moves(&moves, &Color::White, 6);
    assert_eq!(
        forward,
        vec![
            Move::Zoom(0, square("b8")),
            Move::Score(0),
            Move::Zoom(0, square("a8")),
        ]
    );
    let backward = ForwardRandomPlayer::forward_moves(&moves, &Color::Black, 6);
    assert!(backward.contains(&Move::Zoom(0, square("b4"))));
    assert!(backward.contains(&Move::Score(0)));
    assert!(!backward.contains(&Move::Zoom(0, square("a7"))));
    assert!(!backward.iter().any(|m| matches!(m, Move::Boom(_))));
}

#[test]
fn random_players_give_up_where_there_is_no_move() {
    let board = nobody_left();
    assert_eq!(
        RandomPlayer().decide(&board, &Color::White),
        Move::Concede(Color::White)
    );
    assert_eq!(
        ForwardRandomPlayer().decide(&board, &Color::Black),
        Move::Concede(Color::Black)
    );
    assert_eq!(baz::random::live_slots(&board, &Color::White), vec![]);
    assert_eq!(
        baz::random::live_slots(&Board::default(), &Color::Black),
        vec![4, 5, 6, 7]
    );
}

#[test]
fn a_game_takes_turns() {
    let mut game = Game::new(GoFastHeuristic::player(), GoFasterHeuristic::player());
    assert_eq!(*game.turn(), Color::White);
    assert_eq!(game.winner(), None);
    let before = *game.board();
    assert_eq!(game.play_turn(), None);
    assert_eq!(*game.turn(), Color::Black);
    let after = *game.board();
    let made = Move::Zoom(3, square("c4"));
    assert_eq!(after.encode(), before.apply_move(&made).encode());
    game.apply_move(&Move::Boom(3));
    assert_eq!(*game.turn(), Color::White);
    assert_eq!(game.board().pieces[3].height, Height::Two);
}

#[test]
fn a_game_is_played_to_its_end() {
    let mut game = Game::new(GoFastHeuristic::player(), GoFastHeuristic::player());
    let result = game.finish_game(1000);
    assert_eq!(result, game.winner());
    assert_eq!(result, game.board().winner());
    // Both sides race for their bands, so the game cannot last.
    assert!(result.is_some());
    let board = game.board();
    match result {
        Some(Winner::White) => assert!(board.white_score > board.black_score),
        Some(Winner::Black) => assert!(board.black_score > board.white_score),
        _ => assert_eq!(board.white_score, board.black_score),
    }
}

#[test]
fn a_game_stops_at_its_turn_limit() {
    let mut game = Game::new(RandomPlayer(), RandomPlayer());
    assert_eq!(game.finish_game(0), None);
    assert_eq!(game.board().encode(), Board::default().encode());
    assert_eq!(game.finish_game(3), None);
    assert_eq!(*game.turn(), Color::Black);
    let mut game = Game::new(ForwardRandomPlayer(), RandomPlayer());
    let result = game.finish_game(100_000);
    assert_eq!(result, game.winner());
}

#[test]
fn test_final_moves() {
    let mut board = Board::default();
    /*
     * 8 ........
     * 7 ........
     * 6 ........
     * 5 ........
     * 4 w.......
     * 3 ........
     * 2 ........
     * 1 .......b
     *   abcdefgh
     */
    board.pieces[0].position = "a4".try_into().unwrap();
    board.pieces[1].height = Height::Dead;
    board.pieces[2].height = Height::Dead;
    board.pieces[3].height = Height::Dead;
    board.pieces[4].position = "h1".try_into().unwrap();
    board.pieces[5].height = Height::Dead;
    board.pieces[6].height = Height::Dead;
    board.pieces[7].height = Height::Dead;

    let mut player = MinMaxPlayer::new(GeniusHeuristic(), Duration::from_millis(10));
    // The piece stands five rows from its band and reaches three, so it
    // cannot score yet: what it does is one of its fifteen moves.
    let decided = player.decide(&board, &Color::White);
    let legal = board.legal_moves(&Color::White).collect();
    assert_eq!(legal.len(), 15);
    assert!(legal.contains(&decided));
    assert_ne!(decided, Move::Score(0));
}

#[test]
fn a_node_takes_up_what_is_better_and_stops_beyond_the_bound() {
    let first = Move::Boom(4);
    let second = Move::Boom(5);
    let start = Progress {
        best_score: i8::MIN,
        best_move: None,
        alpha: -100i8,
        beta: 100i8,
        cut: false,
    };
    // Where the node maximizes.
    let found = start.take_up(true, 5, first);
    assert_eq!(
        (found.best_score, found.best_move, found.alpha, found.beta, found.cut),
        (5, Some(first), 5, 100, false)
    );
    let same = found.take_up(true, 5, second);
    assert_eq!(
        (same.best_score, same.best_move, same.alpha, same.beta, same.cut),
        (5, Some(first), 5, 100, false)
    );
    let worse = found.take_up(true, 3, second);
    assert_eq!((worse.best_score, worse.best_move), (5, Some(first)));
    let better = found.take_up(true, 7, second);
    assert_eq!(
        (better.best_score, better.best_move, better.alpha, better.cut),
        (7, Some(second), 7, false)
    );
    let beyond = found.take_up(true, 101, second);
    assert_eq!(
        (beyond.best_score, beyond.best_move, beyond.alpha, beyond.beta, beyond.cut),
        (101, Some(second), 5, 100, true)
    );
    // The first candidate is taken however bad it is.
    let lost = start.take_up(true, i8::MIN, first);
    assert_eq!((lost.best_score, lost.best_move), (i8::MIN, Some(first)));
    // Where the node minimizes.
    let start = Progress {
        best_score: i8::MAX,
        ..start
    };
    let found = start.take_up(false, 5, first);
    assert_eq!(
        (found.best_score, found.best_move, found.alpha, found.beta, found.cut),
        (5, Some(first), -100, 5, false)
    );
    let worse = found.take_up(false, 6, second);
    assert_eq!((worse.best_score, worse.best_move), (5, Some(first)));
    let better = found.take_up(false, -3, second);
    assert_eq!(
        (better.best_score, better.best_move, better.beta, better.cut),
        (-3, Some(second), -3, false)
    );
    let beyond = found.take_up(false, -101, second);
    assert_eq!(
        (beyond.best_score, beyond.best_move, beyond.alpha, beyond.beta, beyond.cut),
        (-101, Some(second), -100, 5, true)
    );
}

#[test]
fn time_is_up_once_more_is_spent_than_allowed() {
    assert!(!baz::minmax::time_is_up(0, 0));
    assert!(!baz::minmax::time_is_up(9_999_999, 10_000_000));
    assert!(!baz::minmax::time_is_up(10_000_000, 10_000_000));
    assert!(baz::minmax::time_is_up(10_000_001, 10_000_000));
    assert!(baz::minmax::time_is_up(1, 0));
    assert!(!baz::minmax::time_is_up(u128::MAX, u128::MAX));
}

#[test]
fn a_node_entered_after_time_has_the_value_of_its_board_and_no_move() {
    let board = Board::default().apply_move(&Move::Boom(4));
    let mut searcher = MinMaxPlayer::new(NaiveHeuristic(), Duration::from_millis(10));
    // Let a turn go by, so that the player is set up for a pass.
    searcher.decide(&board, &Color::White);
    let (value, found) = searcher.search_node(
        true,
        &board,
        &Color::White,
        true,
        HResult::Loss,
        HResult::Win,
        0,
    );
    assert_eq!(value, HResult::Unknown(Fraction { numer: 24, denom: 13 }));
    assert_eq!(found, None);
    let (value, found) = searcher.search_node(
        true,
        &board,
        &Color::Black,
        false,
        HResult::Loss,
        HResult::Win,
        0,
    );
    assert_eq!(value, HResult::Unknown(Fraction { numer: -24, denom: 13 }));
    assert_eq!(found, None);
    // A decided board keeps the value of its outcome, late or not.
    let mut over = nobody_left();
    over.black_score = 1;
    let (value, found) = searcher.search_node(
        true,
        &over,
        &Color::White,
        true,
        HResult::Loss,
        HResult::Win,
        0,
    );
    assert_eq!(value, HResult::Loss);
    assert_eq!(found, None);
}

#[test]
fn a_node_follows_its_candidates_up() {
    // White is a point behind and has a single piece one step from its
    // band: the move that scores wins, whatever the order of the moves.
    let mut board = nobody_left();
    board.pieces[0].height = Height::Two;
    board.pieces[0].position = square("d8");
    board.pieces[4].height = Height::One;
    board.pieces[4].position = square("h8");
    board.black_score = 1;
    let mut searcher = MinMaxPlayer::new(NaiveHeuristic(), Duration::from_millis(10));
    searcher.decide(&board, &Color::White);
    let moves = board.legal_moves(&Color::White).collect();
    let mut backwards = moves.clone();
    backwards.reverse();
    for shuffled in [moves, backwards] {
        let (value, found) = searcher.follow_up(
            &shuffled,
            &board,
            &Color::White,
            true,
            HResult::Loss,
            HResult::Win,
            0,
        );
        assert_eq!(value, HResult::Win);
        assert_eq!(found, Some(Move::Score(0)));
    }
    let (value, found) = searcher.search_node(
        false,
        &board,
        &Color::White,
        true,
        HResult::Loss,
        HResult::Win,
        0,
    );
    assert_eq!(value, HResult::Win);
    assert_eq!(found, Some(Move::Score(0)));
    // Where Black moves at the node, it keeps White from that win if it
    // can: it takes the piece down a step, so that scoring only draws.
    let (value, found) = searcher.search_node(
        false,
        &board,
        &Color::White,
        false,
        HResult::Loss,
        HResult::Win,
        0,
    );
    assert!(found.is_some());
    assert!(board.is_allowed(&Color::Black, &found.unwrap()));
    assert_ne!(value, HResult::Win);
}

#[test]
fn the_last_complete_pass_decides() {
    let before = Move::Boom(4);
    let deeper = Move::Score(0);
    assert_eq!(choose_pass(before, false, Some(deeper)), deeper);
    assert_eq!(choose_pass(before, true, Some(deeper)), before);
    assert_eq!(choose_pass(before, false, None), before);
    assert_eq!(choose_pass(before, true, None), before);
}

#[test]
fn a_decided_game_is_left_as_it_is() {
    let mut game = Game::new(RandomPlayer(), RandomPlayer());
    game.apply_move(&Move::Concede(Color::White));
    let board = game.board().encode();
    let turn = *game.turn();
    assert_eq!(game.finish_game(100), Some(Winner::Black));
    assert_eq!(game.board().encode(), board);
    assert_eq!(game.board().conceded, Some(Color::White));
    assert_eq!(*game.turn(), turn);
}

#[test]
fn a_board_tells_which_answers_it_allows() {
    let board = Board::default();
    for m in board.legal_moves(&Color::White).collect() {
        assert!(board.is_allowed(&Color::White, &m));
    }
    assert!(board.is_allowed(&Color::White, &Move::Zoom(0, square("c4"))));
    assert!(board.is_allowed(&Color::Black, &Move::Zoom(4, square("c5"))));
    // Not a move of this side, out of reach, blocked, or not there at all.
    assert!(!board.is_allowed(&Color::Black, &Move::Zoom(0, square("c4"))));
    assert!(!board.is_allowed(&Color::White, &Move::Zoom(0, square("c5"))));
    assert!(!board.is_allowed(&Color::White, &Move::Zoom(0, square("d1"))));
    assert!(!board.is_allowed(&Color::White, &Move::Boom(4)));
    assert!(!board.is_allowed(&Color::White, &Move::Score(0)));
    // Giving up is allowed only to a side that has no move.
    assert!(!board.is_allowed(&Color::White, &Move::Concede(Color::White)));
    let empty = nobody_left();
    assert!(empty.is_allowed(&Color::White, &Move::Concede(Color::White)));
    assert!(!empty.is_allowed(&Color::White, &Move::Concede(Color::Black)));
    assert!(!empty.is_allowed(&Color::White, &Move::Score(0)));
}
