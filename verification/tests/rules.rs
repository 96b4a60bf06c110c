use kalaha::ai::{AlphaBeta, FirstValid, LastValid, MinMax, AI};
use kalaha::board::Board;
use kalaha::player::Player;
use kalaha::pool::{Bank, Pond, Pool};
use kalaha::turn::{GameResult, Turn};
use kalaha::Kalaha;

fn board_counts(board: &Board) -> Vec<u32> {
    board.pools.iter().map(|p| p.count()).collect()
}

fn total_seeds(game: &Kalaha) -> u32 {
    board_counts(&game.board).iter().sum()
}

fn board_with(counts: &[u32]) -> Board {
    let pool = |i: usize| {
        let player = if i <= 6 { Player::A } else { Player::B };
        if i == 6 || i == 13 {
            Pool::Bank(Bank { player, count: counts[i] })
        } else {
            Pool::Pond(Pond { player, count: counts[i] })
        }
    };
    Board {
        pools: [
            pool(0),
            pool(1),
            pool(2),
            pool(3),
            pool(4),
            pool(5),
            pool(6),
            pool(7),
            pool(8),
            pool(9),
            pool(10),
            pool(11),
            pool(12),
            pool(13),
        ],
    }
}

#[test]
fn conservation_across_moves() {
    // Seeds are never created or destroyed: the board holds 72 after every
    // move of a whole game played out by the two baseline strategies.
    let mut game = Kalaha::new();
    assert_eq!(total_seeds(&game), 72);
    let first = FirstValid {};
    let last = LastValid {};
    let mut moves = 0;
    while !game.is_finished() && moves < 1000 {
        let pond = match *game.current_player() {
            Player::A => first.choose_pond(&game),
            Player::B => last.choose_pond(&game),
        };
        game.choose_pond(pond);
        assert_eq!(total_seeds(&game), 72);
        moves += 1;
    }
    assert!(game.is_finished());
}

#[test]
fn full_lap_skips_opponent_bank() {
    // Sowing a full lap of 13 seeds deposits one seed everywhere except the
    // opponent's bank, which stays empty, and the lap ends in the source
    // pond itself — here previously empty, so the capture rule fires too.
    let mut board = board_with(&[13, 0, 0, 0, 0, 0, 0, 1, 1, 1, 1, 1, 1, 0]);
    let turn = board.choose_pond(&Player::A, 0);
    // The lap: ponds 1..=5 and A's bank gain one, B's six ponds gain one,
    // B's bank is skipped, and the last seed falls back in pond 0. Pond 0
    // was empty, so its seed and B's opposite pond (two seeds) are captured.
    assert_eq!(
        board_counts(&board),
        vec![0, 1, 1, 1, 1, 1, 4, 2, 2, 2, 2, 2, 0, 0]
    );
    assert_eq!(board.pools[13].count(), 0);
    assert_eq!(turn, Turn::Player(Player::B));
}

#[test]
fn no_capture_on_opponent_pond() {
    // Landing the last seed in an empty pond of the opponent captures
    // nothing.
    let mut board = board_with(&[4, 0, 0, 0, 0, 2, 0, 0, 5, 1, 1, 1, 1, 0]);
    let turn = board.choose_pond(&Player::A, 5);
    // The two seeds go to A's bank and B's first pond, which was empty;
    // no capture, the turn simply passes.
    assert_eq!(
        board_counts(&board),
        vec![4, 0, 0, 0, 0, 0, 1, 1, 5, 1, 1, 1, 1, 0]
    );
    assert_eq!(turn, Turn::Player(Player::B));
}

#[test]
fn no_capture_on_full_own_pond() {
    // Landing in one's own pond that already held seeds captures nothing.
    let mut board = board_with(&[2, 3, 6, 6, 6, 6, 0, 6, 6, 6, 6, 6, 6, 1]);
    let turn = board.choose_pond(&Player::A, 0);
    assert_eq!(
        board_counts(&board),
        vec![0, 4, 7, 6, 6, 6, 0, 6, 6, 6, 6, 6, 6, 1]
    );
    assert_eq!(turn, Turn::Player(Player::B));
}

#[test]
fn end_to_end_first_move() {
    // From the initial board, A sows pond 0: one seed into each of ponds
    // 1..=5 and one into A's bank, B's row untouched, and A moves again.
    let mut game = Kalaha::new();
    assert_eq!(*game.current_player(), Player::A);
    game.choose_pond(0);
    assert_eq!(game.ponds(&Player::A), [0, 7, 7, 7, 7, 7]);
    assert_eq!(game.bank(&Player::A), 1);
    assert_eq!(game.ponds(&Player::B), [6, 6, 6, 6, 6, 6]);
    assert_eq!(game.bank(&Player::B), 0);
    assert!(!game.is_finished());
    assert_eq!(*game.current_player(), Player::A);
}

#[test]
fn termination_sweep_scores_sum_to_all_seeds() {
    // Once A's row empties, B's remaining seeds are swept into B's bank and
    // the two final scores account for every seed on the board.
    let mut board = board_with(&[0, 0, 0, 0, 0, 3, 18, 6, 2, 0, 1, 0, 0, 42]);
    let turn = board.choose_pond(&Player::A, 5);
    match turn {
        Turn::Finished(GameResult::Winner { player, score_a, score_b }) => {
            assert_eq!(player, Player::B);
            assert_eq!(score_a + score_b, 72);
        },
        other => panic!("expected a finished game, got {:?}", other),
    }
    assert_eq!(
        board_counts(&board),
        vec![0, 0, 0, 0, 0, 0, 19, 0, 0, 0, 0, 0, 0, 53]
    );
}

#[test]
fn baseline_strategies_scan_in_order() {
    let mut game = Kalaha::new();
    assert_eq!(FirstValid {}.choose_pond(&game), 0);
    assert_eq!(LastValid {}.choose_pond(&game), 5);
    game.choose_pond(0);
    // Pond 0 is now empty, so the first valid pond moves up.
    assert_eq!(FirstValid {}.choose_pond(&game), 1);
}

#[test]
fn searches_agree_midgame() {
    // The two searches report the same score from a position in the middle
    // of a game, not only from the initial board.
    let mut game = Kalaha::new();
    game.choose_pond(0);
    game.choose_pond(1);
    for depth in 1..5 {
        assert_eq!(
            MinMax { depth }.choose_depth(&game, game.current_player(), depth).score,
            AlphaBeta { depth }
                .alpha_beta(&game, game.current_player(), depth, i32::MIN, i32::MAX)
                .score
        );
    }
}

#[test]
fn search_strategies_pick_valid_moves() {
    let mut game = Kalaha::new();
    game.choose_pond(0);
    let from_minmax = MinMax::new(3).choose_pond(&game);
    let from_alphabeta = AlphaBeta::new(3).choose_pond(&game);
    assert!(game.valid_move(from_minmax).is_ok());
    assert!(game.valid_move(from_alphabeta).is_ok());
}

#[test]
fn searched_game_plays_to_the_end() {
    // A full game between the two searching strategies ends, and the final
    // scores split the 72 seeds.
    let mut game = Kalaha::new();
    let minmax = MinMax::new(2);
    let alphabeta = AlphaBeta::new(2);
    let mut moves = 0;
    while !game.is_finished() && moves < 1000 {
        let pond = match *game.current_player() {
            Player::A => minmax.choose_pond(&game),
            Player::B => alphabeta.choose_pond(&game),
        };
        game.choose_pond(pond);
        moves += 1;
    }
    assert!(game.is_finished());
    match *game.game_result() {
        GameResult::Winner { score_a, score_b, .. } => assert_eq!(score_a + score_b, 72),
        GameResult::Draw { score } => assert_eq!(score, 36),
    }
}
