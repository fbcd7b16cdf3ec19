use rand::Rng;
use tic_rng_toe::board::Side;
use tic_rng_toe::detector::check_win;
use tic_rng_toe::game::{Game, Status};
use tic_rng_toe::validator::ValidationError;

/// The place of `cell` among the remaining cells of `game`.
fn place_of(game: &Game, cell: u8) -> usize {
    game.remaining().iter().position(|c| *c == cell).unwrap()
}

#[test]
fn a_new_game_awaits_the_player_on_an_empty_board() {
    let game = Game::new();
    assert_eq!(game.status(), Status::AwaitingPlayer);
    assert_eq!(game.turn(), 0);
    assert!(!game.is_over());
    assert_eq!(game.remaining(), &[1, 2, 3, 4, 5, 6, 7, 8, 9]);
    for cell in 1..=9u8 {
        assert!(game.board().is_empty(cell));
    }
}

#[test]
fn every_cell_remains_exactly_once_before_any_move() {
    let game = Game::new();
    for cell in 1..=9u8 {
        assert_eq!(game.remaining().iter().filter(|c| **c == cell).count(), 1);
    }
}

#[test]
fn player_claiming_the_top_row_wins() {
    let mut game = Game::new();
    assert_eq!(game.player_turn("1"), Ok(1));
    assert_eq!(game.status(), Status::AwaitingOpponent);
    let at = place_of(&game, 4);
    assert_eq!(game.opponent_turn_at(at), 4);
    assert_eq!(game.status(), Status::AwaitingPlayer);
    assert_eq!(game.player_turn("2"), Ok(2));
    assert_eq!(game.status(), Status::AwaitingOpponent);
    let at = place_of(&game, 7);
    assert_eq!(game.opponent_turn_at(at), 7);
    assert_eq!(game.status(), Status::AwaitingPlayer);
    assert_eq!(game.player_turn("3"), Ok(3));
    assert_eq!(game.status(), Status::PlayerWon);
    assert!(game.is_over());
    assert_eq!(game.turn(), 3);
    assert_eq!(game.board().occupied_by(Side::Player), vec![1, 2, 3]);
    assert_eq!(game.board().occupied_by(Side::Opponent), vec![4, 7]);
    assert_eq!(game.remaining(), &[5, 6, 8, 9]);
}

#[test]
fn player_wins_with_cells_claimed_before_the_line() {
    let mut game = Game::new();
    assert_eq!(game.player_turn("5"), Ok(5));
    let at = place_of(&game, 4);
    game.opponent_turn_at(at);
    assert_eq!(game.player_turn("1"), Ok(1));
    let at = place_of(&game, 9);
    game.opponent_turn_at(at);
    assert_eq!(game.player_turn("2"), Ok(2));
    assert_eq!(game.status(), Status::AwaitingOpponent);
    let at = place_of(&game, 8);
    game.opponent_turn_at(at);
    assert_eq!(game.status(), Status::AwaitingPlayer);
    assert_eq!(game.player_turn("3"), Ok(3));
    assert_eq!(game.status(), Status::PlayerWon);
    assert_eq!(game.turn(), 4);
    assert_eq!(game.board().occupied_by(Side::Player), vec![1, 2, 3, 5]);
    assert_eq!(game.board().occupied_by(Side::Opponent), vec![4, 8, 9]);
}

#[test]
fn opponent_completing_a_line_wins() {
    let mut game = Game::new();
    let rounds = [("1", 4u8), ("2", 5), ("9", 6)];
    for (input, answer) in rounds {
        assert_eq!(game.status(), Status::AwaitingPlayer);
        assert!(game.player_turn(input).is_ok());
        assert_eq!(game.status(), Status::AwaitingOpponent);
        let at = place_of(&game, answer);
        assert_eq!(game.opponent_turn_at(at), answer);
    }
    assert_eq!(game.status(), Status::OpponentWon);
    assert!(game.is_over());
    assert_eq!(game.turn(), 3);
    assert_eq!(game.board().occupied_by(Side::Opponent), vec![4, 5, 6]);
    assert_eq!(game.board().occupied_by(Side::Player), vec![1, 2, 9]);
    assert_eq!(game.remaining(), &[3, 7, 8]);
}

#[test]
fn nine_claims_without_a_line_are_a_draw() {
    // X O X
    // X O O
    // O X X
    let mut game = Game::new();
    let rounds = [("1", 2u8), ("3", 5), ("4", 6), ("8", 7)];
    for (input, answer) in rounds {
        assert!(game.player_turn(input).is_ok());
        assert_eq!(game.status(), Status::AwaitingOpponent);
        let at = place_of(&game, answer);
        game.opponent_turn_at(at);
        assert_eq!(game.status(), Status::AwaitingPlayer);
    }
    assert_eq!(game.remaining(), &[9]);
    assert_eq!(game.player_turn("9"), Ok(9));
    assert_eq!(game.status(), Status::Draw);
    assert!(game.is_over());
    assert_eq!(game.turn(), 5);
    assert!(game.remaining().is_empty());
    assert!(!check_win(&game.board().occupied_by(Side::Player)));
    assert!(!check_win(&game.board().occupied_by(Side::Opponent)));
    assert_eq!(game.board().occupied_by(Side::Player), vec![1, 3, 4, 8, 9]);
    assert_eq!(game.board().occupied_by(Side::Opponent), vec![2, 5, 6, 7]);
}

#[test]
fn a_win_on_the_last_cell_is_no_draw() {
    // X O X
    // O X O
    // O X X   with 9 claimed last: the diagonal 1, 5, 9
    let mut game = Game::new();
    let rounds = [("1", 2u8), ("3", 4), ("5", 6), ("8", 7)];
    for (input, answer) in rounds {
        assert!(game.player_turn(input).is_ok());
        let at = place_of(&game, answer);
        game.opponent_turn_at(at);
        assert_eq!(game.status(), Status::AwaitingPlayer);
    }
    assert_eq!(game.player_turn("9"), Ok(9));
    assert!(game.remaining().is_empty());
    assert_eq!(game.status(), Status::PlayerWon);
}

#[test]
fn refused_input_changes_nothing_and_valid_input_counts_one_turn() {
    let mut game = Game::new();
    assert_eq!(game.player_turn("x"), Err(ValidationError::NotANumber));
    assert_eq!(game.turn(), 0);
    assert_eq!(game.status(), Status::AwaitingPlayer);
    assert_eq!(game.remaining(), &[1, 2, 3, 4, 5, 6, 7, 8, 9]);
    assert_eq!(game.board().occupied_by(Side::Player), Vec::<u8>::new());
    assert_eq!(game.player_turn("5"), Ok(5));
    assert_eq!(game.turn(), 1);
    assert_eq!(game.status(), Status::AwaitingOpponent);
    assert_eq!(game.remaining(), &[1, 2, 3, 4, 6, 7, 8, 9]);
    assert_eq!(game.board().occupied_by(Side::Player), vec![5]);
}

#[test]
fn each_refusal_leaves_the_game_as_it_was() {
    let mut game = Game::new();
    assert_eq!(game.player_turn("5\n"), Ok(5));
    let at = place_of(&game, 1);
    game.opponent_turn_at(at);
    let refusals = [
        ("0", ValidationError::OutOfRange),
        ("10", ValidationError::OutOfRange),
        ("abc", ValidationError::NotANumber),
        ("", ValidationError::NotANumber),
        ("5", ValidationError::AlreadyTaken),
        ("1", ValidationError::AlreadyTaken),
    ];
    for (input, refusal) in refusals {
        assert_eq!(game.player_turn(input), Err(refusal));
        assert_eq!(game.turn(), 1);
        assert_eq!(game.status(), Status::AwaitingPlayer);
        assert_eq!(game.remaining(), &[2, 3, 4, 6, 7, 8, 9]);
        assert_eq!(game.board().occupied_by(Side::Player), vec![5]);
        assert_eq!(game.board().occupied_by(Side::Opponent), vec![1]);
    }
}

#[test]
fn the_draw_decides_the_opponents_cell() {
    let mut game = Game::new();
    assert_eq!(game.player_turn("1"), Ok(1));
    assert_eq!(game.remaining(), &[2, 3, 4, 5, 6, 7, 8, 9]);
    assert_eq!(game.opponent_turn_at(0), 2);
    assert_eq!(game.player_turn("3"), Ok(3));
    assert_eq!(game.remaining(), &[4, 5, 6, 7, 8, 9]);
    assert_eq!(game.opponent_turn_at(5), 9);
    assert_eq!(game.board().occupied_by(Side::Opponent), vec![2, 9]);
    assert_eq!(game.remaining(), &[4, 5, 6, 7, 8]);
}

#[test]
fn the_opponent_claims_a_remaining_cell() {
    for _ in 0..200 {
        let mut game = Game::new();
        assert_eq!(game.player_turn("5"), Ok(5));
        let before = game.remaining().to_vec();
        let cell = game.opponent_turn();
        assert!(before.contains(&cell));
        assert_ne!(cell, 5);
        assert_eq!(game.board().get(cell), Some(Side::Opponent));
        assert_eq!(game.board().occupied_by(Side::Opponent), vec![cell]);
        assert!(!game.remaining().contains(&cell));
        assert_eq!(game.remaining().len(), 7);
        assert_eq!(game.status(), Status::AwaitingPlayer);
        assert_eq!(game.turn(), 1);
    }
}

#[test]
fn the_opponent_may_claim_the_lowest_remaining_cell() {
    let mut lowest = 0;
    for _ in 0..2000 {
        let mut game = Game::new();
        assert_eq!(game.player_turn("9"), Ok(9));
        if game.opponent_turn() == 1 {
            lowest += 1;
        }
    }
    assert!(lowest > 50, "{}", lowest);
}

#[test]
fn no_line_is_looked_for_before_the_third_turn() {
    let mut game = Game::new();
    assert_eq!(game.player_turn("1"), Ok(1));
    assert_eq!(game.status(), Status::AwaitingOpponent);
    game.opponent_turn_at(0);
    assert_eq!(game.status(), Status::AwaitingPlayer);
    assert_eq!(game.player_turn("5"), Ok(5));
    assert_eq!(game.status(), Status::AwaitingOpponent);
    assert_eq!(game.turn(), 2);
}

#[test]
fn random_games_keep_the_books_and_end() {
    let mut rng = rand::thread_rng();
    let mut outcomes = [0u32; 3];
    for _ in 0..500 {
        let mut game = Game::new();
        let mut claimed: Vec<u8> = Vec::new();
        while !game.is_over() {
            let before = game.remaining().to_vec();
            let cell = match game.status() {
                Status::AwaitingPlayer => {
                    let cell = before[rng.gen_range(0..before.len())];
                    let turn = game.turn();
                    assert_eq!(game.player_turn(&format!(" {}\n", cell)), Ok(cell));
                    assert_eq!(game.turn(), turn + 1);
                    assert_eq!(game.board().get(cell), Some(Side::Player));
                    cell
                }
                _ => {
                    let turn = game.turn();
                    let cell = game.opponent_turn();
                    assert_eq!(game.turn(), turn);
                    assert_eq!(game.board().get(cell), Some(Side::Opponent));
                    cell
                }
            };
            assert!(before.contains(&cell));
            assert!(!claimed.contains(&cell));
            claimed.push(cell);
            let expected: Vec<u8> = before.into_iter().filter(|c| *c != cell).collect();
            assert_eq!(game.remaining(), &expected[..]);
            assert_eq!(game.remaining().to_vec(), game.board().empty_cells());
            assert_eq!(game.remaining().len() + claimed.len(), 9);
            assert_eq!(game.board().occupied_by(Side::Player).len(), usize::from(game.turn()));
        }
        let player = check_win(&game.board().occupied_by(Side::Player));
        let opponent = check_win(&game.board().occupied_by(Side::Opponent));
        match game.status() {
            Status::PlayerWon => {
                assert!(player && !opponent);
                outcomes[0] += 1;
            }
            Status::OpponentWon => {
                assert!(opponent && !player);
                outcomes[1] += 1;
            }
            Status::Draw => {
                assert!(!player && !opponent);
                assert!(game.remaining().is_empty());
                outcomes[2] += 1;
            }
            _ => unreachable!(),
        }
        assert!(game.turn() >= 3 && game.turn() <= 5);
    }
    assert_eq!(outcomes.iter().sum::<u32>(), 500);
}
