use hexy_reversi::board::Board;
use hexy_reversi::game::Game;
use hexy_reversi::player::Player;

fn game_with(stones: &[(i32, i32, Player)], current: Player, computer: Player) -> Game {
    let mut game = Game::new(0);
    let mut board = Board::empty();
    for &(q, r, p) in stones {
        board.set(q, r, p);
    }
    game.board = board;
    game.current = current;
    game.computer = computer;
    game
}

#[test]
fn human_move_turns_stones_and_passes_the_turn() {
    let mut game = Game::new(1);
    assert!(game.play_human(0, 1));
    assert_eq!(game.board.get(0, 1), Some(Player::Black));
    assert_eq!(game.board.get(0, 0), Some(Player::Black));
    assert_eq!(game.board.get(1, 0), Some(Player::White));
    assert_eq!(game.score(), (4, 1));
    assert_eq!(game.current, Player::White);
    assert_eq!(game.message, None);
    let animation = game.flip_animation.clone().unwrap();
    assert_eq!(animation.cells.len(), 1);
    assert_eq!((animation.cells[0].q, animation.cells[0].r), (0, 0));
    assert_eq!(animation.cells[0].from, Player::White);
    assert_eq!(animation.cells[0].to, Player::Black);
    assert_eq!(game.status(), "Computer is thinking.");
}

#[test]
fn human_move_refused_without_capture() {
    let mut game = Game::new(1);
    assert!(!game.play_human(4, 0));
    assert_eq!(game.message.as_deref(), Some("That move does not trap any stones."));
    assert_eq!(game.score(), (2, 2));
    assert_eq!(game.current, Player::Black);
    assert_eq!(game.status(), "That move does not trap any stones.");
}

#[test]
fn human_move_refused_on_computer_turn() {
    let mut game = Game::new(0);
    assert!(!game.play_human(0, 1));
    assert_eq!(game.message.as_deref(), Some("Computer is thinking."));
    assert_eq!(game.score(), (2, 2));
}

#[test]
fn human_move_ignored_after_game_over() {
    let mut game = game_with(&[(0, 0, Player::Black)], Player::Black, Player::White);
    game.game_over = true;
    assert!(!game.play_human(1, 0));
    assert_eq!(game.message, None);
    assert!(game.game_over);
    assert_eq!(game.score(), (1, 0));
}

#[test]
fn computer_plays_its_best_move() {
    let mut game = Game::new(0);
    let choice = game.play_computer_move(1).unwrap();
    assert_eq!((choice.q, choice.r, choice.score), (0, 1, 98));
    assert_eq!(game.board.get(0, 1), Some(Player::Black));
    assert_eq!(game.score(), (4, 1));
    assert_eq!(game.current, Player::White);
    assert_eq!(game.message.as_deref(), Some("Computer played."));
    assert_eq!(game.status(), "Computer played.");
}

#[test]
fn computer_waits_on_human_turn() {
    let mut game = Game::new(1);
    assert!(game.play_computer_move(3).is_none());
    assert_eq!(game.score(), (2, 2));
    assert_eq!(game.current, Player::Black);
    assert_eq!(game.message, None);
    assert_eq!(game.status(), "Black to move");
}

#[test]
fn side_without_moves_passes() {
    let mut game = game_with(&[(3, 0, Player::White), (4, 0, Player::Black)], Player::White, Player::Black);
    assert!(game.legal_moves(Player::White).is_empty());
    assert_eq!(game.legal_moves(Player::Black), vec![(2, 0)]);
    game.advance_past_passes();
    assert_eq!(game.current, Player::Black);
    assert!(!game.game_over);
    assert_eq!(game.message.as_deref(), Some("White has no legal moves and passes."));
}

#[test]
fn computer_without_moves_passes() {
    let mut game = game_with(&[(3, 0, Player::White), (4, 0, Player::Black)], Player::White, Player::White);
    assert!(game.play_computer_move(0).is_none());
    assert_eq!(game.current, Player::Black);
    assert_eq!(game.message.as_deref(), Some("White has no legal moves and passes."));
}

#[test]
fn game_ends_when_nobody_can_move() {
    let mut game = game_with(&[(0, 0, Player::Black)], Player::Black, Player::White);
    game.advance_past_passes();
    assert!(game.game_over);
    assert_eq!(game.current, Player::Black);
    assert_eq!(game.status(), "Black 1 > White 0: Human won");
}

#[test]
fn result_lines() {
    let mut white_wins = game_with(&[(0, 0, Player::White), (2, 0, Player::White)], Player::Black, Player::White);
    white_wins.game_over = true;
    assert_eq!(white_wins.status(), "White 2 > Black 0: Computer won");
    let mut draw = game_with(&[(0, 0, Player::White), (3, 0, Player::Black)], Player::Black, Player::White);
    draw.game_over = true;
    assert_eq!(draw.status(), "Black 1 = White 1: Draw");
    let mut black_computer = game_with(&[(0, 0, Player::Black)], Player::Black, Player::Black);
    black_computer.game_over = true;
    assert_eq!(black_computer.status(), "Black 1 > White 0: Computer won");
}

#[test]
fn last_move_ends_the_game() {
    let mut game = game_with(&[(1, 0, Player::White), (2, 0, Player::Black)], Player::Black, Player::White);
    assert!(game.play_human(0, 0));
    assert!(game.game_over);
    assert_eq!(game.score(), (3, 0));
    assert_eq!(game.message, None);
    assert_eq!(game.status(), "Black 3 > White 0: Human won");
}

#[test]
fn a_move_adds_one_stone() {
    let mut game = Game::new(1);
    let mut stones = game.board.len();
    for _ in 0..30 {
        if game.game_over {
            break;
        }
        let (black, white) = game.score();
        let mover = game.current;
        let moved = if game.current == game.computer {
            game.play_computer_move(stones as u64).is_some()
        } else {
            let (q, r) = game.legal_moves(game.current)[0];
            let n = game.flips_for_move(q, r, game.current).len();
            assert!(game.play_human(q, r));
            let (b2, w2) = game.score();
            if mover == Player::Black {
                assert_eq!((b2, w2 + n), (black + n + 1, white));
            } else {
                assert_eq!((w2, b2 + n), (white + n + 1, black));
            }
            true
        };
        if moved {
            assert_eq!(game.board.len(), stones + 1);
            stones += 1;
        }
        assert!(game.game_over || !game.legal_moves(game.current).is_empty());
    }
}
