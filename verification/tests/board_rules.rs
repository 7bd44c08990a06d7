use hexy_reversi::board::{cells, is_on_board, Board};
use hexy_reversi::game::{sort_by_score_desc, Game};
use hexy_reversi::player::Player;
use hexy_reversi::random::{mix_u64, random_computer_delay, random_index, random_player, random_seed};
use hexy_reversi::rules::direction;
use hexy_reversi::scoring::MoveBreakdown;
use hexy_reversi::text::{int_text, nat_text};

fn opening(raw: u64) -> Game {
    Game::new(raw)
}

#[test]
fn other_and_name() {
    assert_eq!(Player::Black.other(), Player::White);
    assert_eq!(Player::White.other(), Player::Black);
    assert_eq!(Player::Black.other().other(), Player::Black);
    assert_eq!(Player::Black.name(), "Black");
    assert_eq!(Player::White.name(), "White");
}

#[test]
fn on_board_edges() {
    assert!(is_on_board(0, 0));
    assert!(is_on_board(4, 0));
    assert!(is_on_board(4, -4));
    assert!(is_on_board(-4, 4));
    assert!(!is_on_board(5, 0));
    assert!(!is_on_board(4, 1));
    assert!(!is_on_board(-3, -2));
    assert!(!is_on_board(i32::MIN, 0));
    assert!(!is_on_board(i32::MAX, i32::MAX));
}

#[test]
fn cells_are_the_hexagon_in_row_order() {
    let all = cells();
    assert_eq!(all.len(), 61);
    assert_eq!(all[0], (0, -4));
    assert_eq!(all[4], (4, -4));
    assert_eq!(all[5], (-1, -3));
    assert_eq!(all[60], (0, 4));
    for (i, a) in all.iter().enumerate() {
        assert!(is_on_board(a.0, a.1));
        for b in all.iter().skip(i + 1) {
            assert_ne!(a, b);
        }
    }
}

#[test]
fn directions_in_order() {
    let dirs: Vec<(i32, i32)> = (0..6).map(direction).collect();
    assert_eq!(dirs, vec![(1, 0), (1, -1), (0, -1), (-1, 0), (-1, 1), (0, 1)]);
}

#[test]
fn board_get_set_and_counts() {
    let mut board = Board::empty();
    assert_eq!(board.len(), 0);
    assert_eq!(board.get(0, 0), None);
    board.set(2, -1, Player::White);
    board.set(0, 0, Player::Black);
    board.set(0, 0, Player::White);
    assert_eq!(board.get(2, -1), Some(Player::White));
    assert_eq!(board.get(0, 0), Some(Player::White));
    assert_eq!(board.get(9, 9), None);
    assert!(board.holds(2, -1, Player::White));
    assert!(!board.holds(2, -1, Player::Black));
    assert_eq!(board.count(Player::White), 2);
    assert_eq!(board.count(Player::Black), 0);
    assert_eq!(board.len(), 2);
}

#[test]
fn opening_position() {
    let game = opening(1);
    assert_eq!(game.score(), (2, 2));
    assert_eq!(game.board.len(), 4);
    assert_eq!(game.current, Player::Black);
    assert_eq!(game.computer, Player::White);
    assert!(!game.game_over);
    assert_eq!(game.message, None);
    assert_eq!(game.board.get(0, 0), Some(Player::White));
    assert_eq!(game.board.get(1, 0), Some(Player::White));
    assert_eq!(game.board.get(1, -1), Some(Player::Black));
    assert_eq!(game.board.get(0, -1), Some(Player::Black));
    assert_eq!(opening(0).computer, Player::Black);
    assert_eq!(opening(7).computer, Player::White);
}

#[test]
fn flips_in_the_opening() {
    let game = opening(1);
    assert_eq!(game.flips_for_move(0, 1, Player::Black), vec![(0, 0)]);
    assert_eq!(game.flips_for_move(1, 1, Player::Black), vec![(1, 0)]);
    assert_eq!(game.flips_for_move(-1, 1, Player::Black), vec![(0, 0)]);
    assert!(game.flips_for_move(2, 0, Player::Black).is_empty());
    assert!(game.flips_for_move(0, 0, Player::Black).is_empty());
    assert!(game.flips_for_move(5, 0, Player::Black).is_empty());
    assert!(game.flips_for_move(i32::MIN, i32::MAX, Player::Black).is_empty());
}

#[test]
fn flips_collect_every_direction_in_order() {
    let mut game = opening(1);
    let mut board = Board::empty();
    board.set(1, 0, Player::White);
    board.set(2, 0, Player::White);
    board.set(3, 0, Player::Black);
    board.set(0, -1, Player::White);
    board.set(0, -2, Player::Black);
    board.set(-1, 0, Player::White);
    board.set(0, 1, Player::White);
    game.board = board;
    assert_eq!(
        game.flips_for_move(0, 0, Player::Black),
        vec![(1, 0), (2, 0), (0, -1)]
    );
    let mut board = Board::empty();
    board.set(1, 0, Player::White);
    board.set(2, 0, Player::White);
    board.set(3, 0, Player::White);
    board.set(4, 0, Player::White);
    game.board = board;
    assert!(game.flips_for_move(0, 0, Player::Black).is_empty());
}

#[test]
fn legal_moves_of_the_opening() {
    let game = opening(1);
    assert_eq!(game.legal_moves(Player::Black), vec![(-1, 1), (0, 1), (1, 1)]);
    assert_eq!(game.legal_moves(Player::White), vec![(0, -2), (1, -2), (2, -2)]);
}

#[test]
fn move_breakdown_formula() {
    let game = opening(1);
    let b = game.move_breakdown(1, 1, Player::Black);
    assert_eq!((b.q, b.r, b.flips, b.position_bonus, b.ring_penalty, b.score), (1, 1, 1, 0, 4, 96));
    let corner = game.move_breakdown(4, 0, Player::Black);
    assert_eq!((corner.flips, corner.position_bonus, corner.ring_penalty, corner.score), (0, 70, 8, 62));
    let edge = game.move_breakdown(4, -2, Player::Black);
    assert_eq!((edge.position_bonus, edge.ring_penalty, edge.score), (30, 8, 22));
    let centre = game.move_breakdown(0, 0, Player::Black);
    assert_eq!((centre.position_bonus, centre.ring_penalty, centre.score), (0, 0, 0));
}

#[test]
fn scored_moves_best_first_ties_in_board_order() {
    let game = opening(1);
    let moves = game.scored_moves(Player::Black);
    let listed: Vec<(i32, i32, i32)> = moves.iter().map(|m| (m.q, m.r, m.score)).collect();
    assert_eq!(listed, vec![(-1, 1, 98), (0, 1, 98), (1, 1, 96)]);
    let breakdowns = game.scored_move_breakdowns(Player::Black);
    assert_eq!(breakdowns.len(), 3);
    assert_eq!(breakdowns[2].ring_penalty, 4);
}

fn bd(q: i32, score: i32) -> MoveBreakdown {
    MoveBreakdown { q, r: 0, flips: 0, position_bonus: 0, ring_penalty: 0, score }
}

#[test]
fn sort_is_stable_and_descending() {
    let sorted = sort_by_score_desc(vec![bd(0, 5), bd(1, 9), bd(2, 5), bd(3, -1), bd(4, 9), bd(5, 5)]);
    let order: Vec<i32> = sorted.iter().map(|b| b.q).collect();
    assert_eq!(order, vec![1, 4, 0, 2, 5, 3]);
    assert!(sort_by_score_desc(Vec::new()).is_empty());
}

#[test]
fn computer_choice_among_the_best() {
    let game = opening(0);
    let first = game.choose_computer_move(0).unwrap();
    assert_eq!((first.q, first.r, first.score), (-1, 1, 98));
    let second = game.choose_computer_move(1).unwrap();
    assert_eq!((second.q, second.r, second.score), (0, 1, 98));
    let third = game.choose_computer_move(2).unwrap();
    assert_eq!((third.q, third.r), (-1, 1));
    let mut lone = opening(0);
    let mut board = Board::empty();
    board.set(0, 0, Player::Black);
    lone.board = board;
    assert!(lone.choose_computer_move(5).is_none());
}

#[test]
fn random_helpers() {
    assert_eq!(mix_u64(0), 0);
    assert_eq!(mix_u64(1), 6238072747940578789);
    assert_eq!(random_seed(0, 0), 0);
    assert_eq!(random_seed(5, 3), 16279276485729455169);
    assert_eq!(random_index(5, 3), 2);
    assert_eq!(random_index(7, 0), 0);
    assert_eq!(random_player(4), Player::Black);
    assert_eq!(random_player(5), Player::White);
    assert_eq!(random_computer_delay(false, false, 0), 1100);
    assert_eq!(random_computer_delay(false, false, 1299), 2399);
    assert_eq!(random_computer_delay(false, false, 1300), 2400);
    assert_eq!(random_computer_delay(false, false, 1301), 1100);
    assert_eq!(random_computer_delay(true, false, 0), 450);
    assert_eq!(random_computer_delay(true, false, 450), 900);
    assert_eq!(random_computer_delay(true, true, 100), 180);
    assert_eq!(random_computer_delay(false, true, 0), 80);
}

#[test]
fn decimal_text() {
    assert_eq!(nat_text(0), "0");
    assert_eq!(nat_text(7), "7");
    assert_eq!(nat_text(1234), "1234");
    assert_eq!(nat_text(u64::MAX), u64::MAX.to_string());
    assert_eq!(int_text(-45), "-45");
    assert_eq!(int_text(0), "0");
    assert_eq!(int_text(i32::MIN), "-2147483648");
    assert_eq!(int_text(i32::MAX), "2147483647");
}
