use hexy_reversi::game::{role_label, FlipCell, Game};
use hexy_reversi::player::Player;
use hexy_reversi::presentation::{cell_mark, CellMark, HintDot, Piece};
use hexy_reversi::random::{mix_u64, random_seed};
use hexy_reversi::session::HexReversi;

#[test]
fn marks_on_the_human_turn() {
    let game = Game::new(1);
    assert_eq!(
        cell_mark(&game, 0, 1, Some((0, 1)), None, false),
        CellMark { highlight: true, dot: HintDot::Plain, piece: Piece::Empty }
    );
    assert_eq!(
        cell_mark(&game, 0, 1, Some((1, 1)), None, false),
        CellMark { highlight: false, dot: HintDot::Plain, piece: Piece::Empty }
    );
    assert_eq!(
        cell_mark(&game, 0, 0, Some((0, 0)), None, false),
        CellMark { highlight: false, dot: HintDot::Hidden, piece: Piece::Stone(Player::White) }
    );
    assert_eq!(
        cell_mark(&game, 2, 0, Some((2, 0)), None, true),
        CellMark { highlight: false, dot: HintDot::Hidden, piece: Piece::Empty }
    );
    // A highlight pick means nothing while the human is to move.
    assert_eq!(cell_mark(&game, 1, 1, None, Some((1, 1)), false).dot, HintDot::Plain);
}

#[test]
fn marks_while_the_computer_thinks() {
    let mut game = Game::new(1);
    assert!(game.play_human(0, 1));
    assert_eq!(game.current, Player::White);
    let legal = game.legal_moves(Player::White);
    assert!(!legal.is_empty());
    let (q, r) = legal[0];
    assert_eq!(cell_mark(&game, q, r, None, None, false).dot, HintDot::Faint);
    assert_eq!(cell_mark(&game, q, r, None, Some((q, r)), false).dot, HintDot::Pulse);
    if legal.len() > 1 {
        let (q2, r2) = legal[1];
        assert_eq!(cell_mark(&game, q2, r2, None, Some((q, r)), false).dot, HintDot::Faint);
    }
    game.game_over = true;
    assert_eq!(cell_mark(&game, q, r, None, Some((q, r)), false).dot, HintDot::Hidden);
}

#[test]
fn turned_stones_are_drawn_turning_while_the_animation_runs() {
    let mut game = Game::new(1);
    assert!(game.play_human(0, 1));
    let turning = FlipCell { q: 0, r: 0, from: Player::White, to: Player::Black };
    assert_eq!(cell_mark(&game, 0, 0, None, None, true).piece, Piece::Turning(turning));
    assert_eq!(cell_mark(&game, 0, 0, None, None, false).piece, Piece::Stone(Player::Black));
    // The stone just placed is not among the turned ones.
    assert_eq!(cell_mark(&game, 0, 1, None, None, true).piece, Piece::Stone(Player::Black));
    assert_eq!(cell_mark(&game, 1, 0, None, None, true).piece, Piece::Stone(Player::White));
}

#[test]
fn role_labels() {
    assert_eq!(role_label(Player::White, Player::White), "Computer");
    assert_eq!(role_label(Player::White, Player::Black), "Human");
    assert_eq!(role_label(Player::Black, Player::Black), "Computer");
    assert_eq!(role_label(Player::Black, Player::White), "Human");
}

#[test]
fn mixer_keeps_zero_and_separates_words() {
    assert_eq!(mix_u64(0), 0);
    let words: Vec<u64> = (0..64u64).map(mix_u64).collect();
    for i in 0..words.len() {
        for j in (i + 1)..words.len() {
            assert_ne!(words[i], words[j]);
        }
    }
}

#[test]
fn draws_in_one_clock_tick_differ() {
    let nanos = 1_700_000_000_000_000_000u64;
    let draws: Vec<u64> = (0..32u64).map(|count| random_seed(nanos, count)).collect();
    for i in 0..draws.len() {
        for j in (i + 1)..draws.len() {
            assert_ne!(draws[i], draws[j]);
        }
    }
    // Even clock readings do not fix the low bit of the draw.
    let low_bits: Vec<u64> = (0..16u64).map(|k| random_seed(2 * k * 1000, 0) & 1).collect();
    assert!(low_bits.contains(&0) && low_bits.contains(&1));
}

#[test]
fn toggles_leave_the_turn_state_alone() {
    let mut session = HexReversi::new(0);
    let turn = session.schedule_computer_turn(false, 3);
    assert!(turn.is_some());
    let serial = session.turn_serial;
    let thinking = session.computer_thinking;
    let delay = session.computer_thinking_delay;
    let events = session.logic_events.clone();
    session.toggle_speed_mode();
    session.toggle_sound();
    session.toggle_computer_verbose();
    assert!(session.speed_mode && !session.sound_enabled && !session.computer_verbose);
    assert_eq!(session.turn_serial, serial);
    assert_eq!(session.computer_thinking, thinking);
    assert_eq!(session.computer_thinking_delay, delay);
    assert_eq!(session.logic_events, events);
}

#[test]
fn a_full_turn_counter_only_matters_when_a_turn_starts() {
    let mut session = HexReversi::new(1);
    session.turn_serial = u64::MAX;
    assert_eq!(session.schedule_computer_turn(false, 0), None);
    assert_eq!(session.turn_serial, u64::MAX);
    let stale = session.finish_computer_turn(3, 0, 0);
    assert!(!stale.redraw && stale.sounds.is_empty() && stale.computer_turn.is_none());
    assert_eq!(session.turn_serial, u64::MAX);
    assert_eq!(session.game.current, Player::Black);
}
