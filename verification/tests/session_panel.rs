use hexy_reversi::game::Game;
use hexy_reversi::player::Player;
use hexy_reversi::presentation::{build_logic_visual, guide_color_for_score, thinking_candidate};
use hexy_reversi::scoring::MoveScore;
use hexy_reversi::session::{ComputerTurn, HexReversi, Sound};

fn texts(session: &HexReversi) -> Vec<&str> {
    session.logic_events.iter().map(|s| s.as_str()).collect()
}

#[test]
fn guide_colors_by_score() {
    assert_eq!(guide_color_for_score(0), 0x93c5fd);
    assert_eq!(guide_color_for_score(129), 0x93c5fd);
    assert_eq!(guide_color_for_score(130), 0x5eead4);
    assert_eq!(guide_color_for_score(229), 0x5eead4);
    assert_eq!(guide_color_for_score(230), 0xffd166);
    assert_eq!(guide_color_for_score(329), 0xffd166);
    assert_eq!(guide_color_for_score(330), 0xfb7185);
    assert_eq!(guide_color_for_score(-1), 0xfb7185);
}

#[test]
fn thinking_highlight_cycles_through_four_best() {
    assert_eq!(thinking_candidate(&Vec::new(), 3), None);
    let moves: Vec<MoveScore> = (0..6).map(|i| MoveScore { q: i, r: -i, score: 100 + 60 * i }).collect();
    assert_eq!(thinking_candidate(&moves, 0), Some(((0, 0), 0x93c5fd)));
    assert_eq!(thinking_candidate(&moves, 6), Some(((2, -2), 0x5eead4)));
    assert_eq!(thinking_candidate(&moves, 7), Some(((3, -3), 0xffd166)));
    let two = vec![moves[0], moves[4]];
    assert_eq!(thinking_candidate(&two, 3), Some(((4, -4), 0xfb7185)));
}

#[test]
fn panel_for_the_opening() {
    let session = HexReversi::new(1);
    let visual = session.logic_visual();
    let stages: Vec<(&str, &str, u32)> =
        visual.stages.iter().map(|s| (s.label, s.value.as_str(), s.color)).collect();
    assert_eq!(
        stages,
        vec![
            ("board", "2/2", 0x93c5fd),
            ("turn", "H B", 0x5eead4),
            ("legal", "3", 0xffd166),
            ("score", "98", 0xffd166),
            ("pick", "-1,1", 0xfb7185),
            ("state", "57 open", 0xc084fc),
        ]
    );
    let lines: Vec<(&str, &str, &str, usize)> = visual
        .instructions
        .iter()
        .map(|i| (i.op, i.arg.as_str(), i.note.as_str(), i.stage))
        .collect();
    assert_eq!(
        lines,
        vec![
            ("LOAD", "BOARD", "B2 W2", 0),
            ("READ", "TURN", "human Black", 1),
            ("SCAN", "LEGAL", "3 moves", 2),
            ("SCORE", "(-1,1)", "+100 +0 -2 = 98", 3),
            ("SCORE", "(0,1)", "+100 +0 -2 = 98", 3),
            ("SCORE", "(1,1)", "+100 +0 -4 = 96", 3),
            ("PICK", "-1,1", "best score", 4),
            ("WAIT", "STATE", "57 open", 5),
        ]
    );
    let nodes: Vec<(&str, &str)> =
        visual.score_nodes.iter().map(|n| (n.label.as_str(), n.value.as_str())).collect();
    assert_eq!(nodes, vec![("A", "-1,1=98"), ("B", "0,1=98"), ("C", "1,1=96")]);
    assert_eq!(visual.live_animation, None);
}

#[test]
fn panel_when_there_is_no_move() {
    let mut game = Game::new(1);
    game.game_over = true;
    let visual = build_logic_visual(&game, &Vec::new(), 0, 0, 61, Some((4, 500)));
    assert_eq!(visual.stages[1].value, "done");
    assert_eq!(visual.stages[3].value, "pass");
    assert_eq!(visual.stages[4].value, "pass");
    assert_eq!(visual.stages[5].value, "61 open");
    let lines: Vec<(&str, &str, &str)> =
        visual.instructions.iter().map(|i| (i.op, i.arg.as_str(), i.note.as_str())).collect();
    assert_eq!(
        lines,
        vec![
            ("LOAD", "BOARD", "B0 W0"),
            ("READ", "TURN", "human Black"),
            ("SCAN", "LEGAL", "0 moves"),
            ("SCORE", "none", "pass"),
            ("PICK", "pass", "pass turn"),
            ("DONE", "STATE", "61 open"),
        ]
    );
    assert_eq!(visual.score_nodes.len(), 1);
    assert_eq!(visual.score_nodes[0].label, "—");
    assert_eq!(visual.score_nodes[0].value, "pass");
    assert_eq!(visual.live_animation, Some((4, 500)));
}

#[test]
fn new_session() {
    let session = HexReversi::new(1);
    assert_eq!(texts(&session), vec!["Ready: Black moves first."]);
    assert_eq!(session.turn_serial, 0);
    assert!(session.sound_enabled && session.computer_verbose && !session.speed_mode);
    assert!(!session.computer_thinking);
    assert_eq!(session.top_move_summary(), "(-1,1)=98, (0,1)=98, (1,1)=96");
}

#[test]
fn human_click_then_computer_reply() {
    let mut session = HexReversi::new(1);
    let reaction = session.click_cell(0, 1, 5);
    assert!(reaction.redraw);
    assert_eq!(reaction.sounds, vec![Sound::Move]);
    assert_eq!(reaction.computer_turn, Some(ComputerTurn { serial: 1, delay_ms: 455 }));
    assert_eq!(
        texts(&session),
        vec![
            "Ready: Black moves first.",
            "Human: (0,1) flips 1 stones.",
            "AI: evaluating 3 legal moves.",
            "AI: top scores (-1,0)=98, (1,-2)=96, (-1,2)=96",
        ]
    );
    assert!(session.computer_thinking);
    assert_eq!(session.computer_thinking_delay, 455);
    assert!(session.thinking_tick(1));
    assert!(!session.thinking_tick(0));
    assert!(session.logic_visual().live_animation == Some((1, 455)));

    let stale = session.finish_computer_turn(7, 0, 0);
    assert!(!stale.redraw && stale.sounds.is_empty() && stale.computer_turn.is_none());
    assert!(session.computer_thinking);

    let done = session.finish_computer_turn(1, 0, 0);
    assert!(done.redraw);
    assert_eq!(done.sounds, vec![Sound::Computer]);
    assert_eq!(done.computer_turn, None);
    assert!(!session.computer_thinking);
    assert_eq!(session.game.board.get(-1, 0), Some(Player::White));
    assert_eq!(session.game.current, Player::Black);
    assert_eq!(texts(&session).last().copied(), Some("AI: (-1,0) score 98 selected."));
}

#[test]
fn refused_clicks() {
    let mut session = HexReversi::new(1);
    let reaction = session.click_cell(4, 0, 0);
    assert_eq!(reaction.sounds, vec![Sound::Invalid]);
    assert_eq!(reaction.computer_turn, None);
    assert_eq!(texts(&session).last().copied(), Some("Rule: (4,0) traps no stones."));

    let mut computer_first = HexReversi::new(0);
    let reaction = computer_first.click_cell(0, 1, 0);
    assert!(reaction.redraw);
    assert!(reaction.sounds.is_empty());
    assert_eq!(texts(&computer_first), vec!["Ready: Black moves first."]);
    assert_eq!(computer_first.game.message.as_deref(), Some("Computer is thinking."));
}

#[test]
fn sound_off_is_silent() {
    let mut session = HexReversi::new(1);
    session.toggle_sound();
    assert!(!session.sound_enabled);
    let reaction = session.click_cell(4, 0, 0);
    assert!(reaction.sounds.is_empty());
    let reaction = session.click_cell(0, 1, 0);
    assert!(reaction.sounds.is_empty());
    session.toggle_sound();
    assert!(session.sound_enabled);
}

#[test]
fn hover_highlights_legal_cells_only() {
    let mut session = HexReversi::new(1);
    let lit = session.hover(Some((0, 1)));
    assert!(lit.redraw);
    assert_eq!(lit.sounds, vec![Sound::Hover]);
    assert_eq!(session.hover_cell, Some((0, 1)));
    let same = session.hover(Some((0, 1)));
    assert!(!same.redraw && same.sounds.is_empty());
    let off = session.hover(Some((4, 0)));
    assert!(off.redraw && off.sounds.is_empty());
    assert_eq!(session.hover_cell, None);
    let none = session.hover(None);
    assert!(!none.redraw);
}

#[test]
fn reset_starts_the_computer_when_it_plays_black() {
    let mut session = HexReversi::new(1);
    session.click_cell(0, 1, 0);
    let reaction = session.reset(0, 0);
    assert!(reaction.redraw);
    assert_eq!(reaction.sounds, vec![Sound::NewGame]);
    assert_eq!(reaction.computer_turn, Some(ComputerTurn { serial: 3, delay_ms: 1100 }));
    assert_eq!(session.game.computer, Player::Black);
    assert_eq!(session.game.score(), (2, 2));
    assert_eq!(session.hover_cell, None);
    assert_eq!(
        texts(&session),
        vec![
            "New game: board reset.",
            "AI: evaluating 3 legal moves.",
            "AI: top scores (-1,1)=98, (0,1)=98, (1,1)=96",
        ]
    );
}

#[test]
fn speed_mode_shortens_the_pause() {
    let mut session = HexReversi::new(0);
    session.toggle_speed_mode();
    assert!(session.speed_mode);
    let turn = session.schedule_computer_turn(false, 3).unwrap();
    assert_eq!(turn, ComputerTurn { serial: 1, delay_ms: 83 });
    session.toggle_computer_verbose();
    assert!(!session.computer_verbose);
}

#[test]
fn log_keeps_the_last_twelve() {
    let mut session = HexReversi::new(1);
    for i in 0..13 {
        session.log_logic(format!("event {}", i));
    }
    assert_eq!(session.logic_events.len(), 12);
    assert_eq!(session.logic_events[0], "event 1");
    assert_eq!(session.logic_events[11], "event 12");
}

#[test]
fn schedule_only_on_computer_turn() {
    let mut session = HexReversi::new(1);
    assert_eq!(session.schedule_computer_turn(true, 0), None);
    assert_eq!(session.turn_serial, 0);
    assert_eq!(texts(&session), vec!["Ready: Black moves first."]);
}
