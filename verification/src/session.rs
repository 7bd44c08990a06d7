use vstd::prelude::*;
use crate::player::Player;
use crate::game::{Game, breakdowns_of, computer_choice, new_game, human_move, computer_move, status_text};
use crate::rules::{flips, legal_moves_of};
use crate::scoring::{MoveScore, sort_by_score, to_score, lemma_sorted_from_input};
use crate::board::{cells, all_cells, count_of, count_occupied};
use crate::presentation::{
    LogicVisual, build_logic_visual, stage_views, instruction_views, node_views, stages_of, instructions_of,
    nodes_of,
};
use crate::game::{breakdown, lemma_legal_moves_on_board};
use crate::rules::lemma_flips_len_bound;
use crate::random::{random_computer_delay, delay_of};
use crate::text::{digits, int_digits, nat_text, int_text};

verus! {

/// A sound effect for the interface to play.
#[derive(Clone, Copy, Debug, PartialEq, Eq, Structural)]
pub enum Sound {
    Move,
    Computer,
    Invalid,
    Hover,
    Selection,
    GameOver,
    NewGame,
}

/// A computer turn for the interface to run: wait `delay_ms` milliseconds,
/// then report back with `serial`.
#[derive(Clone, Copy, Debug, PartialEq, Eq, Structural)]
pub struct ComputerTurn {
    pub serial: u64,
    pub delay_ms: u64,
}

/// How many events the decision log keeps.
pub const LOG_CAPACITY: usize = 12;

/// The log after `e` is added: the oldest event goes once there are more
/// than `LOG_CAPACITY`.
pub open spec fn log_push(log: Seq<Seq<char>>, e: Seq<char>) -> Seq<Seq<char>> {
    let l = log.push(e);
    if l.len() > 12 {
        l.drop_first()
    } else {
        l
    }
}

/// The log as plain text.
pub open spec fn log_view(log: Seq<String>) -> Seq<Seq<char>> {
    log.map_values(|s: String| s@)
}

/// A scored move as "(q,r)=score".
pub open spec fn move_text(m: MoveScore) -> Seq<char> {
    "("@ + int_digits(m.q as int) + ","@ + int_digits(m.r as int) + ")="@ + int_digits(m.score as int)
}

/// The moves, each as "(q,r)=score", separated by ", ".
pub open spec fn join_moves(s: Seq<MoveScore>) -> Seq<char>
    decreases s.len(),
{
    if s.len() == 0 {
        Seq::empty()
    } else if s.len() == 1 {
        move_text(s[0])
    } else {
        join_moves(s.drop_last()) + ", "@ + move_text(s.last())
    }
}

/// The four best moves as text, or "none".
pub open spec fn summary_text(moves: Seq<MoveScore>) -> Seq<char> {
    if moves.len() == 0 {
        "none"@
    } else {
        join_moves(moves.take(if moves.len() < 4 { moves.len() as int } else { 4 }))
    }
}

/// The scored moves of the side to move, best first.
pub open spec fn ranked_moves(g: Game) -> Seq<MoveScore> {
    sort_by_score(breakdowns_of(g.board@, g.current)).map_values(to_score())
}

/// The log line when the computer starts to think.
pub open spec fn evaluating_text(n: nat) -> Seq<char> {
    "AI: evaluating "@ + digits(n) + " legal moves."@
}

/// What the computer's turn changes when it is due: the turn number, the
/// log, the thinking flag, the pause, and the turn to run. Nothing when the
/// game is over or it is the human's turn.
pub open spec fn plan_turn(
    g: Game,
    speed_mode: bool,
    serial: u64,
    log: Seq<Seq<char>>,
    thinking: bool,
    delay: u64,
    after_human_move: bool,
    raw: u64,
) -> (u64, Seq<Seq<char>>, bool, u64, Option<ComputerTurn>) {
    if g.game_over || g.current != g.computer {
        (serial, log, thinking, delay, None)
    } else {
        let s = (serial + 1) as u64;
        let d = delay_of(after_human_move, speed_mode, raw) as u64;
        (
            s,
            log_push(
                log_push(log, evaluating_text(legal_moves_of(g.board@, g.current).len())),
                "AI: top scores "@ + summary_text(ranked_moves(g)),
            ),
            true,
            d,
            Some(ComputerTurn { serial: s, delay_ms: d }),
        )
    }
}

/// What the interface does after an event: whether to redraw, which sounds
/// to play, and which computer turn to start.
pub struct Reaction {
    pub redraw: bool,
    pub sounds: Vec<Sound>,
    pub computer_turn: Option<ComputerTurn>,
}

/// The sounds when a move was made: the move's sound, then the end-of-game
/// sound if the move ended the game; none with sound off.
pub open spec fn move_sounds(enabled: bool, s: Sound, ended: bool) -> Seq<Sound> {
    if !enabled {
        Seq::empty()
    } else if ended {
        seq![s, Sound::GameOver]
    } else {
        seq![s]
    }
}

/// What the computer's turn returns on the game `g` with the random word
/// `raw`: nothing unless it is the computer's turn in a game not over.
pub open spec fn computer_result(g: Game, raw: u64) -> Option<MoveScore> {
    if g.game_over || g.current != g.computer {
        None
    } else {
        computer_choice(g.board@, g.current, raw)
    }
}

/// The log line for a human move on `(q, r)` that turned `n` stones.
pub open spec fn human_text(q: int, r: int, n: nat) -> Seq<char> {
    "Human: ("@ + int_digits(q) + ","@ + int_digits(r) + ") flips "@ + digits(n) + " stones."@
}

/// The log line for a refused human move on `(q, r)`.
pub open spec fn rule_text(q: int, r: int) -> Seq<char> {
    "Rule: ("@ + int_digits(q) + ","@ + int_digits(r) + ") traps no stones."@
}

/// The log line for the computer's move.
pub open spec fn selected_text(m: MoveScore) -> Seq<char> {
    "AI: ("@ + int_digits(m.q as int) + ","@ + int_digits(m.r as int) + ") score "@ + int_digits(
        m.score as int,
    ) + " selected."@
}

/// The log after a move: the move's line, then the result if the move ended
/// the game.
pub open spec fn log_after_move(log: Seq<Seq<char>>, line: Seq<char>, ended: bool, post: Game) -> Seq<Seq<char>> {
    let l = log_push(log, line);
    if ended {
        log_push(l, "Result: "@ + status_text(post))
    } else {
        l
    }
}

/// The state of a session: the game and what the interface around it shows.
pub struct HexReversi {
    pub game: Game,
    /// The cell under the pointer, when the human could play there.
    pub hover_cell: Option<(i32, i32)>,
    pub speed_mode: bool,
    pub sound_enabled: bool,
    /// Whether the decision panel is shown.
    pub computer_verbose: bool,
    /// The last events, oldest first.
    pub logic_events: Vec<String>,
    /// Counts the computer turns started and the games begun; a turn whose
    /// number is no longer current is dropped.
    pub turn_serial: u64,
    pub computer_thinking: bool,
    /// The pause of the computer's current turn, in milliseconds.
    pub computer_thinking_delay: u64,
}

impl HexReversi {
    pub open spec fn wf(&self) -> bool {
        &&& self.game.wf()
        &&& self.logic_events@.len() <= 12
    }

    /// A new session: a new game whose computer side `raw` picks, sound and
    /// panel on, speed mode off.
    pub fn new(raw: u64) -> (res: HexReversi)
        ensures
            res.wf(),
            new_game(res.game, raw),
            res.hover_cell is None,
            !res.speed_mode,
            res.sound_enabled,
            res.computer_verbose,
            log_view(res.logic_events@) == seq!["Ready: Black moves first."@],
            res.turn_serial == 0,
            !res.computer_thinking,
            res.computer_thinking_delay == 1,
    {
        let events = vec![String::from_str("Ready: Black moves first.")];
        assert(log_view(events@) =~= seq!["Ready: Black moves first."@]);
        HexReversi {
            game: Game::new(raw),
            hover_cell: None,
            speed_mode: false,
            sound_enabled: true,
            computer_verbose: true,
            logic_events: events,
            turn_serial: 0,
            computer_thinking: false,
            computer_thinking_delay: 1,
        }
    }

    /// Adds an event to the log, dropping the oldest beyond `LOG_CAPACITY`.
    pub fn log_logic(&mut self, event: String)
        ensures
            log_view(final(self).logic_events@) == log_push(log_view(old(self).logic_events@), event@),
            old(self).logic_events@.len() <= 12 ==> final(self).logic_events@.len() <= 12,
            final(self).game == old(self).game,
            final(self).hover_cell == old(self).hover_cell,
            final(self).speed_mode == old(self).speed_mode,
            final(self).sound_enabled == old(self).sound_enabled,
            final(self).computer_verbose == old(self).computer_verbose,
            final(self).turn_serial == old(self).turn_serial,
            final(self).computer_thinking == old(self).computer_thinking,
            final(self).computer_thinking_delay == old(self).computer_thinking_delay,
    {
        let ghost before = self.logic_events@;
        let ghost text = event@;
        self.logic_events.push(event);
        assert(log_view(self.logic_events@) =~= log_view(before).push(text));
        if self.logic_events.len() > LOG_CAPACITY {
            let ghost pushed = self.logic_events@;
            self.logic_events.remove(0);
            assert(log_view(self.logic_events@) =~= log_view(pushed).drop_first());
        }
    }

    /// Starts the computer's turn when it is due (the game is not over and
    /// the computer is to move): numbers the turn, logs what the computer
    /// weighs, and draws its pause with `raw`.
    pub fn schedule_computer_turn(&mut self, after_human_move: bool, raw: u64) -> (res: Option<ComputerTurn>)
        requires
            old(self).wf(),
            old(self).turn_serial < u64::MAX || old(self).game.game_over || old(self).game.current
                != old(self).game.computer,
        ensures
            final(self).wf(),
            final(self).game == old(self).game,
            final(self).hover_cell == old(self).hover_cell,
            final(self).speed_mode == old(self).speed_mode,
            final(self).sound_enabled == old(self).sound_enabled,
            final(self).computer_verbose == old(self).computer_verbose,
            (
                final(self).turn_serial,
                log_view(final(self).logic_events@),
                final(self).computer_thinking,
                final(self).computer_thinking_delay,
                res,
            ) == plan_turn(
                old(self).game,
                old(self).speed_mode,
                old(self).turn_serial,
                log_view(old(self).logic_events@),
                old(self).computer_thinking,
                old(self).computer_thinking_delay,
                after_human_move,
                raw,
            ),
    {
        if self.game.game_over || self.game.current != self.game.computer {
            return None;
        }
        self.turn_serial += 1;
        let n = self.game.legal_moves(self.game.current).len();
        let mut evaluating = String::from_str("AI: evaluating ");
        let count = nat_text(n as u64);
        evaluating.append(count.as_str());
        evaluating.append(" legal moves.");
        self.log_logic(evaluating);
        let summary = self.top_move_summary();
        let mut top = String::from_str("AI: top scores ");
        top.append(summary.as_str());
        self.log_logic(top);
        let turn_serial = self.turn_serial;
        let delay = random_computer_delay(after_human_move, self.speed_mode, raw);
        self.computer_thinking = true;
        self.computer_thinking_delay = delay;
        Some(ComputerTurn { serial: turn_serial, delay_ms: delay })
    }

    /// Whether a tick of the computer's turn `serial` plays the selection
    /// sound: while that turn is current and still the computer's, with
    /// sound on.
    pub fn thinking_tick(&self, serial: u64) -> (res: bool)
        ensures
            res == (serial == self.turn_serial && !self.game.game_over && self.game.current
                == self.game.computer && self.sound_enabled),
    {
        serial == self.turn_serial && !self.game.game_over && self.game.current == self.game.computer
            && self.sound_enabled
    }

    /// Ends the computer's turn `serial` once its pause is over: the computer
    /// plays with `raw_move` (logging and sounding the move, and the result if
    /// the game ended), and its next turn starts, drawn with `raw_delay`, if
    /// the human has to pass. A turn that is no longer current is dropped.
    pub fn finish_computer_turn(&mut self, serial: u64, raw_move: u64, raw_delay: u64) -> (res: Reaction)
        requires
            old(self).wf(),
            serial != old(self).turn_serial || old(self).turn_serial < u64::MAX,
        ensures
            final(self).wf(),
            serial != old(self).turn_serial ==> {
                &&& !res.redraw
                &&& res.sounds@.len() == 0
                &&& res.computer_turn is None
                &&& final(self).game == old(self).game
                &&& log_view(final(self).logic_events@) == log_view(old(self).logic_events@)
                &&& final(self).turn_serial == old(self).turn_serial
                &&& final(self).computer_thinking == old(self).computer_thinking
                &&& final(self).computer_thinking_delay == old(self).computer_thinking_delay
            },
            serial == old(self).turn_serial ==> {
                let choice = computer_result(old(self).game, raw_move);
                let ended = !old(self).game.game_over && final(self).game.game_over;
                let log1 = match choice {
                    Some(c) => log_after_move(
                        log_view(old(self).logic_events@),
                        selected_text(c),
                        ended,
                        final(self).game,
                    ),
                    None => log_view(old(self).logic_events@),
                };
                &&& computer_move(old(self).game, final(self).game, raw_move, choice)
                &&& res.redraw
                &&& res.sounds@ == match choice {
                    Some(c) => move_sounds(old(self).sound_enabled, Sound::Computer, ended),
                    None => Seq::empty(),
                }
                &&& (
                    final(self).turn_serial,
                    log_view(final(self).logic_events@),
                    final(self).computer_thinking,
                    final(self).computer_thinking_delay,
                    res.computer_turn,
                ) == plan_turn(
                    final(self).game,
                    old(self).speed_mode,
                    old(self).turn_serial,
                    log1,
                    false,
                    old(self).computer_thinking_delay,
                    true,
                    raw_delay,
                )
            },
            final(self).hover_cell == old(self).hover_cell,
            final(self).speed_mode == old(self).speed_mode,
            final(self).sound_enabled == old(self).sound_enabled,
            final(self).computer_verbose == old(self).computer_verbose,
    {
        let mut sounds: Vec<Sound> = Vec::new();
        if self.turn_serial != serial {
            return Reaction { redraw: false, sounds, computer_turn: None };
        }
        self.computer_thinking = false;
        let was_game_over = self.game.game_over;
        let ghost log0 = log_view(self.logic_events@);
        let choice = self.game.play_computer_move(raw_move);
        if let Some(c) = choice {
            let q = int_text(c.q);
            let r = int_text(c.r);
            let score = int_text(c.score);
            let mut line = String::from_str("AI: (");
            line.append(q.as_str());
            line.append(",");
            line.append(r.as_str());
            line.append(") score ");
            line.append(score.as_str());
            line.append(" selected.");
            self.log_logic(line);
            if self.sound_enabled {
                sounds.push(Sound::Computer);
            }
            if !was_game_over && self.game.game_over {
                let status = self.game.status();
                let mut result = String::from_str("Result: ");
                result.append(status.as_str());
                self.log_logic(result);
            }
            if self.sound_enabled && !was_game_over && self.game.game_over {
                sounds.push(Sound::GameOver);
            }
        }
        let ghost log1 = log_view(self.logic_events@);
        let mut computer_turn = None;
        if !self.game.game_over && self.game.current == self.game.computer {
            computer_turn = self.schedule_computer_turn(true, raw_delay);
        }
        assert(sounds@ =~= match choice {
            Some(c) => move_sounds(self.sound_enabled, Sound::Computer, !was_game_over && self.game.game_over),
            None => Seq::empty(),
        });
        Reaction { redraw: true, sounds, computer_turn }
    }

    /// A click on the cell `(q, r)`: the human's move there (logged, sounded,
    /// and answered by the computer's turn drawn with `raw_delay`), or, on
    /// the human's turn, a refused move logged and sounded as such.
    pub fn click_cell(&mut self, q: i32, r: i32, raw_delay: u64) -> (res: Reaction)
        requires
            old(self).wf(),
            old(self).turn_serial < u64::MAX,
        ensures
            final(self).wf(),
            ({
                let pre = old(self).game;
                let human_turn = !pre.game_over && pre.current != pre.computer;
                let n = flips(pre.board@, q as int, r as int, pre.current).len();
                let moved = human_turn && n > 0;
                let ended = !pre.game_over && final(self).game.game_over;
                let log0 = log_view(old(self).logic_events@);
                &&& human_move(pre, final(self).game, q as int, r as int, moved)
                &&& res.redraw
                &&& moved ==> {
                    &&& res.sounds@ == move_sounds(old(self).sound_enabled, Sound::Move, ended)
                    &&& final(self).hover_cell is None
                    &&& (
                        final(self).turn_serial,
                        log_view(final(self).logic_events@),
                        final(self).computer_thinking,
                        final(self).computer_thinking_delay,
                        res.computer_turn,
                    ) == plan_turn(
                        final(self).game,
                        old(self).speed_mode,
                        old(self).turn_serial,
                        log_after_move(log0, human_text(q as int, r as int, n), ended, final(self).game),
                        old(self).computer_thinking,
                        old(self).computer_thinking_delay,
                        true,
                        raw_delay,
                    )
                }
                &&& !moved ==> {
                    &&& res.computer_turn is None
                    &&& final(self).hover_cell == old(self).hover_cell
                    &&& final(self).turn_serial == old(self).turn_serial
                    &&& final(self).computer_thinking == old(self).computer_thinking
                    &&& final(self).computer_thinking_delay == old(self).computer_thinking_delay
                    &&& if human_turn {
                        &&& log_view(final(self).logic_events@) == log_push(log0, rule_text(q as int, r as int))
                        &&& res.sounds@ == (if old(self).sound_enabled {
                            seq![Sound::Invalid]
                        } else {
                            Seq::empty()
                        })
                    } else {
                        &&& log_view(final(self).logic_events@) == log0
                        &&& res.sounds@.len() == 0
                    }
                }
            }),
            final(self).speed_mode == old(self).speed_mode,
            final(self).sound_enabled == old(self).sound_enabled,
            final(self).computer_verbose == old(self).computer_verbose,
    {
        let human_turn = !self.game.game_over && self.game.current != self.game.computer;
        let flips = if human_turn {
            self.game.flips_for_move(q, r, self.game.current)
        } else {
            Vec::new()
        };
        let legal = flips.len() > 0;
        let was_game_over = self.game.game_over;
        let mut sounds: Vec<Sound> = Vec::new();
        let mut computer_turn = None;
        if self.game.play_human(q, r) {
            let qt = int_text(q);
            let rt = int_text(r);
            let nt = nat_text(flips.len() as u64);
            let mut line = String::from_str("Human: (");
            line.append(qt.as_str());
            line.append(",");
            line.append(rt.as_str());
            line.append(") flips ");
            line.append(nt.as_str());
            line.append(" stones.");
            self.log_logic(line);
            if self.sound_enabled {
                sounds.push(Sound::Move);
            }
            self.hover_cell = None;
            if !was_game_over && self.game.game_over {
                let status = self.game.status();
                let mut result = String::from_str("Result: ");
                result.append(status.as_str());
                self.log_logic(result);
            }
            if self.sound_enabled && !was_game_over && self.game.game_over {
                sounds.push(Sound::GameOver);
            }
            computer_turn = self.schedule_computer_turn(true, raw_delay);
            assert(sounds@ =~= move_sounds(self.sound_enabled, Sound::Move, !was_game_over && self.game.game_over));
        } else if human_turn && !legal {
            let qt = int_text(q);
            let rt = int_text(r);
            let mut line = String::from_str("Rule: (");
            line.append(qt.as_str());
            line.append(",");
            line.append(rt.as_str());
            line.append(") traps no stones.");
            self.log_logic(line);
            if self.sound_enabled {
                sounds.push(Sound::Invalid);
            }
            assert(sounds@ =~= (if self.sound_enabled { seq![Sound::Invalid] } else { Seq::empty() }));
        }
        Reaction { redraw: true, sounds, computer_turn }
    }

    /// The pointer moved over `cell` (none when off the board): the cell is
    /// highlighted when the human could play there; a change of highlight is
    /// redrawn, with a sound when a cell lights up.
    pub fn hover(&mut self, cell: Option<(i32, i32)>) -> (res: Reaction)
        requires
            old(self).wf(),
        ensures
            ({
                let g = old(self).game;
                let next = match cell {
                    Some(c) => if !g.game_over && g.current != g.computer && flips(
                        g.board@,
                        c.0 as int,
                        c.1 as int,
                        g.current,
                    ).len() > 0 {
                        Some(c)
                    } else {
                        None
                    },
                    None => None,
                };
                &&& final(self).hover_cell == next
                &&& res.redraw == (old(self).hover_cell != next)
                &&& res.sounds@ == (if old(self).hover_cell != next && old(self).sound_enabled && next is Some {
                    seq![Sound::Hover]
                } else {
                    Seq::empty()
                })
                &&& res.computer_turn is None
            }),
            final(self).game == old(self).game,
            final(self).logic_events == old(self).logic_events,
            final(self).turn_serial == old(self).turn_serial,
            final(self).computer_thinking == old(self).computer_thinking,
            final(self).computer_thinking_delay == old(self).computer_thinking_delay,
            final(self).speed_mode == old(self).speed_mode,
            final(self).sound_enabled == old(self).sound_enabled,
            final(self).computer_verbose == old(self).computer_verbose,
    {
        let next_hover = match cell {
            Some((q, r)) => if !self.game.game_over && self.game.current != self.game.computer
                && self.game.flips_for_move(q, r, self.game.current).len() > 0 {
                Some((q, r))
            } else {
                None
            },
            None => None,
        };
        let mut sounds: Vec<Sound> = Vec::new();
        let changed = match (self.hover_cell, next_hover) {
            (Some(a), Some(b)) => a.0 != b.0 || a.1 != b.1,
            (None, None) => false,
            _ => true,
        };
        if changed {
            if self.sound_enabled && next_hover.is_some() {
                sounds.push(Sound::Hover);
            }
            self.hover_cell = next_hover;
        }
        assert(sounds@ =~= (if old(self).hover_cell != next_hover && self.sound_enabled && next_hover is Some {
            seq![Sound::Hover]
        } else {
            Seq::empty()
        }));
        Reaction { redraw: changed, sounds, computer_turn: None }
    }

    /// Starts a new game whose computer side `raw_side` picks, clears the log
    /// and the highlight, and starts the computer's turn (its pause drawn
    /// with `raw_delay`) if the computer plays Black.
    pub fn reset(&mut self, raw_side: u64, raw_delay: u64) -> (res: Reaction)
        requires
            old(self).wf(),
            old(self).turn_serial < u64::MAX - 1,
        ensures
            final(self).wf(),
            new_game(final(self).game, raw_side),
            final(self).hover_cell is None,
            res.redraw,
            res.sounds@ == (if old(self).sound_enabled {
                seq![Sound::NewGame]
            } else {
                Seq::empty()
            }),
            (
                final(self).turn_serial,
                log_view(final(self).logic_events@),
                final(self).computer_thinking,
                final(self).computer_thinking_delay,
                res.computer_turn,
            ) == plan_turn(
                final(self).game,
                old(self).speed_mode,
                (old(self).turn_serial + 1) as u64,
                seq!["New game: board reset."@],
                false,
                old(self).computer_thinking_delay,
                false,
                raw_delay,
            ),
            final(self).speed_mode == old(self).speed_mode,
            final(self).sound_enabled == old(self).sound_enabled,
            final(self).computer_verbose == old(self).computer_verbose,
    {
        self.game = Game::new(raw_side);
        self.hover_cell = None;
        self.logic_events.clear();
        self.log_logic(String::from_str("New game: board reset."));
        assert(log_view(self.logic_events@) =~= seq!["New game: board reset."@]);
        self.computer_thinking = false;
        self.turn_serial += 1;
        let mut sounds: Vec<Sound> = Vec::new();
        if self.sound_enabled {
            sounds.push(Sound::NewGame);
        }
        assert(sounds@ =~= (if self.sound_enabled { seq![Sound::NewGame] } else { Seq::empty() }));
        let computer_turn = self.schedule_computer_turn(false, raw_delay);
        Reaction { redraw: true, sounds, computer_turn }
    }

    /// Turns speed mode on or off.
    pub fn toggle_speed_mode(&mut self)
        ensures
            final(self).speed_mode == !old(self).speed_mode,
            final(self).sound_enabled == old(self).sound_enabled,
            final(self).computer_verbose == old(self).computer_verbose,
            final(self).game == old(self).game,
            final(self).hover_cell == old(self).hover_cell,
            final(self).logic_events == old(self).logic_events,
            final(self).turn_serial == old(self).turn_serial,
            final(self).computer_thinking == old(self).computer_thinking,
            final(self).computer_thinking_delay == old(self).computer_thinking_delay,
    {
        self.speed_mode = !self.speed_mode;
    }

    /// Turns the sound effects on or off.
    pub fn toggle_sound(&mut self)
        ensures
            final(self).sound_enabled == !old(self).sound_enabled,
            final(self).speed_mode == old(self).speed_mode,
            final(self).computer_verbose == old(self).computer_verbose,
            final(self).game == old(self).game,
            final(self).hover_cell == old(self).hover_cell,
            final(self).logic_events == old(self).logic_events,
            final(self).turn_serial == old(self).turn_serial,
            final(self).computer_thinking == old(self).computer_thinking,
            final(self).computer_thinking_delay == old(self).computer_thinking_delay,
    {
        self.sound_enabled = !self.sound_enabled;
    }

    /// Shows or hides the decision panel.
    pub fn toggle_computer_verbose(&mut self)
        ensures
            final(self).computer_verbose == !old(self).computer_verbose,
            final(self).speed_mode == old(self).speed_mode,
            final(self).sound_enabled == old(self).sound_enabled,
            final(self).game == old(self).game,
            final(self).hover_cell == old(self).hover_cell,
            final(self).logic_events == old(self).logic_events,
            final(self).turn_serial == old(self).turn_serial,
            final(self).computer_thinking == old(self).computer_thinking,
            final(self).computer_thinking_delay == old(self).computer_thinking_delay,
    {
        self.computer_verbose = !self.computer_verbose;
    }

    /// The content of the decision panel: the candidates of the side to move,
    /// the stone counts, the free cells, and, while the computer thinks on
    /// its turn, the turn number and pause that drive the animation.
    pub fn logic_visual(&self) -> (res: LogicVisual)
        requires
            self.game.wf(),
        ensures
            ({
                let g = self.game;
                let c = sort_by_score(breakdowns_of(g.board@, g.current));
                let black = count_of(g.board@, Player::Black);
                let white = count_of(g.board@, Player::White);
                let empty = if all_cells().len() >= count_occupied(g.board@) {
                    (all_cells().len() - count_occupied(g.board@)) as nat
                } else {
                    0
                };
                &&& stage_views(res.stages@) == stages_of(g, c, black, white, empty)
                &&& instruction_views(res.instructions@) == instructions_of(g, c, black, white, empty)
                &&& node_views(res.score_nodes@) == nodes_of(c)
                &&& res.live_animation == (if !g.game_over && g.current == g.computer
                    && self.computer_thinking {
                    Some((self.turn_serial, self.computer_thinking_delay))
                } else {
                    None
                })
            }),
    {
        let candidates = self.game.scored_move_breakdowns(self.game.current);
        let (black, white) = self.game.score();
        let empty = cells().len().saturating_sub(self.game.board.len());
        let live = if !self.game.game_over && self.game.current == self.game.computer
            && self.computer_thinking {
            Some((self.turn_serial, self.computer_thinking_delay))
        } else {
            None
        };
        proof {
            let g = self.game.board@;
            let p = self.game.current;
            let bd = breakdowns_of(g, p);
            lemma_legal_moves_on_board(g, p);
            assert forall|i: int| 0 <= i < candidates@.len() && i < 3 implies i32::MIN <= (
            #[trigger] candidates@[i]).flips * 100 <= i32::MAX by {
                lemma_sorted_from_input(bd, i);
                let j = choose|j: int| 0 <= j < bd.len() && bd[j] == candidates@[i];
                let cell = legal_moves_of(g, p)[j];
                lemma_flips_len_bound(g, cell.0 as int, cell.1 as int, p);
                assert(bd[j] == breakdown(g, cell.0 as int, cell.1 as int, p));
            }
        }
        build_logic_visual(&self.game, &candidates, black, white, empty, live)
    }

    /// The four best moves of the side to move as "(q,r)=score", separated by
    /// ", "; "none" when it has no move.
    pub fn top_move_summary(&self) -> (res: String)
        requires
            self.game.wf(),
        ensures
            res@ == summary_text(ranked_moves(self.game)),
    {
        let moves = self.game.scored_moves(self.game.current);
        if moves.len() == 0 {
            return String::from_str("none");
        }
        let n = if moves.len() < 4 { moves.len() } else { 4 };
        let mut text = String::new();
        let mut i: usize = 0;
        while i < n
            invariant
                n <= moves@.len(),
                i <= n,
                text@ == join_moves(moves@.take(i as int)),
            decreases n - i,
        {
            let m = moves[i];
            if i > 0 {
                text.append(", ");
            }
            let q = int_text(m.q);
            let r = int_text(m.r);
            let score = int_text(m.score);
            text.append("(");
            text.append(q.as_str());
            text.append(",");
            text.append(r.as_str());
            text.append(")=");
            text.append(score.as_str());
            assert(moves@.take(i + 1).drop_last() =~= moves@.take(i as int));
            proof {
                if i == 0 {
                    reveal_strlit("");
                    assert(text@ =~= move_text(m));
                }
            }
            i += 1;
        }
        text
    }
}

} // verus!
