use vstd::prelude::*;
use crate::player::Player;
use crate::scoring::{MoveBreakdown, MoveScore};
use crate::game::{Game, FlipCell};
use crate::rules::flips;
use crate::board::stone;
use crate::text::{digits, int_digits, nat_text, int_text};

verus! {

/// The colour of the hint dot for a move of score `score`.
pub open spec fn guide_color(score: int) -> u32 {
    if 0 <= score <= 129 {
        0x93c5fd
    } else if 130 <= score <= 229 {
        0x5eead4
    } else if 230 <= score <= 329 {
        0xffd166
    } else {
        0xfb7185
    }
}

/// The colour of the hint dot for a move of score `score`: blue, teal,
/// yellow, then red as the score grows.
pub fn guide_color_for_score(score: i32) -> (res: u32)
    ensures
        res == guide_color(score as int),
{
    if 0 <= score && score <= 129 {
        0x93c5fd
    } else if 130 <= score && score <= 229 {
        0x5eead4
    } else if 230 <= score && score <= 329 {
        0xffd166
    } else {
        0xfb7185
    }
}

/// While the computer thinks, the interface cycles a highlight through its
/// (at most) four best moves: the move highlighted at clock tick `tick`, with
/// its hint colour; none when there is no move.
pub fn thinking_candidate(moves: &Vec<MoveScore>, tick: usize) -> (res: Option<((i32, i32), u32)>)
    ensures
        moves@.len() == 0 ==> res is None,
        moves@.len() > 0 ==> {
            let n = if moves@.len() < 4 { moves@.len() as int } else { 4int };
            let m = moves@[tick as int % n];
            res == Some(((m.q, m.r), guide_color(m.score as int)))
        },
{
    if moves.len() == 0 {
        return None;
    }
    let candidate_count = if moves.len() < 4 { moves.len() } else { 4 };
    let selected = moves[tick % candidate_count];
    let color = guide_color_for_score(selected.score);
    Some(((selected.q, selected.r), color))
}


/// A stage of the computer's decision, shown as a node of the flow diagram.
#[derive(Clone, Debug)]
pub struct LogicStage {
    pub label: &'static str,
    pub value: String,
    pub color: u32,
}

/// A line of the decision listing.
#[derive(Clone, Debug)]
pub struct LogicInstruction {
    pub op: &'static str,
    pub arg: String,
    pub note: String,
    pub color: u32,
    /// The stage that the line belongs to.
    pub stage: usize,
}

/// A candidate move in the flow diagram.
#[derive(Clone, Debug)]
pub struct LogicScoreNode {
    pub label: String,
    pub value: String,
}

/// What the decision panel shows: the stages, the listing, the candidate
/// nodes, and, while the computer is choosing, the turn number and the length
/// of its pause in milliseconds (which drive the animation).
#[derive(Clone, Debug)]
pub struct LogicVisual {
    pub stages: Vec<LogicStage>,
    pub instructions: Vec<LogicInstruction>,
    pub score_nodes: Vec<LogicScoreNode>,
    pub live_animation: Option<(u64, u64)>,
}

/// A stage as plain values: label, value, colour.
pub open spec fn stage_view(s: LogicStage) -> (Seq<char>, Seq<char>, u32) {
    (s.label@, s.value@, s.color)
}

/// A listing line as plain values: operation, argument, note, colour, stage.
pub open spec fn instruction_view(i: LogicInstruction) -> (Seq<char>, Seq<char>, Seq<char>, u32, usize) {
    (i.op@, i.arg@, i.note@, i.color, i.stage)
}

/// A candidate node as plain values: label, value.
pub open spec fn node_view(n: LogicScoreNode) -> (Seq<char>, Seq<char>) {
    (n.label@, n.value@)
}

/// The stages as plain values.
pub open spec fn stage_views(s: Seq<LogicStage>) -> Seq<(Seq<char>, Seq<char>, u32)> {
    s.map_values(|x: LogicStage| stage_view(x))
}

/// The listing as plain values.
pub open spec fn instruction_views(s: Seq<LogicInstruction>) -> Seq<(Seq<char>, Seq<char>, Seq<char>, u32, usize)> {
    s.map_values(|x: LogicInstruction| instruction_view(x))
}

/// The candidate nodes as plain values.
pub open spec fn node_views(s: Seq<LogicScoreNode>) -> Seq<(Seq<char>, Seq<char>)> {
    s.map_values(|x: LogicScoreNode| node_view(x))
}

/// "AI" when the side to move is the computer, else "human".
pub open spec fn actor_text(g: Game) -> Seq<char> {
    if g.current == g.computer {
        "AI"@
    } else {
        "human"@
    }
}

/// The turn stage: "done" when the game is over, else who moves ("AI" or
/// "H") and with which colour ("B" or "W").
pub open spec fn turn_text(g: Game) -> Seq<char> {
    if g.game_over {
        "done"@
    } else {
        (if g.current == g.computer {
            "AI"@
        } else {
            "H"@
        }) + " "@ + (match g.current {
            Player::Black => "B"@,
            Player::White => "W"@,
        })
    }
}

/// The score stage: the best candidate's score, or "pass".
pub open spec fn top_score_text(c: Seq<MoveBreakdown>) -> Seq<char> {
    if c.len() == 0 {
        "pass"@
    } else {
        int_digits(c[0].score as int)
    }
}

/// The pick stage: the best candidate's cell as "q,r", or "pass".
pub open spec fn pick_text(c: Seq<MoveBreakdown>) -> Seq<char> {
    if c.len() == 0 {
        "pass"@
    } else {
        int_digits(c[0].q as int) + ","@ + int_digits(c[0].r as int)
    }
}

/// The six stages.
pub open spec fn stages_of(g: Game, c: Seq<MoveBreakdown>, black: nat, white: nat, empty: nat) -> Seq<
    (Seq<char>, Seq<char>, u32),
> {
    seq![
        ("board"@, digits(black) + "/"@ + digits(white), 0x93c5fdu32),
        ("turn"@, turn_text(g), 0x5eead4u32),
        ("legal"@, digits(c.len()), 0xffd166u32),
        ("score"@, top_score_text(c), 0xffd166u32),
        ("pick"@, pick_text(c), 0xfb7185u32),
        ("state"@, digits(empty) + " open"@, 0xc084fcu32),
    ]
}

/// How many candidates the panel details: at most three.
pub open spec fn shown(c: Seq<MoveBreakdown>) -> nat {
    if c.len() < 3 {
        c.len()
    } else {
        3
    }
}

/// The listing line that details a candidate's score.
pub open spec fn score_line(b: MoveBreakdown) -> (Seq<char>, Seq<char>, Seq<char>, u32, usize) {
    (
        "SCORE"@,
        "("@ + int_digits(b.q as int) + ","@ + int_digits(b.r as int) + ")"@,
        "+"@ + int_digits(b.flips * 100) + " +"@ + int_digits(b.position_bonus as int) + " -"@
            + int_digits(b.ring_penalty as int) + " = "@ + int_digits(b.score as int),
        0xffd166u32,
        3usize,
    )
}

/// The listing.
pub open spec fn instructions_of(g: Game, c: Seq<MoveBreakdown>, black: nat, white: nat, empty: nat) -> Seq<
    (Seq<char>, Seq<char>, Seq<char>, u32, usize),
> {
    let head = seq![
        ("LOAD"@, "BOARD"@, "B"@ + digits(black) + " W"@ + digits(white), 0x93c5fdu32, 0usize),
        ("READ"@, "TURN"@, actor_text(g) + " "@ + g.current.spec_name(), 0x5eead4u32, 1usize),
        ("SCAN"@, "LEGAL"@, digits(c.len()) + " moves"@, 0xffd166u32, 2usize),
    ];
    let scores = Seq::new(shown(c), |i: int| score_line(c[i]));
    let none: Seq<(Seq<char>, Seq<char>, Seq<char>, u32, usize)> = if c.len() == 0 {
        seq![("SCORE"@, "none"@, "pass"@, 0xffd166u32, 3usize)]
    } else {
        Seq::empty()
    };
    let tail = seq![
        ("PICK"@, pick_text(c), if c.len() == 0 { "pass turn"@ } else { "best score"@ }, 0xfb7185u32, 4usize),
        (if g.game_over { "DONE"@ } else { "WAIT"@ }, "STATE"@, digits(empty) + " open"@, 0xc084fcu32, 5usize),
    ];
    head + scores + none + tail
}

/// The letter of the `i`-th candidate node.
pub open spec fn node_letter(i: int) -> Seq<char> {
    if i == 0 {
        "A"@
    } else if i == 1 {
        "B"@
    } else {
        "C"@
    }
}

/// The candidate nodes: the first three candidates as "q,r=score", or a
/// single "pass" node.
pub open spec fn nodes_of(c: Seq<MoveBreakdown>) -> Seq<(Seq<char>, Seq<char>)> {
    if c.len() == 0 {
        seq![("—"@, "pass"@)]
    } else {
        Seq::new(
            shown(c),
            |i: int|
                (
                    node_letter(i),
                    int_digits(c[i].q as int) + ","@ + int_digits(c[i].r as int) + "="@ + int_digits(
                        c[i].score as int,
                    ),
                ),
        )
    }
}

fn concat3(a: &str, b: &str, c: &str) -> (res: String)
    ensures
        res@ == a@ + b@ + c@,
{
    let mut s = String::from_str(a);
    s.append(b);
    s.append(c);
    s
}

fn node_letter_str(i: usize) -> (res: &'static str)
    requires
        i < 3,
    ensures
        res@ == node_letter(i as int),
{
    if i == 0 {
        "A"
    } else if i == 1 {
        "B"
    } else {
        "C"
    }
}

fn turn_str(game: &Game) -> (res: String)
    ensures
        res@ == turn_text(*game),
{
    if game.game_over {
        return String::from_str("done");
    }
    let who = if game.current == game.computer {
        "AI"
    } else {
        "H"
    };
    let side = match game.current {
        Player::Black => "B",
        Player::White => "W",
    };
    concat3(who, " ", side)
}

fn score_instruction(b: &MoveBreakdown) -> (res: LogicInstruction)
    requires
        i32::MIN <= b.flips * 100 <= i32::MAX,
    ensures
        instruction_view(res) == score_line(*b),
{
    let q = int_text(b.q);
    let r = int_text(b.r);
    let mut arg = String::from_str("(");
    arg.append(q.as_str());
    arg.append(",");
    arg.append(r.as_str());
    arg.append(")");
    let flips = int_text(b.flips * 100);
    let bonus = int_text(b.position_bonus);
    let penalty = int_text(b.ring_penalty);
    let score = int_text(b.score);
    let mut note = String::from_str("+");
    note.append(flips.as_str());
    note.append(" +");
    note.append(bonus.as_str());
    note.append(" -");
    note.append(penalty.as_str());
    note.append(" = ");
    note.append(score.as_str());
    LogicInstruction { op: "SCORE", arg, note, color: 0xffd166, stage: 3 }
}

fn node_for(i: usize, b: &MoveBreakdown) -> (res: LogicScoreNode)
    requires
        i < 3,
    ensures
        node_view(res) == (
            node_letter(i as int),
            int_digits(b.q as int) + ","@ + int_digits(b.r as int) + "="@ + int_digits(b.score as int),
        ),
{
    let q = int_text(b.q);
    let r = int_text(b.r);
    let score = int_text(b.score);
    let mut value = String::new();
    value.append(q.as_str());
    value.append(",");
    value.append(r.as_str());
    value.append("=");
    value.append(score.as_str());
    LogicScoreNode { label: String::from_str(node_letter_str(i)), value }
}

/// The content of the decision panel for `game`, whose side to move has the
/// candidate moves `candidates` (best first), with `black` and `white` stones
/// and `empty` free cells on the board.
pub fn build_logic_visual(
    game: &Game,
    candidates: &Vec<MoveBreakdown>,
    black: usize,
    white: usize,
    empty: usize,
    live_animation: Option<(u64, u64)>,
) -> (res: LogicVisual)
    requires
        forall|i: int|
            0 <= i < candidates@.len() && i < 3 ==> i32::MIN <= (#[trigger] candidates@[i]).flips * 100
                <= i32::MAX,
    ensures
        stage_views(res.stages@) == stages_of(
            *game,
            candidates@,
            black as nat,
            white as nat,
            empty as nat,
        ),
        instruction_views(res.instructions@) == instructions_of(
            *game,
            candidates@,
            black as nat,
            white as nat,
            empty as nat,
        ),
        node_views(res.score_nodes@) == nodes_of(candidates@),
        res.live_animation == live_animation,
{
    let c = candidates;
    let black_text = nat_text(black as u64);
    let white_text = nat_text(white as u64);
    let count_text = nat_text(c.len() as u64);
    let empty_text = nat_text(empty as u64);
    let top_score = if c.len() > 0 {
        int_text(c[0].score)
    } else {
        String::from_str("pass")
    };
    let selected = if c.len() > 0 {
        let q = int_text(c[0].q);
        let r = int_text(c[0].r);
        concat3(q.as_str(), ",", r.as_str())
    } else {
        String::from_str("pass")
    };
    let actor = if game.current == game.computer {
        "AI"
    } else {
        "human"
    };
    let mut open_text = String::new();
    open_text.append(empty_text.as_str());
    open_text.append(" open");
    let stages = vec![
        LogicStage {
            label: "board",
            value: concat3(black_text.as_str(), "/", white_text.as_str()),
            color: 0x93c5fd,
        },
        LogicStage { label: "turn", value: turn_str(game), color: 0x5eead4 },
        LogicStage { label: "legal", value: nat_text(c.len() as u64), color: 0xffd166 },
        LogicStage { label: "score", value: top_score, color: 0xffd166 },
        LogicStage { label: "pick", value: selected, color: 0xfb7185 },
        LogicStage { label: "state", value: open_text, color: 0xc084fc },
    ];
    assert(stage_views(stages@) =~= stages_of(
        *game,
        c@,
        black as nat,
        white as nat,
        empty as nat,
    ));

    let mut load_note = String::from_str("B");
    load_note.append(black_text.as_str());
    load_note.append(" W");
    load_note.append(white_text.as_str());
    let mut scan_note = String::new();
    scan_note.append(count_text.as_str());
    scan_note.append(" moves");
    let mut instructions = vec![
        LogicInstruction {
            op: "LOAD",
            arg: String::from_str("BOARD"),
            note: load_note,
            color: 0x93c5fd,
            stage: 0,
        },
        LogicInstruction {
            op: "READ",
            arg: String::from_str("TURN"),
            note: concat3(actor, " ", game.current.name()),
            color: 0x5eead4,
            stage: 1,
        },
        LogicInstruction {
            op: "SCAN",
            arg: String::from_str("LEGAL"),
            note: scan_note,
            color: 0xffd166,
            stage: 2,
        },
    ];
    let ghost head = instruction_views(instructions@);
    let n = if c.len() < 3 { c.len() } else { 3 };
    let mut k: usize = 0;
    while k < n
        invariant
            n == shown(c@),
            n <= c@.len(),
            k <= n,
            forall|i: int|
                0 <= i < c@.len() && i < 3 ==> i32::MIN <= (#[trigger] c@[i]).flips * 100 <= i32::MAX,
            instruction_views(instructions@) == head + Seq::new(
                k as nat,
                |i: int| score_line(c@[i]),
            ),
        decreases n - k,
    {
        let line = score_instruction(&c[k]);
        let ghost prev = instructions@;
        instructions.push(line);
        assert(instructions@ == prev.push(line));
        assert(instruction_views(instructions@) =~= instruction_views(prev).push(instruction_view(line)));
        assert(instruction_views(instructions@) =~= head + Seq::new(
            (k + 1) as nat,
            |i: int| score_line(c@[i]),
        ));
        k += 1;
    }
    let ghost scores = Seq::new(shown(c@), |i: int| score_line(c@[i]));
    assert(instruction_views(instructions@) == head + scores);
    let ghost none: Seq<(Seq<char>, Seq<char>, Seq<char>, u32, usize)> = if c@.len() == 0 {
        seq![("SCORE"@, "none"@, "pass"@, 0xffd166u32, 3usize)]
    } else {
        Seq::empty()
    };
    if c.len() == 0 {
        let line = LogicInstruction {
            op: "SCORE",
            arg: String::from_str("none"),
            note: String::from_str("pass"),
            color: 0xffd166,
            stage: 3,
        };
        let ghost prev = instructions@;
        instructions.push(line);
        assert(instruction_views(instructions@) =~= instruction_views(prev).push(instruction_view(line)));
    }
    assert(instruction_views(instructions@) =~= head + scores + none);
    let pick_note = if c.len() == 0 {
        String::from_str("pass turn")
    } else {
        String::from_str("best score")
    };
    assert(stage_views(stages@)[4] == stages_of(*game, c@, black as nat, white as nat, empty as nat)[4]);
    assert(stage_views(stages@)[5] == stages_of(*game, c@, black as nat, white as nat, empty as nat)[5]);
    let pick = LogicInstruction {
        op: "PICK",
        arg: stages[4].value.clone(),
        note: pick_note,
        color: 0xfb7185,
        stage: 4,
    };
    let ghost before_pick = instructions@;
    instructions.push(pick);
    assert(instruction_views(instructions@) =~= instruction_views(before_pick).push(instruction_view(pick)));
    let state = LogicInstruction {
        op: if game.game_over {
            "DONE"
        } else {
            "WAIT"
        },
        arg: String::from_str("STATE"),
        note: stages[5].value.clone(),
        color: 0xc084fc,
        stage: 5,
    };
    let ghost before_state = instructions@;
    instructions.push(state);
    assert(instruction_views(instructions@) =~= instruction_views(before_state).push(instruction_view(state)));
    assert(instruction_views(instructions@) =~= instructions_of(
        *game,
        c@,
        black as nat,
        white as nat,
        empty as nat,
    ));

    let mut score_nodes: Vec<LogicScoreNode> = Vec::new();
    let mut j: usize = 0;
    while j < n
        invariant
            n == shown(c@),
            n <= c@.len(),
            j <= n,
            node_views(score_nodes@) == Seq::new(
                j as nat,
                |i: int|
                    (
                        node_letter(i),
                        int_digits(c@[i].q as int) + ","@ + int_digits(c@[i].r as int) + "="@
                            + int_digits(c@[i].score as int),
                    ),
            ),
        decreases n - j,
    {
        let node = node_for(j, &c[j]);
        let ghost prev = score_nodes@;
        score_nodes.push(node);
        assert(node_views(score_nodes@) =~= node_views(prev).push(node_view(node)));
        assert(node_views(score_nodes@) =~= Seq::new(
            (j + 1) as nat,
            |i: int|
                (
                    node_letter(i),
                    int_digits(c@[i].q as int) + ","@ + int_digits(c@[i].r as int) + "="@
                        + int_digits(c@[i].score as int),
                ),
        ));
        j += 1;
    }
    if score_nodes.len() == 0 {
        score_nodes.push(LogicScoreNode { label: String::from_str("—"), value: String::from_str("pass") });
    }
    assert(node_views(score_nodes@) =~= nodes_of(c@));
    LogicVisual { stages, instructions, score_nodes, live_animation }
}


/// The hint dot drawn on a cell where the side to move may play.
#[derive(Clone, Copy, Debug, PartialEq, Eq, Structural)]
pub enum HintDot {
    /// No dot: the cell is not a legal move, or the game is over.
    Hidden,
    /// The pulsing highlight of the move the computer is weighing.
    Pulse,
    /// A faint dot while the computer thinks.
    Faint,
    /// A plain dot on the human's turn.
    Plain,
}

/// What stands on a cell.
#[derive(Clone, Copy, Debug, PartialEq, Eq, Structural)]
pub enum Piece {
    Empty,
    Stone(Player),
    /// A stone that is turning over in the running animation.
    Turning(FlipCell),
}

/// How a cell is drawn.
#[derive(Clone, Copy, Debug, PartialEq, Eq, Structural)]
pub struct CellMark {
    /// The hover highlight: the pointer is on the cell and it is a legal move.
    pub highlight: bool,
    pub dot: HintDot,
    pub piece: Piece,
}

/// The index of the first stone on `(q, r)` among `cells`, or `cells.len()`.
pub open spec fn first_at(cells: Seq<FlipCell>, q: int, r: int) -> int
    decreases cells.len(),
{
    if cells.len() == 0 {
        0
    } else if cells[0].q == q && cells[0].r == r {
        0
    } else {
        1 + first_at(cells.drop_first(), q, r)
    }
}

/// The index of the first stone of `cells` on `(q, r)`, or `cells.len()`
/// when none is.
fn first_turning(cells: &Vec<FlipCell>, q: i32, r: i32) -> (res: usize)
    ensures
        res as int == first_at(cells@, q as int, r as int),
        res <= cells@.len(),
{
    let mut i: usize = 0;
    assert(cells@.skip(0) =~= cells@);
    while i < cells.len()
        invariant
            i <= cells@.len(),
            first_at(cells@, q as int, r as int) == i + first_at(
                cells@.skip(i as int),
                q as int,
                r as int,
            ),
        decreases cells@.len() - i,
    {
        assert(cells@.skip(i as int).drop_first() =~= cells@.skip(i + 1));
        assert(cells@.skip(i as int)[0] == cells@[i as int]);
        if cells[i].q == q && cells[i].r == r {
            return i;
        }
        i += 1;
    }
    assert(cells@.skip(i as int).len() == 0);
    i
}

/// How the cell `(q, r)` of `game` is drawn: `hover_cell` is the cell under
/// the pointer, `thinking_pick` the move the computer's highlight is on, and
/// `flip_running` whether the last move's stones are still turning.
pub open spec fn mark_of(
    game: Game,
    q: int,
    r: int,
    hover_cell: Option<(i32, i32)>,
    thinking_pick: Option<(i32, i32)>,
    flip_running: bool,
) -> CellMark {
    let legal = flips(game.board@, q, r, game.current).len() > 0;
    let thinking = !game.game_over && game.current == game.computer;
    let dot = if !legal || game.game_over {
        HintDot::Hidden
    } else if thinking && (thinking_pick matches Some(c) && c.0 as int == q && c.1 as int == r) {
        HintDot::Pulse
    } else if thinking {
        HintDot::Faint
    } else {
        HintDot::Plain
    };
    let piece = match stone(game.board@, q, r) {
        None => Piece::Empty,
        Some(p) => {
            if flip_running && game.flip_animation is Some && first_at(
                game.flip_animation->0.cells@,
                q,
                r,
            ) < game.flip_animation->0.cells@.len() {
                Piece::Turning(
                    game.flip_animation->0.cells@[first_at(game.flip_animation->0.cells@, q, r)],
                )
            } else {
                Piece::Stone(p)
            }
        },
    };
    CellMark {
        highlight: legal && (hover_cell matches Some(h) && h.0 as int == q && h.1 as int == r),
        dot,
        piece,
    }
}

/// How to draw the cell `(q, r)` of `game`: the hover highlight on a legal
/// move under the pointer; a hint dot on each legal move of a running game
/// (pulsing on the move the computer's highlight is on, faint while the
/// computer thinks, plain on the human's turn); and the stone, drawn turning
/// while the last move's animation runs.
pub fn cell_mark(
    game: &Game,
    q: i32,
    r: i32,
    hover_cell: Option<(i32, i32)>,
    thinking_pick: Option<(i32, i32)>,
    flip_running: bool,
) -> (res: CellMark)
    requires
        game.wf(),
    ensures
        res == mark_of(*game, q as int, r as int, hover_cell, thinking_pick, flip_running),
{
    let legal = game.flips_for_move(q, r, game.current).len() > 0;
    let thinking = !game.game_over && game.current == game.computer;
    let highlight = legal && match hover_cell {
        Some((hq, hr)) => hq == q && hr == r,
        None => false,
    };
    let picked = match thinking_pick {
        Some((tq, tr)) => tq == q && tr == r,
        None => false,
    };
    let dot = if !legal || game.game_over {
        HintDot::Hidden
    } else if thinking && picked {
        HintDot::Pulse
    } else if thinking {
        HintDot::Faint
    } else {
        HintDot::Plain
    };
    let piece = match game.board.get(q, r) {
        None => Piece::Empty,
        Some(p) => {
            let mut turning: Option<FlipCell> = None;
            if flip_running {
                if let Some(animation) = &game.flip_animation {
                    let k = first_turning(&animation.cells, q, r);
                    if k < animation.cells.len() {
                        turning = Some(animation.cells[k]);
                    }
                }
            }
            match turning {
                Some(cell) => Piece::Turning(cell),
                None => Piece::Stone(p),
            }
        },
    };
    CellMark { highlight, dot, piece }
}

} // verus!
