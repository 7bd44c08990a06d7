use vstd::prelude::*;
use crate::player::Player;
use crate::board::{
    Board, cells, all_cells, on_board, stone, is_on_board, hex_ring, slot, grid_coords, count_of,
    lemma_slot_coords, lemma_grid_coords_slot,
};
use crate::text::{digits, nat_text};
use crate::random::{random_index, index_of, random_player, player_of};
use crate::scoring::{
    MoveScore, MoveBreakdown, score_of, to_score, breakdown_score_is, move_score_is, max_score, insert_at,
    sort_by_score, lemma_sort_first_is_max, lemma_sort_keeps_order_within_score, lemma_filter_score_of,
    lemma_sort_descending,
};
use crate::rules::{
    dir, direction, ray_cell, run_end, line_flips, flips_upto, flips, legal_pred, legal_moves_of,
    lemma_ray_leaves_board, lemma_ray_step, lemma_flips_len_bound, lemma_flips_are_opponent_stones,
};

verus! {

/// A stone that turns over in the last move, with its colour before and after.
#[derive(Clone, Copy, Debug, PartialEq, Eq, Structural)]
pub struct FlipCell {
    pub q: i32,
    pub r: i32,
    pub from: Player,
    pub to: Player,
}

/// The stones turned by the last move, for the interface to animate.
#[derive(Clone, Debug)]
pub struct FlipAnimation {
    pub cells: Vec<FlipCell>,
}

/// A state of the game.
#[derive(Clone, Debug)]
pub struct Game {
    pub board: Board,
    /// The side to move.
    pub current: Player,
    /// The side that the computer plays.
    pub computer: Player,
    pub game_over: bool,
    /// A note about the last event, shown in place of the status.
    pub message: Option<String>,
    pub flip_animation: Option<FlipAnimation>,
}

/// The breakdown of the computer's score for a stone of `p` on `(q, r)`.
pub open spec fn breakdown(g: Seq<Option<Player>>, q: int, r: int, p: Player) -> MoveBreakdown {
    let f = flips(g, q, r, p).len() as int;
    let ring = hex_ring(q, r);
    let bonus: int = if ring == 4 && (q == 0 || r == 0 || q + r == 0) {
        70
    } else if ring == 4 {
        30
    } else {
        0
    };
    MoveBreakdown {
        q: q as i32,
        r: r as i32,
        flips: f as i32,
        position_bonus: bonus as i32,
        ring_penalty: (ring * 2) as i32,
        score: (f * 100 + bonus - ring * 2) as i32,
    }
}

/// The breakdowns of the legal moves of `p`, in board order.
pub open spec fn breakdowns_of(g: Seq<Option<Player>>, p: Player) -> Seq<MoveBreakdown> {
    legal_moves_of(g, p).map_values(|c: (i32, i32)| breakdown(g, c.0 as int, c.1 as int, p))
}

/// The moves that the computer may pick: the legal moves of `p` whose score
/// is the highest, in board order.
pub open spec fn best_moves_of(g: Seq<Option<Player>>, p: Player) -> Seq<MoveBreakdown> {
    let bd = breakdowns_of(g, p);
    bd.filter(breakdown_score_is(max_score(bd)))
}

/// The move that the computer picks with the random word `raw`: none when
/// `p` has no legal move, else the best move at the index that `raw` picks.
pub open spec fn computer_choice(g: Seq<Option<Player>>, p: Player, raw: u64) -> Option<MoveScore> {
    let best = best_moves_of(g, p);
    if breakdowns_of(g, p).len() == 0 {
        None
    } else {
        Some(score_of(best[index_of(raw, best.len())]))
    }
}

/// The grid after a stone of `p` is played on `(q, r)` and the stones on the
/// cells `fl` are turned to `p`; nothing else changes.
pub open spec fn after_move(g: Seq<Option<Player>>, q: int, r: int, fl: Seq<(i32, i32)>, p: Player) -> Seq<
    Option<Player>,
> {
    Seq::new(
        g.len(),
        |i: int|
            if i == slot(q, r) || fl.contains(grid_coords()[i]) {
                Some(p)
            } else {
                g[i]
            },
    )
}

/// What follows when `p` is due to move on the grid `g`: the side that then
/// moves, whether the game is over, and the side that had to pass, if any.
/// `p` moves if it can; else the other side moves if it can, `p` passing;
/// else the game is over.
pub open spec fn settle(g: Seq<Option<Player>>, p: Player) -> (Player, bool, Option<Player>) {
    if legal_moves_of(g, p).len() > 0 {
        (p, false, None)
    } else if legal_moves_of(g, p.opponent()).len() == 0 {
        (p, true, None)
    } else {
        (p.opponent(), false, Some(p))
    }
}

/// The note shown when `p` has to pass.
pub open spec fn pass_text(p: Player) -> Seq<char> {
    p.spec_name() + " has no legal moves and passes."@
}

/// Whether the optional note `m` is present and reads `text`.
pub open spec fn message_is(m: Option<String>, text: Seq<char>) -> bool {
    m matches Some(s) && s@ == text
}

/// The turned stones of a move by `p`, for the animation.
pub open spec fn flip_cells(fl: Seq<(i32, i32)>, p: Player) -> Seq<FlipCell> {
    fl.map_values(|c: (i32, i32)| FlipCell { q: c.0, r: c.1, from: p.opponent(), to: p })
}

/// The stones of a new game: two of each side around the centre.
pub open spec fn initial_stone(q: int, r: int) -> Option<Player> {
    if (q, r) == (0int, 0int) || (q, r) == (1int, 0int) {
        Some(Player::White)
    } else if (q, r) == (1int, -1int) || (q, r) == (0int, -1int) {
        Some(Player::Black)
    } else {
        None
    }
}

/// The board, turn and animation after the side to move of `pre` has played
/// on `(q, r)`, turning the stones `fl`; the note is left aside.
pub open spec fn played(pre: Game, post: Game, q: int, r: int, fl: Seq<(i32, i32)>) -> bool {
    let p = pre.current;
    let g = after_move(pre.board@, q, r, fl, p);
    let next = settle(g, p.opponent());
    &&& post.board.wf()
    &&& post.board@ == g
    &&& post.current == next.0
    &&& post.game_over == (pre.game_over || next.1)
    &&& post.computer == pre.computer
    &&& post.flip_animation matches Some(a) && a.cells@ == flip_cells(fl, p)
}

/// The note after a move that `played` describes: the pass, if a side had to
/// pass, else none.
pub open spec fn note_after_move(pre: Game, post: Game, q: int, r: int, fl: Seq<(i32, i32)>) -> bool {
    let p = pre.current;
    let next = settle(after_move(pre.board@, q, r, fl, p), p.opponent());
    match next.2 {
        Some(w) => message_is(post.message, pass_text(w)),
        None => post.message is None,
    }
}

/// `post` is `pre` after the side to move, which cannot move, passes or ends
/// the game (and `pre` unchanged when it can move).
pub open spec fn passed_on(pre: Game, post: Game) -> bool {
    let next = settle(pre.board@, pre.current);
    &&& post.board == pre.board
    &&& post.current == next.0
    &&& post.game_over == (pre.game_over || next.1)
    &&& post.computer == pre.computer
    &&& post.flip_animation == pre.flip_animation
    &&& match next.2 {
        Some(w) => message_is(post.message, pass_text(w)),
        None => post.message == pre.message,
    }
}

/// `g` is a new game whose computer side the random word `raw` picked.
pub open spec fn new_game(g: Game, raw: u64) -> bool {
    &&& g.wf()
    &&& forall|q: int, r: int| stone(g.board@, q, r) == initial_stone(q, r)
    &&& g.current == Player::Black
    &&& g.computer == player_of(raw)
    &&& !g.game_over
    &&& g.message is None
    &&& g.flip_animation is None
}

/// `post` is `pre` after the human tried to play on `(q, r)`, which succeeded
/// when `res` holds: ignored when the game is over; refused with a note when
/// it is the computer's turn or the move turns no stone; else played.
pub open spec fn human_move(pre: Game, post: Game, q: int, r: int, res: bool) -> bool {
    let fl = flips(pre.board@, q, r, pre.current);
    &&& res == (!pre.game_over && pre.current != pre.computer && fl.len() > 0)
    &&& pre.game_over ==> post == pre
    &&& !pre.game_over && pre.current == pre.computer ==> noted(pre, post, "Computer is thinking."@)
    &&& !pre.game_over && pre.current != pre.computer && fl.len() == 0 ==> noted(
        pre,
        post,
        "That move does not trap any stones."@,
    )
    &&& res ==> played(pre, post, q, r, fl) && note_after_move(pre, post, q, r, fl)
}

/// `post` is `pre` after the computer's turn with the random word `raw`,
/// which returned `res`: nothing happens unless it is the computer's turn in
/// a game not over; then the computer plays its choice (and notes it unless
/// the game ended), or passes when it has no move.
pub open spec fn computer_move(pre: Game, post: Game, raw: u64, res: Option<MoveScore>) -> bool {
    if pre.game_over || pre.current != pre.computer {
        res is None && post == pre
    } else {
        res == computer_choice(pre.board@, pre.current, raw) && match res {
            None => passed_on(pre, post),
            Some(c) => {
                &&& played(pre, post, c.q as int, c.r as int, flips(pre.board@, c.q as int, c.r as int, pre.current))
                &&& if post.game_over {
                    post.message is None
                } else {
                    message_is(post.message, "Computer played."@)
                }
            },
        }
    }
}

/// "Computer" when the computer plays `side`, else "Human".
pub open spec fn role_text(computer: Player, side: Player) -> Seq<char> {
    if computer == side {
        "Computer"@
    } else {
        "Human"@
    }
}

/// The result line of a finished game with `black` and `white` stones.
pub open spec fn result_text(black: nat, white: nat, computer: Player) -> Seq<char> {
    if black > white {
        "Black "@ + digits(black) + " > White "@ + digits(white) + ": "@ + role_text(computer, Player::Black)
            + " won"@
    } else if black < white {
        "White "@ + digits(white) + " > Black "@ + digits(black) + ": "@ + role_text(computer, Player::White)
            + " won"@
    } else {
        "Black "@ + digits(black) + " = White "@ + digits(white) + ": Draw"@
    }
}

/// The status line: the note if there is one, else the result of a finished
/// game, else whose turn it is.
pub open spec fn status_text(g: Game) -> Seq<char> {
    match g.message {
        Some(m) => m@,
        None => if g.game_over {
            result_text(count_of(g.board@, Player::Black), count_of(g.board@, Player::White), g.computer)
        } else if g.current == g.computer {
            "Computer is thinking."@
        } else {
            g.current.spec_name() + " to move"@
        },
    }
}

/// "Computer" when the computer plays `side`, else "Human".
pub fn role_label(computer: Player, side: Player) -> (res: &'static str)
    ensures
        res@ == role_text(computer, side),
{
    if computer == side {
        "Computer"
    } else {
        "Human"
    }
}

/// `post` is `pre` with only the note replaced by `text`.
pub open spec fn noted(pre: Game, post: Game, text: Seq<char>) -> bool {
    &&& post.board == pre.board
    &&& post.current == pre.current
    &&& post.computer == pre.computer
    &&& post.game_over == pre.game_over
    &&& post.flip_animation == pre.flip_animation
    &&& message_is(post.message, text)
}

/// The move the computer picks is legal: it turns over at least one stone.
pub proof fn lemma_computer_choice_is_legal(g: Seq<Option<Player>>, p: Player, raw: u64)
    ensures
        computer_choice(g, p, raw) matches Some(c) ==> flips(g, c.q as int, c.r as int, p).len() > 0,
        computer_choice(g, p, raw) is Some ==> best_moves_of(g, p).len() > 0,
{
    if let Some(c) = computer_choice(g, p, raw) {
        let bd = breakdowns_of(g, p);
        let best = best_moves_of(g, p);
        let pred = breakdown_score_is(max_score(bd));
        let k = index_of(raw, best.len());
        lemma_legal_moves_on_board(g, p);
        assert(best.len() > 0) by {
            lemma_sort_descending(bd);
            lemma_sort_first_is_max(bd);
            lemma_sort_keeps_order_within_score(bd, max_score(bd));
            let sorted = sort_by_score(bd);
            reveal_with_fuel(Seq::<_>::filter, 1);
            assert(sorted.take(1).filter(pred) =~= seq![sorted[0]]) by {
                assert(sorted.take(1).drop_last() =~= Seq::<MoveBreakdown>::empty());
            }
            Seq::filter_distributes_over_add(sorted.take(1), sorted.skip(1), pred);
            assert(sorted =~= sorted.take(1) + sorted.skip(1));
        }
        assert(0 <= k < best.len());
        assert(best.contains(best[k]));
        bd.lemma_filter_contains_rev(pred, best[k]);
        let j = choose|j: int| 0 <= j < bd.len() && bd[j] == best[k];
        let cell = legal_moves_of(g, p)[j];
        assert(bd[j] == breakdown(g, cell.0 as int, cell.1 as int, p));
    }
}

/// The note "`p` has no legal moves and passes."
pub fn pass_message(p: Player) -> (res: String)
    ensures
        res@ == pass_text(p),
{
    let mut m = String::from_str(p.name());
    m.append(" has no legal moves and passes.");
    m
}

/// A cell on which a move captures lies on the board.
pub proof fn lemma_capturing_cell_on_board(g: Seq<Option<Player>>, q: int, r: int, p: Player)
    requires
        flips(g, q, r, p).len() > 0,
    ensures
        on_board(q, r),
        hex_ring(q, r) <= 4,
{
}

/// Every legal move lies on the board.
pub proof fn lemma_legal_moves_on_board(g: Seq<Option<Player>>, p: Player)
    ensures
        forall|i: int|
            0 <= i < legal_moves_of(g, p).len() ==> {
                let c = #[trigger] legal_moves_of(g, p)[i];
                &&& flips(g, c.0 as int, c.1 as int, p).len() > 0
                &&& on_board(c.0 as int, c.1 as int)
                &&& hex_ring(c.0 as int, c.1 as int) <= 4
            },
{
    let pred = legal_pred(g, p);
    assert forall|i: int| 0 <= i < legal_moves_of(g, p).len() implies {
        let c = #[trigger] legal_moves_of(g, p)[i];
        &&& flips(g, c.0 as int, c.1 as int, p).len() > 0
        &&& on_board(c.0 as int, c.1 as int)
        &&& hex_ring(c.0 as int, c.1 as int) <= 4
    } by {
        let c = legal_moves_of(g, p)[i];
        all_cells().lemma_filter_pred(pred, i);
        lemma_capturing_cell_on_board(g, c.0 as int, c.1 as int, p);
    }
}

fn abs32(x: i32) -> (res: i32)
    requires
        x > i32::MIN,
    ensures
        res == (if x < 0 { -x } else { x as int }),
{
    if x < 0 { -x } else { x }
}

fn max32(a: i32, b: i32) -> (res: i32)
    ensures
        res == (if a < b { b } else { a }),
{
    if a < b { b } else { a }
}

/// Sorts breakdowns by descending score; moves of equal score keep their order.
pub fn sort_by_score_desc(moves: Vec<MoveBreakdown>) -> (res: Vec<MoveBreakdown>)
    ensures
        res@ == sort_by_score(moves@),
{
    let mut sorted: Vec<MoveBreakdown> = Vec::new();
    let mut i: usize = 0;
    while i < moves.len()
        invariant
            i <= moves@.len(),
            sorted@ == sort_by_score(moves@.take(i as int)),
        decreases moves@.len() - i,
    {
        let x = moves[i];
        let mut p: usize = 0;
        assert(sorted@.skip(0) =~= sorted@);
        while p < sorted.len() && sorted[p].score >= x.score
            invariant
                p <= sorted@.len(),
                insert_at(sorted@, x) == p + insert_at(sorted@.skip(p as int), x),
            decreases sorted@.len() - p,
        {
            assert(sorted@.skip(p as int).drop_first() =~= sorted@.skip(p + 1));
            assert(sorted@.skip(p as int)[0] == sorted@[p as int]);
            p += 1;
        }
        assert(insert_at(sorted@, x) == p) by {
            if p < sorted@.len() {
                assert(sorted@.skip(p as int)[0] == sorted@[p as int]);
            }
        }
        sorted.insert(p, x);
        assert(moves@.take(i + 1).drop_last() =~= moves@.take(i as int));
        i += 1;
    }
    assert(moves@.take(i as int) =~= moves@);
    sorted
}

impl Game {
    pub open spec fn wf(&self) -> bool {
        self.board.wf()
    }

    /// A new game: two stones of each side around the centre, Black to move,
    /// the computer playing the side that the random word `raw` picks.
    pub fn new(raw: u64) -> (res: Game)
        ensures
            new_game(res, raw),
    {
        let mut board = Board::empty();
        let ghost empty = board@;
        board.set(0, 0, Player::White);
        board.set(1, -1, Player::Black);
        board.set(0, -1, Player::Black);
        board.set(1, 0, Player::White);
        proof {
            lemma_slot_coords(0, 0);
            lemma_slot_coords(1, -1);
            lemma_slot_coords(0, -1);
            lemma_slot_coords(1, 0);
            assert forall|q: int, r: int| stone(board@, q, r) == initial_stone(q, r) by {
                if on_board(q, r) {
                    lemma_slot_coords(q, r);
                    assert(stone(empty, q, r) == None::<Player>);
                    assert(slot(q, r) == slot(0, 0) ==> (q, r) == (0int, 0int));
                    assert(slot(q, r) == slot(1, -1) ==> (q, r) == (1int, -1int));
                    assert(slot(q, r) == slot(0, -1) ==> (q, r) == (0int, -1int));
                    assert(slot(q, r) == slot(1, 0) ==> (q, r) == (1int, 0int));
                }
            }
        }
        let computer = random_player(raw);
        Game {
            board,
            current: Player::Black,
            computer,
            game_over: false,
            message: None,
            flip_animation: None,
        }
    }

    /// If the side to move has no legal move, it passes to the other side;
    /// if neither side can move, the game is over.
    pub fn advance_past_passes(&mut self)
        requires
            old(self).wf(),
        ensures
            passed_on(*old(self), *final(self)),
            final(self).wf(),
            final(self).game_over || legal_moves_of(final(self).board@, final(self).current).len() > 0,
    {
        if self.legal_moves(self.current).len() > 0 {
            return;
        }
        let waiting = self.current;
        let next = self.current.other();
        if self.legal_moves(next).len() == 0 {
            self.game_over = true;
            return;
        }
        self.current = next;
        self.message = Some(pass_message(waiting));
    }

    /// The human's move on `(q, r)`. Refused, with a note, when it is the
    /// computer's turn or the move turns no stone; ignored when the game is
    /// over. Returns whether the move was played.
    pub fn play_human(&mut self, q: i32, r: i32) -> (res: bool)
        requires
            old(self).wf(),
        ensures
            final(self).wf(),
            human_move(*old(self), *final(self), q as int, r as int, res),
    {
        if self.game_over {
            return false;
        }
        if self.current == self.computer {
            self.message = Some(String::from_str("Computer is thinking."));
            return false;
        }
        let flips = self.flips_for_move(q, r, self.current);
        if flips.len() == 0 {
            self.message = Some(String::from_str("That move does not trap any stones."));
            return false;
        }
        proof {
            lemma_flips_are_opponent_stones(self.board@, q as int, r as int, self.current);
            lemma_capturing_cell_on_board(self.board@, q as int, r as int, self.current);
        }
        self.apply_move(q, r, flips);
        true
    }

    /// The computer's move, when it is the computer's turn and the game is not
    /// over: the move that `choose_computer_move` picks with `raw`. When the
    /// computer has no move, it passes (or the game ends) and nothing is
    /// returned.
    pub fn play_computer_move(&mut self, raw: u64) -> (res: Option<MoveScore>)
        requires
            old(self).wf(),
        ensures
            final(self).wf(),
            computer_move(*old(self), *final(self), raw, res),
    {
        if self.game_over || self.current != self.computer {
            return None;
        }
        let choice = match self.choose_computer_move(raw) {
            Some(c) => c,
            None => {
                self.advance_past_passes();
                return None;
            },
        };
        proof {
            lemma_computer_choice_is_legal(self.board@, self.current, raw);
        }
        let flips = self.flips_for_move(choice.q, choice.r, self.current);
        if flips.len() == 0 {
            return None;
        }
        proof {
            lemma_flips_are_opponent_stones(self.board@, choice.q as int, choice.r as int, self.current);
            lemma_capturing_cell_on_board(self.board@, choice.q as int, choice.r as int, self.current);
        }
        self.apply_move(choice.q, choice.r, flips);
        if !self.game_over {
            self.message = Some(String::from_str("Computer played."));
        }
        Some(choice)
    }

    /// The status line shown above the board.
    pub fn status(&self) -> (res: String)
        requires
            self.wf(),
        ensures
            res@ == status_text(*self),
    {
        if let Some(message) = &self.message {
            return message.clone();
        }
        let (black, white) = self.score();
        if self.game_over {
            let b = nat_text(black as u64);
            let w = nat_text(white as u64);
            let mut text: String;
            if black > white {
                text = String::from_str("Black ");
                text.append(b.as_str());
                text.append(" > White ");
                text.append(w.as_str());
                text.append(": ");
                text.append(role_label(self.computer, Player::Black));
                text.append(" won");
            } else if black < white {
                text = String::from_str("White ");
                text.append(w.as_str());
                text.append(" > Black ");
                text.append(b.as_str());
                text.append(": ");
                text.append(role_label(self.computer, Player::White));
                text.append(" won");
            } else {
                text = String::from_str("Black ");
                text.append(b.as_str());
                text.append(" = White ");
                text.append(w.as_str());
                text.append(": Draw");
            }
            return text;
        }
        if self.current == self.computer {
            String::from_str("Computer is thinking.")
        } else {
            let mut text = String::from_str(self.current.name());
            text.append(" to move");
            text
        }
    }

    /// The number of Black and of White stones on the board.
    pub fn score(&self) -> (res: (usize, usize))
        requires
            self.wf(),
        ensures
            res.0 == count_of(self.board@, Player::Black),
            res.1 == count_of(self.board@, Player::White),
    {
        let black = self.board.count(Player::Black);
        let white = self.board.count(Player::White);
        (black, white)
    }

    /// Plays a stone of the side to move on `(q, r)`, turns the stones `flips`
    /// to that side, records them for the animation, hands the turn to the
    /// other side and settles passes.
    pub fn apply_move(&mut self, q: i32, r: i32, flips: Vec<(i32, i32)>)
        requires
            old(self).wf(),
            on_board(q as int, r as int),
            forall|i: int|
                0 <= i < flips@.len() ==> on_board(
                    (#[trigger] flips@[i]).0 as int,
                    flips@[i].1 as int,
                ),
        ensures
            played(*old(self), *final(self), q as int, r as int, flips@),
            note_after_move(*old(self), *final(self), q as int, r as int, flips@),
            final(self).game_over || legal_moves_of(final(self).board@, final(self).current).len() > 0,
    {
        let ghost g = self.board@;
        let ghost fl = flips@;
        let player = self.current;
        self.board.set(q, r, player);
        proof {
            lemma_slot_coords(q as int, r as int);
            assert(self.board@ =~= Seq::new(
                81,
                |i: int|
                    if i == slot(q as int, r as int) || fl.take(0).contains(grid_coords()[i]) {
                        Some(player)
                    } else {
                        g[i]
                    },
            ));
        }
        let mut j: usize = 0;
        while j < flips.len()
            invariant
                flips@ == fl,
                g.len() == 81,
                self.current == player,
                self.computer == old(self).computer,
                self.game_over == old(self).game_over,
                player == old(self).current,
                self.board.wf(),
                on_board(q as int, r as int),
                forall|i: int|
                    0 <= i < fl.len() ==> on_board((#[trigger] fl[i]).0 as int, fl[i].1 as int),
                j <= fl.len(),
                self.board@ == Seq::new(
                    81,
                    |i: int|
                        if i == slot(q as int, r as int) || fl.take(j as int).contains(
                            grid_coords()[i],
                        ) {
                            Some(player)
                        } else {
                            g[i]
                        },
                ),
            decreases fl.len() - j,
        {
            let (fq, fr) = flips[j];
            let ghost before = self.board@;
            self.board.set(fq, fr, player);
            proof {
                let c = fl[j as int];
                lemma_slot_coords(c.0 as int, c.1 as int);
                let target = Seq::new(
                    81,
                    |i: int|
                        if i == slot(q as int, r as int) || fl.take(j + 1).contains(
                            grid_coords()[i],
                        ) {
                            Some(player)
                        } else {
                            g[i]
                        },
                );
                assert forall|i: int| 0 <= i < 81 implies #[trigger] self.board@[i] == target[i] by {
                    lemma_grid_coords_slot(i);
                    let x = grid_coords()[i];
                    if fl.take(j + 1).contains(x) {
                        let k = choose|k: int| 0 <= k < j + 1 && #[trigger] fl.take(j + 1)[k] == x;
                        if k < j {
                            assert(fl.take(j as int)[k] == x);
                        }
                    }
                    if fl.take(j as int).contains(x) {
                        let k = choose|k: int| 0 <= k < j && #[trigger] fl.take(j as int)[k] == x;
                        assert(fl.take(j + 1)[k] == x);
                    }
                    if i == slot(c.0 as int, c.1 as int) {
                        assert(fl.take(j + 1)[j as int] == c);
                    }
                }
                assert(self.board@ =~= target);
            }
            j += 1;
        }
        proof {
            assert(fl.take(fl.len() as int) =~= fl);
            assert(self.board@ =~= after_move(g, q as int, r as int, fl, player));
        }
        let opponent = player.other();
        let mut cells: Vec<FlipCell> = Vec::new();
        let mut k: usize = 0;
        while k < flips.len()
            invariant
                flips@ == fl,
                k <= fl.len(),
                opponent == player.opponent(),
                cells@ == flip_cells(fl.take(k as int), player),
            decreases fl.len() - k,
        {
            let (fq, fr) = flips[k];
            cells.push(FlipCell { q: fq, r: fr, from: opponent, to: player });
            assert(cells@ =~= flip_cells(fl.take(k + 1), player));
            k += 1;
        }
        assert(fl.take(fl.len() as int) =~= fl);
        self.flip_animation = Some(FlipAnimation { cells });
        self.current = self.current.other();
        self.message = None;
        self.advance_past_passes();
    }

    /// The stones that a stone of `player` placed on `(q, r)` would turn over.
    pub fn flips_for_move(&self, q: i32, r: i32, player: Player) -> (res: Vec<(i32, i32)>)
        requires
            self.wf(),
        ensures
            res@ == flips(self.board@, q as int, r as int, player),
    {
        if self.board.get(q, r).is_some() || !is_on_board(q, r) {
            return Vec::new();
        }
        let ghost g = self.board@;
        let opponent = player.other();
        let mut result: Vec<(i32, i32)> = Vec::new();
        let mut i: usize = 0;
        while i < 6
            invariant
                self.wf(),
                g == self.board@,
                on_board(q as int, r as int),
                opponent == player.opponent(),
                i <= 6,
                result@ == flips_upto(g, q as int, r as int, player, i as int),
            decreases 6 - i,
        {
            let (dq, dr) = direction(i);
            let mut line: Vec<(i32, i32)> = Vec::new();
            let mut cq = q + dq;
            let mut cr = r + dr;
            let ghost mut k: int = 1;
            assert(ray_cell(q as int, r as int, i as int, 1) == (q + dq, r + dr));
            while is_on_board(cq, cr) && self.board.holds(cq, cr, opponent)
                invariant
                    self.wf(),
                    g == self.board@,
                    on_board(q as int, r as int),
                    i < 6,
                    dq as int == dir(i as int).0,
                    dr as int == dir(i as int).1,
                    opponent == player.opponent(),
                    1 <= k <= 9,
                    (cq as int, cr as int) == ray_cell(q as int, r as int, i as int, k),
                    run_end(g, q as int, r as int, i as int, opponent, 1) == run_end(
                        g,
                        q as int,
                        r as int,
                        i as int,
                        opponent,
                        k as nat,
                    ),
                    line@ == Seq::new(
                        (k - 1) as nat,
                        |j: int|
                            (
                                (q + (j + 1) * dir(i as int).0) as i32,
                                (r + (j + 1) * dir(i as int).1) as i32,
                            ),
                    ),
                decreases 9 - k,
            {
                proof {
                    if k >= 9 {
                        lemma_ray_leaves_board(q as int, r as int, i as int, k);
                    }
                    lemma_ray_step(q as int, r as int, i as int, k);
                }
                let ghost before = line@;
                line.push((cq, cr));
                assert(line@ =~= Seq::new(
                    k as nat,
                    |j: int|
                        (
                            (q + (j + 1) * dir(i as int).0) as i32,
                            (r + (j + 1) * dir(i as int).1) as i32,
                        ),
                ));
                cq = cq + dq;
                cr = cr + dr;
                proof {
                    k = k + 1;
                }
            }
            assert(run_end(g, q as int, r as int, i as int, opponent, k as nat) == k);
            let ghost before = result@;
            if line.len() > 0 && self.board.holds(cq, cr, player) {
                result.append(&mut line);
            }
            assert(flips_upto(g, q as int, r as int, player, i + 1) == flips_upto(
                g,
                q as int,
                r as int,
                player,
                i as int,
            ) + line_flips(g, q as int, r as int, i as int, player));
            i += 1;
        }
        result
    }

    /// The cells on which `player` may play, in board order.
    pub fn legal_moves(&self, player: Player) -> (res: Vec<(i32, i32)>)
        requires
            self.wf(),
        ensures
            res@ == legal_moves_of(self.board@, player),
    {
        let all = cells();
        let mut result: Vec<(i32, i32)> = Vec::new();
        let mut i: usize = 0;
        while i < all.len()
            invariant
                self.wf(),
                all@ == all_cells(),
                i <= all@.len(),
                result@ == all_cells().take(i as int).filter(legal_pred(self.board@, player)),
            decreases all@.len() - i,
        {
            proof {
                reveal_with_fuel(Seq::<_>::filter, 1);
                assert(all_cells().take(i + 1).drop_last() =~= all_cells().take(i as int));
            }
            let (q, r) = all[i];
            if self.flips_for_move(q, r, player).len() > 0 {
                result.push((q, r));
            }
            i += 1;
        }
        assert(all_cells().take(i as int) =~= all_cells());
        result
    }

    /// How the computer scores a stone of `player` on `(q, r)`: a hundred per
    /// stone turned, a bonus on the rim (more on its six corners), less twice
    /// the distance from the centre.
    pub fn move_breakdown(&self, q: i32, r: i32, player: Player) -> (res: MoveBreakdown)
        requires
            self.wf(),
            2 * hex_ring(q as int, r as int) <= i32::MAX,
        ensures
            res == breakdown(self.board@, q as int, r as int, player),
    {
        proof {
            lemma_flips_len_bound(self.board@, q as int, r as int, player);
        }
        let flips = self.flips_for_move(q, r, player).len() as i32;
        let s = -q - r;
        let ring = max32(max32(abs32(q), abs32(r)), abs32(s));
        let is_corner = ring == 4 && (q == 0 || r == 0 || s == 0);
        let is_edge = ring == 4;
        let position_bonus = if is_corner {
            70
        } else if is_edge {
            30
        } else {
            0
        };
        let ring_penalty = ring * 2;
        MoveBreakdown {
            q,
            r,
            flips,
            position_bonus,
            ring_penalty,
            score: flips * 100 + position_bonus - ring_penalty,
        }
    }

    /// The legal moves of `player` with their score breakdowns, best first;
    /// moves of equal score stay in board order.
    pub fn scored_move_breakdowns(&self, player: Player) -> (res: Vec<MoveBreakdown>)
        requires
            self.wf(),
        ensures
            res@ == sort_by_score(breakdowns_of(self.board@, player)),
    {
        let legal = self.legal_moves(player);
        let ghost g = self.board@;
        let ghost f = |c: (i32, i32)| breakdown(g, c.0 as int, c.1 as int, player);
        proof {
            lemma_legal_moves_on_board(g, player);
        }
        let mut moves: Vec<MoveBreakdown> = Vec::new();
        let mut i: usize = 0;
        while i < legal.len()
            invariant
                self.wf(),
                g == self.board@,
                legal@ == legal_moves_of(g, player),
                f == (|c: (i32, i32)| breakdown(g, c.0 as int, c.1 as int, player)),
                forall|j: int|
                    0 <= j < legal_moves_of(g, player).len() ==> hex_ring(
                        (#[trigger] legal_moves_of(g, player)[j]).0 as int,
                        legal_moves_of(g, player)[j].1 as int,
                    ) <= 4,
                i <= legal@.len(),
                moves@ == legal@.take(i as int).map_values(f),
            decreases legal@.len() - i,
        {
            let (q, r) = legal[i];
            assert(hex_ring(legal_moves_of(g, player)[i as int].0 as int, legal_moves_of(g, player)[i as int].1 as int) <= 4);
            let b = self.move_breakdown(q, r, player);
            moves.push(b);
            assert(moves@ =~= legal@.take(i + 1).map_values(f));
            i += 1;
        }
        assert(legal@.take(i as int) =~= legal@);
        sort_by_score_desc(moves)
    }

    /// The legal moves of `player` with their scores, best first.
    pub fn scored_moves(&self, player: Player) -> (res: Vec<MoveScore>)
        requires
            self.wf(),
        ensures
            res@ == sort_by_score(breakdowns_of(self.board@, player)).map_values(to_score()),
    {
        let breakdowns = self.scored_move_breakdowns(player);
        let mut result: Vec<MoveScore> = Vec::new();
        let mut i: usize = 0;
        while i < breakdowns.len()
            invariant
                i <= breakdowns@.len(),
                result@ == breakdowns@.take(i as int).map_values(to_score()),
            decreases breakdowns@.len() - i,
        {
            let b = breakdowns[i];
            result.push(MoveScore { q: b.q, r: b.r, score: b.score });
            assert(result@ =~= breakdowns@.take(i + 1).map_values(to_score()));
            i += 1;
        }
        assert(breakdowns@.take(i as int) =~= breakdowns@);
        result
    }

    /// The computer's move for the side to move: one of the legal moves with
    /// the highest score, picked with the random word `raw`; none when the
    /// side to move has no legal move.
    pub fn choose_computer_move(&self, raw: u64) -> (res: Option<MoveScore>)
        requires
            self.wf(),
        ensures
            res == computer_choice(self.board@, self.current, raw),
    {
        let moves = self.scored_moves(self.current);
        let ghost g = self.board@;
        let ghost bd = breakdowns_of(g, self.current);
        let ghost sorted = sort_by_score(bd);
        proof {
            lemma_sort_descending(bd);
        }
        if moves.len() == 0 {
            return None;
        }
        let best_score = moves[0].score;
        proof {
            lemma_sort_first_is_max(bd);
        }
        let mut best: Vec<MoveScore> = Vec::new();
        let mut i: usize = 0;
        while i < moves.len()
            invariant
                i <= moves@.len(),
                moves@.len() > 0,
                moves@[0].score == best_score,
                best@ == moves@.take(i as int).filter(move_score_is(best_score)),
                i > 0 ==> best@.len() > 0,
            decreases moves@.len() - i,
        {
            proof {
                reveal_with_fuel(Seq::<_>::filter, 1);
                assert(moves@.take(i + 1).drop_last() =~= moves@.take(i as int));
            }
            let m = moves[i];
            if m.score == best_score {
                best.push(m);
            }
            i += 1;
        }
        assert(moves@.take(i as int) =~= moves@);
        proof {
            lemma_filter_score_of(sorted, best_score);
            lemma_sort_keeps_order_within_score(bd, best_score);
            assert(best@ == best_moves_of(g, self.current).map_values(to_score()));
        }
        let k = random_index(raw, best.len());
        Some(best[k])
    }
}

} // verus!
