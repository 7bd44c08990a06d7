use vstd::prelude::*;
use crate::player::Player;
use crate::board::{
    all_cells, grid_coords, on_board, stone, slot, cell_pred, holds_pred, occupied_pred, count_of,
    count_occupied, lemma_slot_coords, lemma_grid_coords_slot,
};
use crate::rules::{dir, ray_cell, lemma_ray_leaves_board, lemma_flips_len_bound, lemma_run_end_cells, lemma_run_end_bound, run_end, line_flips, flips_upto, flips, holds_at, lemma_flips_are_opponent_stones};
use crate::game::{
    after_move, initial_stone, new_game, Game, played, settle, human_move, computer_move,
    computer_choice, breakdowns_of, best_moves_of, lemma_computer_choice_is_legal,
};
use crate::scoring::{MoveScore, max_score, score_of, breakdown_score_is, lemma_max_score_bounds};
use crate::random::index_of;
use crate::board::hex_ring;
use crate::game::{breakdown, status_text, role_text};
use crate::text::digits;
use crate::presentation::{stages_of, instructions_of, actor_text, pick_text};
use crate::scoring::MoveBreakdown;
use crate::rules::{legal_moves_of, legal_pred};

verus! {

/// After a move, the cell played and the cells turned hold the mover's
/// stones, and every other cell holds what it held before.
pub proof fn law_move_changes_only_played_and_turned(
    g: Seq<Option<Player>>,
    q: int,
    r: int,
    fl: Seq<(i32, i32)>,
    p: Player,
    a: int,
    b: int,
)
    requires
        g.len() == 81,
        on_board(q, r),
        forall|i: int| 0 <= i < fl.len() ==> on_board((#[trigger] fl[i]).0 as int, fl[i].1 as int),
    ensures
        stone(after_move(g, q, r, fl, p), a, b) == if on_board(a, b) && ((a, b) == (q, r) || fl.contains(
            (a as i32, b as i32),
        )) {
            Some(p)
        } else {
            stone(g, a, b)
        },
{
    if on_board(a, b) {
        lemma_slot_coords(a, b);
        lemma_slot_coords(q, r);
        assert(slot(a, b) == slot(q, r) ==> (a, b) == (q, r));
    }
}


proof fn lemma_filter_no_dup<A>(s: Seq<A>, pred: spec_fn(A) -> bool)
    requires
        s.no_duplicates(),
    ensures
        s.filter(pred).no_duplicates(),
    decreases s.len(),
{
    if s.len() > 0 {
        let t = s.drop_last();
        let l = s.last();
        assert(t.no_duplicates());
        lemma_filter_no_dup(t, pred);
        assert(t.push(l) =~= s);
        t.lemma_filter_push(l, pred);
        if pred(l) {
            if t.filter(pred).contains(l) {
                t.lemma_filter_contains_rev(pred, l);
                let j = choose|j: int| 0 <= j < t.len() && t[j] == l;
                assert(s[j] == s[s.len() - 1]);
            }
            let f = t.filter(pred);
            assert forall|i: int, j: int|
                0 <= i < f.push(l).len() && 0 <= j < f.push(l).len() && i != j implies f.push(l)[i]
                != f.push(l)[j] by {
                if i == f.len() {
                    assert(f[j] == f.push(l)[j]);
                } else if j == f.len() {
                    assert(f[i] == f.push(l)[i]);
                }
            }
        }
    }
}

/// The cells of the board are listed once each.
proof fn lemma_all_cells_no_dup()
    ensures
        all_cells().no_duplicates(),
{
    assert forall|i: int, j: int| 0 <= i < 81 && 0 <= j < 81 && i != j implies grid_coords()[i]
        != grid_coords()[j] by {
        lemma_grid_coords_slot(i);
        lemma_grid_coords_slot(j);
    }
    lemma_filter_no_dup(grid_coords(), cell_pred());
}

/// Every listed cell lies on the board.
proof fn lemma_all_cells_on_board(i: int)
    requires
        0 <= i < all_cells().len(),
    ensures
        on_board(all_cells()[i].0 as int, all_cells()[i].1 as int),
{
    grid_coords().lemma_filter_pred(cell_pred(), i);
}

/// Every cell of the board is listed.
proof fn lemma_all_cells_contains(q: int, r: int)
    requires
        on_board(q, r),
    ensures
        all_cells().contains((q as i32, r as i32)),
{
    lemma_slot_coords(q, r);
    grid_coords().lemma_filter_contains(cell_pred(), slot(q, r));
}

/// When a test `p2` holds exactly where `p1` or `extra` holds, and never both,
/// it picks as many elements as the two together.
proof fn lemma_filter_split_len<A>(s: Seq<A>, p2: spec_fn(A) -> bool, p1: spec_fn(A) -> bool, extra: spec_fn(A) -> bool)
    requires
        forall|i: int| 0 <= i < s.len() ==> p2(#[trigger] s[i]) == (p1(s[i]) || extra(s[i])),
        forall|i: int| 0 <= i < s.len() ==> !(p1(#[trigger] s[i]) && extra(s[i])),
    ensures
        s.filter(p2).len() == s.filter(p1).len() + s.filter(extra).len(),
    decreases s.len(),
{
    if s.len() > 0 {
        let t = s.drop_last();
        let l = s.last();
        assert(t.push(l) =~= s);
        assert forall|i: int| 0 <= i < t.len() implies p2(#[trigger] t[i]) == (p1(t[i]) || extra(t[i])) by {
            assert(t[i] == s[i]);
        }
        assert forall|i: int| 0 <= i < t.len() implies !(p1(#[trigger] t[i]) && extra(t[i])) by {
            assert(t[i] == s[i]);
        }
        lemma_filter_split_len(t, p2, p1, extra);
        t.lemma_filter_push(l, p2);
        t.lemma_filter_push(l, p1);
        t.lemma_filter_push(l, extra);
        assert(p2(s[s.len() - 1]) == (p1(s[s.len() - 1]) || extra(s[s.len() - 1])));
        assert(!(p1(s[s.len() - 1]) && extra(s[s.len() - 1])));
    } else {
        assert(s.filter(p2) =~= Seq::<A>::empty()) by {
            reveal_with_fuel(Seq::<_>::filter, 1);
        }
        assert(s.filter(p1) =~= Seq::<A>::empty()) by {
            reveal_with_fuel(Seq::<_>::filter, 1);
        }
        assert(s.filter(extra) =~= Seq::<A>::empty()) by {
            reveal_with_fuel(Seq::<_>::filter, 1);
        }
    }
}

/// The test of membership in `u`.
pub open spec fn member_of<A>(u: Seq<A>) -> spec_fn(A) -> bool {
    |x: A| u.contains(x)
}

/// Picking out of a list without repeats the members of a list without
/// repeats, all of which it holds, gives as many elements as the latter has.
proof fn lemma_filter_member_len<A>(s: Seq<A>, u: Seq<A>)
    requires
        s.no_duplicates(),
        u.no_duplicates(),
        forall|j: int| 0 <= j < u.len() ==> s.contains(#[trigger] u[j]),
    ensures
        s.filter(member_of(u)).len() == u.len(),
{
    broadcast use vstd::seq_lib::group_filter_ensures;
    let f = s.filter(member_of(u));
    lemma_filter_no_dup(s, member_of(u));
    assert(f.to_set() =~= u.to_set()) by {
        assert forall|x: A| f.to_set().contains(x) implies u.to_set().contains(x) by {
            assert(f.contains(x));
            let i = choose|i: int| 0 <= i < f.len() && f[i] == x;
            s.lemma_filter_pred(member_of(u), i);
        }
        assert forall|x: A| u.to_set().contains(x) implies f.to_set().contains(x) by {
            assert(u.contains(x));
            let j = choose|j: int| 0 <= j < u.len() && u[j] == x;
            assert(s.contains(u[j]));
            let i = choose|i: int| 0 <= i < s.len() && s[i] == x;
            s.lemma_filter_contains(member_of(u), i);
        }
    }
    f.unique_seq_to_set();
    u.unique_seq_to_set();
}


/// Whether `x` lies on the ray from `(q, r)` in direction `d`, within eight
/// steps.
pub open spec fn on_ray(q: int, r: int, x: (i32, i32), d: int) -> bool {
    exists|k: int| 1 <= k <= 8 && (x.0 as int, x.1 as int) == #[trigger] ray_cell(q, r, d, k)
}

/// Whether `x` lies on one of the rays from `(q, r)` in the first `n`
/// directions.
pub open spec fn on_ray_below(q: int, r: int, x: (i32, i32), n: int) -> bool {
    exists|d: int| 0 <= d < n && #[trigger] on_ray(q, r, x, d)
}

/// Two rays from one cell meet only where they are the same ray at the same
/// distance.
proof fn lemma_ray_unique(q: int, r: int, d1: int, d2: int, k1: int, k2: int)
    requires
        0 <= d1 < 6,
        0 <= d2 < 6,
        k1 >= 1,
        k2 >= 1,
        ray_cell(q, r, d1, k1) == ray_cell(q, r, d2, k2),
    ensures
        d1 == d2,
        k1 == k2,
{
    assert(k1 * 1 == k1 && k1 * -1 == -k1 && k1 * 0 == 0);
    assert(k2 * 1 == k2 && k2 * -1 == -k2 && k2 * 0 == 0);
}

proof fn lemma_line_elem(g: Seq<Option<Player>>, q: int, r: int, d: int, p: Player, i: int)
    requires
        on_board(q, r),
        0 <= d < 6,
        0 <= i < line_flips(g, q, r, d, p).len(),
    ensures
        (line_flips(g, q, r, d, p)[i].0 as int, line_flips(g, q, r, d, p)[i].1 as int) == ray_cell(
            q,
            r,
            d,
            i + 1,
        ),
        i + 1 <= 8,
{
    lemma_run_end_bound(g, q, r, d, p.opponent(), 1);
    let c = ray_cell(q, r, d, i + 1);
    assert(c == (q + (i + 1) * dir(d).0, r + (i + 1) * dir(d).1));
    assert(-12 <= c.0 <= 12 && -12 <= c.1 <= 12) by {
        assert((i + 1) * 1 == i + 1 && (i + 1) * -1 == -(i + 1) && (i + 1) * 0 == 0);
    }
}

proof fn lemma_line_on_ray(g: Seq<Option<Player>>, q: int, r: int, d: int, p: Player)
    requires
        on_board(q, r),
        0 <= d < 6,
    ensures
        forall|i: int| 0 <= i < line_flips(g, q, r, d, p).len() ==> on_ray(q, r, #[trigger] line_flips(g, q, r, d, p)[i], d),
        line_flips(g, q, r, d, p).no_duplicates(),
{
    let l = line_flips(g, q, r, d, p);
    assert forall|i: int| 0 <= i < l.len() implies on_ray(q, r, #[trigger] l[i], d) by {
        lemma_line_elem(g, q, r, d, p, i);
    }
    assert forall|i: int, j: int| 0 <= i < l.len() && 0 <= j < l.len() && i != j implies l[i] != l[j] by {
        lemma_line_elem(g, q, r, d, p, i);
        lemma_line_elem(g, q, r, d, p, j);
        if l[i] == l[j] {
            lemma_ray_unique(q, r, d, d, i + 1, j + 1);
        }
    }
}

proof fn lemma_flips_upto_no_dup(g: Seq<Option<Player>>, q: int, r: int, p: Player, n: int)
    requires
        on_board(q, r),
        0 <= n <= 6,
    ensures
        flips_upto(g, q, r, p, n).no_duplicates(),
        forall|i: int|
            0 <= i < flips_upto(g, q, r, p, n).len() ==> on_ray_below(q, r, #[trigger] flips_upto(g, q, r, p, n)[i], n),
    decreases n,
{
    if n > 0 {
        lemma_flips_upto_no_dup(g, q, r, p, n - 1);
        lemma_line_on_ray(g, q, r, n - 1, p);
        let a = flips_upto(g, q, r, p, n - 1);
        let b = line_flips(g, q, r, n - 1, p);
        assert(flips_upto(g, q, r, p, n) == a + b);
        assert forall|i: int, j: int| 0 <= i < a.len() && 0 <= j < b.len() implies a[i] != b[j] by {
            assert(on_ray_below(q, r, a[i], n - 1));
            let d = choose|d: int| 0 <= d < n - 1 && #[trigger] on_ray(q, r, a[i], d);
            assert(on_ray(q, r, b[j], n - 1));
            if a[i] == b[j] {
                let ka = choose|k: int| 1 <= k <= 8 && (a[i].0 as int, a[i].1 as int) == #[trigger] ray_cell(q, r, d, k);
                let kb = choose|k: int| 1 <= k <= 8 && (b[j].0 as int, b[j].1 as int) == #[trigger] ray_cell(q, r, n - 1, k);
                lemma_ray_unique(q, r, d, n - 1, ka, kb);
            }
        }
        vstd::seq_lib::lemma_no_dup_in_concat(a, b);
        assert forall|i: int| 0 <= i < flips_upto(g, q, r, p, n).len() implies on_ray_below(q, r, #[trigger] flips_upto(g, q, r, p, n)[i], n) by {
            if i < a.len() {
                assert((a + b)[i] == a[i]);
                assert(on_ray_below(q, r, a[i], n - 1));
                let d = choose|d: int| 0 <= d < n - 1 && #[trigger] on_ray(q, r, a[i], d);
                assert(on_ray(q, r, flips_upto(g, q, r, p, n)[i], d));
            } else {
                assert((a + b)[i] == b[i - a.len()]);
                assert(on_ray(q, r, flips_upto(g, q, r, p, n)[i], n - 1));
            }
        }
    } else {
        assert(flips_upto(g, q, r, p, n).len() == 0);
    }
}

/// A move never lists a stone twice among those it turns.
pub proof fn law_flips_distinct(g: Seq<Option<Player>>, q: int, r: int, p: Player)
    ensures
        flips(g, q, r, p).no_duplicates(),
{
    if on_board(q, r) && stone(g, q, r) is None {
        lemma_flips_upto_no_dup(g, q, r, p, 6);
    }
}


/// Facts about one listed cell `x` after a capturing move: what it holds
/// before and after.
proof fn lemma_cell_after_move(g: Seq<Option<Player>>, q: int, r: int, p: Player, x: (i32, i32))
    requires
        g.len() == 81,
        flips(g, q, r, p).len() > 0,
        on_board(x.0 as int, x.1 as int),
    ensures
        ({
            let fl = flips(g, q, r, p);
            let g2 = after_move(g, q, r, fl, p);
            let t = (q as i32, r as i32);
            let now = stone(g2, x.0 as int, x.1 as int);
            let before = stone(g, x.0 as int, x.1 as int);
            &&& x == t ==> before is None && now == Some(p)
            &&& fl.contains(x) ==> before == Some(p.opponent()) && now == Some(p) && x != t
            &&& x != t && !fl.contains(x) ==> now == before
        }),
{
    let fl = flips(g, q, r, p);
    lemma_flips_are_opponent_stones(g, q, r, p);
    assert(on_board(q, r) && stone(g, q, r) is None);
    law_move_changes_only_played_and_turned(g, q, r, fl, p, x.0 as int, x.1 as int);
    if fl.contains(x) {
        let k = choose|k: int| 0 <= k < fl.len() && fl[k] == x;
        assert(holds_at(g, fl[k], p.opponent()));
    }
}

/// Each move puts one more stone on the board; the mover gains the stone
/// played and every stone turned, and the opponent loses the stones turned.
pub proof fn law_move_counts(g: Seq<Option<Player>>, q: int, r: int, p: Player)
    requires
        g.len() == 81,
        flips(g, q, r, p).len() > 0,
    ensures
        ({
            let fl = flips(g, q, r, p);
            let g2 = after_move(g, q, r, fl, p);
            &&& count_occupied(g2) == count_occupied(g) + 1
            &&& count_of(g2, p) == count_of(g, p) + fl.len() + 1
            &&& count_of(g2, p.opponent()) + fl.len() == count_of(g, p.opponent())
        }),
{
    let fl = flips(g, q, r, p);
    let g2 = after_move(g, q, r, fl, p);
    let s = all_cells();
    let t = (q as i32, r as i32);
    let u = fl.push(t);
    lemma_flips_are_opponent_stones(g, q, r, p);
    assert(on_board(q, r) && stone(g, q, r) is None);
    lemma_all_cells_no_dup();
    law_flips_distinct(g, q, r, p);
    lemma_all_cells_contains(q, r);
    assert forall|j: int| 0 <= j < fl.len() implies s.contains(#[trigger] fl[j]) by {
        lemma_all_cells_contains(fl[j].0 as int, fl[j].1 as int);
        assert((fl[j].0 as int) as i32 == fl[j].0);
    }
    assert(!fl.contains(t)) by {
        if fl.contains(t) {
            let k = choose|k: int| 0 <= k < fl.len() && fl[k] == t;
            assert((fl[k].0 as int, fl[k].1 as int) != (q, r));
        }
    }
    assert(u.no_duplicates()) by {
        assert forall|i: int, j: int| 0 <= i < u.len() && 0 <= j < u.len() && i != j implies u[i] != u[j] by {
            if i == fl.len() {
                assert(u[j] == fl[j]);
            } else if j == fl.len() {
                assert(u[i] == fl[i]);
            } else {
                assert(u[i] == fl[i] && u[j] == fl[j]);
            }
        }
    }
    assert forall|j: int| 0 <= j < u.len() implies s.contains(#[trigger] u[j]) by {
        if j < fl.len() {
            assert(u[j] == fl[j]);
        }
    }
    assert forall|x: (i32, i32)| u.contains(x) <==> (fl.contains(x) || x == t) by {
        if u.contains(x) {
            let k = choose|k: int| 0 <= k < u.len() && u[k] == x;
            if k < fl.len() {
                assert(fl[k] == x);
            }
        }
        if fl.contains(x) {
            let k = choose|k: int| 0 <= k < fl.len() && fl[k] == x;
            assert(u[k] == x);
        }
        if x == t {
            assert(u[fl.len() as int] == x);
        }
    }
    assert forall|x: (i32, i32)| seq![t].contains(x) <==> x == t by {
        if x == t {
            assert(seq![t][0] == x);
        }
    }
    assert forall|i: int| 0 <= i < s.len() implies {
        let x = #[trigger] s[i];
        &&& occupied_pred(g2)(x) == (occupied_pred(g)(x) || member_of(seq![t])(x))
        &&& !(occupied_pred(g)(x) && member_of(seq![t])(x))
        &&& holds_pred(g2, p)(x) == (holds_pred(g, p)(x) || member_of(u)(x))
        &&& !(holds_pred(g, p)(x) && member_of(u)(x))
        &&& holds_pred(g, p.opponent())(x) == (holds_pred(g2, p.opponent())(x) || member_of(fl)(x))
        &&& !(holds_pred(g2, p.opponent())(x) && member_of(fl)(x))
    } by {
        lemma_all_cells_on_board(i);
        lemma_cell_after_move(g, q, r, p, s[i]);
    }
    lemma_filter_split_len(s, occupied_pred(g2), occupied_pred(g), member_of(seq![t]));
    lemma_filter_split_len(s, holds_pred(g2, p), holds_pred(g, p), member_of(u));
    lemma_filter_split_len(s, holds_pred(g, p.opponent()), holds_pred(g2, p.opponent()), member_of(fl));
    assert forall|j: int| 0 <= j < seq![t].len() implies s.contains(#[trigger] seq![t][j]) by {}
    lemma_filter_member_len(s, seq![t]);
    lemma_filter_member_len(s, u);
    lemma_filter_member_len(s, fl);
}


/// In the opening position Black can play on `(0, 1)`, so the side to move
/// has a legal move from the start.
pub proof fn law_opening_black_can_move(g: Seq<Option<Player>>)
    requires
        forall|q: int, r: int| stone(g, q, r) == initial_stone(q, r),
    ensures
        flips(g, 0, 1, Player::Black).len() > 0,
        legal_moves_of(g, Player::Black).len() > 0,
{
    assert(stone(g, 0, 1) == initial_stone(0, 1));
    assert(stone(g, 0, 0) == initial_stone(0, 0));
    assert(stone(g, 0, -1) == initial_stone(0, -1));
    assert(ray_cell(0, 1, 2, 1) == (0int, 0int));
    assert(ray_cell(0, 1, 2, 2) == (0int, -1int));
    assert(run_end(g, 0, 1, 2, Player::White, 2) == 2);
    assert(run_end(g, 0, 1, 2, Player::White, 1) == 2);
    assert(line_flips(g, 0, 1, 2, Player::Black).len() == 1);
    assert(flips_upto(g, 0, 1, Player::Black, 3).len() >= 1);
    assert(flips_upto(g, 0, 1, Player::Black, 4).len() >= 1);
    assert(flips_upto(g, 0, 1, Player::Black, 5).len() >= 1);
    assert(flips_upto(g, 0, 1, Player::Black, 6).len() >= 1);
    lemma_all_cells_contains(0, 1);
    let s = all_cells();
    let i = choose|i: int| 0 <= i < s.len() && s[i] == (0i32, 1i32);
    s.lemma_filter_contains(legal_pred(g, Player::Black), i);
}

/// A new game starts with two stones of each side, and Black, who moves
/// first, has a legal move.
pub proof fn law_new_game(game: Game, raw: u64)
    requires
        new_game(game, raw),
    ensures
        count_of(game.board@, Player::Black) == 2,
        count_of(game.board@, Player::White) == 2,
        count_occupied(game.board@) == 4,
        legal_moves_of(game.board@, game.current).len() > 0,
{
    let g = game.board@;
    let s = all_cells();
    let blacks = seq![(1i32, -1i32), (0i32, -1i32)];
    let whites = seq![(0i32, 0i32), (1i32, 0i32)];
    let all4 = seq![(1i32, -1i32), (0i32, -1i32), (0i32, 0i32), (1i32, 0i32)];
    let none: Seq<(i32, i32)> = Seq::empty();
    law_opening_black_can_move(g);
    lemma_all_cells_no_dup();
    assert forall|x: (i32, i32)| blacks.contains(x) <==> (x == (1i32, -1i32) || x == (0i32, -1i32)) by {
        if x == (1i32, -1i32) {
            assert(blacks[0] == x);
        }
        if x == (0i32, -1i32) {
            assert(blacks[1] == x);
        }
    }
    assert forall|x: (i32, i32)| whites.contains(x) <==> (x == (0i32, 0i32) || x == (1i32, 0i32)) by {
        if x == (0i32, 0i32) {
            assert(whites[0] == x);
        }
        if x == (1i32, 0i32) {
            assert(whites[1] == x);
        }
    }
    assert forall|x: (i32, i32)| all4.contains(x) <==> (blacks.contains(x) || whites.contains(x)) by {
        if x == (1i32, -1i32) {
            assert(all4[0] == x);
        }
        if x == (0i32, -1i32) {
            assert(all4[1] == x);
        }
        if x == (0i32, 0i32) {
            assert(all4[2] == x);
        }
        if x == (1i32, 0i32) {
            assert(all4[3] == x);
        }
    }
    assert forall|i: int| 0 <= i < s.len() implies {
        let x = #[trigger] s[i];
        &&& holds_pred(g, Player::Black)(x) == (member_of(blacks)(x) || member_of(none)(x))
        &&& !(member_of(blacks)(x) && member_of(none)(x))
        &&& holds_pred(g, Player::White)(x) == (member_of(whites)(x) || member_of(none)(x))
        &&& !(member_of(whites)(x) && member_of(none)(x))
        &&& occupied_pred(g)(x) == (member_of(all4)(x) || member_of(none)(x))
        &&& !(member_of(all4)(x) && member_of(none)(x))
    } by {
        lemma_all_cells_on_board(i);
        let x = s[i];
        assert(stone(g, x.0 as int, x.1 as int) == initial_stone(x.0 as int, x.1 as int));
    }
    lemma_filter_split_len(s, holds_pred(g, Player::Black), member_of(blacks), member_of(none));
    lemma_filter_split_len(s, holds_pred(g, Player::White), member_of(whites), member_of(none));
    lemma_filter_split_len(s, occupied_pred(g), member_of(all4), member_of(none));
    lemma_all_cells_contains(1, -1);
    lemma_all_cells_contains(0, -1);
    lemma_all_cells_contains(0, 0);
    lemma_all_cells_contains(1, 0);
    assert forall|j: int| 0 <= j < blacks.len() implies s.contains(#[trigger] blacks[j]) by {}
    assert forall|j: int| 0 <= j < whites.len() implies s.contains(#[trigger] whites[j]) by {}
    assert forall|j: int| 0 <= j < all4.len() implies s.contains(#[trigger] all4[j]) by {}
    assert forall|j: int| 0 <= j < none.len() implies s.contains(#[trigger] none[j]) by {}
    lemma_filter_member_len(s, blacks);
    lemma_filter_member_len(s, whites);
    lemma_filter_member_len(s, all4);
    lemma_filter_member_len(s, none);
}


/// Whether play can go on from `g` as it stands: the game is over, or the
/// side to move has a legal move.
pub open spec fn can_continue(g: Game) -> bool {
    g.game_over || legal_moves_of(g.board@, g.current).len() > 0
}

/// Whether a game that just ended did so because neither side can move.
pub open spec fn ended_rightly(pre: Game, post: Game) -> bool {
    !pre.game_over && post.game_over ==> legal_moves_of(post.board@, Player::Black).len() == 0
        && legal_moves_of(post.board@, Player::White).len() == 0
}

proof fn lemma_settle(g: Seq<Option<Player>>, p: Player)
    ensures
        settle(g, p).1 || legal_moves_of(g, settle(g, p).0).len() > 0,
        settle(g, p).1 ==> legal_moves_of(g, Player::Black).len() == 0 && legal_moves_of(
            g,
            Player::White,
        ).len() == 0,
{
}

/// After a human's attempt, the side to move can move unless the game is
/// over, and a game that ends does so only when neither side can move; a
/// finished game stays as it is.
pub proof fn law_human_turn_keeps_play_going(pre: Game, post: Game, q: int, r: int, res: bool)
    requires
        human_move(pre, post, q, r, res),
        can_continue(pre),
    ensures
        can_continue(post),
        ended_rightly(pre, post),
        pre.game_over ==> post == pre,
{
    let fl = flips(pre.board@, q, r, pre.current);
    if res {
        lemma_settle(after_move(pre.board@, q, r, fl, pre.current), pre.current.opponent());
    }
}

/// After the computer's turn, the side to move can move unless the game is
/// over, and a game that ends does so only when neither side can move; a
/// finished game stays as it is.
pub proof fn law_computer_turn_keeps_play_going(pre: Game, post: Game, raw: u64, res: Option<MoveScore>)
    requires
        computer_move(pre, post, raw, res),
        can_continue(pre),
    ensures
        can_continue(post),
        ended_rightly(pre, post),
        pre.game_over ==> post == pre,
{
    if !pre.game_over && pre.current == pre.computer {
        match res {
            None => {
                lemma_settle(pre.board@, pre.current);
            },
            Some(c) => {
                let fl = flips(pre.board@, c.q as int, c.r as int, pre.current);
                lemma_settle(after_move(pre.board@, c.q as int, c.r as int, fl, pre.current), pre.current.opponent());
            },
        }
    }
}

/// Every move played adds one stone to the board: the mover gains that
/// stone and the stones turned, the opponent loses the stones turned.
pub proof fn law_played_move_counts(pre: Game, post: Game, q: int, r: int)
    requires
        pre.wf(),
        flips(pre.board@, q, r, pre.current).len() > 0,
        played(pre, post, q, r, flips(pre.board@, q, r, pre.current)),
    ensures
        ({
            let n = flips(pre.board@, q, r, pre.current).len();
            let p = pre.current;
            &&& count_occupied(post.board@) == count_occupied(pre.board@) + 1
            &&& count_of(post.board@, p) == count_of(pre.board@, p) + n + 1
            &&& count_of(post.board@, p.opponent()) + n == count_of(pre.board@, p.opponent())
        }),
{
    law_move_counts(pre.board@, q, r, pre.current);
}

/// The computer plays a legal move with the highest score there is among the
/// legal moves of its side.
pub proof fn law_computer_picks_a_best_move(g: Seq<Option<Player>>, p: Player, raw: u64)
    ensures
        computer_choice(g, p, raw) matches Some(c) ==> {
            &&& flips(g, c.q as int, c.r as int, p).len() > 0
            &&& forall|i: int|
                0 <= i < breakdowns_of(g, p).len() ==> (#[trigger] breakdowns_of(g, p)[i]).score
                    <= c.score
        },
        computer_choice(g, p, raw) is None <==> legal_moves_of(g, p).len() == 0,
{
    lemma_computer_choice_is_legal(g, p, raw);
    let bd = breakdowns_of(g, p);
    if let Some(c) = computer_choice(g, p, raw) {
        lemma_max_score_bounds(bd);
        let best = best_moves_of(g, p);
        let k = index_of(raw, best.len());
        bd.lemma_filter_pred(breakdown_score_is(max_score(bd)), k);
        assert(c == score_of(best[k]));
    }
}

/// Along direction `d` from `(q, r)`: when the cells at distances `m` up to
/// `k - 1` hold stones of `opp` and the cell at distance `k` does not, the run
/// of `opp` stones that starts at distance `m` ends at distance `k`.
proof fn lemma_run_end_at(g: Seq<Option<Player>>, q: int, r: int, d: int, opp: Player, m: nat, k: nat)
    requires
        m <= k <= 8,
        forall|i: int|
            m <= i < k ==> stone(g, (#[trigger] ray_cell(q, r, d, i)).0, ray_cell(q, r, d, i).1)
                == Some(opp),
        stone(g, ray_cell(q, r, d, k as int).0, ray_cell(q, r, d, k as int).1) != Some(opp),
    ensures
        run_end(g, q, r, d, opp, m) == k,
    decreases k - m,
{
    if m < k {
        assert(stone(g, ray_cell(q, r, d, m as int).0, ray_cell(q, r, d, m as int).1) == Some(opp));
        lemma_run_end_at(g, q, r, d, opp, m + 1, k);
    }
}

/// The captures in the first `n` directions include those in direction `d`
/// for every `d < n`.
proof fn lemma_flips_upto_has_line(g: Seq<Option<Player>>, q: int, r: int, p: Player, n: int, d: int, x: (i32, i32))
    requires
        0 <= d < n,
        line_flips(g, q, r, d, p).contains(x),
    ensures
        flips_upto(g, q, r, p, n).contains(x),
    decreases n,
{
    let a = flips_upto(g, q, r, p, n - 1);
    let b = line_flips(g, q, r, n - 1, p);
    assert(flips_upto(g, q, r, p, n) == a + b);
    if d == n - 1 {
        let i = choose|i: int| 0 <= i < b.len() && b[i] == x;
        assert((a + b)[a.len() + i] == x);
    } else {
        lemma_flips_upto_has_line(g, q, r, p, n - 1, d, x);
        let i = choose|i: int| 0 <= i < a.len() && a[i] == x;
        assert((a + b)[i] == x);
    }
}

/// Along direction `d` from `(q, r)`, the cells at distances 1 to `k - 1`
/// hold stones of the opponent of `p` and the cell at distance `k >= 2` holds
/// a stone of `p`: a run of opponent stones that `p` closes.
pub open spec fn closed_run(g: Seq<Option<Player>>, q: int, r: int, p: Player, d: int, k: int) -> bool {
    &&& 2 <= k
    &&& forall|i: int|
        1 <= i < k ==> stone(g, (#[trigger] ray_cell(q, r, d, i)).0, ray_cell(q, r, d, i).1) == Some(
            p.opponent(),
        )
    &&& stone(g, ray_cell(q, r, d, k).0, ray_cell(q, r, d, k).1) == Some(p)
}

/// A closed run is captured whole, however long it is: when a stone of `p`
/// is played on the empty cell `(q, r)`, and along a direction `d` the cells
/// at distances 1 to `k - 1` hold opponent stones and the cell at distance
/// `k >= 2` holds a stone of `p`, every one of those opponent stones is among
/// the stones the move turns.
pub proof fn law_closed_run_is_captured(
    g: Seq<Option<Player>>,
    q: int,
    r: int,
    p: Player,
    d: int,
    k: int,
    j: int,
)
    requires
        on_board(q, r),
        stone(g, q, r) is None,
        0 <= d < 6,
        closed_run(g, q, r, p, d, k),
        1 <= j < k,
    ensures
        flips(g, q, r, p).contains((ray_cell(q, r, d, j).0 as i32, ray_cell(q, r, d, j).1 as i32)),
{
    if k >= 9 {
        lemma_ray_leaves_board(q, r, d, k);
    }
    assert(k <= 8);
    assert(p != p.opponent()) by {
        match p {
            Player::Black => {},
            Player::White => {},
        }
    }
    lemma_run_end_at(g, q, r, d, p.opponent(), 1, k as nat);
    let line = line_flips(g, q, r, d, p);
    assert(line.len() == k - 1);
    let x = (ray_cell(q, r, d, j).0 as i32, ray_cell(q, r, d, j).1 as i32);
    assert(line[j - 1] == x);
    assert(line.contains(x));
    lemma_flips_upto_has_line(g, q, r, p, 6, d, x);
}

/// A cell is a legal move of `p` exactly when it lies on the board and a
/// stone of `p` placed there turns at least one stone.
pub proof fn law_legal_moves_are_the_capturing_cells(g: Seq<Option<Player>>, p: Player, c: (i32, i32))
    ensures
        legal_moves_of(g, p).contains(c) <==> on_board(c.0 as int, c.1 as int) && flips(
            g,
            c.0 as int,
            c.1 as int,
            p,
        ).len() > 0,
{
    let pred = legal_pred(g, p);
    all_cells().filter_lemma(pred);
    if legal_moves_of(g, p).contains(c) {
        let i = choose|i: int| 0 <= i < legal_moves_of(g, p).len() && legal_moves_of(g, p)[i] == c;
        assert(pred(legal_moves_of(g, p)[i]));
        all_cells().lemma_filter_contains_rev(pred, c);
        let k = choose|k: int| 0 <= k < all_cells().len() && all_cells()[k] == c;
        lemma_all_cells_on_board(k);
    }
    if on_board(c.0 as int, c.1 as int) && flips(g, c.0 as int, c.1 as int, p).len() > 0 {
        lemma_all_cells_contains(c.0 as int, c.1 as int);
        let k = choose|k: int| 0 <= k < all_cells().len() && all_cells()[k] == c;
        assert(pred(all_cells()[k]));
    }
}

/// The computer's score of a move is a hundred per stone turned, plus the
/// position bonus (70 on the six corners, 30 elsewhere on the rim, none
/// inside), less the ring penalty (twice the distance from the centre); so on two boards, the same move scores a hundred more for each
/// extra stone it turns.
pub proof fn law_score_counts_each_turned_stone(
    g1: Seq<Option<Player>>,
    g2: Seq<Option<Player>>,
    q: int,
    r: int,
    p: Player,
)
    requires
        2 * hex_ring(q, r) <= i32::MAX,
    ensures
        ({
            let b = breakdown(g1, q, r, p);
            &&& b.flips == flips(g1, q, r, p).len()
            &&& b.ring_penalty == 2 * hex_ring(q, r)
            &&& b.score == 100 * b.flips + b.position_bonus - b.ring_penalty
        }),
        breakdown(g1, q, r, p).score - breakdown(g2, q, r, p).score == 100 * (flips(g1, q, r, p).len()
            - flips(g2, q, r, p).len()),
        breakdown(g1, q, r, p).position_bonus == breakdown(g2, q, r, p).position_bonus,
        ({
            let corner = (q == 4 && r == 0) || (q == -4 && r == 0) || (q == 0 && r == 4) || (q == 0
                && r == -4) || (q == 4 && r == -4) || (q == -4 && r == 4);
            let rim = on_board(q, r) && (q == 4 || q == -4 || r == 4 || r == -4 || q + r == 4 || q
                + r == -4);
            let inner = -3 <= q <= 3 && -3 <= r <= 3 && -3 <= q + r <= 3;
            &&& corner ==> breakdown(g1, q, r, p).position_bonus == 70
            &&& rim && !corner ==> breakdown(g1, q, r, p).position_bonus == 30
            &&& inner ==> breakdown(g1, q, r, p).position_bonus == 0
        }),
{
    lemma_flips_len_bound(g1, q, r, p);
    lemma_flips_len_bound(g2, q, r, p);
    assert(hex_ring(q, r) >= 0);
}

/// Whether `s` ends with `t`.
pub open spec fn ends_with(s: Seq<char>, t: Seq<char>) -> bool {
    t.len() <= s.len() && s.subrange(s.len() - t.len(), s.len() as int) == t
}

proof fn lemma_ends_with_tail(a: Seq<char>, t: Seq<char>)
    ensures
        ends_with(a + t, t),
{
    assert((a + t).subrange(a.len() as int, (a + t).len() as int) =~= t);
}

/// The result line of a finished game reads "<winner> <count> > <loser>
/// <count>: <who> won", crediting the win to whoever plays the side with more
/// stones: it ends with
/// ": Computer won" when that side is the computer's, with ": Human won" when
/// it is the human's, and with ": Draw" when the counts are equal.
pub proof fn law_result_credits_the_winner(g: Game)
    requires
        g.message is None,
        g.game_over,
    ensures
        ({
            let b = count_of(g.board@, Player::Black);
            let w = count_of(g.board@, Player::White);
            let winner = if b > w { Player::Black } else { Player::White };
            &&& b != w && g.computer == winner ==> ends_with(status_text(g), ": Computer won"@)
            &&& b != w && g.computer != winner ==> ends_with(status_text(g), ": Human won"@)
            &&& b != w ==> status_text(g).take(5) == winner.spec_name()
            &&& b != w ==> status_text(g) == winner.spec_name() + " "@ + digits(if b > w { b } else { w })
                + " > "@ + winner.opponent().spec_name() + " "@ + digits(if b > w { w } else { b })
                + ": "@ + (if g.computer == winner { "Computer"@ } else { "Human"@ }) + " won"@
            &&& b == w ==> ends_with(status_text(g), ": Draw"@)
        }),
{
    reveal_strlit(": Computer won");
    reveal_strlit(": Human won");
    reveal_strlit(": Draw");
    reveal_strlit(": ");
    reveal_strlit("Computer");
    reveal_strlit("Human");
    reveal_strlit(" won");
    reveal_strlit("Black ");
    reveal_strlit("White ");
    reveal_strlit("Black");
    reveal_strlit("White");
    reveal_strlit(" > White ");
    reveal_strlit(" > Black ");
    reveal_strlit(" = White ");
    reveal_strlit(" ");
    reveal_strlit(" > ");
    let b = count_of(g.board@, Player::Black);
    let w = count_of(g.board@, Player::White);
    let s = status_text(g);
    if b > w {
        let pre = "Black "@ + digits(b) + " > White "@ + digits(w);
        let role = role_text(g.computer, Player::Black);
        assert(s =~= pre + (": "@ + role + " won"@));
        if g.computer == Player::Black {
            assert(": "@ + role + " won"@ =~= ": Computer won"@);
        } else {
            assert(": "@ + role + " won"@ =~= ": Human won"@);
        }
        lemma_ends_with_tail(pre, ": "@ + role + " won"@);
        assert(s.take(5) =~= "Black"@);
        assert(s =~= "Black"@ + " "@ + digits(b) + " > "@ + "White"@ + " "@ + digits(w) + ": "@ + role
            + " won"@);
    } else if b < w {
        let pre = "White "@ + digits(w) + " > Black "@ + digits(b);
        let role = role_text(g.computer, Player::White);
        assert(s =~= pre + (": "@ + role + " won"@));
        if g.computer == Player::White {
            assert(": "@ + role + " won"@ =~= ": Computer won"@);
        } else {
            assert(": "@ + role + " won"@ =~= ": Human won"@);
        }
        lemma_ends_with_tail(pre, ": "@ + role + " won"@);
        assert(s.take(5) =~= "White"@);
        assert(s =~= "White"@ + " "@ + digits(w) + " > "@ + "Black"@ + " "@ + digits(b) + ": "@ + role
            + " won"@);
    } else {
        let pre = "Black "@ + digits(b) + " = White "@ + digits(w);
        assert(s =~= pre + ": Draw"@);
        lemma_ends_with_tail(pre, ": Draw"@);
    }
}

/// The "legal" stage of the decision panel shows how many candidate moves
/// there are, all of them and not only those detailed, and it is the number
/// that the SCAN line of the listing reports; the pick stage shows the cell
/// that the PICK line names.
pub proof fn law_panel_counts_every_candidate(
    g: Game,
    c: Seq<MoveBreakdown>,
    black: nat,
    white: nat,
    empty: nat,
)
    ensures
        stages_of(g, c, black, white, empty)[2] == ("legal"@, digits(c.len()), 0xffd166u32),
        instructions_of(g, c, black, white, empty)[2].2 == stages_of(g, c, black, white, empty)[2].1
            + " moves"@,
        ({
            let ins = instructions_of(g, c, black, white, empty);
            &&& ins.len() >= 5
            &&& ins[ins.len() - 2].0 == "PICK"@
            &&& ins[ins.len() - 2].1 == stages_of(g, c, black, white, empty)[4].1
        }),
{
    let ins = instructions_of(g, c, black, white, empty);
    let head = seq![
        ("LOAD"@, "BOARD"@, "B"@ + digits(black) + " W"@ + digits(white), 0x93c5fdu32, 0usize),
        ("READ"@, "TURN"@, actor_text(g) + " "@ + g.current.spec_name(), 0x5eead4u32, 1usize),
        ("SCAN"@, "LEGAL"@, digits(c.len()) + " moves"@, 0xffd166u32, 2usize),
    ];
    assert(ins[2] == head[2]);
    let pick = ("PICK"@, pick_text(c), if c.len() == 0 { "pass turn"@ } else { "best score"@ }, 0xfb7185u32, 4usize);
    assert(ins[ins.len() - 2] == pick);
}

/// A cell captured in the first `n` directions is captured in one of them.
proof fn lemma_flips_upto_in_line(g: Seq<Option<Player>>, q: int, r: int, p: Player, n: int, x: (i32, i32))
    requires
        flips_upto(g, q, r, p, n).contains(x),
    ensures
        exists|d: int| 0 <= d < n && #[trigger] line_flips(g, q, r, d, p).contains(x),
    decreases n,
{
    if n > 0 {
        let a = flips_upto(g, q, r, p, n - 1);
        let b = line_flips(g, q, r, n - 1, p);
        assert(flips_upto(g, q, r, p, n) == a + b);
        let i = choose|i: int| 0 <= i < (a + b).len() && (a + b)[i] == x;
        if i < a.len() {
            assert(a[i] == x);
            lemma_flips_upto_in_line(g, q, r, p, n - 1, x);
        } else {
            assert(b[i - a.len()] == x);
            assert(b.contains(x));
        }
    }
}

/// Nothing is turned that no stone of the mover closes: every stone a move
/// turns lies, in some direction from the cell played, within a run of
/// opponent stones that starts next to that cell and that a stone of the
/// mover closes.
pub proof fn law_captured_stone_lies_in_a_closed_run(
    g: Seq<Option<Player>>,
    q: int,
    r: int,
    p: Player,
    x: (i32, i32),
)
    requires
        flips(g, q, r, p).contains(x),
    ensures
        on_board(q, r),
        stone(g, q, r) is None,
        exists|d: int, j: int, k: int|
            #![trigger closed_run(g, q, r, p, d, k), ray_cell(q, r, d, j)]
            0 <= d < 6 && 1 <= j < k && closed_run(g, q, r, p, d, k) && x == (
                ray_cell(q, r, d, j).0 as i32,
                ray_cell(q, r, d, j).1 as i32,
            ),
{
    lemma_flips_upto_in_line(g, q, r, p, 6, x);
    let d = choose|d: int| 0 <= d < 6 && #[trigger] line_flips(g, q, r, d, p).contains(x);
    let opp = p.opponent();
    let e = run_end(g, q, r, d, opp, 1);
    lemma_run_end_bound(g, q, r, d, opp, 1);
    lemma_run_end_cells(g, q, r, d, opp, 1);
    let line = line_flips(g, q, r, d, p);
    let i = choose|i: int| 0 <= i < line.len() && line[i] == x;
    assert(e > 1);
    let j = i + 1;
    let k = e as int;
    assert(x == (ray_cell(q, r, d, j).0 as i32, ray_cell(q, r, d, j).1 as i32));
    assert(closed_run(g, q, r, p, d, k));
}

/// The legal moves of a side are listed once each.
pub proof fn law_legal_moves_distinct(g: Seq<Option<Player>>, p: Player)
    ensures
        legal_moves_of(g, p).no_duplicates(),
{
    lemma_all_cells_no_dup();
    lemma_filter_no_dup(all_cells(), legal_pred(g, p));
}

} // verus!
