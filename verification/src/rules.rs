use vstd::prelude::*;
use crate::player::Player;
use crate::board::{all_cells, on_board, stone};

verus! {

/// The six neighbour directions of a hexagonal cell, in the order in which
/// moves are examined.
pub open spec fn dir(d: int) -> (int, int) {
    if d == 0 {
        (1, 0)
    } else if d == 1 {
        (1, -1)
    } else if d == 2 {
        (0, -1)
    } else if d == 3 {
        (-1, 0)
    } else if d == 4 {
        (-1, 1)
    } else {
        (0, 1)
    }
}

/// The direction numbered `d` (`d < 6`).
pub fn direction(d: usize) -> (res: (i32, i32))
    requires
        d < 6,
    ensures
        res.0 as int == dir(d as int).0,
        res.1 as int == dir(d as int).1,
{
    match d {
        0 => (1, 0),
        1 => (1, -1),
        2 => (0, -1),
        3 => (-1, 0),
        4 => (-1, 1),
        _ => (0, 1),
    }
}

/// The cell `k` steps from `(q, r)` in direction `d`.
pub open spec fn ray_cell(q: int, r: int, d: int, k: int) -> (int, int) {
    (q + k * dir(d).0, r + k * dir(d).1)
}

/// The first distance `e >= k` along direction `d` from `(q, r)` at which the
/// cell does not hold a stone of `opp` (every cell of the board lies within
/// eight steps of every other).
pub open spec fn run_end(g: Seq<Option<Player>>, q: int, r: int, d: int, opp: Player, k: nat) -> nat
    decreases 9 - k,
{
    if k >= 9 {
        k
    } else if stone(g, ray_cell(q, r, d, k as int).0, ray_cell(q, r, d, k as int).1) == Some(opp) {
        run_end(g, q, r, d, opp, k + 1)
    } else {
        k
    }
}

/// The stones that a stone of `p` placed on `(q, r)` captures in direction
/// `d`: the unbroken run of opponent stones next to it, provided the run is
/// not empty and a stone of `p` closes it.
pub open spec fn line_flips(g: Seq<Option<Player>>, q: int, r: int, d: int, p: Player) -> Seq<(i32, i32)> {
    let e = run_end(g, q, r, d, p.opponent(), 1);
    let end = ray_cell(q, r, d, e as int);
    if e > 1 && stone(g, end.0, end.1) == Some(p) {
        Seq::new((e - 1) as nat, |j: int| ((q + (j + 1) * dir(d).0) as i32, (r + (j + 1) * dir(d).1) as i32))
    } else {
        Seq::empty()
    }
}

/// The captures in the first `n` directions, direction by direction.
pub open spec fn flips_upto(g: Seq<Option<Player>>, q: int, r: int, p: Player, n: int) -> Seq<(i32, i32)>
    decreases n,
{
    if n <= 0 {
        Seq::empty()
    } else {
        flips_upto(g, q, r, p, n - 1) + line_flips(g, q, r, n - 1, p)
    }
}

/// The stones that a stone of `p` placed on `(q, r)` would turn: nothing if
/// the cell is taken or off the board, else the captures in all six
/// directions, in direction order.
pub open spec fn flips(g: Seq<Option<Player>>, q: int, r: int, p: Player) -> Seq<(i32, i32)> {
    if stone(g, q, r) is Some || !on_board(q, r) {
        Seq::empty()
    } else {
        flips_upto(g, q, r, p, 6)
    }
}

/// Whether placing a stone of `p` on the cell `c` captures anything.
pub open spec fn legal_pred(g: Seq<Option<Player>>, p: Player) -> spec_fn((i32, i32)) -> bool {
    |c: (i32, i32)| flips(g, c.0 as int, c.1 as int, p).len() > 0
}

/// The cells on which `p` may play, in board order.
pub open spec fn legal_moves_of(g: Seq<Option<Player>>, p: Player) -> Seq<(i32, i32)> {
    all_cells().filter(legal_pred(g, p))
}

/// Nine steps in any direction leave the board.
pub proof fn lemma_ray_leaves_board(q: int, r: int, d: int, k: int)
    requires
        on_board(q, r),
        0 <= d < 6,
        k >= 9,
    ensures
        !on_board(ray_cell(q, r, d, k).0, ray_cell(q, r, d, k).1),
{
    assert(k * 1 == k);
    assert(k * -1 == -k);
    assert(k * 0 == 0);
}

/// One more step along a ray.
pub proof fn lemma_ray_step(q: int, r: int, d: int, k: int)
    ensures
        ray_cell(q, r, d, k + 1) == (ray_cell(q, r, d, k).0 + dir(d).0, ray_cell(q, r, d, k).1 + dir(d).1),
{
    let (dq, dr) = dir(d);
    assert((k + 1) * dq == k * dq + dq) by (nonlinear_arith);
    assert((k + 1) * dr == k * dr + dr) by (nonlinear_arith);
}


pub proof fn lemma_run_end_bound(g: Seq<Option<Player>>, q: int, r: int, d: int, opp: Player, k: nat)
    requires
        k <= 9,
    ensures
        k <= run_end(g, q, r, d, opp, k) <= 9,
    decreases 9 - k,
{
    if k < 9 {
        lemma_run_end_bound(g, q, r, d, opp, k + 1);
    }
}

/// A move turns over at most eight stones in each of the six directions.
pub proof fn lemma_flips_len_bound(g: Seq<Option<Player>>, q: int, r: int, p: Player)
    ensures
        flips(g, q, r, p).len() <= 48,
{
    assert forall|n: int| 0 <= n <= 6 implies #[trigger] flips_upto(g, q, r, p, n).len() <= 8 * n by {
        lemma_flips_upto_len_bound(g, q, r, p, n);
    }
    assert(flips_upto(g, q, r, p, 6).len() <= 8 * 6);
}

proof fn lemma_flips_upto_len_bound(g: Seq<Option<Player>>, q: int, r: int, p: Player, n: int)
    requires
        0 <= n,
    ensures
        flips_upto(g, q, r, p, n).len() <= 8 * n,
    decreases n,
{
    if n > 0 {
        lemma_flips_upto_len_bound(g, q, r, p, n - 1);
        lemma_run_end_bound(g, q, r, n - 1, p.opponent(), 1);
    }
}


/// Every cell of a run, from distance `k` up to where it ends, holds a
/// stone of `opp`.
pub proof fn lemma_run_end_cells(g: Seq<Option<Player>>, q: int, r: int, d: int, opp: Player, k: nat)
    requires
        k <= 9,
    ensures
        forall|j: int|
            k <= j < run_end(g, q, r, d, opp, k) ==> stone(
                g,
                #[trigger] ray_cell(q, r, d, j).0,
                ray_cell(q, r, d, j).1,
            ) == Some(opp),
    decreases 9 - k,
{
    if k < 9 {
        lemma_run_end_cells(g, q, r, d, opp, k + 1);
    }
}

/// Whether the cell `c` holds a stone of `p` in the grid `g`.
pub open spec fn holds_at(g: Seq<Option<Player>>, c: (i32, i32), p: Player) -> bool {
    stone(g, c.0 as int, c.1 as int) == Some(p)
}

proof fn lemma_line_flips_cells(g: Seq<Option<Player>>, q: int, r: int, d: int, p: Player)
    requires
        on_board(q, r),
        0 <= d < 6,
    ensures
        forall|i: int|
            0 <= i < line_flips(g, q, r, d, p).len() ==> holds_at(
                g,
                #[trigger] line_flips(g, q, r, d, p)[i],
                p.opponent(),
            ),
{
    lemma_run_end_cells(g, q, r, d, p.opponent(), 1);
    lemma_run_end_bound(g, q, r, d, p.opponent(), 1);
    assert forall|i: int| 0 <= i < line_flips(g, q, r, d, p).len() implies holds_at(
        g,
        #[trigger] line_flips(g, q, r, d, p)[i],
        p.opponent(),
    ) by {
        let c = ray_cell(q, r, d, i + 1);
        assert(stone(g, c.0, c.1) == Some(p.opponent()));
        assert(on_board(c.0, c.1));
        assert(c == (q + (i + 1) * dir(d).0, r + (i + 1) * dir(d).1));
    }
}

proof fn lemma_flips_upto_cells(g: Seq<Option<Player>>, q: int, r: int, p: Player, n: int)
    requires
        on_board(q, r),
        n <= 6,
    ensures
        forall|i: int|
            0 <= i < flips_upto(g, q, r, p, n).len() ==> holds_at(
                g,
                #[trigger] flips_upto(g, q, r, p, n)[i],
                p.opponent(),
            ),
    decreases n,
{
    if n > 0 {
        lemma_flips_upto_cells(g, q, r, p, n - 1);
        lemma_line_flips_cells(g, q, r, n - 1, p);
        let a = flips_upto(g, q, r, p, n - 1);
        let b = line_flips(g, q, r, n - 1, p);
        assert forall|i: int| 0 <= i < (a + b).len() implies holds_at(g, #[trigger] (a + b)[i], p.opponent()) by {
            if i < a.len() {
                assert((a + b)[i] == a[i]);
            } else {
                assert((a + b)[i] == b[i - a.len()]);
            }
        }
    }
}

/// Every stone that a move turns over is an opponent's stone on the board,
/// so it is never the cell played on (that cell is empty).
pub proof fn lemma_flips_are_opponent_stones(g: Seq<Option<Player>>, q: int, r: int, p: Player)
    ensures
        forall|i: int|
            0 <= i < flips(g, q, r, p).len() ==> {
                let c = #[trigger] flips(g, q, r, p)[i];
                &&& holds_at(g, c, p.opponent())
                &&& on_board(c.0 as int, c.1 as int)
                &&& (c.0 as int, c.1 as int) != (q, r)
            },
{
    if on_board(q, r) && stone(g, q, r) is None {
        lemma_flips_upto_cells(g, q, r, p, 6);
    }
}

} // verus!
