use vstd::prelude::*;
use crate::player::Player;

verus! {

/// The board is the hexagon of cells whose axial coordinates `(q, r)` satisfy
/// `max(|q|, |r|, |q + r|) <= RADIUS`.
pub const RADIUS: i32 = 4;

/// Width of the square grid of axial coordinates that holds the hexagon.
pub const GRID_WIDTH: usize = 9;

/// Number of slots in that grid.
pub const GRID_SIZE: usize = 81;

/// Whether `(q, r)` is a cell of the board.
pub open spec fn on_board(q: int, r: int) -> bool {
    &&& -4 <= q <= 4
    &&& -4 <= r <= 4
    &&& -4 <= q + r <= 4
}

/// Distance of `(q, r)` from the centre cell, counted in rings.
pub open spec fn hex_ring(q: int, r: int) -> int {
    let aq = if q < 0 { -q } else { q };
    let ar = if r < 0 { -r } else { r };
    let s = -q - r;
    let as_ = if s < 0 { -s } else { s };
    let m = if aq < ar { ar } else { aq };
    if m < as_ { as_ } else { m }
}

/// Grid slot of the cell `(q, r)`: rows by `r`, columns by `q`.
pub open spec fn slot(q: int, r: int) -> int {
    (r + 4) * 9 + (q + 4)
}

/// The coordinates of every grid slot, in slot order.
pub open spec fn grid_coords() -> Seq<(i32, i32)> {
    Seq::new(81, |i: int| ((i % 9 - 4) as i32, (i / 9 - 4) as i32))
}

/// The cells of the board, row by row (`r` ascending), and within a row by
/// `q` ascending.
pub open spec fn all_cells() -> Seq<(i32, i32)> {
    grid_coords().filter(|c: (i32, i32)| on_board(c.0 as int, c.1 as int))
}

fn abs64(x: i64) -> (res: i64)
    requires
        x > i64::MIN,
    ensures
        res == (if x < 0 { -x } else { x as int }),
{
    if x < 0 { -x } else { x }
}

fn max64(a: i64, b: i64) -> (res: i64)
    ensures
        res == (if a < b { b } else { a }),
{
    if a < b { b } else { a }
}

/// Whether `(q, r)` lies on the board.
pub fn is_on_board(q: i32, r: i32) -> (res: bool)
    ensures
        res == on_board(q as int, r as int),
        res == (hex_ring(q as int, r as int) <= 4),
{
    let q = q as i64;
    let r = r as i64;
    let s = -q - r;
    let ring = max64(max64(abs64(q), abs64(r)), abs64(s));
    ring <= RADIUS as i64
}


/// The test that picks the board's cells out of the grid.
pub open spec fn cell_pred() -> spec_fn((i32, i32)) -> bool {
    |c: (i32, i32)| on_board(c.0 as int, c.1 as int)
}

/// The coordinates of grid slot `n`.
pub proof fn lemma_slot_coords(q: int, r: int)
    requires
        -4 <= q <= 4,
        -4 <= r <= 4,
    ensures
        0 <= slot(q, r) < 81,
        slot(q, r) % 9 == q + 4,
        slot(q, r) / 9 == r + 4,
        grid_coords()[slot(q, r)] == (q as i32, r as i32),
{
    let n = slot(q, r);
    assert(n == (r + 4) * 9 + (q + 4));
    vstd::arithmetic::div_mod::lemma_fundamental_div_mod_converse(n, 9, r + 4, q + 4);
}

/// The cell of grid slot `i` is in range and has slot `i`.
pub proof fn lemma_grid_coords_slot(i: int)
    requires
        0 <= i < 81,
    ensures
        -4 <= grid_coords()[i].0 <= 4,
        -4 <= grid_coords()[i].1 <= 4,
        slot(grid_coords()[i].0 as int, grid_coords()[i].1 as int) == i,
{
    vstd::arithmetic::div_mod::lemma_fundamental_div_mod(i, 9);
}

/// Taking one more grid slot adds that slot's cell, if it is on the board.
pub proof fn lemma_cells_take_step(n: int)
    requires
        0 <= n < 81,
    ensures
        grid_coords().take(n + 1).filter(cell_pred()) == (if cell_pred()(grid_coords()[n]) {
            grid_coords().take(n).filter(cell_pred()).push(grid_coords()[n])
        } else {
            grid_coords().take(n).filter(cell_pred())
        }),
{
    reveal_with_fuel(Seq::<_>::filter, 1);
    assert(grid_coords().take(n + 1).drop_last() =~= grid_coords().take(n));
}

/// The cells of the board, row by row from `r = -RADIUS` to `r = RADIUS`, and
/// within a row from `q = -RADIUS` to `q = RADIUS`.
pub fn cells() -> (res: Vec<(i32, i32)>)
    ensures
        res@ == all_cells(),
{
    let mut result: Vec<(i32, i32)> = Vec::new();
    let mut r: i32 = -RADIUS;
    while r <= RADIUS
        invariant
            -4 <= r <= 5,
            result@ == grid_coords().take((r + 4) * 9).filter(cell_pred()),
        decreases 5 - r,
    {
        let mut q: i32 = -RADIUS;
        while q <= RADIUS
            invariant
                -4 <= r <= 4,
                -4 <= q <= 5,
                result@ == grid_coords().take((r + 4) * 9 + (q + 4)).filter(cell_pred()),
            decreases 5 - q,
        {
            proof {
                lemma_slot_coords(q as int, r as int);
                lemma_cells_take_step(slot(q as int, r as int));
            }
            if is_on_board(q, r) {
                result.push((q, r));
            }
            q += 1;
        }
        r += 1;
    }
    assert(grid_coords().take(81) =~= grid_coords());
    result
}


/// What stands on `(q, r)` in a grid: nothing off the board.
pub open spec fn stone(g: Seq<Option<Player>>, q: int, r: int) -> Option<Player> {
    if on_board(q, r) {
        g[slot(q, r)]
    } else {
        None
    }
}

/// The test that picks the cells holding a stone of `p`.
pub open spec fn holds_pred(g: Seq<Option<Player>>, p: Player) -> spec_fn((i32, i32)) -> bool {
    |c: (i32, i32)| stone(g, c.0 as int, c.1 as int) == Some(p)
}

/// The test that picks the occupied cells.
pub open spec fn occupied_pred(g: Seq<Option<Player>>) -> spec_fn((i32, i32)) -> bool {
    |c: (i32, i32)| stone(g, c.0 as int, c.1 as int) is Some
}

/// Number of cells of the board that hold a stone of `p`.
pub open spec fn count_of(g: Seq<Option<Player>>, p: Player) -> nat {
    all_cells().filter(holds_pred(g, p)).len()
}

/// Number of cells of the board that hold a stone.
pub open spec fn count_occupied(g: Seq<Option<Player>>) -> nat {
    all_cells().filter(occupied_pred(g)).len()
}

/// The stones on the board: one optional stone for each slot of the square
/// grid of axial coordinates in `[-RADIUS, RADIUS]^2`; slots off the hexagon
/// are never read.
#[derive(Debug)]
pub struct Board {
    grid: Vec<Option<Player>>,
}

impl View for Board {
    type V = Seq<Option<Player>>;

    closed spec fn view(&self) -> Seq<Option<Player>> {
        self.grid@
    }
}

impl Clone for Board {
    fn clone(&self) -> (res: Board)
        ensures
            res@ == self@,
    {
        Board { grid: self.grid.clone() }
    }
}

impl Board {
    /// The grid has one slot for each pair of coordinates in range.
    pub open spec fn wf(&self) -> bool {
        self@.len() == 81
    }

    /// A board without stones.
    pub fn empty() -> (res: Board)
        ensures
            res.wf(),
            forall|q: int, r: int| stone(res@, q, r) == None::<Player>,
    {
        let mut grid: Vec<Option<Player>> = Vec::new();
        let mut i: usize = 0;
        while i < GRID_SIZE
            invariant
                i <= 81,
                grid@.len() == i,
                forall|j: int| 0 <= j < i ==> grid@[j] == None::<Player>,
            decreases 81 - i,
        {
            grid.push(None);
            i += 1;
        }
        let res = Board { grid };
        assert forall|q: int, r: int| stone(res@, q, r) == None::<Player> by {
            if on_board(q, r) {
                lemma_slot_coords(q, r);
            }
        }
        res
    }

    /// The stone on `(q, r)`, if any; nothing off the board.
    pub fn get(&self, q: i32, r: i32) -> (res: Option<Player>)
        requires
            self.wf(),
        ensures
            res == stone(self@, q as int, r as int),
    {
        if is_on_board(q, r) {
            proof {
                lemma_slot_coords(q as int, r as int);
            }
            let i = ((r + RADIUS) * 9 + (q + RADIUS)) as usize;
            self.grid[i]
        } else {
            None
        }
    }

    /// Whether `(q, r)` holds a stone of `p`.
    pub fn holds(&self, q: i32, r: i32, p: Player) -> (res: bool)
        requires
            self.wf(),
        ensures
            res == (stone(self@, q as int, r as int) == Some(p)),
    {
        match self.get(q, r) {
            Some(x) => x == p,
            None => false,
        }
    }

    /// Puts a stone of `p` on the cell `(q, r)`, replacing what was there.
    pub fn set(&mut self, q: i32, r: i32, p: Player)
        requires
            old(self).wf(),
            on_board(q as int, r as int),
        ensures
            final(self).wf(),
            final(self)@ == old(self)@.update(slot(q as int, r as int), Some(p)),
    {
        proof {
            lemma_slot_coords(q as int, r as int);
        }
        let i = ((r + RADIUS) * 9 + (q + RADIUS)) as usize;
        self.grid.set(i, Some(p));
    }

    /// Number of cells that hold a stone of `p`.
    pub fn count(&self, p: Player) -> (res: usize)
        requires
            self.wf(),
        ensures
            res == count_of(self@, p),
    {
        let all = cells();
        let mut n: usize = 0;
        let mut i: usize = 0;
        while i < all.len()
            invariant
                all@ == all_cells(),
                i <= all@.len(),
                self.wf(),
                n == all_cells().take(i as int).filter(holds_pred(self@, p)).len(),
                n <= i,
            decreases all@.len() - i,
        {
            proof {
                reveal_with_fuel(Seq::<_>::filter, 1);
                assert(all_cells().take(i + 1).drop_last() =~= all_cells().take(i as int));
            }
            let (q, r) = all[i];
            if self.holds(q, r, p) {
                n += 1;
            }
            i += 1;
        }
        assert(all_cells().take(i as int) =~= all_cells());
        n
    }

    /// Number of cells that hold a stone.
    pub fn len(&self) -> (res: usize)
        requires
            self.wf(),
        ensures
            res == count_occupied(self@),
    {
        let all = cells();
        let mut n: usize = 0;
        let mut i: usize = 0;
        while i < all.len()
            invariant
                all@ == all_cells(),
                i <= all@.len(),
                self.wf(),
                n == all_cells().take(i as int).filter(occupied_pred(self@)).len(),
                n <= i,
            decreases all@.len() - i,
        {
            proof {
                reveal_with_fuel(Seq::<_>::filter, 1);
                assert(all_cells().take(i + 1).drop_last() =~= all_cells().take(i as int));
            }
            let (q, r) = all[i];
            if self.get(q, r).is_some() {
                n += 1;
            }
            i += 1;
        }
        assert(all_cells().take(i as int) =~= all_cells());
        n
    }
}

} // verus!
