//! The toroidal board as a mathematical object, and the per-cell neighbour
//! counter.

use vstd::prelude::*;
use vstd::arithmetic::div_mod::{
    lemma_fundamental_div_mod, lemma_fundamental_div_mod_converse,
    lemma_mod_add_multiples_vanish, lemma_mod_bound, lemma_mod_sub_multiples_vanish,
    lemma_small_mod,
};

verus! {

/// A coordinate folded onto the ring `0..side`; negative values come back in
/// from the far edge.
pub open spec fn wrap(v: int, side: int) -> int {
    v % side
}

/// Row-major position of the cell `(x, y)`.
pub open spec fn cell_index(side: int, x: int, y: int) -> int {
    x * side + y
}

/// A flat sequence is a board of the given side when it holds `side * side`
/// cells.
pub open spec fn is_board(cells: Seq<bool>, side: int) -> bool {
    0 <= side && cells.len() == side * side
}

/// Whether the cell at `(x, y)` is alive, the coordinates taken on the torus.
pub open spec fn live_at(cells: Seq<bool>, side: int, x: int, y: int) -> bool {
    cells[cell_index(side, wrap(x, side), wrap(y, side))]
}

/// One for a live cell, zero for a dead one.
pub open spec fn live(cells: Seq<bool>, side: int, x: int, y: int) -> int {
    if live_at(cells, side, x, y) {
        1
    } else {
        0
    }
}

/// The number of live cells among the eight wrap-around neighbours of `(x, y)`.
pub open spec fn neighbor_count(cells: Seq<bool>, side: int, x: int, y: int) -> int {
    live(cells, side, x - 1, y - 1) + live(cells, side, x - 1, y) + live(cells, side, x - 1, y + 1)
        + live(cells, side, x, y - 1) + live(cells, side, x, y + 1)
        + live(cells, side, x + 1, y - 1) + live(cells, side, x + 1, y) + live(cells, side, x + 1, y + 1)
}

/// The rule of the game: a live cell survives on two or three live neighbours,
/// a dead cell is born on exactly three.
pub open spec fn rule(alive: bool, neighbors: int) -> bool {
    (alive && (neighbors == 2 || neighbors == 3)) || (!alive && neighbors == 3)
}

/// The state of the cell at flat position `i` one generation later.
#[verifier::opaque]
pub open spec fn next_cell(cells: Seq<bool>, side: int, i: int) -> bool {
    rule(cells[i], neighbor_count(cells, side, i / side, i % side))
}

/// The whole board one generation later, every cell computed from the same
/// current board.
pub open spec fn next_board(cells: Seq<bool>, side: int) -> Seq<bool> {
    Seq::new(cells.len(), |i: int| next_cell(cells, side, i))
}

/// Folding a coordinate that is at most one ring away is a single shift.
pub proof fn lemma_wrap_cases(v: int, side: int)
    requires
        side > 0,
        -side <= v < 2 * side,
    ensures
        wrap(v, side) == (if v < 0 {
            v + side
        } else if v >= side {
            v - side
        } else {
            v
        }),
        0 <= wrap(v, side) < side,
{
    if v < 0 {
        lemma_mod_add_multiples_vanish(v, side);
        lemma_small_mod((v + side) as nat, side as nat);
    } else if v >= side {
        lemma_mod_sub_multiples_vanish(v, side);
        lemma_small_mod((v - side) as nat, side as nat);
    } else {
        lemma_small_mod(v as nat, side as nat);
    }
}

/// The three coordinates next to `v` fold as expected on a ring of any size.
pub proof fn lemma_wrap_near(v: int, side: int)
    requires
        0 <= v < side,
    ensures
        wrap(v, side) == v,
        wrap(v - 1, side) == (if v == 0 { side - 1 } else { v - 1 }),
        wrap(v + 1, side) == (if v + 1 == side { 0 } else { v + 1 }),
{
    lemma_wrap_cases(v, side);
    lemma_wrap_cases(v - 1, side);
    lemma_wrap_cases(v + 1, side);
}

/// A cell inside the board has its flat position inside the sequence.
pub proof fn lemma_index_bound(side: int, x: int, y: int)
    requires
        0 <= x < side,
        0 <= y < side,
    ensures
        0 <= x * side,
        0 <= cell_index(side, x, y) < side * side,
{
    assert(x * side >= 0 && (x + 1) * side <= side * side) by (nonlinear_arith)
        requires
            0 <= x < side,
    ;
    assert((x + 1) * side == x * side + side) by (nonlinear_arith);
}

/// The flat position determines the cell: row and column are its quotient and
/// remainder by the side.
pub proof fn lemma_index_split(side: int, x: int, y: int)
    requires
        0 <= x < side,
        0 <= y < side,
    ensures
        cell_index(side, x, y) / side == x,
        cell_index(side, x, y) % side == y,
{
    lemma_fundamental_div_mod_converse(cell_index(side, x, y), side, x, y);
}

/// Every flat position inside a board names one cell of it.
pub proof fn lemma_index_join(side: int, i: int)
    requires
        0 < side,
        0 <= i < side * side,
    ensures
        0 <= i / side < side,
        0 <= i % side < side,
        cell_index(side, i / side, i % side) == i,
{
    lemma_fundamental_div_mod(i, side);
    lemma_mod_bound(i, side);
    let q = i / side;
    assert(side * q == q * side) by (nonlinear_arith);
    assert(0 <= q < side) by (nonlinear_arith)
        requires
            0 < side,
            0 <= i < side * side,
            i == q * side + i % side,
            0 <= i % side < side,
    ;
}

/// The coordinate one step from `v` on the ring: `step` 0 is the step back,
/// 1 stays, 2 is the step forward.
pub fn shifted(v: usize, step: u8, side: usize) -> (r: usize)
    requires
        v < side,
        step <= 2,
    ensures
        r == wrap(v + step - 1, side as int),
        r < side,
{
    proof {
        lemma_wrap_near(v as int, side as int);
    }
    if step == 0 {
        if v == 0 {
            side - 1
        } else {
            v - 1
        }
    } else if step == 1 {
        v
    } else {
        if v + 1 == side {
            0
        } else {
            v + 1
        }
    }
}

/// Whether the neighbour of `(x, y)` in the direction `(sx - 1, sy - 1)` is
/// alive, as 0 or 1.
fn probe(cells: &Vec<bool>, side: usize, x: usize, y: usize, sx: u8, sy: u8) -> (r: u8)
    requires
        is_board(cells@, side as int),
        x < side,
        y < side,
        sx <= 2,
        sy <= 2,
    ensures
        r == live(cells@, side as int, x + sx - 1, y + sy - 1),
{
    let nx: usize = shifted(x, sx, side);
    let ny: usize = shifted(y, sy, side);
    proof {
        assert(cells.len() == side * side);
        lemma_index_bound(side as int, nx as int, ny as int);
        assert(nx * side + ny == cell_index(side as int, nx as int, ny as int));
    }
    if cells[nx * side + ny] {
        1
    } else {
        0
    }
}

/// Counts the live cells among the eight wrap-around neighbours of `(x, y)`.
pub fn count_neighbors(x: usize, y: usize, cells: &Vec<bool>, side: usize) -> (count: u8)
    requires
        is_board(cells@, side as int),
        x < side,
        y < side,
    ensures
        count == neighbor_count(cells@, side as int, x as int, y as int),
        count <= 8,
{
    let a: u8 = probe(cells, side, x, y, 0, 0);
    let b: u8 = probe(cells, side, x, y, 0, 1);
    let c: u8 = probe(cells, side, x, y, 0, 2);
    let d: u8 = probe(cells, side, x, y, 1, 0);
    let e: u8 = probe(cells, side, x, y, 1, 2);
    let f: u8 = probe(cells, side, x, y, 2, 0);
    let g: u8 = probe(cells, side, x, y, 2, 1);
    let h: u8 = probe(cells, side, x, y, 2, 2);
    a + b + c + d + e + f + g + h
}

} // verus!
