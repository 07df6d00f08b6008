//! One generation of the game, computed in two passes: every live cell first
//! adds one to the counter of each of its eight neighbours, then the rule is
//! applied to each cell from the accumulated counters. The result is proved to
//! be the board that counting per cell would give.

use vstd::prelude::*;
use crate::torus::{
    cell_index, count_neighbors, is_board, lemma_index_bound, lemma_index_split, lemma_wrap_cases, live,
    neighbor_count, next_board, next_cell, shifted, wrap,
};

verus! {

/// Whether the spreading pass, standing at the source cell `(kx, ky)` with the
/// first `m` of its nine directions done, is past direction `o` of the source
/// cell `(x, y)`.
pub open spec fn spread_done(x: int, y: int, o: int, kx: int, ky: int, m: int) -> bool {
    x < kx || (x == kx && (y < ky || (y == ky && o < m)))
}

/// What the target `(tx, ty)` has received so far from its neighbour in
/// direction `(dx, dy)`: one if that neighbour is alive and has already
/// spread in the opposite direction, else nothing.
#[verifier::opaque]
pub open spec fn received(
    cells: Seq<bool>,
    side: int,
    tx: int,
    ty: int,
    dx: int,
    dy: int,
    kx: int,
    ky: int,
    m: int,
) -> int {
    let nx = wrap(tx + dx, side);
    let ny = wrap(ty + dy, side);
    if cells[cell_index(side, nx, ny)] && spread_done(nx, ny, (1 - dx) * 3 + (1 - dy), kx, ky, m) {
        1
    } else {
        0
    }
}

/// The counter of the target `(tx, ty)` when the spreading pass stands at
/// `(kx, ky)` with `m` directions done.
pub open spec fn tally(cells: Seq<bool>, side: int, tx: int, ty: int, kx: int, ky: int, m: int) -> int {
    received(cells, side, tx, ty, -1, -1, kx, ky, m) + received(cells, side, tx, ty, -1, 0, kx, ky, m)
        + received(cells, side, tx, ty, -1, 1, kx, ky, m) + received(cells, side, tx, ty, 0, -1, kx, ky, m)
        + received(cells, side, tx, ty, 0, 1, kx, ky, m) + received(cells, side, tx, ty, 1, -1, kx, ky, m)
        + received(cells, side, tx, ty, 1, 0, kx, ky, m) + received(cells, side, tx, ty, 1, 1, kx, ky, m)
}

/// Every counter holds the tally of its cell for the given progress of the
/// spreading pass.
pub open spec fn tallied(counts: Seq<u8>, cells: Seq<bool>, side: int, kx: int, ky: int, m: int) -> bool {
    &&& counts.len() == cells.len()
    &&& forall|tx: int, ty: int|
        0 <= tx < side && 0 <= ty < side ==> counts[#[trigger] cell_index(side, tx, ty)] == tally(
            cells,
            side,
            tx,
            ty,
            kx,
            ky,
            m,
        )
}

/// Every counter holds the number of live neighbours of its cell.
#[verifier::opaque]
pub open spec fn counted(counts: Seq<u8>, cells: Seq<bool>, side: int) -> bool {
    &&& counts.len() == cells.len()
    &&& forall|tx: int, ty: int|
        0 <= tx < side && 0 <= ty < side ==> counts[#[trigger] cell_index(side, tx, ty)]
            == neighbor_count(cells, side, tx, ty)
}

/// How the share of one direction moves with the spreading pass.
proof fn lemma_received(
    cells: Seq<bool>,
    side: int,
    tx: int,
    ty: int,
    dx: int,
    dy: int,
    kx: int,
    ky: int,
    m: int,
)
    requires
        0 <= tx < side,
        0 <= ty < side,
        -1 <= dx <= 1,
        -1 <= dy <= 1,
    ensures
        0 <= received(cells, side, tx, ty, dx, dy, kx, ky, m) <= 1,
        received(cells, side, tx, ty, dx, dy, 0, 0, 0) == 0,
        received(cells, side, tx, ty, dx, dy, side, 0, 0) == live(cells, side, tx + dx, ty + dy),
        received(cells, side, tx, ty, dx, dy, kx, ky, 9) == received(cells, side, tx, ty, dx, dy, kx, ky + 1, 0),
        received(cells, side, tx, ty, dx, dy, kx, side, 0) == received(cells, side, tx, ty, dx, dy, kx + 1, 0, 0),
        0 <= kx < side && 0 <= ky < side && !cells[cell_index(side, kx, ky)] ==> received(
            cells,
            side,
            tx,
            ty,
            dx,
            dy,
            kx,
            ky,
            0,
        ) == received(cells, side, tx, ty, dx, dy, kx, ky, 9),
        0 <= kx < side && 0 <= ky < side ==> received(cells, side, tx, ty, dx, dy, kx, ky, m + 1) == received(
            cells,
            side,
            tx,
            ty,
            dx,
            dy,
            kx,
            ky,
            m,
        ) + (if (1 - dx) * 3 + (1 - dy) == m && cells[cell_index(side, kx, ky)] && tx == wrap(kx - dx, side)
            && ty == wrap(ky - dy, side) {
            1int
        } else {
            0int
        }),
{
    reveal(received);
    lemma_wrap_cases(tx + dx, side);
    lemma_wrap_cases(ty + dy, side);
    if 0 <= kx < side && 0 <= ky < side {
        lemma_wrap_cases(kx - dx, side);
        lemma_wrap_cases(ky - dy, side);
    }
}

/// How the tally of one cell moves with the spreading pass: nothing is there
/// at the start, the number of live neighbours at the end, and in between one
/// more direction of the source `(kx, ky)` adds one to the tally of the cell
/// that lies in that direction, and to no other.
proof fn lemma_tally(cells: Seq<bool>, side: int, tx: int, ty: int, kx: int, ky: int, m: int)
    requires
        0 <= tx < side,
        0 <= ty < side,
    ensures
        0 <= tally(cells, side, tx, ty, kx, ky, m) <= 8,
        tally(cells, side, tx, ty, 0, 0, 0) == 0,
        tally(cells, side, tx, ty, side, 0, 0) == neighbor_count(cells, side, tx, ty),
        tally(cells, side, tx, ty, kx, ky, 9) == tally(cells, side, tx, ty, kx, ky + 1, 0),
        tally(cells, side, tx, ty, kx, side, 0) == tally(cells, side, tx, ty, kx + 1, 0, 0),
        0 <= kx < side && 0 <= ky < side && !cells[cell_index(side, kx, ky)] ==> tally(
            cells,
            side,
            tx,
            ty,
            kx,
            ky,
            0,
        ) == tally(cells, side, tx, ty, kx, ky, 9),
        0 <= kx < side && 0 <= ky < side && 0 <= m < 9 ==> tally(cells, side, tx, ty, kx, ky, m + 1) == tally(
            cells,
            side,
            tx,
            ty,
            kx,
            ky,
            m,
        ) + (if m != 4 && cells[cell_index(side, kx, ky)] && tx == wrap(kx + m / 3 - 1, side) && ty == wrap(
            ky + m % 3 - 1,
            side,
        ) {
            1int
        } else {
            0int
        }),
{
    lemma_received(cells, side, tx, ty, -1, -1, kx, ky, m);
    lemma_received(cells, side, tx, ty, -1, 0, kx, ky, m);
    lemma_received(cells, side, tx, ty, -1, 1, kx, ky, m);
    lemma_received(cells, side, tx, ty, 0, -1, kx, ky, m);
    lemma_received(cells, side, tx, ty, 0, 1, kx, ky, m);
    lemma_received(cells, side, tx, ty, 1, -1, kx, ky, m);
    lemma_received(cells, side, tx, ty, 1, 0, kx, ky, m);
    lemma_received(cells, side, tx, ty, 1, 1, kx, ky, m);
}

/// Before the pass starts nothing has been received.
proof fn lemma_tally_start(counts: Seq<u8>, cells: Seq<bool>, side: int)
    requires
        counts.len() == cells.len(),
        forall|i: int| 0 <= i < counts.len() ==> counts[i] == 0,
        is_board(cells, side),
    ensures
        tallied(counts, cells, side, 0, 0, 0),
{
    assert forall|tx: int, ty: int| 0 <= tx < side && 0 <= ty < side implies counts[#[trigger] cell_index(
        side,
        tx,
        ty,
    )] == tally(cells, side, tx, ty, 0, 0, 0) by {
        lemma_tally(cells, side, tx, ty, 0, 0, 0);
        lemma_index_bound(side, tx, ty);
    }
}

/// A dead source spreads nothing: its nine directions are done at once.
proof fn lemma_dead_source(counts: Seq<u8>, cells: Seq<bool>, side: int, kx: int, ky: int)
    requires
        tallied(counts, cells, side, kx, ky, 0),
        0 <= kx < side,
        0 <= ky < side,
        !cells[cell_index(side, kx, ky)],
    ensures
        tallied(counts, cells, side, kx, ky, 9),
{
    assert forall|tx: int, ty: int| 0 <= tx < side && 0 <= ty < side implies counts[#[trigger] cell_index(
        side,
        tx,
        ty,
    )] == tally(cells, side, tx, ty, kx, ky, 9) by {
        lemma_tally(cells, side, tx, ty, kx, ky, 0);
    }
}

/// A source with all nine directions done is a finished source.
proof fn lemma_next_source(counts: Seq<u8>, cells: Seq<bool>, side: int, kx: int, ky: int)
    requires
        tallied(counts, cells, side, kx, ky, 9),
    ensures
        tallied(counts, cells, side, kx, ky + 1, 0),
{
    assert forall|tx: int, ty: int| 0 <= tx < side && 0 <= ty < side implies counts[#[trigger] cell_index(
        side,
        tx,
        ty,
    )] == tally(cells, side, tx, ty, kx, ky + 1, 0) by {
        lemma_tally(cells, side, tx, ty, kx, ky, 0);
    }
}

/// The end of a row is the start of the next one.
proof fn lemma_next_row(counts: Seq<u8>, cells: Seq<bool>, side: int, kx: int)
    requires
        tallied(counts, cells, side, kx, side, 0),
    ensures
        tallied(counts, cells, side, kx + 1, 0, 0),
{
    assert forall|tx: int, ty: int| 0 <= tx < side && 0 <= ty < side implies counts[#[trigger] cell_index(
        side,
        tx,
        ty,
    )] == tally(cells, side, tx, ty, kx + 1, 0, 0) by {
        lemma_tally(cells, side, tx, ty, kx, 0, 0);
    }
}

/// When every source is finished, the tally of a cell is its number of live
/// neighbours.
proof fn lemma_tally_end(counts: Seq<u8>, cells: Seq<bool>, side: int)
    requires
        tallied(counts, cells, side, side, 0, 0),
    ensures
        counted(counts, cells, side),
{
    reveal(counted);
    assert forall|tx: int, ty: int| 0 <= tx < side && 0 <= ty < side implies counts[#[trigger] cell_index(
        side,
        tx,
        ty,
    )] == neighbor_count(cells, side, tx, ty) by {
        lemma_tally(cells, side, tx, ty, 0, 0, 0);
    }
}

/// The live cell `(x, y)` adds one to the counter of each of its eight
/// neighbours.
fn spread(cells: &Vec<bool>, side: usize, counts: &mut Vec<u8>, x: usize, y: usize)
    requires
        is_board(cells@, side as int),
        x < side,
        y < side,
        cells@[cell_index(side as int, x as int, y as int)],
        tallied(old(counts)@, cells@, side as int, x as int, y as int, 0),
    ensures
        tallied(final(counts)@, cells@, side as int, x as int, y as int, 9),
{
    proof {
        assert(cells.len() == cells@.len());
    }
    let mut sx: u8 = 0;
    while sx < 3
        invariant
            sx <= 3,
            x < side,
            y < side,
            cells@.len() <= usize::MAX,
            is_board(cells@, side as int),
            cells@[cell_index(side as int, x as int, y as int)],
            tallied(counts@, cells@, side as int, x as int, y as int, sx * 3),
        decreases 3 - sx,
    {
        let mut sy: u8 = 0;
        while sy < 3
            invariant
                sx < 3,
                sy <= 3,
                x < side,
                y < side,
                cells@.len() <= usize::MAX,
                is_board(cells@, side as int),
                cells@[cell_index(side as int, x as int, y as int)],
                tallied(counts@, cells@, side as int, x as int, y as int, sx * 3 + sy),
            decreases 3 - sy,
        {
            let ghost m: int = sx * 3 + sy;
            let ghost before: Seq<u8> = counts@;
            if sx == 1 && sy == 1 {
                proof {
                    assert forall|tx: int, ty: int| 0 <= tx < side && 0 <= ty < side implies counts@[#[trigger] cell_index(
                        side as int,
                        tx,
                        ty,
                    )] == tally(cells@, side as int, tx, ty, x as int, y as int, m + 1) by {
                        lemma_tally(cells@, side as int, tx, ty, x as int, y as int, m);
                    }
                }
            } else {
                let nx: usize = shifted(x, sx, side);
                let ny: usize = shifted(y, sy, side);
                proof {
                    lemma_index_bound(side as int, nx as int, ny as int);
                    lemma_tally(cells@, side as int, nx as int, ny as int, x as int, y as int, m);
                    assert(nx * side + ny == cell_index(side as int, nx as int, ny as int));
                }
                let target: usize = nx * side + ny;
                let held: u8 = counts[target];
                counts.set(target, held + 1);
                proof {
                    assert forall|tx: int, ty: int| 0 <= tx < side && 0 <= ty < side implies counts@[#[trigger] cell_index(
                        side as int,
                        tx,
                        ty,
                    )] == tally(cells@, side as int, tx, ty, x as int, y as int, m + 1) by {
                        lemma_tally(cells@, side as int, tx, ty, x as int, y as int, m);
                        lemma_index_bound(side as int, tx, ty);
                        lemma_index_split(side as int, tx, ty);
                        lemma_index_split(side as int, nx as int, ny as int);
                        assert(before[cell_index(side as int, tx, ty)] == tally(
                            cells@,
                            side as int,
                            tx,
                            ty,
                            x as int,
                            y as int,
                            m,
                        ));
                    }
                }
            }
            sy = sy + 1;
        }
        sx = sx + 1;
    }
}

/// The first pass: the number of live neighbours of every cell, accumulated
/// from the live cells outwards.
pub fn neighbor_counts(cells: &Vec<bool>, side: usize) -> (counts: Vec<u8>)
    requires
        is_board(cells@, side as int),
    ensures
        counted(counts@, cells@, side as int),
{
    let n: usize = cells.len();
    let mut counts: Vec<u8> = vec![0u8; n];
    proof {
        lemma_tally_start(counts@, cells@, side as int);
    }
    let mut x: usize = 0;
    while x < side
        invariant
            x <= side,
            n == cells@.len(),
            is_board(cells@, side as int),
            tallied(counts@, cells@, side as int, x as int, 0, 0),
        decreases side - x,
    {
        let mut y: usize = 0;
        while y < side
            invariant
                x < side,
                y <= side,
                n == cells@.len(),
                is_board(cells@, side as int),
                tallied(counts@, cells@, side as int, x as int, y as int, 0),
            decreases side - y,
        {
            proof {
                lemma_index_bound(side as int, x as int, y as int);
                assert(x * side + y == cell_index(side as int, x as int, y as int));
            }
            let idx: usize = x * side + y;
            if cells[idx] {
                spread(cells, side, &mut counts, x, y);
            } else {
                proof {
                    lemma_dead_source(counts@, cells@, side as int, x as int, y as int);
                }
            }
            proof {
                lemma_next_source(counts@, cells@, side as int, x as int, y as int);
            }
            y = y + 1;
        }
        proof {
            lemma_next_row(counts@, cells@, side as int, x as int);
        }
        x = x + 1;
    }
    proof {
        lemma_tally_end(counts@, cells@, side as int);
    }
    counts
}

/// The next state of the cell `(x, y)`, from its counter.
fn counted_fate(cells: &Vec<bool>, counts: &Vec<u8>, side: usize, x: usize, y: usize) -> (alive: bool)
    requires
        is_board(cells@, side as int),
        counted(counts@, cells@, side as int),
        x < side,
        y < side,
    ensures
        alive == next_cell(cells@, side as int, cell_index(side as int, x as int, y as int)),
{
    proof {
        reveal(next_cell);
        reveal(counted);
        assert(cells.len() == side * side);
        lemma_index_bound(side as int, x as int, y as int);
        lemma_index_split(side as int, x as int, y as int);
        assert(x * side + y == cell_index(side as int, x as int, y as int));
    }
    let neighbors: u8 = counts[x * side + y];
    let is_alive: bool = cells[x * side + y];
    (is_alive && (neighbors == 2 || neighbors == 3)) || (!is_alive && neighbors == 3)
}

/// The second pass: the rule of the game applied to every cell from its
/// counter.
pub fn apply_rule(cells: &Vec<bool>, counts: &Vec<u8>, side: usize) -> (next: Vec<bool>)
    requires
        is_board(cells@, side as int),
        counted(counts@, cells@, side as int),
    ensures
        next@ == next_board(cells@, side as int),
{
    let n: usize = cells.len();
    let mut next: Vec<bool> = vec![false; n];
    let mut x: usize = 0;
    while x < side
        invariant
            x <= side,
            n == cells@.len(),
            next@.len() == n,
            is_board(cells@, side as int),
            counted(counts@, cells@, side as int),
            forall|i: int| 0 <= i < x * side ==> next@[i] == next_cell(cells@, side as int, i),
        decreases side - x,
    {
        let mut y: usize = 0;
        while y < side
            invariant
                x < side,
                y <= side,
                n == cells@.len(),
                next@.len() == n,
                is_board(cells@, side as int),
                counted(counts@, cells@, side as int),
                forall|i: int| 0 <= i < x * side + y ==> next@[i] == next_cell(cells@, side as int, i),
            decreases side - y,
        {
            proof {
                lemma_index_bound(side as int, x as int, y as int);
                assert(x * side + y == cell_index(side as int, x as int, y as int));
            }
            let idx: usize = x * side + y;
            let fate: bool = counted_fate(cells, counts, side, x, y);
            next.set(idx, fate);
            y = y + 1;
        }
        proof {
            assert((x + 1) * side == x * side + side) by (nonlinear_arith);
        }
        x = x + 1;
    }
    proof {
        assert(next@ =~= next_board(cells@, side as int));
    }
    next
}

/// Advances the board by one generation. The new board is computed from the
/// current one alone; no cell sees a neighbour's new state.
pub fn next_generation(cells: &Vec<bool>, side: usize) -> (next: Vec<bool>)
    requires
        is_board(cells@, side as int),
    ensures
        next@ == next_board(cells@, side as int),
        is_board(next@, side as int),
{
    let counts: Vec<u8> = neighbor_counts(cells, side);
    apply_rule(cells, &counts, side)
}

/// The next state of the cell `(x, y)`, from its own count of live
/// neighbours.
fn cell_fate(cells: &Vec<bool>, side: usize, x: usize, y: usize) -> (alive: bool)
    requires
        is_board(cells@, side as int),
        x < side,
        y < side,
    ensures
        alive == next_cell(cells@, side as int, cell_index(side as int, x as int, y as int)),
{
    proof {
        reveal(next_cell);
        assert(cells.len() == side * side);
        lemma_index_bound(side as int, x as int, y as int);
        lemma_index_split(side as int, x as int, y as int);
        assert(x * side + y == cell_index(side as int, x as int, y as int));
    }
    let neighbors: u8 = count_neighbors(x, y, cells, side);
    let is_alive: bool = cells[x * side + y];
    (is_alive && (neighbors == 2 || neighbors == 3)) || (!is_alive && neighbors == 3)
}

/// The same step computed cell by cell: each cell counts its own live
/// neighbours on the current board. It gives the board that the two passes
/// give.
pub fn next_generation_by_cell(cells: &Vec<bool>, side: usize) -> (next: Vec<bool>)
    requires
        is_board(cells@, side as int),
    ensures
        next@ == next_board(cells@, side as int),
        is_board(next@, side as int),
{
    let n: usize = cells.len();
    let mut next: Vec<bool> = vec![false; n];
    let mut x: usize = 0;
    while x < side
        invariant
            x <= side,
            n == cells@.len(),
            next@.len() == n,
            is_board(cells@, side as int),
            forall|i: int| 0 <= i < x * side ==> next@[i] == next_cell(cells@, side as int, i),
        decreases side - x,
    {
        let mut y: usize = 0;
        while y < side
            invariant
                x < side,
                y <= side,
                n == cells@.len(),
                next@.len() == n,
                is_board(cells@, side as int),
                forall|i: int| 0 <= i < x * side + y ==> next@[i] == next_cell(cells@, side as int, i),
            decreases side - y,
        {
            proof {
                lemma_index_bound(side as int, x as int, y as int);
                assert(x * side + y == cell_index(side as int, x as int, y as int));
            }
            let idx: usize = x * side + y;
            let fate: bool = cell_fate(cells, side, x, y);
            next.set(idx, fate);
            y = y + 1;
        }
        proof {
            assert((x + 1) * side == x * side + side) by (nonlinear_arith);
        }
        x = x + 1;
    }
    proof {
        assert(next@ =~= next_board(cells@, side as int));
    }
    next
}

} // verus!
