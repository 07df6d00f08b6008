//! What holds of the game on every board, proved from the definitions that
//! the contracts of the library use.

use vstd::prelude::*;
use crate::driver::{tick, ticks, Simulation};
use crate::records::Status;
use crate::torus::{
    cell_index, is_board, lemma_index_bound, lemma_index_join, lemma_index_split, lemma_wrap_cases,
    live_at, neighbor_count, next_board, next_cell, rule, wrap,
};

verus! {

/// A cell has between zero and eight live neighbours.
pub proof fn law_count_in_range(cells: Seq<bool>, side: int, x: int, y: int)
    ensures
        0 <= neighbor_count(cells, side, x, y) <= 8,
{
}

/// The next state of a cell of the board is the rule applied to its current
/// state and its number of live neighbours.
pub proof fn law_next_follows_rule(cells: Seq<bool>, side: int, x: int, y: int)
    requires
        is_board(cells, side),
        0 <= x < side,
        0 <= y < side,
    ensures
        0 <= cell_index(side, x, y) < cells.len(),
        next_board(cells, side).len() == cells.len(),
        next_board(cells, side)[cell_index(side, x, y)] == rule(
            cells[cell_index(side, x, y)],
            neighbor_count(cells, side, x, y),
        ),
{
    reveal(next_cell);
    lemma_index_bound(side, x, y);
    lemma_index_split(side, x, y);
}

/// On a board without a live cell every coordinate names a dead cell.
proof fn lemma_dead_everywhere(cells: Seq<bool>, side: int, x: int, y: int)
    requires
        is_board(cells, side),
        side > 0,
        -side <= x < 2 * side,
        -side <= y < 2 * side,
        forall|i: int| 0 <= i < cells.len() ==> !cells[i],
    ensures
        !live_at(cells, side, x, y),
{
    lemma_wrap_cases(x, side);
    lemma_wrap_cases(y, side);
    lemma_index_bound(side, wrap(x, side), wrap(y, side));
}

/// A board without a live cell has no live cell one generation later.
pub proof fn law_dead_board_stays_dead(cells: Seq<bool>, side: int)
    requires
        is_board(cells, side),
        forall|i: int| 0 <= i < cells.len() ==> !cells[i],
    ensures
        next_board(cells, side).len() == cells.len(),
        forall|i: int| 0 <= i < cells.len() ==> !next_board(cells, side)[i],
{
    assert forall|i: int| 0 <= i < cells.len() implies !next_board(cells, side)[i] by {
        reveal(next_cell);
        lemma_index_join(side, i);
        let x = i / side;
        let y = i % side;
        lemma_dead_everywhere(cells, side, x - 1, y - 1);
        lemma_dead_everywhere(cells, side, x - 1, y);
        lemma_dead_everywhere(cells, side, x - 1, y + 1);
        lemma_dead_everywhere(cells, side, x, y - 1);
        lemma_dead_everywhere(cells, side, x, y + 1);
        lemma_dead_everywhere(cells, side, x + 1, y - 1);
        lemma_dead_everywhere(cells, side, x + 1, y);
        lemma_dead_everywhere(cells, side, x + 1, y + 1);
        assert(neighbor_count(cells, side, x, y) == 0);
    }
}

/// A live cell stays alive with exactly two or three live neighbours and dies
/// with any other number.
pub proof fn law_live_cell_fate(cells: Seq<bool>, side: int, x: int, y: int)
    requires
        is_board(cells, side),
        0 <= x < side,
        0 <= y < side,
        cells[cell_index(side, x, y)],
    ensures
        next_board(cells, side)[cell_index(side, x, y)] <==> (neighbor_count(cells, side, x, y) == 2
            || neighbor_count(cells, side, x, y) == 3),
{
    law_next_follows_rule(cells, side, x, y);
}

/// A dead cell comes alive with exactly three live neighbours and stays dead
/// with any other number.
pub proof fn law_dead_cell_fate(cells: Seq<bool>, side: int, x: int, y: int)
    requires
        is_board(cells, side),
        0 <= x < side,
        0 <= y < side,
        !cells[cell_index(side, x, y)],
    ensures
        next_board(cells, side)[cell_index(side, x, y)] <==> neighbor_count(cells, side, x, y) == 3,
{
    law_next_follows_rule(cells, side, x, y);
}

/// The board closes on itself: the corner `(0, 0)` is a neighbour of the far
/// corner, of the end of its own row and of the end of its own column, and
/// each of them is a neighbour of it.
pub proof fn law_edges_touch(cells: Seq<bool>, side: int)
    requires
        is_board(cells, side),
        side >= 1,
    ensures
        wrap(side, side) == 0,
        wrap(-1, side) == side - 1,
        cells[cell_index(side, 0, 0)] ==> {
            &&& neighbor_count(cells, side, side - 1, side - 1) >= 1
            &&& neighbor_count(cells, side, side - 1, 0) >= 1
            &&& neighbor_count(cells, side, 0, side - 1) >= 1
        },
        cells[cell_index(side, side - 1, side - 1)] ==> neighbor_count(cells, side, 0, 0) >= 1,
        cells[cell_index(side, side - 1, 0)] ==> neighbor_count(cells, side, 0, 0) >= 1,
        cells[cell_index(side, 0, side - 1)] ==> neighbor_count(cells, side, 0, 0) >= 1,
{
    lemma_wrap_cases(side, side);
    lemma_wrap_cases(-1, side);
    lemma_wrap_cases(0, side);
    lemma_wrap_cases(side - 1, side);
    assert(live_at(cells, side, side - 1 + 1, side - 1 + 1) == cells[cell_index(side, 0, 0)]);
    assert(live_at(cells, side, side - 1 + 1, 0) == cells[cell_index(side, 0, 0)]);
    assert(live_at(cells, side, 0, side - 1 + 1) == cells[cell_index(side, 0, 0)]);
    assert(live_at(cells, side, 0 - 1, 0 - 1) == cells[cell_index(side, side - 1, side - 1)]);
    assert(live_at(cells, side, 0 - 1, 0) == cells[cell_index(side, side - 1, 0)]);
    assert(live_at(cells, side, 0, 0 - 1) == cells[cell_index(side, 0, side - 1)]);
    law_count_in_range(cells, side, 0, 0);
}

/// The next board depends on the current board alone: boards that agree cell
/// for cell have the same successor.
pub proof fn law_next_depends_on_board_alone(a: Seq<bool>, b: Seq<bool>, side: int)
    requires
        a.len() == b.len(),
        forall|i: int| 0 <= i < a.len() ==> a[i] == b[i],
    ensures
        next_board(a, side) == next_board(b, side),
{
    assert(a =~= b);
}

/// A board that the rule maps to itself is reported as settled by the second
/// tick, whatever the snapshot and the status were before.
pub proof fn law_fixed_point_is_reported(sim: Simulation, side: int)
    requires
        next_board(sim.cells, side) == sim.cells,
    ensures
        ticks(sim, side, 2).status == Status::Oscillating,
        ticks(sim, side, 2).cells == sim.cells,
{
    reveal_with_fuel(ticks, 3);
}

/// After `n` ticks the generation counter has grown by `n`.
pub proof fn law_generation_counts_ticks(sim: Simulation, side: int, n: nat)
    ensures
        ticks(sim, side, n).generation == sim.generation + n,
    decreases n,
{
    if n > 0 {
        law_generation_counts_ticks(sim, side, (n - 1) as nat);
    }
}

/// The status after a tick is settled exactly when the new board is the
/// snapshot from before the previous tick.
pub proof fn law_status_compares_snapshot(sim: Simulation, side: int)
    ensures
        tick(sim, side).status == Status::Oscillating <==> sim.snapshot == next_board(sim.cells, side),
        tick(sim, side).snapshot == sim.cells,
{
}

} // verus!
