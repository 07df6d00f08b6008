//! The decisions behind each operation on a stored simulation: the tick that
//! the recurring timer delivers, the first seeding, the reseeding, and the
//! forcing of chosen cells alive. Each takes the records that were read and
//! gives back the records to write.

use vstd::prelude::*;
use spacetimedb::TimeDuration;
use crate::host::{every, repeat_micros};
use crate::records::{
    Grid, GridInfo, PreviousGrid, Status, UpdateGridSchedule, CELL_COUNT, GRID_SIZE,
    TICK_INTERVAL_MICROS,
};
use crate::torus::next_board;
use crate::transition::next_generation;

verus! {

/// The status that a tick reports: settled when the new board is, cell for
/// cell, the snapshot taken before the previous tick.
pub open spec fn status_after(snapshot: Seq<bool>, next: Seq<bool>) -> Status {
    if snapshot == next {
        Status::Oscillating
    } else {
        Status::Evolving
    }
}

/// A simulation as the ticks see it.
pub struct Simulation {
    pub cells: Seq<bool>,
    pub snapshot: Seq<bool>,
    pub generation: int,
    pub status: Status,
}

/// One tick of a simulation on a board of the given side.
pub open spec fn tick(sim: Simulation, side: int) -> Simulation {
    Simulation {
        cells: next_board(sim.cells, side),
        snapshot: sim.cells,
        generation: sim.generation + 1,
        status: status_after(sim.snapshot, next_board(sim.cells, side)),
    }
}

/// A simulation after `n` ticks.
pub open spec fn ticks(sim: Simulation, side: int, n: nat) -> Simulation
    decreases n,
{
    if n == 0 {
        sim
    } else {
        tick(ticks(sim, side, (n - 1) as nat), side)
    }
}

/// The simulation that three stored records describe.
pub open spec fn simulation_of(grid: Grid, previous: PreviousGrid, info: GridInfo) -> Simulation {
    Simulation {
        cells: grid.cells@,
        snapshot: previous.cells@,
        generation: info.generation as int,
        status: info.status,
    }
}

/// Whether a tick can be applied to these records: the grid has its full
/// length and the generation counter has room for one more.
pub open spec fn tickable(grid: Grid, info: GridInfo) -> bool {
    grid.well_formed() && info.generation < u32::MAX
}

/// Whether a delivery of the timer is applied: it comes from the scheduler
/// itself, and the grid, its snapshot and its status were all found.
pub open spec fn tick_applies(
    sender: Seq<u8>,
    own: Seq<u8>,
    grid: Option<Grid>,
    previous: Option<PreviousGrid>,
    info: Option<GridInfo>,
) -> bool {
    sender == own && grid.is_some() && previous.is_some() && info.is_some()
}

/// Whether two boards agree cell for cell.
pub fn same_cells(a: &Vec<bool>, b: &Vec<bool>) -> (same: bool)
    ensures
        same == (a@ == b@),
{
    if a.len() != b.len() {
        return false;
    }
    let mut i: usize = 0;
    while i < a.len()
        invariant
            i <= a.len(),
            a.len() == b.len(),
            forall|j: int| 0 <= j < i ==> a@[j] == b@[j],
        decreases a.len() - i,
    {
        if a[i] != b[i] {
            return false;
        }
        i = i + 1;
    }
    proof {
        assert(a@ =~= b@);
    }
    true
}

/// Classifies a tick: the status from comparing the snapshot with the new
/// board, and the generation counter moved on by one.
pub fn classify(snapshot: &Vec<bool>, next: &Vec<bool>, generation: u32) -> (outcome: (Status, u32))
    requires
        generation < u32::MAX,
    ensures
        outcome.0 == status_after(snapshot@, next@),
        outcome.1 == generation + 1,
{
    let status = if same_cells(snapshot, next) {
        Status::Oscillating
    } else {
        Status::Evolving
    };
    (status, generation + 1)
}

/// Whether a call comes from the scheduler itself: the caller's identity is,
/// byte for byte, the identity of the system.
pub fn is_scheduler(sender: &[u8; 32], own: &[u8; 32]) -> (yes: bool)
    ensures
        yes == (sender@ == own@),
{
    let mut i: usize = 0;
    while i < 32
        invariant
            i <= 32,
            forall|j: int| 0 <= j < i ==> sender@[j] == own@[j],
        decreases 32 - i,
    {
        if sender[i] != own[i] {
            return false;
        }
        i = i + 1;
    }
    proof {
        assert(sender@ =~= own@);
    }
    true
}

/// The records that a tick writes back: all three, or none at all.
#[derive(Clone, Debug, PartialEq, Eq)]
pub struct TickWrites {
    pub grid: Grid,
    pub previous: PreviousGrid,
    pub info: GridInfo,
}

/// One delivery of the recurring timer for the grid `gridid`, given the
/// records found under that identifier. A call that does not come from the
/// scheduler changes nothing, whatever is stored; so does a call that misses
/// the grid, its snapshot or its status. Otherwise the tick applies as a
/// whole: the grid moves on by one generation, the status is classified
/// against the snapshot from before the previous tick, and the snapshot
/// becomes the board from before this tick.
pub fn update_grid(
    sender: &[u8; 32],
    own: &[u8; 32],
    gridid: u32,
    grid: Option<Grid>,
    previous: Option<PreviousGrid>,
    info: Option<GridInfo>,
) -> (writes: Option<TickWrites>)
    requires
        tick_applies(sender@, own@, grid, previous, info) ==> tickable(grid.unwrap(), info.unwrap()),
    ensures
        writes.is_some() <==> tick_applies(sender@, own@, grid, previous, info),
        writes matches Some(w) ==> {
            &&& w.grid.gridid == gridid
            &&& w.grid.cells@ == next_board(grid.unwrap().cells@, GRID_SIZE as int)
            &&& w.grid.well_formed()
            &&& w.previous.gridid == gridid
            &&& w.previous.cells@ == grid.unwrap().cells@
            &&& w.info.gridid == gridid
            &&& w.info.generation == info.unwrap().generation + 1
            &&& w.info.status == status_after(previous.unwrap().cells@, w.grid.cells@)
            &&& simulation_of(w.grid, w.previous, w.info) == tick(
                simulation_of(grid.unwrap(), previous.unwrap(), info.unwrap()),
                GRID_SIZE as int,
            )
        },
{
    if !is_scheduler(sender, own) {
        return None;
    }
    match grid {
        None => None,
        Some(current) => match previous {
            None => None,
            Some(snapshot) => match info {
                None => None,
                Some(found) => {
                    let next_cells: Vec<bool> = next_generation(&current.cells, GRID_SIZE as usize);
                    let outcome = classify(&snapshot.cells, &next_cells, found.generation);
                    Some(
                        TickWrites {
                            grid: Grid { gridid, cells: next_cells },
                            previous: PreviousGrid { gridid, cells: current.cells },
                            info: GridInfo { gridid, status: outcome.0, generation: outcome.1 },
                        },
                    )
                },
            },
        },
    }
}

/// The records of a freshly seeded simulation.
#[derive(Clone, Debug, PartialEq, Eq)]
pub struct InitWrites {
    pub grid: Grid,
    pub info: GridInfo,
    pub previous: PreviousGrid,
    pub schedule: UpdateGridSchedule,
}

/// Sets up grid 0 from the seeded cells: the grid, a snapshot that equals it,
/// generation 0 with status evolving, and the timer that ticks it thirty
/// times a second, for good.
pub fn init(cells: Vec<bool>) -> (writes: InitWrites)
    requires
        cells@.len() == CELL_COUNT,
    ensures
        writes.grid.gridid == 0,
        writes.grid.cells@ == cells@,
        writes.grid.well_formed(),
        writes.info == (GridInfo { gridid: 0, generation: 0, status: Status::Evolving }),
        writes.previous.gridid == 0,
        writes.previous.cells@ == cells@,
        writes.schedule.scheduled_id == 0,
        writes.schedule.gridid == 0,
        repeat_micros(writes.schedule.scheduled_at) == Some(TICK_INTERVAL_MICROS),
        tickable(writes.grid, writes.info),
{
    let snapshot: Vec<bool> = copy_cells(&cells);
    InitWrites {
        grid: Grid { gridid: 0, cells },
        info: GridInfo { gridid: 0, generation: 0, status: Status::Evolving },
        previous: PreviousGrid { gridid: 0, cells: snapshot },
        schedule: UpdateGridSchedule {
            scheduled_id: 0,
            scheduled_at: every(TimeDuration::from_micros(TICK_INTERVAL_MICROS)),
            gridid: 0,
        },
    }
}

/// A second vector with the same cells.
fn copy_cells(cells: &Vec<bool>) -> (copy: Vec<bool>)
    ensures
        copy@ == cells@,
{
    let mut copy: Vec<bool> = Vec::new();
    let mut i: usize = 0;
    while i < cells.len()
        invariant
            i <= cells.len(),
            copy@ == cells@.subrange(0, i as int),
        decreases cells.len() - i,
    {
        copy.push(cells[i]);
        proof {
            assert(copy@ =~= cells@.subrange(0, i + 1));
        }
        i = i + 1;
    }
    proof {
        assert(copy@ =~= cells@);
    }
    copy
}

/// The records that a reseeding writes.
#[derive(Clone, Debug, PartialEq, Eq)]
pub struct ResetWrites {
    pub grid: Grid,
    pub info: GridInfo,
}

/// Reseeds the grid `gridid` with the given cells and starts its count anew:
/// generation 0, status evolving. Where no grid is stored under the
/// identifier nothing is written. Whatever the cells hold, the next tick can
/// be applied to the result.
pub fn reset_grid(gridid: u32, found: bool, cells: Vec<bool>) -> (writes: Option<ResetWrites>)
    requires
        found ==> cells@.len() == CELL_COUNT,
    ensures
        writes.is_some() <==> found,
        writes matches Some(w) ==> {
            &&& w.grid.gridid == gridid
            &&& w.grid.cells@ == cells@
            &&& w.info == (GridInfo { gridid, generation: 0, status: Status::Evolving })
            &&& tickable(w.grid, w.info)
        },
{
    if !found {
        return None;
    }
    Some(
        ResetWrites {
            grid: Grid { gridid, cells },
            info: GridInfo { gridid, generation: 0, status: Status::Evolving },
        },
    )
}

/// A cell index that lies outside the grid.
#[derive(Clone, Copy, Debug, PartialEq, Eq, Structural)]
pub struct CellIndexError {
    pub index: u32,
}

/// Whether `j` is among the first `k` of the indices to force alive.
pub open spec fn forced_within(indices: Seq<u32>, k: int, j: int) -> bool {
    exists|i: int| 0 <= i < k && #[trigger] indices[i] == j
}

/// Whether `j` is among the indices to force alive.
pub open spec fn forced(indices: Seq<u32>, j: int) -> bool {
    forced_within(indices, indices.len() as int, j)
}

/// The cells after the given indices were forced alive: every other cell is
/// as it was.
pub open spec fn with_cells(cells: Seq<bool>, indices: Seq<u32>) -> Seq<bool> {
    Seq::new(cells.len(), |j: int| cells[j] || forced(indices, j))
}

/// Whether every index names a cell of a grid of `len` cells.
pub open spec fn all_inside(indices: Seq<u32>, len: int) -> bool {
    forall|i: int| 0 <= i < indices.len() ==> #[trigger] indices[i] < len
}

/// The first of the indices that names no cell of the grid, if there is one.
pub fn first_outside(cells_to_add: &Vec<u32>) -> (found: Option<u32>)
    ensures
        found is None <==> all_inside(cells_to_add@, CELL_COUNT as int),
        found matches Some(index) ==> exists|k: int|
            0 <= k < cells_to_add@.len() && #[trigger] cells_to_add@[k] == index && index >= CELL_COUNT
                && all_inside(cells_to_add@.subrange(0, k), CELL_COUNT as int),
{
    let mut k: usize = 0;
    while k < cells_to_add.len()
        invariant
            k <= cells_to_add.len(),
            all_inside(cells_to_add@.subrange(0, k as int), CELL_COUNT as int),
        decreases cells_to_add.len() - k,
    {
        let index: u32 = cells_to_add[k];
        if index as usize >= CELL_COUNT {
            proof {
                assert(cells_to_add@[k as int] == index);
            }
            return Some(index);
        }
        proof {
            assert forall|i: int| 0 <= i < k + 1 implies #[trigger] cells_to_add@.subrange(0, k + 1)[i]
                < CELL_COUNT by {
                if i < k {
                    assert(cells_to_add@.subrange(0, k as int)[i] < CELL_COUNT);
                }
            }
        }
        k = k + 1;
    }
    proof {
        assert(cells_to_add@.subrange(0, k as int) =~= cells_to_add@);
    }
    None
}

/// Forces the cells at the given indices alive in place and leaves every
/// other cell as it is. An index that names no cell of the grid is rejected:
/// the first such index is reported and the grid stays as it was, also where
/// earlier indices were in range.
pub fn force_alive(grid: &mut Grid, cells_to_add: &Vec<u32>) -> (result: Result<(), CellIndexError>)
    requires
        old(grid).well_formed(),
    ensures
        result is Ok <==> all_inside(cells_to_add@, CELL_COUNT as int),
        result is Ok ==> final(grid).gridid == old(grid).gridid && final(grid).cells@ == with_cells(
            old(grid).cells@,
            cells_to_add@,
        ),
        result matches Err(e) ==> *final(grid) == *old(grid) && exists|k: int|
            0 <= k < cells_to_add@.len() && #[trigger] cells_to_add@[k] == e.index && e.index >= CELL_COUNT
                && all_inside(cells_to_add@.subrange(0, k), CELL_COUNT as int),
        final(grid).well_formed(),
{
    match first_outside(cells_to_add) {
        Some(index) => Err(CellIndexError { index }),
        None => {
            let mut k: usize = 0;
            while k < cells_to_add.len()
                invariant
                    k <= cells_to_add.len(),
                    all_inside(cells_to_add@, CELL_COUNT as int),
                    grid.gridid == old(grid).gridid,
                    grid.cells@.len() == old(grid).cells@.len(),
                    grid.cells@.len() == CELL_COUNT,
                    forall|j: int|
                        0 <= j < grid.cells@.len() ==> grid.cells@[j] == (old(grid).cells@[j] || forced_within(
                            cells_to_add@,
                            k as int,
                            j,
                        )),
                decreases cells_to_add.len() - k,
            {
                let index: u32 = cells_to_add[k];
                proof {
                    assert(cells_to_add@[k as int] < CELL_COUNT);
                }
                grid.cells.set(index as usize, true);
                proof {
                    assert forall|j: int| 0 <= j < grid.cells@.len() implies grid.cells@[j] == (old(
                        grid,
                    ).cells@[j] || forced_within(cells_to_add@, k + 1, j)) by {
                        if forced_within(cells_to_add@, k as int, j) {
                            let i = choose|i: int| 0 <= i < k && #[trigger] cells_to_add@[i] == j;
                            assert(0 <= i < k + 1 && cells_to_add@[i] == j);
                        }
                        if j == index {
                            assert(cells_to_add@[k as int] == j);
                        }
                        if forced_within(cells_to_add@, k + 1, j) {
                            let i = choose|i: int| 0 <= i < k + 1 && #[trigger] cells_to_add@[i] == j;
                            if i < k {
                                assert(forced_within(cells_to_add@, k as int, j));
                            }
                        }
                    }
                }
                k = k + 1;
            }
            proof {
                assert(k == cells_to_add@.len());
                assert forall|j: int| 0 <= j < grid.cells@.len() implies grid.cells@[j] == with_cells(
                    old(grid).cells@,
                    cells_to_add@,
                )[j] by {
                    assert(forced(cells_to_add@, j) == forced_within(cells_to_add@, k as int, j));
                }
                assert(grid.cells@ =~= with_cells(old(grid).cells@, cells_to_add@));
            }
            Ok(())
        },
    }
}

/// Forces the cells at the given indices alive in the grid that was found,
/// and gives back the grid to write. Where no grid was found nothing is
/// written and nothing is reported. An index that names no cell of the grid
/// is rejected with the first such index, and nothing is written: the stored
/// grid stays as it was. The generation and the status are not touched.
pub fn add_cells(found: Option<Grid>, cells_to_add: &Vec<u32>) -> (result: Result<Option<Grid>, CellIndexError>)
    requires
        found matches Some(g) ==> g.well_formed(),
    ensures
        result is Err <==> found.is_some() && !all_inside(cells_to_add@, CELL_COUNT as int),
        result matches Ok(written) ==> written.is_some() == found.is_some(),
        result matches Ok(Some(w)) ==> {
            &&& w.gridid == found.unwrap().gridid
            &&& w.cells@ == with_cells(found.unwrap().cells@, cells_to_add@)
            &&& w.well_formed()
        },
        result matches Err(e) ==> exists|k: int|
            0 <= k < cells_to_add@.len() && #[trigger] cells_to_add@[k] == e.index && e.index >= CELL_COUNT
                && all_inside(cells_to_add@.subrange(0, k), CELL_COUNT as int),
{
    match found {
        None => Ok(None),
        Some(grid) => {
            let mut grid = grid;
            match force_alive(&mut grid, cells_to_add) {
                Ok(()) => Ok(Some(grid)),
                Err(refused) => Err(refused),
            }
        },
    }
}

} // verus!
