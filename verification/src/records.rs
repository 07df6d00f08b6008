//! The stored records of a simulation: the grid, the snapshot that trails it
//! by one tick, its status, and the recurring timer that drives it.

use vstd::prelude::*;
use crate::torus::is_board;

verus! {

/// The side of every stored grid.
pub const GRID_SIZE: u32 = 200;

/// The number of cells of every stored grid, `GRID_SIZE` squared.
pub const CELL_COUNT: usize = 40_000;

/// The time between two ticks in microseconds: thirty ticks a second.
pub const TICK_INTERVAL_MICROS: i64 = 33_333;

/// How a simulation is doing: still changing, or settled on a board that the
/// rule maps to itself. Only such fixed points are recognised; a pattern that
/// repeats with a longer period counts as evolving.
#[derive(Clone, Copy, Debug, PartialEq, Eq, Structural)]
pub enum Status {
    Evolving,
    Oscillating,
}

/// The text under which a status is shown to observers.
pub open spec fn status_label(status: Status) -> Seq<char> {
    match status {
        Status::Evolving => "Evolving"@,
        Status::Oscillating => "Oscillating"@,
    }
}

impl Status {
    /// The text under which this status is shown to observers.
    pub fn label(&self) -> (text: &'static str)
        ensures
            text@ == status_label(*self),
    {
        match self {
            Status::Evolving => "Evolving",
            Status::Oscillating => "Oscillating",
        }
    }

    /// The status that a text names, if it names one.
    pub fn from_label(text: &String) -> (status: Option<Status>)
        ensures
            status matches Some(s) ==> text@ == status_label(s),
            status is None ==> text@ != status_label(Status::Evolving) && text@ != status_label(
                Status::Oscillating,
            ),
    {
        if *text == "Evolving".to_owned() {
            Some(Status::Evolving)
        } else if *text == "Oscillating".to_owned() {
            Some(Status::Oscillating)
        } else {
            None
        }
    }
}

/// The current board of one simulation, row-major.
#[derive(Clone, Debug, PartialEq, Eq)]
pub struct Grid {
    pub gridid: u32,
    pub cells: Vec<bool>,
}

impl Grid {
    /// A stored grid always holds `GRID_SIZE` by `GRID_SIZE` cells.
    pub open spec fn well_formed(&self) -> bool {
        is_board(self.cells@, GRID_SIZE as int)
    }

    /// Tests the length that every stored grid must have.
    pub fn is_well_formed(&self) -> (ok: bool)
        ensures
            ok == self.well_formed(),
    {
        self.cells.len() == CELL_COUNT
    }
}

/// The board as it was before the most recent tick.
#[derive(Clone, Debug, PartialEq, Eq)]
pub struct PreviousGrid {
    pub gridid: u32,
    pub cells: Vec<bool>,
}

/// The generation counter and the status of one simulation.
#[derive(Clone, Copy, Debug, PartialEq, Eq, Structural)]
pub struct GridInfo {
    pub gridid: u32,
    pub generation: u32,
    pub status: Status,
}

/// The status that a stored text stands for: a text that names no status is
/// read as evolving, the status that every simulation starts with.
pub open spec fn stored_status(text: Seq<char>) -> Status {
    if text == status_label(Status::Oscillating) {
        Status::Oscillating
    } else {
        Status::Evolving
    }
}

impl GridInfo {
    /// The record that a stored row stands for, its status given as text.
    pub fn from_stored(gridid: u32, generation: u32, status: &String) -> (info: GridInfo)
        ensures
            info == (GridInfo { gridid, generation, status: stored_status(status@) }),
    {
        proof {
            reveal_strlit("Evolving");
            reveal_strlit("Oscillating");
            assert("Evolving"@.len() != "Oscillating"@.len());
        }
        let status = match Status::from_label(status) {
            Some(Status::Oscillating) => Status::Oscillating,
            _ => Status::Evolving,
        };
        GridInfo { gridid, generation, status }
    }
}

/// The registration of the recurring timer of one grid: the host delivers a
/// tick for `gridid` as `scheduled_at` says, for good where that is an
/// interval.
#[derive(Clone, Copy, Debug, PartialEq, Eq)]
pub struct UpdateGridSchedule {
    pub scheduled_id: u64,
    pub scheduled_at: spacetimedb::ScheduleAt,
    pub gridid: u32,
}

} // verus!
