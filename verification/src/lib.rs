//! Conway's Game of Life on a fixed-size toroidal board: the transition rule,
//! the bookkeeping that tells a settled board from an evolving one, and the
//! decisions behind each externally callable operation.

pub mod driver;
pub mod host;
pub mod laws;
pub mod records;
pub mod torus;
pub mod transition;

pub use driver::{add_cells, force_alive, init, reset_grid, update_grid};
pub use records::{Grid, GridInfo, PreviousGrid, Status, UpdateGridSchedule};
pub use torus::count_neighbors;
pub use transition::{next_generation, next_generation_by_cell};
