use spacetimedb::{ScheduleAt, TimeDuration};
use toroidal_life::driver::{
    classify, first_outside, is_scheduler, same_cells, CellIndexError, TickWrites,
};
use toroidal_life::records::{CELL_COUNT, GRID_SIZE, TICK_INTERVAL_MICROS};
use toroidal_life::{add_cells, force_alive, init, reset_grid, update_grid};
use toroidal_life::{Grid, GridInfo, PreviousGrid, Status, UpdateGridSchedule};

const OWN: [u8; 32] = [7u8; 32];

fn stranger() -> [u8; 32] {
    let mut id = [7u8; 32];
    id[31] = 8;
    id
}

fn block_board() -> Vec<bool> {
    let side = GRID_SIZE as usize;
    let mut cells = vec![false; CELL_COUNT];
    for (x, y) in [(10usize, 10usize), (10, 11), (11, 10), (11, 11)] {
        cells[x * side + y] = true;
    }
    cells
}

fn blinker_board() -> Vec<bool> {
    let side = GRID_SIZE as usize;
    let mut cells = vec![false; CELL_COUNT];
    for (x, y) in [(0usize, 199usize), (0, 0), (0, 1)] {
        cells[x * side + y] = true;
    }
    cells
}

fn tick_all(state: TickWrites) -> TickWrites {
    update_grid(&OWN, &OWN, state.grid.gridid, Some(state.grid), Some(state.previous), Some(state.info))
        .expect("the scheduler ticks an existing grid")
}

fn seeded(cells: Vec<bool>) -> TickWrites {
    let start = init(cells);
    TickWrites { grid: start.grid, previous: start.previous, info: start.info }
}

#[test]
fn constants_fit_together() {
    assert_eq!(GRID_SIZE, 200);
    assert_eq!(CELL_COUNT, (GRID_SIZE * GRID_SIZE) as usize);
    assert_eq!(TICK_INTERVAL_MICROS, 1_000_000 / 30);
}

#[test]
fn status_labels() {
    assert_eq!(Status::Evolving.label(), "Evolving");
    assert_eq!(Status::Oscillating.label(), "Oscillating");
    assert_eq!(Status::from_label(&"Evolving".to_string()), Some(Status::Evolving));
    assert_eq!(Status::from_label(&"Oscillating".to_string()), Some(Status::Oscillating));
    assert_eq!(Status::from_label(&"evolving".to_string()), None);
    assert_eq!(Status::from_label(&String::new()), None);
}

#[test]
fn init_creates_all_records() {
    let cells = blinker_board();
    let start = init(cells.clone());
    assert_eq!(start.grid, Grid { gridid: 0, cells: cells.clone() });
    assert_eq!(start.previous, PreviousGrid { gridid: 0, cells });
    assert_eq!(start.info, GridInfo { gridid: 0, generation: 0, status: Status::Evolving });
    assert_eq!(
        start.schedule,
        UpdateGridSchedule {
            scheduled_id: 0,
            scheduled_at: ScheduleAt::Interval(TimeDuration::from_micros(1_000_000 / 30)),
            gridid: 0,
        }
    );
    match start.schedule.scheduled_at {
        ScheduleAt::Interval(interval) => assert_eq!(interval.to_micros(), 33_333),
        ScheduleAt::Time(_) => panic!("the timer must repeat"),
    }
    assert!(start.grid.is_well_formed());
}

#[test]
fn well_formed_means_full_length() {
    assert!(Grid { gridid: 1, cells: vec![false; CELL_COUNT] }.is_well_formed());
    assert!(!Grid { gridid: 1, cells: vec![false; CELL_COUNT - 1] }.is_well_formed());
    assert!(!Grid { gridid: 1, cells: vec![false; CELL_COUNT + 1] }.is_well_formed());
    assert!(!Grid { gridid: 1, cells: Vec::new() }.is_well_formed());
}

#[test]
fn tick_from_a_stranger_changes_nothing() {
    let start = init(block_board());
    let writes = update_grid(&stranger(), &OWN, 0, Some(start.grid), Some(start.previous), Some(start.info));
    assert_eq!(writes, None);
}

#[test]
fn tick_without_a_grid_changes_nothing() {
    let info = GridInfo { gridid: 3, generation: 4, status: Status::Evolving };
    let previous = PreviousGrid { gridid: 3, cells: block_board() };
    assert_eq!(update_grid(&OWN, &OWN, 3, None, Some(previous), Some(info)), None);
    assert_eq!(update_grid(&OWN, &OWN, 3, None, None, None), None);
}

#[test]
fn scheduler_is_recognised_byte_for_byte() {
    assert!(is_scheduler(&OWN, &OWN));
    assert!(!is_scheduler(&stranger(), &OWN));
    let mut first = OWN;
    first[0] = 0;
    assert!(!is_scheduler(&first, &OWN));
}

#[test]
fn fixed_point_is_oscillating_on_the_second_tick() {
    let block = block_board();
    let snapshot = PreviousGrid { gridid: 0, cells: blinker_board() };
    let info = GridInfo { gridid: 0, generation: 0, status: Status::Evolving };
    let first = update_grid(&OWN, &OWN, 0, Some(Grid { gridid: 0, cells: block.clone() }), Some(snapshot), Some(info))
        .expect("first tick");
    assert_eq!(first.grid.cells, block);
    assert_eq!(first.info, GridInfo { gridid: 0, generation: 1, status: Status::Evolving });
    assert_eq!(first.previous, PreviousGrid { gridid: 0, cells: block.clone() });
    let second = tick_all(first);
    assert_eq!(second.grid.cells, block);
    assert_eq!(second.info, GridInfo { gridid: 0, generation: 2, status: Status::Oscillating });
}

#[test]
fn block_after_init_is_oscillating_at_once() {
    let first = tick_all(seeded(block_board()));
    assert_eq!(first.info, GridInfo { gridid: 0, generation: 1, status: Status::Oscillating });
}

#[test]
fn blinker_is_compared_with_the_snapshot_two_boards_back() {
    let start = blinker_board();
    let first = tick_all(seeded(start.clone()));
    assert_eq!(first.info.status, Status::Evolving);
    assert_eq!(first.previous.cells, start);
    assert_ne!(first.grid.cells, start);
    let second = tick_all(first);
    assert_eq!(second.grid.cells, start);
    assert_eq!(second.info, GridInfo { gridid: 0, generation: 2, status: Status::Oscillating });
    let third = tick_all(second);
    assert_eq!(third.info, GridInfo { gridid: 0, generation: 3, status: Status::Oscillating });
}

#[test]
fn blinker_wraps_on_the_stored_grid() {
    let side = GRID_SIZE as usize;
    let first = tick_all(seeded(blinker_board()));
    let live: Vec<usize> = (0..CELL_COUNT).filter(|&i| first.grid.cells[i]).collect();
    assert_eq!(live, vec![0, side, 199 * side]);
}

#[test]
fn generation_counts_the_ticks() {
    let mut state = seeded(blinker_board());
    for n in 1..=5u32 {
        state = tick_all(state);
        assert_eq!(state.info.generation, n);
    }
}

#[test]
fn tick_without_snapshot_changes_nothing() {
    let info = GridInfo { gridid: 2, generation: 9, status: Status::Evolving };
    let grid = Grid { gridid: 2, cells: blinker_board() };
    assert_eq!(update_grid(&OWN, &OWN, 2, Some(grid.clone()), None, Some(info)), None);
    assert_eq!(update_grid(&OWN, &OWN, 2, Some(grid), None, None), None);
}

#[test]
fn tick_without_status_changes_nothing() {
    let snapshot = PreviousGrid { gridid: 2, cells: vec![false; CELL_COUNT] };
    let grid = Grid { gridid: 2, cells: block_board() };
    assert_eq!(update_grid(&OWN, &OWN, 2, Some(grid), Some(snapshot), None), None);
}

#[test]
fn tick_with_all_records_writes_all_three() {
    let snapshot = PreviousGrid { gridid: 2, cells: vec![false; CELL_COUNT] };
    let info = GridInfo { gridid: 2, generation: 9, status: Status::Oscillating };
    let grid = Grid { gridid: 2, cells: block_board() };
    let writes = update_grid(&OWN, &OWN, 2, Some(grid), Some(snapshot), Some(info));
    assert_eq!(
        writes,
        Some(TickWrites {
            grid: Grid { gridid: 2, cells: block_board() },
            previous: PreviousGrid { gridid: 2, cells: block_board() },
            info: GridInfo { gridid: 2, generation: 10, status: Status::Evolving },
        })
    );
}

#[test]
fn stranger_is_ignored_whatever_is_stored() {
    let short = Grid { gridid: 1, cells: vec![true; 3] };
    let full = GridInfo { gridid: 1, generation: u32::MAX, status: Status::Evolving };
    let snapshot = PreviousGrid { gridid: 1, cells: Vec::new() };
    assert_eq!(update_grid(&stranger(), &OWN, 1, Some(short), Some(snapshot), Some(full)), None);
}

#[test]
fn stored_status_text_is_read() {
    assert_eq!(
        GridInfo::from_stored(4, 7, &"Oscillating".to_string()),
        GridInfo { gridid: 4, generation: 7, status: Status::Oscillating }
    );
    assert_eq!(
        GridInfo::from_stored(4, 7, &"Evolving".to_string()),
        GridInfo { gridid: 4, generation: 7, status: Status::Evolving }
    );
    assert_eq!(
        GridInfo::from_stored(4, 7, &"oscillating".to_string()),
        GridInfo { gridid: 4, generation: 7, status: Status::Evolving }
    );
}

#[test]
fn classify_compares_and_counts() {
    let a = vec![true, false, true];
    let b = vec![true, false, false];
    assert_eq!(classify(&a, &a.clone(), 0), (Status::Oscillating, 1));
    assert_eq!(classify(&a, &b, 41), (Status::Evolving, 42));
    assert_eq!(classify(&a, &vec![true, false], 7), (Status::Evolving, 8));
}

#[test]
fn same_cells_needs_equal_length_and_content() {
    assert!(same_cells(&Vec::new(), &Vec::new()));
    assert!(same_cells(&vec![true, false], &vec![true, false]));
    assert!(!same_cells(&vec![true, false], &vec![true, true]));
    assert!(!same_cells(&vec![true, false], &vec![true]));
}

#[test]
fn reset_starts_the_count_anew() {
    let writes = reset_grid(5, true, blinker_board()).expect("the grid exists");
    assert_eq!(writes.grid, Grid { gridid: 5, cells: blinker_board() });
    assert_eq!(writes.info, GridInfo { gridid: 5, generation: 0, status: Status::Evolving });
}

#[test]
fn reset_of_a_missing_grid_writes_nothing() {
    assert_eq!(reset_grid(5, false, blinker_board()), None);
    assert_eq!(reset_grid(5, false, Vec::new()), None);
}

#[test]
fn reset_then_tick_on_any_content() {
    let mixed: Vec<bool> = (0..CELL_COUNT).map(|i| i % 5 == 0 || i % 7 == 3).collect();
    for cells in [vec![false; CELL_COUNT], vec![true; CELL_COUNT], mixed] {
        let reset = reset_grid(0, true, cells.clone()).expect("the grid exists");
        let snapshot = PreviousGrid { gridid: 0, cells: cells.clone() };
        let writes = update_grid(&OWN, &OWN, 0, Some(reset.grid), Some(snapshot), Some(reset.info)).expect("tick");
        assert_eq!(writes.grid.cells.len(), CELL_COUNT);
        assert_eq!(writes.info.generation, 1);
        assert_eq!(writes.previous.cells, cells);
    }
}

#[test]
fn all_live_board_dies_of_crowding() {
    let reset = reset_grid(0, true, vec![true; CELL_COUNT]).expect("the grid exists");
    let snapshot = PreviousGrid { gridid: 0, cells: vec![true; CELL_COUNT] };
    let writes = update_grid(&OWN, &OWN, 0, Some(reset.grid), Some(snapshot), Some(reset.info)).expect("tick");
    assert_eq!(writes.grid.cells, vec![false; CELL_COUNT]);
    assert_eq!(writes.info, GridInfo { gridid: 0, generation: 1, status: Status::Evolving });
}

#[test]
fn add_cells_forces_only_the_named_cells() {
    let grid = Grid { gridid: 4, cells: block_board() };
    let wanted = vec![0u32, 39_999, 17, 17, 2010];
    let mut expected = block_board();
    for i in [0usize, 39_999, 17] {
        expected[i] = true;
    }
    assert_eq!(add_cells(Some(grid), &wanted), Ok(Some(Grid { gridid: 4, cells: expected })));
}

#[test]
fn add_cells_with_no_index_changes_nothing() {
    let grid = Grid { gridid: 4, cells: block_board() };
    assert_eq!(add_cells(Some(grid.clone()), &Vec::new()), Ok(Some(grid)));
}

#[test]
fn add_cells_on_a_missing_grid_writes_nothing() {
    assert_eq!(add_cells(None, &vec![1, 2, 3]), Ok(None));
    assert_eq!(add_cells(None, &vec![40_000]), Ok(None));
    assert_eq!(add_cells(None, &Vec::new()), Ok(None));
}

#[test]
fn add_cells_rejects_one_past_the_end() {
    let grid = Grid { gridid: 0, cells: block_board() };
    let result = add_cells(Some(grid), &vec![(GRID_SIZE * GRID_SIZE)]);
    assert_eq!(result, Err(CellIndexError { index: 40_000 }));
}

#[test]
fn add_cells_is_all_or_nothing() {
    let grid = Grid { gridid: 0, cells: vec![false; CELL_COUNT] };
    let result = add_cells(Some(grid), &vec![1, 2, u32::MAX, 3, 50_000]);
    assert_eq!(result, Err(CellIndexError { index: u32::MAX }));
}

#[test]
fn force_alive_sets_cells_in_place() {
    let mut grid = Grid { gridid: 4, cells: vec![false; CELL_COUNT] };
    assert_eq!(force_alive(&mut grid, &vec![3, 39_999]), Ok(()));
    let live: Vec<usize> = (0..CELL_COUNT).filter(|&i| grid.cells[i]).collect();
    assert_eq!(live, vec![3, 39_999]);
    assert_eq!(grid.gridid, 4);
}

#[test]
fn force_alive_leaves_the_grid_unchanged_on_a_bad_index() {
    let mut grid = Grid { gridid: 0, cells: block_board() };
    assert_eq!(force_alive(&mut grid, &vec![(GRID_SIZE * GRID_SIZE)]), Err(CellIndexError { index: 40_000 }));
    assert_eq!(grid, Grid { gridid: 0, cells: block_board() });
    let mut empty = Grid { gridid: 0, cells: vec![false; CELL_COUNT] };
    assert_eq!(force_alive(&mut empty, &vec![1, 2, u32::MAX, 3]), Err(CellIndexError { index: u32::MAX }));
    assert_eq!(empty.cells, vec![false; CELL_COUNT]);
}

#[test]
fn first_outside_finds_the_first_bad_index() {
    assert_eq!(first_outside(&vec![0, 39_999]), None);
    assert_eq!(first_outside(&Vec::new()), None);
    assert_eq!(first_outside(&vec![5, 40_001, 40_000]), Some(40_001));
}

#[test]
fn add_cells_then_tick_sees_the_new_cells() {
    let side = GRID_SIZE;
    let empty = Grid { gridid: 0, cells: vec![false; CELL_COUNT] };
    let block = vec![50 * side + 50, 50 * side + 51, 51 * side + 50, 51 * side + 51];
    let grid = add_cells(Some(empty), &block).expect("indices in range").expect("the grid exists");
    let before = grid.cells.clone();
    let snapshot = PreviousGrid { gridid: 0, cells: vec![false; CELL_COUNT] };
    let info = GridInfo { gridid: 0, generation: 0, status: Status::Evolving };
    let writes = update_grid(&OWN, &OWN, 0, Some(grid), Some(snapshot), Some(info)).expect("tick");
    assert_eq!(writes.grid.cells, before);
    assert_eq!(writes.previous.cells, before);
    assert_eq!(writes.info.status, Status::Evolving);
}
