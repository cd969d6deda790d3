use game_of_life::Cell;
use game_of_life::GridError;
use game_of_life::Universe;

fn small_universe(width: u32, height: u32) -> Universe {
    let mut universe = Universe::new();
    universe.set_width(width);
    universe.set_height(height);
    universe
}

fn input_spaceship() -> Universe {
    let mut universe = small_universe(6, 6);
    universe
        .set_cells(&[(1, 2), (2, 3), (3, 1), (3, 2), (3, 3)])
        .unwrap();
    universe
}

fn expected_spaceship() -> Universe {
    let mut universe = small_universe(6, 6);
    universe
        .set_cells(&[(2, 1), (2, 3), (3, 2), (3, 3), (4, 2)])
        .unwrap();
    universe
}

#[test]
fn test_tick() {
    let mut input_universe = input_spaceship();
    let expected_universe = expected_spaceship();
    input_universe.tick();
    assert_eq!(&input_universe.get_cells(), &expected_universe.get_cells());
}

#[test]
fn new_has_documented_pattern() {
    let universe = Universe::new();
    assert_eq!(universe.width(), 128);
    assert_eq!(universe.height(), 128);
    let cells = universe.get_cells();
    assert_eq!(cells.len(), 128 * 128);
    for (i, &cell) in cells.iter().enumerate() {
        let expected = if i % 2 == 0 || i % 7 == 0 {
            Cell::Alive
        } else {
            Cell::Dead
        };
        assert_eq!(cell, expected);
    }
}

#[test]
fn buffer_length_is_width_times_height() {
    let mut universe = Universe::new();
    assert_eq!(
        universe.get_cells().len(),
        universe.width() as usize * universe.height() as usize
    );
    universe.set_width(5);
    assert_eq!(universe.get_cells().len(), 5 * 128);
    universe.set_height(4);
    assert_eq!(universe.get_cells().len(), 5 * 4);
    universe.tick();
    assert_eq!(universe.get_cells().len(), 5 * 4);
}

#[test]
fn wraparound_bottom_row_is_neighbor_of_top_row() {
    let mut universe = small_universe(3, 3);
    universe.set_cells(&[(2, 1)]).unwrap();
    assert_eq!(universe.live_neighbor_count(0, 1), 1);
    assert_eq!(universe.live_neighbor_count(0, 0), 1);
    assert_eq!(universe.live_neighbor_count(0, 2), 1);
}

#[test]
fn wraparound_top_row_is_neighbor_of_bottom_row() {
    let mut universe = small_universe(4, 5);
    universe.set_cells(&[(0, 2)]).unwrap();
    assert_eq!(universe.live_neighbor_count(4, 2), 1);
    assert_eq!(universe.live_neighbor_count(4, 1), 1);
    assert_eq!(universe.live_neighbor_count(4, 3), 1);
    assert_eq!(universe.live_neighbor_count(4, 0), 0);
}

#[test]
fn wraparound_left_column_is_neighbor_of_right_column() {
    let mut universe = small_universe(5, 4);
    universe.set_cells(&[(1, 0)]).unwrap();
    assert_eq!(universe.live_neighbor_count(1, 4), 1);
    assert_eq!(universe.live_neighbor_count(0, 4), 1);
    assert_eq!(universe.live_neighbor_count(2, 4), 1);
}

#[test]
fn neighbor_count_excludes_the_cell_itself() {
    let mut universe = small_universe(3, 3);
    universe.set_cells(&[(1, 1)]).unwrap();
    assert_eq!(universe.live_neighbor_count(1, 1), 0);
    assert_eq!(universe.live_neighbor_count(0, 0), 1);
}

#[test]
fn toggle_twice_restores_the_cell() {
    let mut universe = input_spaceship();
    let before = universe.get_cells().to_vec();
    universe.toggle_cell(1, 2).unwrap();
    assert_eq!(universe.get_cells()[1 * 6 + 2], Cell::Dead);
    universe.toggle_cell(1, 2).unwrap();
    assert_eq!(universe.get_cells(), &before[..]);
    universe.toggle_cell(0, 0).unwrap();
    assert_eq!(universe.get_cells()[0], Cell::Alive);
    universe.toggle_cell(0, 0).unwrap();
    assert_eq!(universe.get_cells(), &before[..]);
}

#[test]
fn resize_resets_every_cell_to_dead() {
    let mut universe = Universe::new();
    universe.set_width(7);
    assert!(universe.get_cells().iter().all(|&c| c == Cell::Dead));
    universe.set_cells(&[(0, 0), (3, 4)]).unwrap();
    universe.set_height(9);
    assert_eq!(universe.get_cells().len(), 7 * 9);
    assert!(universe.get_cells().iter().all(|&c| c == Cell::Dead));
}

#[test]
fn render_has_height_lines_of_width_glyphs() {
    let mut universe = small_universe(4, 3);
    universe.set_cells(&[(0, 0), (2, 3)]).unwrap();
    let text = universe.render();
    assert_eq!(text.chars().count(), 3 * (4 + 1));
    assert!(text.ends_with('\n'));
    let lines: Vec<&str> = text.lines().collect();
    assert_eq!(lines.len(), 3);
    for line in &lines {
        assert_eq!(line.chars().count(), 4);
    }
    assert_eq!(lines[0], "◼◻◻◻");
    assert_eq!(lines[1], "◻◻◻◻");
    assert_eq!(lines[2], "◻◻◻◼");
}

#[test]
fn render_maps_each_state_to_its_own_glyph() {
    let mut universe = small_universe(2, 1);
    universe.set_cells(&[(0, 1)]).unwrap();
    assert_eq!(universe.render(), "◻◼\n");
}

#[test]
fn toggle_out_of_bounds_fails_and_changes_nothing() {
    let mut universe = input_spaceship();
    let before = universe.get_cells().to_vec();
    assert_eq!(universe.toggle_cell(6, 0), Err(GridError::OutOfBounds));
    assert_eq!(universe.get_cells(), &before[..]);
    assert_eq!(universe.toggle_cell(0, 6), Err(GridError::OutOfBounds));
    assert_eq!(universe.get_cells(), &before[..]);
    assert_eq!(universe.toggle_cell(1, 100), Err(GridError::OutOfBounds));
    assert_eq!(universe.get_cells(), &before[..]);
    assert_eq!(universe.width(), 6);
    assert_eq!(universe.height(), 6);
}

#[test]
fn set_cells_with_an_invalid_pair_fails_and_changes_nothing() {
    let mut universe = small_universe(3, 3);
    let before = universe.get_cells().to_vec();
    let result = universe.set_cells(&[(0, 0), (3, 0)]);
    assert_eq!(result, Err(GridError::OutOfBounds));
    assert_eq!(universe.get_cells(), &before[..]);
}

#[test]
fn set_cells_leaves_unnamed_cells_untouched() {
    let mut universe = small_universe(3, 2);
    universe.set_cells(&[(0, 1), (1, 2), (0, 1)]).unwrap();
    let cells = universe.get_cells();
    assert_eq!(cells[0], Cell::Dead);
    assert_eq!(cells[1], Cell::Alive);
    assert_eq!(cells[2], Cell::Dead);
    assert_eq!(cells[3], Cell::Dead);
    assert_eq!(cells[4], Cell::Dead);
    assert_eq!(cells[5], Cell::Alive);
}

#[test]
fn blinker_oscillates_with_period_two() {
    let mut universe = small_universe(5, 5);
    universe.set_cells(&[(2, 1), (2, 2), (2, 3)]).unwrap();
    universe.tick();
    let cells = universe.get_cells();
    for row in 0..5u32 {
        for col in 0..5u32 {
            let expected = if col == 2 && (1..=3).contains(&row) {
                Cell::Alive
            } else {
                Cell::Dead
            };
            assert_eq!(cells[(row * 5 + col) as usize], expected);
        }
    }
    universe.tick();
    let cells = universe.get_cells();
    for row in 0..5u32 {
        for col in 0..5u32 {
            let expected = if row == 2 && (1..=3).contains(&col) {
                Cell::Alive
            } else {
                Cell::Dead
            };
            assert_eq!(cells[(row * 5 + col) as usize], expected);
        }
    }
}

#[test]
fn empty_grid_ticks_and_renders_without_output() {
    let mut universe = Universe::new();
    universe.set_width(0);
    assert_eq!(universe.get_cells().len(), 0);
    universe.tick();
    assert_eq!(universe.render().chars().count(), 128);
    universe.set_height(0);
    universe.tick();
    assert_eq!(universe.render(), "");
    assert_eq!(universe.cells().len(), 0);
}

#[test]
fn cells_and_get_cells_expose_the_same_buffer() {
    let universe = input_spaceship();
    assert_eq!(universe.cells(), universe.get_cells());
    assert_eq!(universe.cells().len(), 36);
}
