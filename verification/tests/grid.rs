use game_of_life::{cell_weight, next_cell, Cell, Universe};

#[test]
fn new_grid_is_all_dead() {
    let u = Universe::new(4, 3);
    assert_eq!(u.width(), 4);
    assert_eq!(u.height(), 3);
    let cells = u.get_cells();
    assert_eq!(cells.len(), 12);
    for &c in cells {
        assert_eq!(c, Cell::Dead);
    }
}

#[test]
fn tick_preserves_cell_count() {
    let mut u = Universe::new(5, 4);
    u.set_cells(&[(0, 0), (1, 2), (3, 4), (2, 2), (2, 3)]);
    u.tick();
    assert_eq!(u.width(), 5);
    assert_eq!(u.height(), 4);
    assert_eq!(u.get_cells().len(), 20);
    u.tick();
    assert_eq!(u.get_cells().len(), 20);
}

#[test]
fn lone_live_cell_dies() {
    let mut u = Universe::new(3, 3);
    u.toggle_cell(1, 1);
    assert_eq!(u.get_cells()[4], Cell::Alive);
    u.tick();
    for &c in u.get_cells() {
        assert_eq!(c, Cell::Dead);
    }
}

#[test]
fn dead_cell_with_three_neighbours_is_born() {
    let mut u = Universe::new(5, 5);
    u.set_cells(&[(0, 0), (0, 1), (0, 2)]);
    assert_eq!(u.live_neighbour_count(1, 1), 3);
    u.tick();
    assert_eq!(u.get_cells()[1 * 5 + 1], Cell::Alive);
}

#[test]
fn dead_cell_with_two_neighbours_stays_dead() {
    let mut u = Universe::new(5, 5);
    u.set_cells(&[(0, 0), (0, 2)]);
    assert_eq!(u.live_neighbour_count(1, 1), 2);
    u.tick();
    assert_eq!(u.get_cells()[1 * 5 + 1], Cell::Dead);
}

#[test]
fn dead_cell_with_four_neighbours_stays_dead() {
    let mut u = Universe::new(5, 5);
    u.set_cells(&[(0, 0), (0, 1), (0, 2), (1, 0)]);
    assert_eq!(u.live_neighbour_count(1, 1), 4);
    u.tick();
    assert_eq!(u.get_cells()[1 * 5 + 1], Cell::Dead);
}

#[test]
fn block_is_fixed_point() {
    let mut u = Universe::new(4, 4);
    u.set_cells(&[(1, 1), (1, 2), (2, 1), (2, 2)]);
    assert_eq!(u.live_neighbour_count(1, 1), 3);
    assert_eq!(u.live_neighbour_count(1, 2), 3);
    assert_eq!(u.live_neighbour_count(2, 1), 3);
    assert_eq!(u.live_neighbour_count(2, 2), 3);
    let before = u.get_cells().to_vec();
    u.tick();
    assert_eq!(u.get_cells(), before.as_slice());
}

#[test]
fn toggle_twice_restores_grid() {
    let mut u = Universe::new(3, 3);
    u.set_cells(&[(0, 1), (2, 2)]);
    let before = u.get_cells().to_vec();
    u.toggle_cell(2, 0);
    assert_eq!(u.get_cells()[2 * 3 + 0], Cell::Alive);
    u.toggle_cell(2, 0);
    assert_eq!(u.get_cells(), before.as_slice());
    u.toggle_cell(0, 1);
    assert_eq!(u.get_cells()[0 * 3 + 1], Cell::Dead);
    u.toggle_cell(0, 1);
    assert_eq!(u.get_cells(), before.as_slice());
}

#[test]
fn set_cells_sets_exactly_the_listed_cells() {
    let mut u = Universe::new(4, 4);
    u.toggle_cell(0, 3);
    u.set_cells(&[(1, 1), (2, 3)]);
    for row in 0..4u32 {
        for col in 0..4u32 {
            let expected = if (row, col) == (1, 1) || (row, col) == (2, 3) || (row, col) == (0, 3)
            {
                Cell::Alive
            } else {
                Cell::Dead
            };
            assert_eq!(u.get_cells()[(row * 4 + col) as usize], expected);
        }
    }
}

#[test]
fn render_has_height_lines_of_width_glyphs() {
    let mut u = Universe::new(5, 3);
    u.set_cells(&[(0, 0), (1, 4), (2, 2)]);
    let text = u.render();
    assert!(text.ends_with('\n'));
    let lines: Vec<&str> = text.lines().collect();
    assert_eq!(lines.len(), 3);
    for line in lines {
        assert_eq!(line.chars().count(), 5);
    }
}

#[test]
fn render_exact_text() {
    let mut u = Universe::new(2, 2);
    u.toggle_cell(0, 0);
    assert_eq!(u.render(), "◼◻\n◻◻\n");
}

#[test]
fn top_row_counts_bottom_row_as_neighbour() {
    let mut u = Universe::new(3, 3);
    u.set_cells(&[(2, 1)]);
    assert_eq!(u.live_neighbour_count(0, 1), 1);
    assert_eq!(u.live_neighbour_count(0, 0), 1);
    assert_eq!(u.live_neighbour_count(0, 2), 1);
    assert_eq!(u.live_neighbour_count(1, 1), 1);
    assert_eq!(u.live_neighbour_count(2, 1), 0);
}

#[test]
fn corner_wraps_to_opposite_corner() {
    let mut u = Universe::new(3, 3);
    u.set_cells(&[(2, 2)]);
    assert_eq!(u.live_neighbour_count(0, 0), 1);
}

#[test]
fn all_eight_neighbours_are_counted() {
    let mut u = Universe::new(3, 3);
    u.set_cells(&[
        (0, 0),
        (0, 1),
        (0, 2),
        (1, 0),
        (1, 2),
        (2, 0),
        (2, 1),
        (2, 2),
    ]);
    assert_eq!(u.live_neighbour_count(1, 1), 8);
}

#[test]
fn zero_width_grid_renders_empty_lines() {
    let mut u = Universe::new(0, 3);
    assert_eq!(u.get_cells().len(), 0);
    assert_eq!(u.render(), "\n\n\n");
    u.tick();
    assert_eq!(u.get_cells().len(), 0);
}

#[test]
fn zero_by_zero_grid_renders_nothing() {
    let mut u = Universe::new(0, 0);
    assert_eq!(u.get_cells().len(), 0);
    assert_eq!(u.render(), "");
    u.tick();
    assert_eq!(u.render(), "");
}

#[test]
fn set_width_resets_all_cells() {
    let mut u = Universe::new(3, 3);
    u.set_cells(&[(0, 0), (1, 1)]);
    u.set_width(5);
    assert_eq!(u.width(), 5);
    assert_eq!(u.height(), 3);
    assert_eq!(u.get_cells().len(), 15);
    for &c in u.get_cells() {
        assert_eq!(c, Cell::Dead);
    }
}

#[test]
fn set_height_resets_all_cells() {
    let mut u = Universe::new(3, 3);
    u.set_cells(&[(2, 2)]);
    u.set_height(2);
    assert_eq!(u.width(), 3);
    assert_eq!(u.height(), 2);
    assert_eq!(u.get_cells().len(), 6);
    for &c in u.get_cells() {
        assert_eq!(c, Cell::Dead);
    }
}

#[test]
fn cells_and_get_cells_agree() {
    let mut u = Universe::new(2, 3);
    u.set_cells(&[(1, 0), (2, 1)]);
    assert_eq!(u.cells(), u.get_cells());
}

#[test]
fn cell_weight_values() {
    assert_eq!(cell_weight(Cell::Alive), 1);
    assert_eq!(cell_weight(Cell::Dead), 0);
}

#[test]
fn transition_rule_table() {
    for n in 0..=8u8 {
        let from_alive = next_cell(Cell::Alive, n);
        let from_dead = next_cell(Cell::Dead, n);
        if n == 2 || n == 3 {
            assert_eq!(from_alive, Cell::Alive);
        } else {
            assert_eq!(from_alive, Cell::Dead);
        }
        if n == 3 {
            assert_eq!(from_dead, Cell::Alive);
        } else {
            assert_eq!(from_dead, Cell::Dead);
        }
    }
}
