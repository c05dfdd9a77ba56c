use game_of_life::grid::{Grid, GridError};
use game_of_life::random::lcg_next;

fn grid_with(w: usize, h: usize, alive: &[(usize, usize)]) -> Grid {
    let mut g = Grid::new(w, h).unwrap();
    for &(x, y) in alive {
        g.set_cell(x, y, true);
    }
    g
}

fn alive_cells(g: &Grid) -> Vec<(usize, usize)> {
    let mut v = Vec::new();
    for y in 0..g.height() {
        for x in 0..g.width() {
            if g.get_cell(x, y) {
                v.push((x, y));
            }
        }
    }
    v
}

#[test]
fn new_rejects_zero_dimensions() {
    assert_eq!(Grid::new(0, 5).err(), Some(GridError::InvalidDimension));
    assert_eq!(Grid::new(5, 0).err(), Some(GridError::InvalidDimension));
    assert_eq!(Grid::new(0, 0).err(), Some(GridError::InvalidDimension));
}

#[test]
fn new_grid_is_all_dead() {
    let g = Grid::new(7, 3).unwrap();
    assert_eq!(g.width(), 7);
    assert_eq!(g.height(), 3);
    assert!(alive_cells(&g).is_empty());
}

#[test]
fn set_cell_writes_one_cell() {
    let mut g = Grid::new(4, 4).unwrap();
    g.set_cell(2, 3, true);
    assert_eq!(alive_cells(&g), vec![(2, 3)]);
    g.set_cell(2, 3, false);
    assert!(alive_cells(&g).is_empty());
}

#[test]
fn set_cell_one_past_the_end_is_ignored() {
    let mut g = grid_with(5, 4, &[(1, 1)]);
    g.set_cell(5, 0, true);
    g.set_cell(0, 4, true);
    g.set_cell(5, 4, true);
    g.set_cell(usize::MAX, usize::MAX, true);
    assert_eq!(alive_cells(&g), vec![(1, 1)]);
}

#[test]
fn get_cell_off_grid_is_dead() {
    let g = grid_with(3, 3, &[(0, 0)]);
    assert!(!g.get_cell(3, 0));
    assert!(!g.get_cell(0, 3));
}

#[test]
fn clear_kills_every_cell() {
    let mut g = grid_with(4, 3, &[(0, 0), (3, 2), (1, 1)]);
    g.clear();
    assert!(alive_cells(&g).is_empty());
    assert_eq!(g.width(), 4);
    assert_eq!(g.height(), 3);
}

#[test]
fn corner_cell_counts_across_the_edges() {
    let g = grid_with(5, 4, &[(0, 0)]);
    assert_eq!(g.count_neighbors(4, 3), 1);
    assert_eq!(g.count_neighbors(4, 0), 1);
    assert_eq!(g.count_neighbors(0, 3), 1);
    assert_eq!(g.count_neighbors(0, 0), 0);
    assert_eq!(g.count_neighbors(2, 2), 0);
}

#[test]
fn count_neighbors_full_neighbourhood() {
    let mut g = Grid::new(3, 3).unwrap();
    for y in 0..3 {
        for x in 0..3 {
            g.set_cell(x, y, true);
        }
    }
    assert_eq!(g.count_neighbors(1, 1), 8);
    assert_eq!(g.count_neighbors(0, 0), 8);
}

#[test]
fn count_neighbors_on_a_narrow_ring_counts_positions() {
    let g = grid_with(1, 3, &[(0, 1)]);
    // on a one-column torus the left and right neighbours are the cell's own column
    assert_eq!(g.count_neighbors(0, 1), 2);
    assert_eq!(g.count_neighbors(0, 0), 3);
}

#[test]
fn survival_and_birth_rules() {
    // an L of three cells: the fourth corner has three neighbours and is born,
    // each of the three has two and survives
    let mut g = grid_with(6, 6, &[(1, 1), (2, 1), (1, 2)]);
    assert_eq!(g.count_neighbors(2, 2), 3);
    assert_eq!(g.count_neighbors(1, 1), 2);
    g.advance();
    assert_eq!(alive_cells(&g), vec![(1, 1), (2, 1), (1, 2), (2, 2)]);
}

#[test]
fn dead_cell_with_two_neighbours_stays_dead() {
    let mut g = grid_with(6, 6, &[(1, 1), (3, 1)]);
    assert_eq!(g.count_neighbors(2, 1), 2);
    g.advance();
    assert!(!g.get_cell(2, 1));
    assert!(alive_cells(&g).is_empty());
}

#[test]
fn overcrowded_cell_dies() {
    let mut g = grid_with(7, 7, &[(3, 3), (2, 2), (3, 2), (4, 2), (2, 3)]);
    assert_eq!(g.count_neighbors(3, 3), 4);
    g.advance();
    assert!(!g.get_cell(3, 3));
}

#[test]
fn block_is_a_still_life() {
    for &(w, h, bx, by) in &[(4, 4, 1, 1), (6, 5, 0, 0), (8, 8, 5, 2)] {
        let cells = vec![(bx, by), (bx + 1, by), (bx, by + 1), (bx + 1, by + 1)];
        let mut g = grid_with(w, h, &cells);
        g.advance();
        let mut expected = cells.clone();
        expected.sort_by_key(|&(x, y)| (y, x));
        assert_eq!(alive_cells(&g), expected);
    }
}

#[test]
fn blinker_oscillates_with_period_two() {
    let mut g = grid_with(5, 5, &[(1, 2), (2, 2), (3, 2)]);
    g.advance();
    assert_eq!(alive_cells(&g), vec![(2, 1), (2, 2), (2, 3)]);
    g.advance();
    assert_eq!(alive_cells(&g), vec![(1, 2), (2, 2), (3, 2)]);
}

#[test]
fn blinker_across_the_edge() {
    let mut g = grid_with(6, 5, &[(5, 0), (0, 0), (1, 0)]);
    g.advance();
    assert_eq!(alive_cells(&g), vec![(0, 0), (0, 1), (0, 4)]);
    g.advance();
    assert_eq!(alive_cells(&g), vec![(0, 0), (1, 0), (5, 0)]);
}

#[test]
fn lcg_step_values() {
    assert_eq!(lcg_next(0), 12345);
    assert_eq!(lcg_next(12345), 1406932606);
    assert_eq!(lcg_next(u64::MAX), 1043980748);
}

#[test]
fn randomize_follows_the_generator() {
    let mut g = Grid::new(3, 2).unwrap();
    g.randomize(0);
    // states 12345, 1406932606, 654583775, 1449466924, 229283573, 1109335178
    assert_eq!(alive_cells(&g), vec![(1, 0), (0, 1)]);
}

#[test]
fn randomize_is_reproducible_for_a_seed() {
    let mut a = Grid::new(4, 3).unwrap();
    let mut b = grid_with(4, 3, &[(0, 0), (3, 2)]);
    a.randomize(42);
    b.randomize(42);
    assert_eq!(alive_cells(&a), alive_cells(&b));
    assert_eq!(alive_cells(&a), vec![(0, 0), (3, 0)]);
}

#[test]
fn randomize_overwrites_every_cell() {
    let mut g = Grid::new(3, 2).unwrap();
    for y in 0..2 {
        for x in 0..3 {
            g.set_cell(x, y, true);
        }
    }
    g.randomize(0);
    assert_eq!(alive_cells(&g), vec![(1, 0), (0, 1)]);
}
