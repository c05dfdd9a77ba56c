use game_of_life::grid::Grid;
use game_of_life::text::{chars_of, parse_usize_at};

fn grid_with(w: usize, h: usize, alive: &[(usize, usize)]) -> Grid {
    let mut g = Grid::new(w, h).unwrap();
    for &(x, y) in alive {
        g.set_cell(x, y, true);
    }
    g
}

fn alive_cells(g: &Grid) -> Vec<(usize, usize)> {
    let mut v = Vec::new();
    for y in 0..g.height() {
        for x in 0..g.width() {
            if g.get_cell(x, y) {
                v.push((x, y));
            }
        }
    }
    v
}

#[test]
fn serialize_writes_width_then_cells() {
    let g = grid_with(3, 2, &[(0, 0), (2, 1)]);
    assert_eq!(g.serialize(), "3\n100001\n");
}

#[test]
fn serialize_wide_grid() {
    let g = grid_with(150, 1, &[(149, 0)]);
    let s = g.serialize();
    let mut expected = String::from("150\n");
    expected.push_str(&"0".repeat(149));
    expected.push_str("1\n");
    assert_eq!(s, expected);
}

#[test]
fn round_trip_into_a_cleared_grid() {
    let mut g = Grid::new(9, 7).unwrap();
    g.randomize(20240101);
    let saved = g.serialize();
    let mut other = grid_with(9, 7, &[(0, 0), (8, 6), (4, 4)]);
    other.clear();
    other.deserialize(&saved);
    assert_eq!(alive_cells(&other), alive_cells(&g));
}

#[test]
fn round_trip_over_a_filled_grid() {
    let g = grid_with(4, 3, &[(1, 0), (3, 2)]);
    let saved = g.serialize();
    let mut other = Grid::new(4, 3).unwrap();
    for y in 0..3 {
        for x in 0..4 {
            other.set_cell(x, y, true);
        }
    }
    other.deserialize(&saved);
    assert_eq!(alive_cells(&other), vec![(1, 0), (3, 2)]);
}

#[test]
fn deserialize_keeps_cells_past_the_data() {
    let mut g = grid_with(3, 2, &[(2, 1)]);
    g.deserialize("3\n11");
    assert_eq!(alive_cells(&g), vec![(0, 0), (1, 0), (2, 1)]);
}

#[test]
fn deserialize_unparseable_width_falls_back() {
    let mut g = Grid::new(3, 2).unwrap();
    g.deserialize("abc\n0001");
    assert_eq!(alive_cells(&g), vec![(0, 1)]);
}

#[test]
fn deserialize_zero_width_falls_back() {
    let mut g = Grid::new(3, 2).unwrap();
    g.deserialize("0\n0001");
    assert_eq!(alive_cells(&g), vec![(0, 1)]);
}

#[test]
fn deserialize_stored_width_differs() {
    let mut g = Grid::new(3, 3).unwrap();
    g.deserialize("2\n111001");
    // row 0: "11", row 1: "10", row 2: "01" on a 2-wide layout
    assert_eq!(alive_cells(&g), vec![(0, 0), (1, 0), (0, 1), (1, 2)]);
}

#[test]
fn deserialize_wider_stored_width_drops_columns() {
    let mut g = Grid::new(2, 2).unwrap();
    g.deserialize("3\n111111");
    assert_eq!(alive_cells(&g), vec![(0, 0), (1, 0), (0, 1), (1, 1)]);
    let mut h = Grid::new(2, 2).unwrap();
    h.deserialize("3\n001010");
    assert_eq!(alive_cells(&h), vec![(1, 1)]);
}

#[test]
fn deserialize_accepts_crlf_and_plus_sign() {
    let mut g = Grid::new(2, 2).unwrap();
    g.deserialize("+2\r\n0110\r\n");
    assert_eq!(alive_cells(&g), vec![(1, 0), (0, 1)]);
}

#[test]
fn deserialize_empty_text_changes_nothing() {
    let mut g = grid_with(2, 2, &[(1, 1)]);
    g.deserialize("");
    g.deserialize("2");
    g.deserialize("2\n");
    assert_eq!(alive_cells(&g), vec![(1, 1)]);
}

#[test]
fn deserialize_drops_rows_past_the_bottom() {
    let mut g = Grid::new(2, 1).unwrap();
    g.deserialize("2\n011111");
    assert_eq!(alive_cells(&g), vec![(1, 0)]);
}

#[test]
fn parse_number_forms() {
    let t = chars_of("+12");
    assert_eq!(parse_usize_at(&t, 0, 3), Some(12));
    assert_eq!(parse_usize_at(&t, 1, 3), Some(12));
    assert_eq!(parse_usize_at(&t, 0, 1), None);
    assert_eq!(parse_usize_at(&t, 0, 0), None);
    let big = chars_of("18446744073709551616");
    assert_eq!(parse_usize_at(&big, 0, big.len()), None);
    let max = chars_of("18446744073709551615");
    assert_eq!(parse_usize_at(&max, 0, max.len()), Some(usize::MAX));
    let bad = chars_of("1x");
    assert_eq!(parse_usize_at(&bad, 0, 2), None);
}

#[test]
fn render_text_draws_a_box() {
    let g = grid_with(3, 2, &[(0, 0), (2, 1)]);
    assert_eq!(g.render_text(), "╔═══╗\n║█  ║\n║  █║\n╚═══╝\n");
}
