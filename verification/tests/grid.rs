use remote::grid::{
    digit_column, label, letter_row, parse_target, parse_targets, row_letter, single_target,
    Grid, COLUMNS, MAX_COLUMNS, MAX_ROWS, ROWS,
};

#[test]
fn parses_lower_case_token() {
    assert_eq!(parse_target("b3"), Some((2, 3)));
}

#[test]
fn parses_upper_case_token() {
    assert_eq!(parse_target("D1"), Some((4, 1)));
}

#[test]
fn parses_every_cell_of_the_reference_grid() {
    let letters = ['a', 'b', 'c', 'd'];
    let capitals = ['A', 'B', 'C', 'D'];
    let digits = ['1', '2', '3', '4'];
    for row in 0..4usize {
        for column in 0..4usize {
            let expected = Some((row as u8 + 1, column as u8 + 1));
            assert_eq!(parse_target(&format!("{}{}", letters[row], digits[column])), expected);
            assert_eq!(parse_target(&format!("{}{}", capitals[row], digits[column])), expected);
        }
    }
}

#[test]
fn rejects_tokens_outside_the_grid() {
    assert_eq!(parse_target("e1"), None);
    assert_eq!(parse_target("E4"), None);
    assert_eq!(parse_target("a5"), None);
    assert_eq!(parse_target("a0"), None);
    assert_eq!(parse_target("z9"), None);
}

#[test]
fn rejects_tokens_of_another_shape() {
    assert_eq!(parse_target(""), None);
    assert_eq!(parse_target("a"), None);
    assert_eq!(parse_target("1"), None);
    assert_eq!(parse_target("a12"), None);
    assert_eq!(parse_target("1a"), None);
    assert_eq!(parse_target("aa"), None);
    assert_eq!(parse_target("11"), None);
    assert_eq!(parse_target(" a1"), None);
    assert_eq!(parse_target("a1 "), None);
    assert_eq!(parse_target("\u{e9}1"), None);
    assert_eq!(parse_target("a\u{661}"), None);
    assert_eq!(parse_target("@1"), None);
    assert_eq!(parse_target("`1"), None);
    assert_eq!(parse_target("all"), None);
    assert_eq!(parse_target("rand"), None);
}

#[test]
fn all_names_every_cell_row_by_row() {
    let expected = vec![
        (1, 1), (1, 2), (1, 3), (1, 4),
        (2, 1), (2, 2), (2, 3), (2, 4),
        (3, 1), (3, 2), (3, 3), (3, 4),
        (4, 1), (4, 2), (4, 3), (4, 4),
    ];
    assert_eq!(parse_targets("all"), Some(expected));
}

#[test]
fn all_names_no_cell_twice() {
    let targets = parse_targets("all").unwrap();
    assert_eq!(targets.len(), (ROWS as usize) * (COLUMNS as usize));
    for i in 0..targets.len() {
        for j in (i + 1)..targets.len() {
            assert_ne!(targets[i], targets[j]);
            assert!(targets[i] < targets[j]);
        }
    }
}

#[test]
fn rand_names_one_cell_of_the_grid() {
    for _ in 0..500 {
        let targets = parse_targets("rand").unwrap();
        assert_eq!(targets.len(), 1);
        let (row, column) = targets[0];
        assert!(1 <= row && row <= ROWS);
        assert!(1 <= column && column <= COLUMNS);
    }
}

#[test]
fn rand_reaches_every_row_and_column() {
    let mut rows = [false; 4];
    let mut columns = [false; 4];
    for _ in 0..4000 {
        let (row, column) = parse_targets("rand").unwrap()[0];
        rows[row as usize - 1] = true;
        columns[column as usize - 1] = true;
    }
    assert_eq!(rows, [true; 4]);
    assert_eq!(columns, [true; 4]);
}

#[test]
fn other_selectors_name_one_coordinate_or_nothing() {
    assert_eq!(parse_targets("c2"), Some(vec![(3, 2)]));
    assert_eq!(parse_targets("A4"), Some(vec![(1, 4)]));
    assert_eq!(parse_targets("e1"), None);
    assert_eq!(parse_targets("ALL"), None);
    assert_eq!(parse_targets("Rand"), None);
    assert_eq!(parse_targets("all "), None);
    assert_eq!(parse_targets(""), None);
}

#[test]
fn grid_sizes_are_checked() {
    assert!(Grid::new(0, 1).is_none());
    assert!(Grid::new(1, 0).is_none());
    assert!(Grid::new(MAX_ROWS + 1, 1).is_none());
    assert!(Grid::new(1, MAX_COLUMNS + 1).is_none());
    assert!(Grid::new(255, 255).is_none());
    let largest = Grid::new(MAX_ROWS, MAX_COLUMNS).unwrap();
    assert_eq!(largest.rows(), 26);
    assert_eq!(largest.columns(), 9);
    let smallest = Grid::new(1, 1).unwrap();
    assert_eq!(smallest.rows(), 1);
    assert_eq!(smallest.columns(), 1);
}

#[test]
fn reference_grid_is_four_by_four() {
    let grid = Grid::reference();
    assert_eq!(grid.rows(), 4);
    assert_eq!(grid.columns(), 4);
    assert_eq!(Some(grid), Grid::new(ROWS, COLUMNS));
}

#[test]
fn bounds_follow_the_grid() {
    let grid = Grid::new(2, 3).unwrap();
    assert_eq!(grid.parse_one("b3"), Some((2, 3)));
    assert_eq!(grid.parse_one("B1"), Some((2, 1)));
    assert_eq!(grid.parse_one("c1"), None);
    assert_eq!(grid.parse_one("a4"), None);
    assert_eq!(
        grid.parse_set("all"),
        Some(vec![(1, 1), (1, 2), (1, 3), (2, 1), (2, 2), (2, 3)])
    );
    assert_eq!(grid.parse_set("a3"), Some(vec![(1, 3)]));
    assert_eq!(grid.parse_set("c3"), None);
    for _ in 0..200 {
        let (row, column) = grid.parse_set("rand").unwrap()[0];
        assert!(1 <= row && row <= 2);
        assert!(1 <= column && column <= 3);
    }
}

#[test]
fn largest_grid_reads_every_letter_and_digit() {
    let grid = Grid::new(26, 9).unwrap();
    assert_eq!(grid.parse_one("z9"), Some((26, 9)));
    assert_eq!(grid.parse_one("Z1"), Some((26, 1)));
    assert_eq!(grid.parse_one("a0"), None);
    assert_eq!(grid.parse_one("{1"), None);
    assert_eq!(grid.parse_one("[1"), None);
    assert_eq!(grid.parse_one("a:"), None);
    let cells = grid.all_cells();
    assert_eq!(cells.len(), 234);
    assert_eq!(cells[0], (1, 1));
    assert_eq!(cells[9], (2, 1));
    assert_eq!(cells[233], (26, 9));
}

#[test]
fn single_cell_grid() {
    let grid = Grid::new(1, 1).unwrap();
    assert_eq!(grid.all_cells(), vec![(1, 1)]);
    assert_eq!(grid.parse_set("rand"), Some(vec![(1, 1)]));
    assert_eq!(grid.parse_one("a1"), Some((1, 1)));
    assert_eq!(grid.parse_one("a2"), None);
    assert_eq!(grid.parse_one("b1"), None);
}

#[test]
fn letters_and_digits() {
    assert_eq!(letter_row('a'), Some(1));
    assert_eq!(letter_row('A'), Some(1));
    assert_eq!(letter_row('z'), Some(26));
    assert_eq!(letter_row('Z'), Some(26));
    assert_eq!(letter_row('m'), Some(13));
    assert_eq!(letter_row('1'), None);
    assert_eq!(letter_row('`'), None);
    assert_eq!(letter_row('{'), None);
    assert_eq!(letter_row('\u{e9}'), None);
    assert_eq!(digit_column('1'), Some(1));
    assert_eq!(digit_column('9'), Some(9));
    assert_eq!(digit_column('0'), None);
    assert_eq!(digit_column('a'), None);
    assert_eq!(digit_column(':'), None);
}

#[test]
fn single_target_holds_its_coordinate() {
    assert_eq!(single_target((3, 4)), vec![(3, 4)]);
}

#[test]
fn labels() {
    assert_eq!(row_letter(1), 'A');
    assert_eq!(row_letter(26), 'Z');
    assert_eq!(label((2, 3)), "B3");
    assert_eq!(label((4, 1)), "D1");
    assert_eq!(label((1, 10)), "A10");
    assert_eq!(label((26, 255)), "Z255");
    assert_eq!(label((1, 0)), "A0");
}

#[test]
fn label_of_a_cell_reads_as_the_cell() {
    let grid = Grid::new(26, 9).unwrap();
    for cell in grid.all_cells() {
        assert_eq!(grid.parse_one(&label(cell)), Some(cell));
        assert_eq!(grid.parse_one(&label(cell).to_lowercase()), Some(cell));
    }
}
