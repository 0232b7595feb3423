//! Addressing of machines on a grid: a coordinate is a row and a column,
//! both counted from one, and a selector token names one coordinate, all of
//! them, or asks for one drawn at random.

use crate::text::{push_char, push_decimal, spec_decimal, spec_digit};
use rand::Rng;
use vstd::arithmetic::div_mod::{
    lemma_div_is_ordered, lemma_fundamental_div_mod, lemma_fundamental_div_mod_converse,
};
use vstd::prelude::*;
use vstd::string::*;

verus! {

/// A row and a column, both counted from one.
pub type Coordinate = (u8, u8);

/// Rows of the reference grid.
pub const ROWS: u8 = 4;

/// Columns of the reference grid.
pub const COLUMNS: u8 = 4;

/// Most rows that a grid can have: one for each letter.
pub const MAX_ROWS: u8 = 26;

/// Most columns that a grid can have: one for each digit but zero.
pub const MAX_COLUMNS: u8 = 9;

/// The row that a letter names, whatever its case: `a` is row one.
pub open spec fn spec_letter_row(c: char) -> Option<u8> {
    if 'a' <= c <= 'z' {
        Some((c as u32 - 'a' as u32 + 1) as u8)
    } else if 'A' <= c <= 'Z' {
        Some((c as u32 - 'A' as u32 + 1) as u8)
    } else {
        None
    }
}

/// The column that a digit names: its value, where that is not zero.
pub open spec fn spec_digit_column(c: char) -> Option<u8> {
    if '1' <= c <= '9' {
        Some((c as u32 - '0' as u32) as u8)
    } else {
        None
    }
}

/// Whether a grid can have this size: at least one cell, a letter for each
/// row and a digit for each column.
pub open spec fn is_grid_size(rows: u8, columns: u8) -> bool {
    1 <= rows <= MAX_ROWS && 1 <= columns <= MAX_COLUMNS
}

/// Whether `coordinate` is a cell of a grid of `rows` by `columns`.
pub open spec fn in_grid(rows: u8, columns: u8, coordinate: Coordinate) -> bool {
    1 <= coordinate.0 <= rows && 1 <= coordinate.1 <= columns
}

/// The coordinate that a token names on a grid of `rows` by `columns`: the
/// token is one letter for the row and one digit for the column, and both
/// lie within the grid.
pub open spec fn spec_parse_one(rows: u8, columns: u8, token: Seq<char>) -> Option<Coordinate> {
    if token.len() == 2 {
        match (spec_letter_row(token[0]), spec_digit_column(token[1])) {
            (Some(row), Some(column)) => if in_grid(rows, columns, (row, column)) {
                Some((row, column))
            } else {
                None
            },
            _ => None,
        }
    } else {
        None
    }
}

/// Every cell of a grid of `rows` by `columns`, row by row.
pub open spec fn spec_all_cells(rows: u8, columns: u8) -> Seq<Coordinate> {
    Seq::new(
        (rows * columns) as nat,
        |i: int| ((i / columns as int + 1) as u8, (i % columns as int + 1) as u8),
    )
}

/// The targets that a selector token names on a grid of `rows` by
/// `columns`, but for the token that asks for a random one.
pub open spec fn spec_parse_set(rows: u8, columns: u8, token: Seq<char>) -> Option<
    Seq<Coordinate>,
> {
    if token == "all"@ {
        Some(spec_all_cells(rows, columns))
    } else {
        match spec_parse_one(rows, columns, token) {
            Some(coordinate) => Some(seq![coordinate]),
            None => None,
        }
    }
}

/// Whether `a` comes before `b` when cells are read row by row.
pub open spec fn precedes(a: Coordinate, b: Coordinate) -> bool {
    a.0 < b.0 || (a.0 == b.0 && a.1 < b.1)
}

/// Whether a coordinate has a label: its row has a letter.
pub open spec fn has_label(coordinate: Coordinate) -> bool {
    1 <= coordinate.0 <= MAX_ROWS
}

/// The capital letter of a row.
pub open spec fn spec_row_letter(row: u8) -> char
    recommends
        1 <= row <= MAX_ROWS,
{
    ('A' as u32 + row - 1) as char
}

/// The label of a coordinate: the capital letter of its row, then its
/// column in decimal.
pub open spec fn spec_label(coordinate: Coordinate) -> Seq<char> {
    seq![spec_row_letter(coordinate.0)] + spec_decimal(coordinate.1 as nat)
}

/// The row that a letter names, whatever its case.
pub fn letter_row(c: char) -> (row: Option<u8>)
    ensures
        row == spec_letter_row(c),
{
    if 'a' <= c && c <= 'z' {
        Some((c as u32 - 'a' as u32 + 1) as u8)
    } else if 'A' <= c && c <= 'Z' {
        Some((c as u32 - 'A' as u32 + 1) as u8)
    } else {
        None
    }
}

/// The column that a digit names.
pub fn digit_column(c: char) -> (column: Option<u8>)
    ensures
        column == spec_digit_column(c),
{
    if '1' <= c && c <= '9' {
        Some((c as u32 - '0' as u32) as u8)
    } else {
        None
    }
}

/// The capital letter of a row.
pub fn row_letter(row: u8) -> (letter: char)
    requires
        1 <= row <= MAX_ROWS,
    ensures
        letter == spec_row_letter(row),
{
    (64u8 + row) as char
}

/// The label of a coordinate, such as `B3` for the second row and the
/// third column.
pub fn label(coordinate: Coordinate) -> (text: String)
    requires
        has_label(coordinate),
    ensures
        text@ == spec_label(coordinate),
{
    let mut text = String::new();
    push_char(&mut text, row_letter(coordinate.0));
    push_decimal(&mut text, coordinate.1);
    proof {
        assert(text@ =~= spec_label(coordinate));
    }
    text
}

/// The target set of one coordinate.
pub fn single_target(coordinate: Coordinate) -> (targets: Vec<Coordinate>)
    ensures
        targets@ == seq![coordinate],
{
    let mut targets: Vec<Coordinate> = Vec::new();
    targets.push(coordinate);
    proof {
        assert(targets@ =~= seq![coordinate]);
    }
    targets
}

/// Calls `rand::thread_rng` and `Rng::gen_range` on its result.
///
/// Trusted: the number drawn is at least `low` and less than `high`. The
/// crate panics on an empty range, hence the precondition. Which number
/// comes is left open.
#[verifier::external_body]
fn random_between(low: u8, high: u8) -> (drawn: u8)
    requires
        low < high,
    ensures
        low <= drawn < high,
{
    rand::thread_rng().gen_range(low, high)
}

/// The size of a grid whose every cell has a token of one letter and one
/// digit.
#[derive(Clone, Copy, Debug, PartialEq, Eq)]
pub struct Grid {
    rows: u8,
    columns: u8,
}

impl Grid {
    #[verifier::type_invariant]
    spec fn sized(self) -> bool {
        is_grid_size(self.rows, self.columns)
    }

    /// The number of rows.
    pub closed spec fn spec_rows(&self) -> u8 {
        self.rows
    }

    /// The number of columns.
    pub closed spec fn spec_columns(&self) -> u8 {
        self.columns
    }

    /// Whether `coordinate` is a cell of the grid.
    pub open spec fn contains(&self, coordinate: Coordinate) -> bool {
        in_grid(self.spec_rows(), self.spec_columns(), coordinate)
    }

    /// A grid of `rows` by `columns`. There is none of a size that leaves
    /// the grid empty, a row without a letter or a column without a digit.
    pub fn new(rows: u8, columns: u8) -> (grid: Option<Grid>)
        ensures
            grid is Some <==> is_grid_size(rows, columns),
            grid is Some ==> grid->Some_0.spec_rows() == rows,
            grid is Some ==> grid->Some_0.spec_columns() == columns,
    {
        if 1 <= rows && rows <= MAX_ROWS && 1 <= columns && columns <= MAX_COLUMNS {
            Some(Grid { rows, columns })
        } else {
            None
        }
    }

    /// The reference grid, of `ROWS` by `COLUMNS`.
    pub fn reference() -> (grid: Grid)
        ensures
            grid.spec_rows() == ROWS,
            grid.spec_columns() == COLUMNS,
    {
        Grid { rows: ROWS, columns: COLUMNS }
    }

    /// The number of rows.
    #[verifier::when_used_as_spec(spec_rows)]
    pub fn rows(&self) -> (rows: u8)
        ensures
            rows == self.spec_rows(),
            is_grid_size(rows, self.spec_columns()),
    {
        proof {
            use_type_invariant(self);
        }
        self.rows
    }

    /// The number of columns.
    #[verifier::when_used_as_spec(spec_columns)]
    pub fn columns(&self) -> (columns: u8)
        ensures
            columns == self.spec_columns(),
            is_grid_size(self.spec_rows(), columns),
    {
        proof {
            use_type_invariant(self);
        }
        self.columns
    }

    /// Reads a token of one letter and one digit as a coordinate of this
    /// grid. Any other token names nothing.
    pub fn parse_one(&self, token: &str) -> (coordinate: Option<Coordinate>)
        ensures
            coordinate == spec_parse_one(self.spec_rows(), self.spec_columns(), token@),
    {
        if token.unicode_len() != 2 {
            return None;
        }
        match (letter_row(token.get_char(0)), digit_column(token.get_char(1))) {
            (Some(row), Some(column)) => {
                if row <= self.rows() && column <= self.columns() {
                    Some((row, column))
                } else {
                    None
                }
            },
            _ => None,
        }
    }

    /// Every cell of the grid, row by row.
    pub fn all_cells(&self) -> (cells: Vec<Coordinate>)
        ensures
            cells@ == spec_all_cells(self.spec_rows(), self.spec_columns()),
    {
        let rows: u8 = self.rows();
        let columns: u8 = self.columns();
        let ghost all = spec_all_cells(rows, columns);
        let mut cells: Vec<Coordinate> = Vec::new();
        let mut row: u8 = 1;
        proof {
            assert(cells@ =~= all.take(0));
        }
        while row <= rows
            invariant
                is_grid_size(rows, columns),
                all == spec_all_cells(rows, columns),
                1 <= row <= rows + 1,
                cells@ == all.take((row - 1) * columns),
            decreases rows + 1 - row,
        {
            let mut column: u8 = 1;
            while column <= columns
                invariant
                    is_grid_size(rows, columns),
                    all == spec_all_cells(rows, columns),
                    1 <= row <= rows,
                    1 <= column <= columns + 1,
                    cells@ == all.take((row - 1) * columns + (column - 1)),
                decreases columns + 1 - column,
            {
                proof {
                    lemma_cell_index(rows as int, columns as int, row - 1, column - 1);
                    let k = (row - 1) * columns + (column - 1);
                    assert(all[k] == (row, column));
                    assert(all.take(k).push((row, column)) =~= all.take(k + 1));
                }
                cells.push((row, column));
                column += 1;
            }
            proof {
                assert((row - 1) * columns + columns == row * columns) by (nonlinear_arith);
            }
            row += 1;
        }
        proof {
            assert(all.take(rows * columns) =~= all);
        }
        cells
    }

    /// Resolves a selector token: `all` names every cell row by row,
    /// `rand` one cell with its row and its column each drawn uniformly,
    /// and any other token the one coordinate that it reads as, if any.
    pub fn parse_set(&self, token: &str) -> (targets: Option<Vec<Coordinate>>)
        ensures
            match targets {
                Some(t) => if token@ == "rand"@ {
                    t@.len() == 1 && self.contains(t@[0])
                } else {
                    spec_parse_set(self.spec_rows(), self.spec_columns(), token@) == Some(t@)
                },
                None => token@ != "rand"@ && spec_parse_set(
                    self.spec_rows(),
                    self.spec_columns(),
                    token@,
                ) is None,
            },
    {
        proof {
            reveal_strlit("all");
            reveal_strlit("rand");
        }
        let text = token.to_owned();
        if text == "all".to_owned() {
            Some(self.all_cells())
        } else if text == "rand".to_owned() {
            let row: u8 = random_between(1, self.rows() + 1);
            let column: u8 = random_between(1, self.columns() + 1);
            Some(single_target((row, column)))
        } else {
            match self.parse_one(token) {
                Some(coordinate) => Some(single_target(coordinate)),
                None => None,
            }
        }
    }
}

/// Reads a token of one letter and one digit as a coordinate of the
/// reference grid.
pub fn parse_target(arg: &str) -> (target: Option<Coordinate>)
    ensures
        target == spec_parse_one(ROWS, COLUMNS, arg@),
{
    Grid::reference().parse_one(arg)
}

/// Resolves a selector token on the reference grid.
pub fn parse_targets(arg: &str) -> (targets: Option<Vec<Coordinate>>)
    ensures
        match targets {
            Some(t) => if arg@ == "rand"@ {
                t@.len() == 1 && in_grid(ROWS, COLUMNS, t@[0])
            } else {
                spec_parse_set(ROWS, COLUMNS, arg@) == Some(t@)
            },
            None => arg@ != "rand"@ && spec_parse_set(ROWS, COLUMNS, arg@) is None,
        },
{
    Grid::reference().parse_set(arg)
}

/// Where the cell of row `r` and column `c`, both counted from zero, stands
/// in a row-by-row walk of a grid.
pub proof fn lemma_cell_index(rows: int, columns: int, r: int, c: int)
    requires
        0 <= r < rows,
        0 <= c < columns,
    ensures
        0 <= r * columns + c < rows * columns,
        (r * columns + c) / columns == r,
        (r * columns + c) % columns == c,
{
    lemma_fundamental_div_mod_converse(r * columns + c, columns, r, c);
    assert(0 <= r * columns && r * columns + columns <= rows * columns) by (nonlinear_arith)
        requires
            0 <= r < rows,
            0 < columns,
    ;
}

/// The row and the column, both counted from zero, of the cell that stands
/// at `i` in a row-by-row walk of a grid.
pub proof fn lemma_cell_of_index(rows: int, columns: int, i: int)
    requires
        0 < columns,
        0 <= i < rows * columns,
    ensures
        0 <= i / columns < rows,
        0 <= i % columns < columns,
{
    lemma_fundamental_div_mod(i, columns);
    let q = i / columns;
    assert(0 <= i % columns < columns);
    assert(0 <= q < rows) by (nonlinear_arith)
        requires
            0 < columns,
            0 <= i < rows * columns,
            i == columns * q + i % columns,
            0 <= i % columns < columns,
    ;
}

/// A token names a cell of the grid or nothing.
pub proof fn lemma_parse_one_within(rows: u8, columns: u8, token: Seq<char>)
    ensures
        match spec_parse_one(rows, columns, token) {
            Some(coordinate) => in_grid(rows, columns, coordinate),
            None => true,
        },
{
}

/// A token names the cell whose row is the place of its letter in the
/// alphabet and whose column is the value of its digit; the case of the
/// letter does not matter.
pub proof fn lemma_parse_one_reads_letter_and_digit(
    rows: u8,
    columns: u8,
    coordinate: Coordinate,
)
    requires
        is_grid_size(rows, columns),
        in_grid(rows, columns, coordinate),
    ensures
        spec_parse_one(
            rows,
            columns,
            seq![
                ('a' as u32 + coordinate.0 - 1) as char,
                ('0' as u32 + coordinate.1) as char,
            ],
        ) == Some(coordinate),
        spec_parse_one(
            rows,
            columns,
            seq![
                ('A' as u32 + coordinate.0 - 1) as char,
                ('0' as u32 + coordinate.1) as char,
            ],
        ) == Some(coordinate),
{
}

/// Reading the label of a cell of the grid gives the cell back.
pub proof fn lemma_label_parses(rows: u8, columns: u8, coordinate: Coordinate)
    requires
        is_grid_size(rows, columns),
        in_grid(rows, columns, coordinate),
    ensures
        spec_parse_one(rows, columns, spec_label(coordinate)) == Some(coordinate),
{
    let token = spec_label(coordinate);
    assert(spec_decimal(coordinate.1 as nat) == seq![spec_digit(coordinate.1 as nat)]);
    assert(token.len() == 2);
    assert(token[0] == spec_row_letter(coordinate.0));
    assert(token[1] == spec_digit(coordinate.1 as nat));
}

/// The walk of all cells has one entry for each cell of the grid, holds
/// only cells of the grid, and goes row by row: an earlier entry always
/// precedes a later one, so no cell comes twice.
pub proof fn lemma_all_cells_row_by_row(rows: u8, columns: u8)
    requires
        is_grid_size(rows, columns),
    ensures
        spec_all_cells(rows, columns).len() == rows * columns,
        forall|i: int|
            0 <= i < spec_all_cells(rows, columns).len() ==> in_grid(
                rows,
                columns,
                #[trigger] spec_all_cells(rows, columns)[i],
            ),
        forall|i: int, j: int|
            0 <= i < j < spec_all_cells(rows, columns).len() ==> precedes(
                #[trigger] spec_all_cells(rows, columns)[i],
                #[trigger] spec_all_cells(rows, columns)[j],
            ),
        forall|i: int, j: int|
            0 <= i < j < spec_all_cells(rows, columns).len() ==> #[trigger] spec_all_cells(
                rows,
                columns,
            )[i] != #[trigger] spec_all_cells(rows, columns)[j],
        forall|coordinate: Coordinate| #[trigger]
            in_grid(rows, columns, coordinate) ==> spec_all_cells(rows, columns).contains(
                coordinate,
            ),
{
    let cells = spec_all_cells(rows, columns);
    assert forall|i: int| 0 <= i < cells.len() implies in_grid(
        rows,
        columns,
        #[trigger] cells[i],
    ) by {
        lemma_cell_of_index(rows as int, columns as int, i);
    }
    assert forall|i: int, j: int| 0 <= i < j < cells.len() implies precedes(
        #[trigger] cells[i],
        #[trigger] cells[j],
    ) by {
        lemma_cell_of_index(rows as int, columns as int, i);
        lemma_cell_of_index(rows as int, columns as int, j);
        lemma_div_is_ordered(i, j, columns as int);
        lemma_fundamental_div_mod(i, columns as int);
        lemma_fundamental_div_mod(j, columns as int);
    }
    assert forall|i: int, j: int| 0 <= i < j < cells.len() implies #[trigger] cells[i]
        != #[trigger] cells[j] by {
        assert(precedes(cells[i], cells[j]));
    }
    assert forall|coordinate: Coordinate| #[trigger]
        in_grid(rows, columns, coordinate) implies cells.contains(coordinate) by {
        let r = coordinate.0 - 1;
        let c = coordinate.1 - 1;
        lemma_cell_index(rows as int, columns as int, r, c);
        assert(cells[r * columns + c] == coordinate);
    }
}

} // verus!
