//! The playing field: a grid of `WIDTH` x `HEIGHT` cells, and where each cell
//! is drawn on the terminal.
use vstd::prelude::*;

use vstd::set_lib::{lemma_int_range, lemma_len_subset, set_int_range};

verus! {

/// Number of columns of the playing field, in cells.
pub const WIDTH: u16 = 30;

/// Number of rows of the playing field, in cells.
pub const HEIGHT: u16 = 30;

/// Number of cells of the playing field.
pub const CELLS: usize = 900;

/// A cell of the field: column, then row.
pub type Cell = (i16, i16);

/// The cell lies on the field.
pub open spec fn in_grid(c: Cell) -> bool {
    0 <= c.0 < WIDTH && 0 <= c.1 < HEIGHT
}

/// Terminal position (column, row) at which the cell `(x, y)` of a field whose
/// border starts at `(origin_x, origin_y)` is drawn. A cell is two columns
/// wide, and the border takes the first row and the first two columns.
pub open spec fn spec_screen_position(origin_x: int, origin_y: int, x: int, y: int) -> (int, int) {
    (origin_x + (x + 1) * 2, origin_y + (y + 1))
}

pub fn screen_position(origin_x: u16, origin_y: u16, x: u16, y: u16) -> (pos: (u16, u16))
    requires
        origin_x + (x + 1) * 2 <= u16::MAX,
        origin_y + (y + 1) <= u16::MAX,
    ensures
        (pos.0 as int, pos.1 as int) == spec_screen_position(
            origin_x as int,
            origin_y as int,
            x as int,
            y as int,
        ),
{
    (origin_x + ((x + 1) * 2), origin_y + (y + 1))
}


/// Row-major number of a cell: `0 .. CELLS` for the cells of the field.
pub open spec fn cell_index(c: Cell) -> int {
    c.1 * (WIDTH as int) + c.0
}

/// The cell whose row-major number is `k`.
pub open spec fn cell_at(k: int) -> Cell {
    ((k % (WIDTH as int)) as i16, (k / (WIDTH as int)) as i16)
}

/// `cell_at` and `cell_index` undo each other on the field.
pub proof fn lemma_cell_at_index(k: int)
    requires
        0 <= k < CELLS,
    ensures
        in_grid(cell_at(k)),
        cell_index(cell_at(k)) == k,
{
}

/// Numbering the cells of the field is one to one.
pub proof fn lemma_cell_index_injective(a: Cell, b: Cell)
    requires
        in_grid(a),
        in_grid(b),
        cell_index(a) == cell_index(b),
    ensures
        a == b,
{
}

/// Numbers of the cells of a sequence.
pub open spec fn cell_indices(s: Seq<Cell>) -> Seq<int> {
    s.map_values(|c: Cell| cell_index(c))
}

/// Cells of the field that are pairwise distinct are at most `CELLS` many.
pub proof fn lemma_distinct_cells_fit(s: Seq<Cell>)
    requires
        s.no_duplicates(),
        forall|i: int| 0 <= i < s.len() ==> in_grid(#[trigger] s[i]),
    ensures
        s.len() <= CELLS,
{
    let t = cell_indices(s);
    assert forall|i: int, j: int| 0 <= i < t.len() && 0 <= j < t.len() && i != j implies t[i]
        != t[j] by {
        if t[i] == t[j] {
            lemma_cell_index_injective(s[i], s[j]);
        }
    }
    assert(t.no_duplicates());
    t.unique_seq_to_set();
    assert forall|k: int| t.to_set().contains(k) implies set_int_range(0, CELLS as int).contains(
        k,
    ) by {
        let i = choose|i: int| 0 <= i < t.len() && t[i] == k;
        assert(in_grid(s[i]));
    }
    lemma_int_range(0, CELLS as int);
    lemma_len_subset(t.to_set(), set_int_range(0, CELLS as int));
}

/// A sequence of fewer than `CELLS` cells leaves some cell of the field out.
pub proof fn lemma_free_cell_exists(s: Seq<Cell>)
    requires
        s.len() < CELLS,
    ensures
        exists|c: Cell| in_grid(c) && !s.contains(c),
{
    if forall|c: Cell| in_grid(c) ==> s.contains(c) {
        let t = cell_indices(s);
        assert forall|k: int| set_int_range(0, CELLS as int).contains(k) implies t.to_set().contains(
            k,
        ) by {
            lemma_cell_at_index(k);
            let c = cell_at(k);
            assert(s.contains(c));
            let i = choose|i: int| 0 <= i < s.len() && s[i] == c;
            assert(t[i] == k);
        }
        lemma_int_range(0, CELLS as int);
        t.lemma_cardinality_of_set();
        lemma_len_subset(set_int_range(0, CELLS as int), t.to_set());
        assert(false);
    }
}

/// Terminal columns the board needs: the field and its border, two columns a
/// cell.
pub const MIN_COLUMNS: u16 = (WIDTH + 2) * 2;

/// Terminal rows the board needs: the field and its border.
pub const MIN_ROWS: u16 = HEIGHT + 2;

/// Where the board's border starts on a terminal of `columns` x `rows`: the
/// board is centred. `None` when the terminal is too small for it.
pub fn board_origin(columns: u16, rows: u16) -> (origin: Option<(u16, u16)>)
    ensures
        origin is Some <==> columns >= MIN_COLUMNS && rows >= MIN_ROWS,
        origin matches Some(o) ==> o.0 == (columns - MIN_COLUMNS) / 2 && o.1 == (rows - MIN_ROWS)
            / 2,
        origin matches Some(o) ==> o.0 + MIN_COLUMNS <= columns && o.1 + MIN_ROWS <= rows,
{
    if columns < MIN_COLUMNS || rows < MIN_ROWS {
        None
    } else {
        Some(((columns - MIN_COLUMNS) / 2, (rows - MIN_ROWS) / 2))
    }
}

/// The terminal positions of the border's blocks, for a border that starts at
/// `(x, y)`: the top and bottom blocks of each column pair, left to right,
/// then the left and right blocks of each row, top to bottom.
pub open spec fn border_spec(x: u16, y: u16) -> Seq<(u16, u16)> {
    let across = 2 * (WIDTH + 2);
    Seq::new(
        (2 * (WIDTH + 2) + 2 * (HEIGHT + 2)) as nat,
        |k: int|
            if k < across {
                let i = k / 2;
                if k % 2 == 0 {
                    ((x + 2 * i) as u16, y)
                } else {
                    ((x + 2 * i) as u16, (y + HEIGHT + 1) as u16)
                }
            } else {
                let i = (k - across) / 2;
                if k % 2 == 0 {
                    (x, (y + i) as u16)
                } else {
                    ((x + (WIDTH + 1) * 2) as u16, (y + i) as u16)
                }
            },
    )
}

/// The terminal positions of the border's blocks (see `border_spec`).
pub fn border_positions(x: u16, y: u16) -> (cells: Vec<(u16, u16)>)
    requires
        x + (WIDTH + 1) * 2 <= u16::MAX,
        y + HEIGHT + 1 <= u16::MAX,
    ensures
        cells@ == border_spec(x, y),
{
    let ghost b = border_spec(x, y);
    let mut cells: Vec<(u16, u16)> = Vec::new();
    for i in 0..WIDTH + 2
        invariant
            x + (WIDTH + 1) * 2 <= u16::MAX,
            y + HEIGHT + 1 <= u16::MAX,
            b == border_spec(x, y),
            cells@ =~= b.take(2 * i),
    {
        cells.push((x + i * 2, y));
        cells.push((x + i * 2, y + (HEIGHT + 1)));
        assert(b.take(2 * i + 2) =~= b.take(2 * i).push(b[2 * i]).push(b[2 * i + 1]));
    }
    for i in 0..HEIGHT + 2
        invariant
            x + (WIDTH + 1) * 2 <= u16::MAX,
            y + HEIGHT + 1 <= u16::MAX,
            b == border_spec(x, y),
            cells@ =~= b.take(2 * (WIDTH + 2) + 2 * i),
    {
        cells.push((x, y + i));
        cells.push((x + (WIDTH + 1) * 2, y + i));
        let ghost k = 2 * (WIDTH + 2) + 2 * i;
        assert(b.take(k + 2) =~= b.take(k).push(b[k]).push(b[k + 1]));
    }
    assert(b.take(b.len() as int) =~= b);
    cells
}

/// Distinct cells are drawn at distinct terminal positions, and cells of the
/// field are drawn strictly inside the border.
pub proof fn lemma_screen_position_laws(ox: int, oy: int, a: Cell, b: Cell)
    requires
        in_grid(a),
        in_grid(b),
    ensures
        a != b ==> spec_screen_position(ox, oy, a.0 as int, a.1 as int) != spec_screen_position(
            ox,
            oy,
            b.0 as int,
            b.1 as int,
        ),
        ox + 2 <= spec_screen_position(ox, oy, a.0 as int, a.1 as int).0 <= ox + WIDTH * 2,
        oy + 1 <= spec_screen_position(ox, oy, a.0 as int, a.1 as int).1 <= oy + HEIGHT,
{
}

/// Terminal position of the row `row` of a text screen shown over a board
/// whose border starts at `(origin_x, origin_y)`: two columns in from the
/// board's left edge, the first row one below its top.
pub fn text_row_position(origin_x: u16, origin_y: u16, row: usize) -> (pos: (u16, u16))
    requires
        origin_x + 2 <= u16::MAX,
        origin_y + 1 + row <= u16::MAX,
    ensures
        pos.0 == origin_x + 2,
        pos.1 == origin_y + 1 + row,
{
    (origin_x + 2, origin_y + 1 + row as u16)
}

} // verus!
