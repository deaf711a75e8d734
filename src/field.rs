use vstd::prelude::*;

use crate::tetrimino::BlockKind;

verus! {

/// Number of rows above the visible area, addressed with negative y.
pub const HIDDEN_ROWS: usize = 7;

/// Bound on the number of columns and on the number of rows of a field. It
/// keeps the table of the reachability search within a machine word.
pub const MAX_SIDE: usize = 0x1000;

/// A state of cells in the field.
#[derive(Debug, PartialEq, Eq, Clone, Copy, Structural)]
pub enum Cell {
    /// Indicates there is a block in the cell. The kind is included as the value.
    Block(BlockKind),
    /// Indicates there is no block in the cell.
    Empty,
    /// Indicates the specified cell is out of the field.
    Outside,
}

/// The rows of a field, the hidden ones first: at least the hidden rows, all
/// of one width, and no stored cell `Outside`.
pub open spec fn rows_wf(rows: Seq<Seq<Cell>>) -> bool {
    &&& HIDDEN_ROWS <= rows.len() <= MAX_SIDE
    &&& rows[0].len() <= MAX_SIDE
    &&& forall|i: int| 0 <= i < rows.len() ==> (#[trigger] rows[i]).len() == rows[0].len()
    &&& forall|i: int, j: int|
        0 <= i < rows.len() && 0 <= j < rows[i].len() ==> rows[i][j] != Cell::Outside
}

pub open spec fn grid_width(rows: Seq<Seq<Cell>>) -> int {
    rows[0].len() as int
}

/// Number of visible rows.
pub open spec fn visible_height(rows: Seq<Seq<Cell>>) -> int {
    rows.len() - HIDDEN_ROWS
}

/// Whether `(x, y)` lies in the field, hidden rows included.
pub open spec fn in_field(rows: Seq<Seq<Cell>>, x: int, y: int) -> bool {
    0 <= x < grid_width(rows) && -(HIDDEN_ROWS as int) <= y < visible_height(rows)
}

/// The cell at `(x, y)`; `Outside` for a position out of the field.
pub open spec fn cell_at(rows: Seq<Seq<Cell>>, x: int, y: int) -> Cell {
    if in_field(rows, x, y) {
        rows[y + HIDDEN_ROWS][x]
    } else {
        Cell::Outside
    }
}

/// A row is filled when every cell of it holds a block.
pub open spec fn is_filled(row: Seq<Cell>) -> bool {
    forall|j: int| 0 <= j < row.len() ==> (#[trigger] row[j]) is Block
}

pub open spec fn empty_row(width: nat) -> Seq<Cell> {
    Seq::new(width, |_j: int| Cell::Empty)
}

/// The rows that are not filled, in their order.
pub open spec fn unfilled_rows(rows: Seq<Seq<Cell>>) -> Seq<Seq<Cell>> {
    rows.filter(|row: Seq<Cell>| !is_filled(row))
}

/// Number of filled rows.
pub open spec fn filled_count(rows: Seq<Seq<Cell>>) -> int {
    rows.len() - unfilled_rows(rows).len()
}

/// The rows after removing the filled ones and putting as many empty rows
/// on top.
pub open spec fn cleared(rows: Seq<Seq<Cell>>) -> Seq<Seq<Cell>> {
    Seq::new(filled_count(rows) as nat, |_i: int| empty_row(rows[0].len())) + unfilled_rows(rows)
}

/// The rows with a block of `kind` written at `(x, y)`.
pub open spec fn written(rows: Seq<Seq<Cell>>, x: int, y: int, kind: BlockKind) -> Seq<
    Seq<Cell>,
> {
    rows.update(y + HIDDEN_ROWS, rows[y + HIDDEN_ROWS].update(x, Cell::Block(kind)))
}

pub open spec fn rows_of(v: Seq<Vec<Cell>>) -> Seq<Seq<Cell>> {
    v.map_values(|row: Vec<Cell>| row@)
}

/// A game field.
///
/// This consists of the visible (y>=0) and non-visible (y<0) areas.
#[derive(Debug)]
pub struct Field {
    state: Vec<Vec<Cell>>,
}

impl View for Field {
    type V = Seq<Seq<Cell>>;

    closed spec fn view(&self) -> Seq<Seq<Cell>> {
        rows_of(self.state@)
    }
}

fn empty_cells(width: usize) -> (r: Vec<Cell>)
    ensures
        r@ == empty_row(width as nat),
{
    let mut row: Vec<Cell> = Vec::new();
    let mut j: usize = 0;
    while j < width
        invariant
            j <= width,
            row@ == empty_row(j as nat),
        decreases width - j,
    {
        row.push(Cell::Empty);
        j += 1;
        assert(row@ =~= empty_row(j as nat));
    }
    row
}

fn filled(row: &Vec<Cell>) -> (r: bool)
    ensures
        r == is_filled(row@),
{
    let mut j: usize = 0;
    while j < row.len()
        invariant
            j <= row.len(),
            forall|k: int| 0 <= k < j ==> (#[trigger] row@[k]) is Block,
        decreases row.len() - j,
    {
        match row[j] {
            Cell::Block(_) => {},
            _ => {
                return false;
            },
        }
        j += 1;
    }
    true
}

impl Field {
    pub open spec fn wf(&self) -> bool {
        rows_wf(self@)
    }

    /// A field of `width` columns and `height` visible rows, all empty.
    pub fn new(width: usize, height: usize) -> (r: Field)
        requires
            width <= MAX_SIDE,
            height + HIDDEN_ROWS <= MAX_SIDE,
        ensures
            r@ == Seq::new((height + HIDDEN_ROWS) as nat, |_i: int| empty_row(width as nat)),
            r.wf(),
    {
        let rows = height + HIDDEN_ROWS;
        let mut state: Vec<Vec<Cell>> = Vec::new();
        let mut i: usize = 0;
        while i < rows
            invariant
                i <= rows,
                rows_of(state@) == Seq::new(i as nat, |_i: int| empty_row(width as nat)),
            decreases rows - i,
        {
            let ghost prev = state@;
            let row = empty_cells(width);
            state.push(row);
            assert(rows_of(state@) =~= rows_of(prev).push(row@));
            i += 1;
            assert(rows_of(state@) =~= Seq::new(i as nat, |_i: int| empty_row(width as nat)));
        }
        Field { state }
    }

    /// A field with the given rows, the hidden ones first.
    pub fn from_vec(state: Vec<Vec<Cell>>) -> (r: Field)
        requires
            rows_wf(rows_of(state@)),
        ensures
            r@ == rows_of(state@),
            r.wf(),
    {
        Field { state }
    }

    /// Get the visible area as rows of cells.
    pub fn as_vec(&self) -> (r: &[Vec<Cell>])
        requires
            self.wf(),
        ensures
            rows_of(r@) == self@.subrange(HIDDEN_ROWS as int, self@.len() as int),
    {
        let (_, visible) = self.state.as_slice().split_at(HIDDEN_ROWS);
        proof {
            assert(rows_of(visible@) =~= self@.subrange(HIDDEN_ROWS as int, self@.len() as int));
        }
        visible
    }

    /// Get the width.
    pub fn width(&self) -> (r: usize)
        requires
            self.wf(),
        ensures
            r == grid_width(self@),
    {
        self.state[0].len()
    }

    /// Get the height of the visible area.
    pub fn height(&self) -> (r: usize)
        requires
            self.wf(),
        ensures
            r == visible_height(self@),
    {
        self.state.len() - HIDDEN_ROWS
    }

    /// Get the cell at the given position. If there are no blocks, returns
    /// `Cell::Empty`. If the position is out of this field, returns
    /// `Cell::Outside`.
    pub fn get_cell(&self, pos: (isize, isize)) -> (r: Cell)
        requires
            self.wf(),
        ensures
            r == cell_at(self@, pos.0 as int, pos.1 as int),
    {
        let width = self.width() as isize;
        let height_min = -(HIDDEN_ROWS as isize);
        let height_max = self.height() as isize;
        let (x, y) = pos;
        if 0 <= x && x < width && height_min <= y && y < height_max {
            let row = (y + HIDDEN_ROWS as isize) as usize;
            self.state[row][x as usize]
        } else {
            Cell::Outside
        }
    }

    /// Put a block of `kind` at the given position.
    pub fn set(&mut self, pos: (isize, isize), kind: BlockKind)
        requires
            old(self).wf(),
            in_field(old(self)@, pos.0 as int, pos.1 as int),
        ensures
            final(self)@ == written(old(self)@, pos.0 as int, pos.1 as int, kind),
            final(self).wf(),
    {
        let (x, y) = pos;
        let row = (y + HIDDEN_ROWS as isize) as usize;
        assert(self.state@[row as int]@ == self@[row as int]);
        self.state[row][x as usize] = Cell::Block(kind);
        proof {
            assert(self@ =~= written(old(self)@, pos.0 as int, pos.1 as int, kind));
        }
    }

    /// Remove the filled rows, put as many empty rows on top, and return
    /// their number.
    pub fn remove_filled_lines(&mut self) -> (r: usize)
        requires
            old(self).wf(),
        ensures
            r == filled_count(old(self)@),
            final(self)@ == cleared(old(self)@),
            final(self)@.len() == old(self)@.len(),
            final(self).wf(),
    {
        let width = self.width();
        let mut rows: Vec<Vec<Cell>> = Vec::new();
        std::mem::swap(&mut rows, &mut self.state);
        let ghost orig = rows_of(rows@);
        let mut kept: Vec<Vec<Cell>> = Vec::new();
        let n = rows.len();
        let mut i: usize = 0;
        while i < n
            invariant
                n == rows@.len() == orig.len(),
                i <= n,
                rows_wf(orig),
                forall|k: int| i <= k < n ==> (#[trigger] rows@[k])@ == orig[k],
                rows_of(kept@) == unfilled_rows(orig.subrange(0, i as int)),
            decreases n - i,
        {
            let mut row: Vec<Cell> = Vec::new();
            std::mem::swap(&mut row, &mut rows[i]);
            assert(row@ == orig[i as int]);
            proof {
                lemma_unfilled_rows_step(orig, i as int);
            }
            if !filled(&row) {
                let ghost prev = kept@;
                kept.push(row);
                assert(rows_of(kept@) =~= rows_of(prev).push(orig[i as int]));
            }
            i += 1;
        }
        assert(orig.subrange(0, n as int) =~= orig);
        let count = n - kept.len();
        proof {
            lemma_cleared_wf(orig);
        }
        let mut state: Vec<Vec<Cell>> = Vec::new();
        let mut k: usize = 0;
        while k < count
            invariant
                k <= count,
                rows_of(state@) == Seq::new(k as nat, |_i: int| empty_row(width as nat)),
            decreases count - k,
        {
            let ghost prev = state@;
            let row = empty_cells(width);
            state.push(row);
            assert(rows_of(state@) =~= rows_of(prev).push(row@));
            k += 1;
            assert(rows_of(state@) =~= Seq::new(k as nat, |_i: int| empty_row(width as nat)));
        }
        let ghost tops = state@;
        let ghost rest = kept@;
        state.append(&mut kept);
        assert(state@ == tops + rest);
        self.state = state;
        assert(rows_of(self.state@) =~= cleared(orig));
        count
    }
}

/// The unfilled rows of a prefix grow by the next row exactly when that row
/// is not filled.
proof fn lemma_unfilled_rows_step(rows: Seq<Seq<Cell>>, i: int)
    requires
        0 <= i < rows.len(),
    ensures
        unfilled_rows(rows.subrange(0, i + 1)) == if is_filled(rows[i]) {
            unfilled_rows(rows.subrange(0, i))
        } else {
            unfilled_rows(rows.subrange(0, i)).push(rows[i])
        },
{
    reveal(Seq::filter);
    assert(rows.subrange(0, i + 1).drop_last() =~= rows.subrange(0, i));
}

/// Every unfilled row is a row of the field.
proof fn lemma_unfilled_rows_from(rows: Seq<Seq<Cell>>, i: int)
    requires
        0 <= i < unfilled_rows(rows).len(),
    ensures
        exists|k: int| 0 <= k < rows.len() && unfilled_rows(rows)[i] == rows[k],
    decreases rows.len(),
{
    reveal(Seq::filter);
    let init = rows.drop_last();
    if rows.len() > 0 {
        if !is_filled(rows.last()) && i == unfilled_rows(rows).len() - 1 {
            assert(unfilled_rows(rows)[i] == rows[rows.len() - 1]);
        } else {
            assert(unfilled_rows(rows) =~= unfilled_rows(init) || unfilled_rows(rows)
                =~= unfilled_rows(init).push(rows.last()));
            lemma_unfilled_rows_from(init, i);
            let k = choose|k: int| 0 <= k < init.len() && unfilled_rows(init)[i] == init[k];
            assert(init[k] == rows[k]);
        }
    }
}

proof fn lemma_unfilled_all(rows: Seq<Seq<Cell>>)
    requires
        forall|i: int| 0 <= i < rows.len() ==> !is_filled(#[trigger] rows[i]),
    ensures
        unfilled_rows(rows) == rows,
    decreases rows.len(),
{
    reveal(Seq::filter);
    if rows.len() > 0 {
        let init = rows.drop_last();
        assert forall|i: int| 0 <= i < init.len() implies !is_filled(#[trigger] init[i]) by {
            assert(init[i] == rows[i]);
        }
        lemma_unfilled_all(init);
        assert(!is_filled(rows[rows.len() - 1]));
        assert(init.push(rows.last()) =~= rows);
    }
}

/// Clearing rows none of which is filled removes nothing and changes nothing.
pub proof fn lemma_clear_without_filled_rows(rows: Seq<Seq<Cell>>)
    requires
        rows_wf(rows),
        forall|i: int| 0 <= i < rows.len() ==> !is_filled(#[trigger] rows[i]),
    ensures
        filled_count(rows) == 0,
        cleared(rows) == rows,
{
    lemma_unfilled_all(rows);
    assert(cleared(rows) =~= rows);
}

/// Clearing keeps the field well formed and the number of rows.
pub proof fn lemma_cleared_wf(rows: Seq<Seq<Cell>>)
    requires
        rows_wf(rows),
    ensures
        rows_wf(cleared(rows)),
        cleared(rows).len() == rows.len(),
        0 <= filled_count(rows) <= rows.len(),
{
    let kept = unfilled_rows(rows);
    rows.lemma_filter_len(|row: Seq<Cell>| !is_filled(row));
    let c = cleared(rows);
    let f = filled_count(rows);
    assert forall|i: int| 0 <= i < c.len() implies (#[trigger] c[i]).len() == rows[0].len() && (
    forall|j: int| 0 <= j < c[i].len() ==> c[i][j] != Cell::Outside) by {
        if i >= f {
            lemma_unfilled_rows_from(rows, i - f);
            let k = choose|k: int| 0 <= k < rows.len() && kept[i - f] == rows[k];
            assert(c[i] == rows[k]);
        }
    }
    assert(c[0].len() == rows[0].len());
}

} // verus!
