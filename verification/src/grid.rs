//! The grid: a fixed-size rectangular field of binary cell states.

use vstd::prelude::*;

verus! {

/// Why a table of cell values is not a grid.
#[derive(Clone, Copy, Debug, PartialEq, Eq, Structural)]
pub enum MalformedInputError {
    /// There is no row at all.
    NoRows,
    /// Some row is not as long as the first one.
    RaggedRows,
    /// The rows hold no cell.
    NoColumns,
    /// Some cell holds a value other than 0 and 1.
    InvalidCell,
}

/// All rows of `rows` are as long as the first.
pub open spec fn rectangular(rows: Seq<Seq<u8>>) -> bool {
    forall|r: int| 0 <= r < rows.len() ==> (#[trigger] rows[r]).len() == rows[0].len()
}

/// Every cell of `rows` is 0 or 1.
pub open spec fn binary(rows: Seq<Seq<u8>>) -> bool {
    forall|r: int, c: int|
        0 <= r < rows.len() && 0 <= c < rows[r].len() ==> (#[trigger] rows[r][c]) <= 1
}

/// A table of cell values is a grid when it has at least one row and one
/// column, all rows are equally long, and every cell is 0 (dead) or 1 (alive).
pub open spec fn well_formed(rows: Seq<Seq<u8>>) -> bool {
    &&& rows.len() >= 1
    &&& rectangular(rows)
    &&& rows[0].len() >= 1
    &&& binary(rows)
}

/// What keeps a table of cell values from being a grid: nothing where it is
/// well formed, otherwise its first defect in the order no rows, ragged rows,
/// no columns, invalid cell.
pub open spec fn defect(rows: Seq<Seq<u8>>) -> Option<MalformedInputError> {
    if rows.len() == 0 {
        Some(MalformedInputError::NoRows)
    } else if !rectangular(rows) {
        Some(MalformedInputError::RaggedRows)
    } else if rows[0].len() == 0 {
        Some(MalformedInputError::NoColumns)
    } else if !binary(rows) {
        Some(MalformedInputError::InvalidCell)
    } else {
        None
    }
}

/// The table that a vector of rows holds.
pub open spec fn table_of(rows: Seq<Vec<u8>>) -> Seq<Seq<u8>> {
    Seq::new(rows.len(), |r: int| rows[r]@)
}

/// A rectangular field of cells, each dead (0) or alive (1), with at least
/// one row and one column. Its view is the sequence of its rows.
#[derive(Debug, PartialEq, Eq)]
pub struct Grid {
    cells: Vec<Vec<u8>>,
}

impl View for Grid {
    type V = Seq<Seq<u8>>;

    closed spec fn view(&self) -> Seq<Seq<u8>> {
        table_of(self.cells@)
    }
}

impl Grid {
    /// The invariant of every grid that this library hands out.
    pub open spec fn wf(&self) -> bool {
        well_formed(self@)
    }

    /// Makes a grid of the given rows, or says what is wrong with them.
    pub fn from_rows(rows: Vec<Vec<u8>>) -> (result: Result<Grid, MalformedInputError>)
        ensures
            match result {
                Ok(g) => defect(table_of(rows@)) is None && g@ == table_of(rows@) && g.wf(),
                Err(e) => defect(table_of(rows@)) == Some(e),
            },
    {
        let ghost table = table_of(rows@);
        if rows.len() == 0 {
            return Err(MalformedInputError::NoRows);
        }
        let cols: usize = rows[0].len();
        let mut r: usize = 0;
        while r < rows.len()
            invariant
                r <= rows.len(),
                table == table_of(rows@),
                cols == table[0].len(),
                forall|k: int| 0 <= k < r ==> (#[trigger] table[k]).len() == cols,
            decreases rows.len() - r,
        {
            if rows[r].len() != cols {
                assert(table[r as int].len() != table[0].len());
                return Err(MalformedInputError::RaggedRows);
            }
            r += 1;
        }
        if cols == 0 {
            return Err(MalformedInputError::NoColumns);
        }
        r = 0;
        while r < rows.len()
            invariant
                r <= rows.len(),
                table == table_of(rows@),
                rectangular(table),
                cols == table[0].len(),
                cols >= 1,
                forall|k: int, c: int|
                    0 <= k < r && 0 <= c < table[k].len() ==> (#[trigger] table[k][c]) <= 1,
            decreases rows.len() - r,
        {
            let mut c: usize = 0;
            while c < cols
                invariant
                    r < rows.len(),
                    c <= cols,
                    table == table_of(rows@),
                    rectangular(table),
                    cols == table[0].len(),
                    cols >= 1,
                    cols == table[r as int].len(),
                    forall|j: int| 0 <= j < c ==> (#[trigger] table[r as int][j]) <= 1,
                decreases cols - c,
            {
                if rows[r][c] > 1 {
                    assert(table[r as int] == rows@[r as int]@);
                    assert(table[r as int][c as int] > 1);
                    return Err(MalformedInputError::InvalidCell);
                }
                c += 1;
            }
            r += 1;
        }
        Ok(Grid { cells: rows })
    }

    /// The number of rows.
    pub fn rows(&self) -> (n: usize)
        requires
            self.wf(),
        ensures
            n == self@.len(),
            n >= 1,
    {
        self.cells.len()
    }

    /// The number of columns.
    pub fn cols(&self) -> (n: usize)
        requires
            self.wf(),
        ensures
            n == self@[0].len(),
            n >= 1,
    {
        assert(self@[0] == self.cells@[0]@);
        self.cells[0].len()
    }

    /// The state of the cell in row `r` and column `c`: 1 for alive, 0 for
    /// dead, and nothing outside the grid.
    pub fn get(&self, r: usize, c: usize) -> (cell: Option<u8>)
        requires
            self.wf(),
        ensures
            cell == if r < self@.len() && c < self@[0].len() {
                Some(self@[r as int][c as int])
            } else {
                None
            },
    {
        if r < self.cells.len() {
            assert(self@[r as int] == self.cells@[r as int]@);
            if c < self.cells[r].len() {
                return Some(self.cells[r][c]);
            }
        }
        None
    }

    /// Overwrites the cell in row `r` and column `c`.
    pub(crate) fn set(&mut self, r: usize, c: usize, cell: u8)
        requires
            old(self).wf(),
            r < old(self)@.len(),
            c < old(self)@[0].len(),
            cell <= 1,
        ensures
            final(self)@ == old(self)@.update(r as int, old(self)@[r as int].update(c as int, cell)),
            final(self).wf(),
    {
        assert(self@[r as int] == self.cells@[r as int]@);
        self.cells[r][c] = cell;
        assert(self@ =~= old(self)@.update(r as int, old(self)@[r as int].update(c as int, cell)));
    }
}

impl Clone for Grid {
    fn clone(&self) -> (copy: Grid)
        ensures
            copy@ == self@,
    {
        let mut cells: Vec<Vec<u8>> = Vec::new();
        let mut r: usize = 0;
        while r < self.cells.len()
            invariant
                r <= self.cells.len(),
                cells.len() == r,
                forall|k: int| 0 <= k < r ==> (#[trigger] cells@[k])@ == self.cells@[k]@,
            decreases self.cells.len() - r,
        {
            let mut row: Vec<u8> = Vec::new();
            let mut c: usize = 0;
            while c < self.cells[r].len()
                invariant
                    r < self.cells.len(),
                    c <= self.cells@[r as int]@.len(),
                    row@ == self.cells@[r as int]@.take(c as int),
                decreases self.cells@[r as int]@.len() - c,
            {
                row.push(self.cells[r][c]);
                c += 1;
            }
            cells.push(row);
            r += 1;
        }
        let copy = Grid { cells };
        assert(copy@ =~= self@);
        copy
    }
}

} // verus!
