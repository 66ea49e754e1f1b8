//! Reading samples back: references to the cells that a reader asks for,
//! and the steps of joining several tables row by row on the sample key.
use crate::grid::GridBatch;
use crate::grid_sample::GridRow;
use crate::sample_key::SampleKey;
use vstd::prelude::*;

verus! {

/// A reference to one cell of a batch, or to none.
#[derive(Clone, Copy)]
pub struct GridCellRef<'a> {
    /// The batch; `None` for a reference to no cell.
    pub gridbuffer: Option<&'a GridBatch>,
    pub row_index: usize,
    pub col_index: usize,
}

impl<'a> Default for GridCellRef<'a> {
    fn default() -> (cell: Self)
        ensures
            cell.gridbuffer is None,
            cell.row_index == 0,
            cell.col_index == 0,
    {
        GridCellRef { gridbuffer: None, row_index: 0, col_index: 0 }
    }
}

impl<'a> GridCellRef<'a> {
    /// The reference is to no cell, or to a cell of a well-formed batch.
    pub open spec fn wf(&self) -> bool {
        self.gridbuffer matches Some(g) ==> g.wf()
    }

    pub fn new(gridbuffer: Option<&'a GridBatch>, row_index: usize, col_index: usize) -> (cell: Self)
        ensures
            cell.gridbuffer == gridbuffer,
            cell.row_index == row_index,
            cell.col_index == col_index,
    {
        Self { gridbuffer, row_index, col_index }
    }

    /// Whether the reference is to a cell.
    pub fn is_valid(&self) -> (valid: bool)
        ensures
            valid == self.gridbuffer is Some,
    {
        self.gridbuffer.is_some()
    }

    /// The sample key of the cell's row.
    pub fn get_sample_key(&self) -> (key: Option<SampleKey>)
        requires
            self.wf(),
        ensures
            match self.gridbuffer {
                Some(g) => key == Some(
                    SampleKey {
                        timestamp: g@.cell(self.row_index as int, 0).key_field(),
                        user_id: g@.cell(self.row_index as int, 1).key_field(),
                        item_id: g@.cell(self.row_index as int, 2).key_field(),
                        request_id: g@.cell(self.row_index as int, 3).key_field(),
                    },
                ),
                None => key is None,
            },
    {
        match self.gridbuffer {
            Some(g) => Some(GridRow::new(g, self.row_index).get_sample_key()),
            None => None,
        }
    }
}

/// The cells that a reader asks for of one row.
pub struct GridRowRef<'a> {
    pub cells: Vec<GridCellRef<'a>>,
    /// The row of the first cell, where there is one.
    pub inner_row: Option<GridRow<'a>>,
}

impl<'a> GridRowRef<'a> {
    /// The cells, with the row of the first of them. No cells, and a first
    /// cell that refers to nothing, have no row.
    pub fn new(cells: Vec<GridCellRef<'a>>) -> (row: Self)
        requires
            forall|i: int| 0 <= i < cells@.len() ==> (#[trigger] cells@[i]).wf(),
        ensures
            row.cells == cells,
            match row.inner_row {
                Some(inner) => cells@.len() > 0 && cells@[0].gridbuffer is Some && inner.grid()
                    == cells@[0].gridbuffer.unwrap()@ && inner.index() == cells@[0].row_index
                    && inner.wf(),
                None => cells@.len() == 0 || cells@[0].gridbuffer is None,
            },
    {
        if cells.len() == 0 {
            return Self { cells, inner_row: None };
        }
        let first = cells[0];
        assert(cells@[0].wf());
        match first.gridbuffer {
            Some(g) => {
                let inner = GridRow::new(g, first.row_index);
                Self { cells, inner_row: Some(inner) }
            },
            None => Self { cells, inner_row: None },
        }
    }
}

/// The rows of one batch, as a reader hands them out.
pub struct GridRowRefs<'a> {
    pub rows: Vec<GridRowRef<'a>>,
}

/// The cells of row `row` of `gridbuffer` under the columns with the ids
/// `key_ids`, in that order; `None` where the batch lacks one of the
/// columns.
pub fn row_cells<'a>(gridbuffer: &'a GridBatch, row: usize, key_ids: &Vec<u32>) -> (cells: Option<
    Vec<GridCellRef<'a>>,
>)
    requires
        gridbuffer.wf(),
    ensures
        match cells {
            Some(cells) => {
                &&& cells@.len() == key_ids@.len()
                &&& forall|k: int|
                    0 <= k < key_ids@.len() ==> {
                        &&& (#[trigger] cells@[k]).gridbuffer == Some(gridbuffer)
                        &&& cells@[k].row_index == row
                        &&& gridbuffer@.col_of(key_ids@[k]) == Some(cells@[k].col_index as int)
                    }
            },
            None => exists|k: int|
                0 <= k < key_ids@.len() && !gridbuffer@.col_ids.contains(#[trigger] key_ids@[k]),
        },
{
    let mut cells: Vec<GridCellRef<'a>> = Vec::new();
    let mut k: usize = 0;
    while k < key_ids.len()
        invariant
            k <= key_ids.len(),
            cells@.len() == k,
            forall|j: int|
                0 <= j < k ==> {
                    &&& (#[trigger] cells@[j]).gridbuffer == Some(gridbuffer)
                    &&& cells@[j].row_index == row
                    &&& gridbuffer@.col_of(key_ids@[j]) == Some(cells@[j].col_index as int)
                },
        decreases key_ids.len() - k,
    {
        match gridbuffer.get_col_by_id(key_ids[k]) {
            Some(col) => {
                proof {
                    gridbuffer@.col_ids.index_of_first_ensures(key_ids@[k as int]);
                    assert(gridbuffer@.col_ids.contains(key_ids@[k as int]));
                }
                cells.push(GridCellRef::new(Some(gridbuffer), row, col));
            },
            None => {
                return None;
            },
        }
        k += 1;
    }
    Some(cells)
}

/// The rows of `gridbuffer`, each with its cells under the columns with the
/// ids `key_ids`; `None` where the batch lacks one of the columns and has a
/// row.
pub fn buffer_rows<'a>(gridbuffer: &'a GridBatch, key_ids: &Vec<u32>) -> (rows: Option<
    GridRowRefs<'a>,
>)
    requires
        gridbuffer.wf(),
    ensures
        match rows {
            Some(rows) => {
                &&& rows.rows@.len() == gridbuffer@.rows.len()
                &&& forall|r: int|
                    0 <= r < rows.rows@.len() ==> (#[trigger] rows.rows@[r]).cells@.len()
                        == key_ids@.len()
                &&& forall|r: int, k: int|
                    0 <= r < rows.rows@.len() && 0 <= k < key_ids@.len() ==> {
                        &&& (#[trigger] rows.rows@[r].cells@[k]).row_index == r
                        &&& gridbuffer@.col_of(key_ids@[k]) == Some(
                            rows.rows@[r].cells@[k].col_index as int,
                        )
                    }
            },
            None => gridbuffer@.rows.len() > 0 && exists|k: int|
                0 <= k < key_ids@.len() && !gridbuffer@.col_ids.contains(#[trigger] key_ids@[k]),
        },
{
    let mut rows: Vec<GridRowRef<'a>> = Vec::new();
    let mut r: usize = 0;
    while r < gridbuffer.num_rows()
        invariant
            gridbuffer.wf(),
            r <= gridbuffer@.rows.len(),
            rows@.len() == r,
            forall|i: int| 0 <= i < r ==> (#[trigger] rows@[i]).cells@.len() == key_ids@.len(),
            forall|i: int, k: int|
                0 <= i < r && 0 <= k < key_ids@.len() ==> {
                    &&& (#[trigger] rows@[i].cells@[k]).row_index == i
                    &&& gridbuffer@.col_of(key_ids@[k]) == Some(rows@[i].cells@[k].col_index as int)
                },
        decreases gridbuffer@.rows.len() - r,
    {
        match row_cells(gridbuffer, r, key_ids) {
            Some(cells) => {
                assert forall|i: int| 0 <= i < cells@.len() implies (#[trigger] cells@[i]).wf() by {
                    assert(cells@[i].gridbuffer == Some(gridbuffer));
                }
                rows.push(GridRowRef::new(cells));
            },
            None => {
                return None;
            },
        }
        r += 1;
    }
    Some(GridRowRefs { rows })
}

/// What a join does with a row of a table that is not the first.
#[derive(Clone, Copy, Debug, PartialEq, Eq, Structural)]
pub enum JoinStep {
    /// The row comes before the first table's row: pass it over and read on.
    Skip,
    /// The row has the key of the first table's row: take its cells.
    Take,
    /// The row comes after the first table's row: the table has no row for
    /// the key.
    Stop,
}

/// What to do with a row with the key `key` when the first table's row has
/// the key `primary`.
pub fn join_step(key: &SampleKey, primary: &SampleKey) -> (step: JoinStep)
    ensures
        step == if (*primary).lt(*key) {
            JoinStep::Stop
        } else if *key == *primary {
            JoinStep::Take
        } else {
            JoinStep::Skip
        },
{
    if *key > *primary {
        JoinStep::Stop
    } else if *key == *primary {
        JoinStep::Take
    } else {
        JoinStep::Skip
    }
}

/// Stands in for the cells of a table that has no row for a key: appends
/// `count` references to no cell.
pub fn push_missing_cells<'a>(cells: &mut Vec<GridCellRef<'a>>, count: usize)
    ensures
        final(cells)@.len() == old(cells)@.len() + count,
        forall|i: int| 0 <= i < old(cells)@.len() ==> final(cells)@[i] == old(cells)@[i],
        forall|i: int|
            old(cells)@.len() <= i < final(cells)@.len() ==> (#[trigger] final(cells)@[i]).gridbuffer is None,
{
    let mut i: usize = 0;
    while i < count
        invariant
            i <= count,
            cells@.len() == old(cells)@.len() + i,
            forall|k: int| 0 <= k < old(cells)@.len() ==> cells@[k] == old(cells)@[k],
            forall|k: int|
                old(cells)@.len() <= k < cells@.len() ==> (#[trigger] cells@[k]).gridbuffer is None,
        decreases count - i,
    {
        cells.push(GridCellRef::default());
        i += 1;
    }
}

/// The number of all ids in `key_ids`.
pub open spec fn total_ids(key_ids: Seq<Vec<u32>>) -> nat
    decreases key_ids.len(),
{
    if key_ids.len() == 0 {
        0
    } else {
        total_ids(key_ids.drop_last()) + key_ids.last()@.len()
    }
}

/// The number of cells of a joined row: the number of all ids that the
/// tables are asked for; the largest number where they are more.
pub fn total_key_ids(key_ids: &Vec<Vec<u32>>) -> (total: usize)
    ensures
        total == if total_ids(key_ids@) <= usize::MAX {
            total_ids(key_ids@) as usize
        } else {
            usize::MAX
        },
{
    let mut total: usize = 0;
    let mut i: usize = 0;
    assert(key_ids@.take(0) =~= Seq::<Vec<u32>>::empty());
    while i < key_ids.len()
        invariant
            i <= key_ids.len(),
            total == if total_ids(key_ids@.take(i as int)) <= usize::MAX {
                total_ids(key_ids@.take(i as int)) as usize
            } else {
                usize::MAX
            },
        decreases key_ids.len() - i,
    {
        proof {
            let next = key_ids@.take(i as int + 1);
            assert(next.drop_last() =~= key_ids@.take(i as int));
            assert(next.last() == key_ids@[i as int]);
        }
        let n = key_ids[i].len();
        if n <= usize::MAX - total {
            total = total + n;
        } else {
            total = usize::MAX;
        }
        i += 1;
    }
    assert(key_ids@.take(key_ids.len() as int) =~= key_ids@);
    total
}

/// Which of some files is read, in turn.
pub struct FileCursor {
    filenames: Vec<String>,
    pos: usize,
}

impl FileCursor {
    /// The files that have not been opened yet.
    pub closed spec fn left(&self) -> Seq<String> {
        self.filenames@.skip(self.pos as int)
    }

    /// The cursor's invariant.
    pub closed spec fn wf(&self) -> bool {
        self.pos <= self.filenames@.len()
    }

    /// A cursor before the first of `filenames`.
    pub fn new(filenames: Vec<String>) -> (cursor: Self)
        ensures
            cursor.wf(),
            cursor.left() == filenames@,
    {
        let cursor = FileCursor { filenames, pos: 0 };
        assert(cursor.left() =~= filenames@);
        cursor
    }

    /// The file to open next; `None` when every file has been opened.
    pub fn open_next_file(&mut self) -> (name: Option<&String>)
        requires
            old(self).wf(),
        ensures
            final(self).wf(),
            match name {
                Some(name) => old(self).left().len() > 0 && *name == old(self).left()[0] && final(self).left() == old(self).left().drop_first(),
                None => old(self).left().len() == 0 && final(self).left() == old(self).left(),
            },
    {
        if self.pos >= self.filenames.len() {
            return None;
        }
        self.pos += 1;
        proof {
            assert(self.left() =~= old(self).left().drop_first());
        }
        Some(&self.filenames[self.pos - 1])
    }
}

} // verus!
