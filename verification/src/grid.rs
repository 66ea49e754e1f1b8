//! Row batches in grid form.
//!
//! A batch is a fixed list of column ids, a hash of that list, and for every
//! row one cell per column. A cell is empty or holds unsigned integers or
//! floats, as a scalar or as a list. Floats are carried by their IEEE-754 bit
//! patterns, so that a cell that is copied is copied exactly.
use crate::error::DropletError;
use crate::sample_key::SampleKey;
use vstd::prelude::*;
use vstd::seq_lib::to_multiset_insert;
use vstd::seq_lib::to_multiset_remove;
use vstd::slice::slice_to_vec;

verus! {

/// What a filled cell holds.
#[derive(Clone, Copy, Debug, PartialEq, Eq, Structural)]
pub enum CellKind {
    U64,
    F32,
    U64List,
    F32List,
}

/// The contents of one cell.
pub struct CellValue {
    /// `None` for a cell that was never filled.
    pub kind: Option<CellKind>,
    pub u64_values: Seq<u64>,
    /// Bit patterns of the floats.
    pub f32_values: Seq<u32>,
}

impl CellValue {
    pub open spec fn empty() -> CellValue {
        CellValue { kind: None, u64_values: Seq::empty(), f32_values: Seq::empty() }
    }

    pub open spec fn u64_scalar(value: u64) -> CellValue {
        CellValue { kind: Some(CellKind::U64), u64_values: seq![value], f32_values: Seq::empty() }
    }

    pub open spec fn f32_scalar(bits: u32) -> CellValue {
        CellValue { kind: Some(CellKind::F32), u64_values: Seq::empty(), f32_values: seq![bits] }
    }

    pub open spec fn u64_list(values: Seq<u64>) -> CellValue {
        CellValue { kind: Some(CellKind::U64List), u64_values: values, f32_values: Seq::empty() }
    }

    pub open spec fn f32_list(bits: Seq<u32>) -> CellValue {
        CellValue { kind: Some(CellKind::F32List), u64_values: Seq::empty(), f32_values: bits }
    }

    /// A scalar holds exactly one value of its kind, a list any number, and
    /// no cell holds values of the other kind.
    pub open spec fn well_formed(self) -> bool {
        match self.kind {
            None => self.u64_values.len() == 0 && self.f32_values.len() == 0,
            Some(CellKind::U64) => self.u64_values.len() == 1 && self.f32_values.len() == 0,
            Some(CellKind::F32) => self.u64_values.len() == 0 && self.f32_values.len() == 1,
            Some(CellKind::U64List) => self.f32_values.len() == 0,
            Some(CellKind::F32List) => self.u64_values.len() == 0,
        }
    }

    /// The value of an integer scalar.
    pub open spec fn as_u64(self) -> Option<u64> {
        if self.kind == Some(CellKind::U64) {
            Some(self.u64_values[0])
        } else {
            None
        }
    }

    /// The bits of a float scalar.
    pub open spec fn as_f32(self) -> Option<u32> {
        if self.kind == Some(CellKind::F32) {
            Some(self.f32_values[0])
        } else {
            None
        }
    }

    /// The integer scalar, or 0 where the cell holds none.
    pub open spec fn key_field(self) -> u64 {
        match self.as_u64() {
            Some(v) => v,
            None => 0,
        }
    }
}

/// One row: a cell per column.
pub type RowView = Seq<CellValue>;

/// The sample key of a row, read from its first four cells. A cell that is
/// missing or holds no integer scalar counts as 0.
pub open spec fn row_key(row: RowView) -> SampleKey {
    SampleKey {
        timestamp: if 0 < row.len() {
            row[0].key_field()
        } else {
            0
        },
        user_id: if 1 < row.len() {
            row[1].key_field()
        } else {
            0
        },
        item_id: if 2 < row.len() {
            row[2].key_field()
        } else {
            0
        },
        request_id: if 3 < row.len() {
            row[3].key_field()
        } else {
            0
        },
    }
}

/// A row whose every cell is well formed.
pub open spec fn row_well_formed(row: RowView) -> bool {
    forall|c: int| 0 <= c < row.len() ==> (#[trigger] row[c]).well_formed()
}

/// A batch as a mathematical value.
pub struct GridView {
    pub col_ids: Seq<u32>,
    pub col_ids_hash: u32,
    pub rows: Seq<RowView>,
}

impl GridView {
    /// Every row has one well-formed cell for each column.
    pub open spec fn well_formed(self) -> bool {
        forall|r: int|
            0 <= r < self.rows.len() ==> {
                &&& (#[trigger] self.rows[r]).len() == self.col_ids.len()
                &&& forall|c: int|
                    0 <= c < self.col_ids.len() ==> (#[trigger] self.rows[r][c]).well_formed()
            }
    }

    /// A batch of `num_rows` rows of empty cells.
    pub open spec fn blank(num_rows: nat, col_ids: Seq<u32>, col_ids_hash: u32) -> GridView {
        GridView {
            col_ids,
            col_ids_hash,
            rows: Seq::new(num_rows, |r: int| Seq::new(col_ids.len(), |c: int| CellValue::empty())),
        }
    }

    pub open spec fn in_range(self, row: int, col: int) -> bool {
        0 <= row < self.rows.len() && 0 <= col < self.col_ids.len()
    }

    /// The cell at `(row, col)`; the empty cell outside the batch.
    pub open spec fn cell(self, row: int, col: int) -> CellValue {
        if self.in_range(row, col) {
            self.rows[row][col]
        } else {
            CellValue::empty()
        }
    }

    /// The batch with the cell at `(row, col)` replaced; unchanged where
    /// `(row, col)` lies outside it.
    pub open spec fn with_cell(self, row: int, col: int, value: CellValue) -> GridView {
        if self.in_range(row, col) {
            GridView { rows: self.rows.update(row, self.rows[row].update(col, value)), ..self }
        } else {
            self
        }
    }

    /// The sample key of row `row`.
    pub open spec fn key(self, row: int) -> SampleKey {
        row_key(self.rows[row])
    }

    /// The first column with id `col_id`, if there is one.
    pub open spec fn col_of(self, col_id: u32) -> Option<int> {
        self.col_ids.index_of_first(col_id)
    }
}

/// Row `row` of `grid` laid out over `ncols` columns: its cells in the
/// columns that the batch has, empty cells in the others.
pub open spec fn projected(grid: GridView, row: int, ncols: nat) -> RowView {
    Seq::new(ncols, |c: int| grid.cell(row, c))
}

/// A row of a well-formed batch stays well formed when it is laid out over
/// another number of columns, and over the batch's own columns it is the row
/// itself.
pub proof fn lemma_projected(grid: GridView, row: int, ncols: nat)
    requires
        grid.well_formed(),
    ensures
        row_well_formed(projected(grid, row, ncols)),
        projected(grid, row, ncols).len() == ncols,
        0 <= row < grid.rows.len() && ncols == grid.col_ids.len() ==> projected(grid, row, ncols)
            == grid.rows[row],
{
    assert forall|c: int| 0 <= c < ncols implies (#[trigger] projected(
        grid,
        row,
        ncols,
    )[c]).well_formed() by {
        if grid.in_range(row, c) {
            assert(grid.rows[row].len() == grid.col_ids.len());
            assert(grid.rows[row][c].well_formed());
        }
    }
    if 0 <= row < grid.rows.len() && ncols == grid.col_ids.len() {
        assert(grid.rows[row].len() == grid.col_ids.len());
        assert(projected(grid, row, ncols) =~= grid.rows[row]);
    }
}

/// One cell of a batch.
pub struct GridCell {
    kind: Option<CellKind>,
    u64_values: Vec<u64>,
    f32_values: Vec<u32>,
}

impl View for GridCell {
    type V = CellValue;

    closed spec fn view(&self) -> CellValue {
        CellValue {
            kind: self.kind,
            u64_values: self.u64_values@,
            f32_values: self.f32_values@,
        }
    }
}

impl GridCell {
    pub fn empty() -> (cell: Self)
        ensures
            cell@ == CellValue::empty(),
    {
        GridCell { kind: None, u64_values: Vec::new(), f32_values: Vec::new() }
    }

    pub fn from_u64(value: u64) -> (cell: Self)
        ensures
            cell@ == CellValue::u64_scalar(value),
    {
        let mut u64_values: Vec<u64> = Vec::new();
        u64_values.push(value);
        assert(u64_values@ =~= seq![value]);
        GridCell { kind: Some(CellKind::U64), u64_values, f32_values: Vec::new() }
    }

    pub fn from_f32_bits(bits: u32) -> (cell: Self)
        ensures
            cell@ == CellValue::f32_scalar(bits),
    {
        let mut f32_values: Vec<u32> = Vec::new();
        f32_values.push(bits);
        assert(f32_values@ =~= seq![bits]);
        GridCell { kind: Some(CellKind::F32), u64_values: Vec::new(), f32_values }
    }

    pub fn from_u64_values(values: &[u64]) -> (cell: Self)
        ensures
            cell@ == CellValue::u64_list(values@),
    {
        GridCell {
            kind: Some(CellKind::U64List),
            u64_values: slice_to_vec(values),
            f32_values: Vec::new(),
        }
    }

    pub fn from_f32_bits_values(bits: &[u32]) -> (cell: Self)
        ensures
            cell@ == CellValue::f32_list(bits@),
    {
        GridCell {
            kind: Some(CellKind::F32List),
            u64_values: Vec::new(),
            f32_values: slice_to_vec(bits),
        }
    }

    /// A copy of the cell, values and all.
    pub fn duplicate(&self) -> (cell: Self)
        ensures
            cell@ == self@,
    {
        GridCell {
            kind: self.kind,
            u64_values: slice_to_vec(self.u64_values.as_slice()),
            f32_values: slice_to_vec(self.f32_values.as_slice()),
        }
    }

    pub fn kind(&self) -> (kind: Option<CellKind>)
        ensures
            kind == self@.kind,
    {
        self.kind
    }
}

/// The cells of a row as values.
pub open spec fn row_view(row: Seq<GridCell>) -> RowView {
    Seq::new(row.len(), |c: int| row[c]@)
}

/// The rows of a batch as values.
pub open spec fn rows_view(rows: Seq<Vec<GridCell>>) -> Seq<RowView> {
    Seq::new(rows.len(), |r: int| row_view(rows[r]@))
}

/// A copy of a row, cell by cell.
pub fn duplicate_row(row: &Vec<GridCell>) -> (copy: Vec<GridCell>)
    ensures
        row_view(copy@) == row_view(row@),
{
    let mut copy: Vec<GridCell> = Vec::new();
    let mut c: usize = 0;
    while c < row.len()
        invariant
            c <= row.len(),
            copy.len() == c,
            forall|k: int| 0 <= k < c ==> (#[trigger] copy[k])@ == row[k]@,
        decreases row.len() - c,
    {
        copy.push(row[c].duplicate());
        c += 1;
    }
    assert(row_view(copy@) =~= row_view(row@));
    copy
}

/// A batch of rows over one list of columns.
pub struct GridBatch {
    col_ids: Vec<u32>,
    col_ids_hash: u32,
    rows: Vec<Vec<GridCell>>,
}

impl View for GridBatch {
    type V = GridView;

    closed spec fn view(&self) -> GridView {
        GridView {
            col_ids: self.col_ids@,
            col_ids_hash: self.col_ids_hash,
            rows: rows_view(self.rows@),
        }
    }
}

impl GridBatch {
    /// The batch is well formed: each row has a cell for each column.
    pub open spec fn wf(&self) -> bool {
        self@.well_formed()
    }

    /// The batch without columns or rows.
    pub fn new() -> (batch: Self)
        ensures
            batch.wf(),
            batch@ == GridView::blank(0, Seq::empty(), 0),
    {
        let batch = GridBatch { col_ids: Vec::new(), col_ids_hash: 0, rows: Vec::new() };
        assert(batch@.rows =~= GridView::blank(0, Seq::empty(), 0).rows);
        batch
    }

    /// A batch of `num_rows` rows whose cells are all empty.
    pub fn new_with_num_rows_col_ids_hash(num_rows: usize, col_ids: Vec<u32>, col_ids_hash: u32) -> (batch:
        Self)
        ensures
            batch.wf(),
            batch@ == GridView::blank(num_rows as nat, col_ids@, col_ids_hash),
    {
        let mut rows: Vec<Vec<GridCell>> = Vec::new();
        let mut r: usize = 0;
        while r < num_rows
            invariant
                r <= num_rows,
                rows.len() == r,
                forall|i: int|
                    0 <= i < r ==> row_view((#[trigger] rows[i])@) == Seq::new(
                        col_ids.len() as nat,
                        |c: int| CellValue::empty(),
                    ),
            decreases num_rows - r,
        {
            let mut row: Vec<GridCell> = Vec::new();
            let mut c: usize = 0;
            while c < col_ids.len()
                invariant
                    c <= col_ids.len(),
                    row.len() == c,
                    forall|k: int| 0 <= k < c ==> (#[trigger] row[k])@ == CellValue::empty(),
                decreases col_ids.len() - c,
            {
                row.push(GridCell::empty());
                c += 1;
            }
            assert(row_view(row@) =~= Seq::new(
                col_ids.len() as nat,
                |c: int| CellValue::empty(),
            ));
            rows.push(row);
            r += 1;
        }
        let batch = GridBatch { col_ids, col_ids_hash, rows };
        assert(batch@.rows =~= GridView::blank(num_rows as nat, col_ids@, col_ids_hash).rows);
        batch
    }

    /// A batch made of the given rows.
    pub fn from_rows(col_ids: Vec<u32>, col_ids_hash: u32, rows: Vec<Vec<GridCell>>) -> (batch: Self)
        requires
            (GridView { col_ids: col_ids@, col_ids_hash, rows: rows_view(rows@) }).well_formed(),
        ensures
            batch.wf(),
            batch@ == (GridView { col_ids: col_ids@, col_ids_hash, rows: rows_view(rows@) }),
    {
        GridBatch { col_ids, col_ids_hash, rows }
    }

    pub fn num_rows(&self) -> (n: usize)
        ensures
            n == self@.rows.len(),
    {
        self.rows.len()
    }

    pub fn num_cols(&self) -> (n: usize)
        ensures
            n == self@.col_ids.len(),
    {
        self.col_ids.len()
    }

    pub fn col_ids(&self) -> (ids: &Vec<u32>)
        ensures
            ids@ == self@.col_ids,
    {
        &self.col_ids
    }

    pub fn col_ids_hash(&self) -> (hash: u32)
        ensures
            hash == self@.col_ids_hash,
    {
        self.col_ids_hash
    }

    /// The column that holds `col_id`: the first one, where several do.
    pub fn get_col_by_id(&self, col_id: u32) -> (col: Option<usize>)
        ensures
            match col {
                Some(c) => c < self@.col_ids.len() && self@.col_ids[c as int] == col_id && forall|
                    k: int,
                | 0 <= k < c ==> self@.col_ids[k] != col_id,
                None => !self@.col_ids.contains(col_id),
            },
    {
        let mut c: usize = 0;
        while c < self.col_ids.len()
            invariant
                c <= self.col_ids.len(),
                forall|k: int| 0 <= k < c ==> self.col_ids@[k] != col_id,
            decreases self.col_ids.len() - c,
        {
            if self.col_ids[c] == col_id {
                return Some(c);
            }
            c += 1;
        }
        None
    }

    fn cell_ref(&self, row: usize, col: usize) -> (cell: Option<&GridCell>)
        requires
            self.wf(),
        ensures
            match cell {
                Some(c) => self@.in_range(row as int, col as int) && c@ == self@.cell(
                    row as int,
                    col as int,
                ),
                None => !self@.in_range(row as int, col as int),
            },
    {
        if row < self.rows.len() && col < self.col_ids.len() {
            assert(self@.rows[row as int].len() == self@.col_ids.len());
            Some(&self.rows[row][col])
        } else {
            None
        }
    }

    /// The kind of the cell at `(row, col)`; `None` where the cell is empty or
    /// lies outside the batch.
    pub fn get_cell(&self, row: usize, col: usize) -> (kind: Option<CellKind>)
        requires
            self.wf(),
        ensures
            kind == self@.cell(row as int, col as int).kind,
    {
        match self.cell_ref(row, col) {
            Some(cell) => cell.kind,
            None => None,
        }
    }

    /// The integer scalar at `(row, col)`.
    pub fn get_u64(&self, row: usize, col: usize) -> (value: Option<u64>)
        requires
            self.wf(),
        ensures
            value == self@.cell(row as int, col as int).as_u64(),
    {
        match self.cell_ref(row, col) {
            Some(cell) => {
                match cell.kind {
                    Some(CellKind::U64) => {
                        assert(cell@.well_formed());
                        Some(cell.u64_values[0])
                    },
                    _ => None,
                }
            },
            None => None,
        }
    }

    /// The bits of the float scalar at `(row, col)`.
    pub fn get_f32(&self, row: usize, col: usize) -> (bits: Option<u32>)
        requires
            self.wf(),
        ensures
            bits == self@.cell(row as int, col as int).as_f32(),
    {
        match self.cell_ref(row, col) {
            Some(cell) => {
                match cell.kind {
                    Some(CellKind::F32) => {
                        assert(cell@.well_formed());
                        Some(cell.f32_values[0])
                    },
                    _ => None,
                }
            },
            None => None,
        }
    }

    /// The integers of the cell at `(row, col)`: one for a scalar, all of a
    /// list, none otherwise.
    pub fn get_u64_values(&self, row: usize, col: usize) -> (values: Vec<u64>)
        requires
            self.wf(),
        ensures
            values@ == self@.cell(row as int, col as int).u64_values,
    {
        match self.cell_ref(row, col) {
            Some(cell) => slice_to_vec(cell.u64_values.as_slice()),
            None => Vec::new(),
        }
    }

    /// The float bits of the cell at `(row, col)`.
    pub fn get_f32_values(&self, row: usize, col: usize) -> (bits: Vec<u32>)
        requires
            self.wf(),
        ensures
            bits@ == self@.cell(row as int, col as int).f32_values,
    {
        match self.cell_ref(row, col) {
            Some(cell) => slice_to_vec(cell.f32_values.as_slice()),
            None => Vec::new(),
        }
    }

    /// The sample key of row `row`.
    pub fn sample_key(&self, row: usize) -> (key: SampleKey)
        requires
            self.wf(),
            row < self@.rows.len(),
        ensures
            key == self@.key(row as int),
    {
        let timestamp = self.get_u64(row, 0).unwrap_or(0);
        let user_id = self.get_u64(row, 1).unwrap_or(0);
        let item_id = self.get_u64(row, 2).unwrap_or(0);
        let request_id = self.get_u64(row, 3).unwrap_or(0);
        assert(self@.rows[row as int].len() == self@.col_ids.len());
        SampleKey::new(timestamp, user_id, item_id, request_id)
    }

    /// A copy of row `row`.
    pub fn copy_row(&self, row: usize) -> (cells: Vec<GridCell>)
        requires
            row < self@.rows.len(),
        ensures
            row_view(cells@) == self@.rows[row as int],
    {
        duplicate_row(&self.rows[row])
    }

    /// A copy of row `row` laid out over `ncols` columns.
    pub fn project_row(&self, row: usize, ncols: usize) -> (cells: Vec<GridCell>)
        requires
            self.wf(),
        ensures
            row_view(cells@) == projected(self@, row as int, ncols as nat),
    {
        let mut cells: Vec<GridCell> = Vec::new();
        let mut c: usize = 0;
        while c < ncols
            invariant
                self.wf(),
                c <= ncols,
                cells.len() == c,
                forall|k: int| 0 <= k < c ==> (#[trigger] cells[k])@ == self@.cell(row as int, k),
            decreases ncols - c,
        {
            let cell = match self.cell_ref(row, c) {
                Some(cell) => cell.duplicate(),
                None => GridCell::empty(),
            };
            cells.push(cell);
            c += 1;
        }
        assert(row_view(cells@) =~= projected(self@, row as int, ncols as nat));
        cells
    }

    /// The integer scalar at `(row, col)` where `col` is one of the first
    /// `ncols` columns; 0 where there is none.
    fn key_field(&self, row: usize, col: usize, ncols: usize) -> (value: u64)
        requires
            self.wf(),
        ensures
            value == if col < ncols {
                self@.cell(row as int, col as int).key_field()
            } else {
                0
            },
    {
        if col < ncols {
            self.get_u64(row, col).unwrap_or(0)
        } else {
            0
        }
    }

    /// The sample key of row `row` laid out over `ncols` columns.
    pub fn projected_key(&self, row: usize, ncols: usize) -> (key: SampleKey)
        requires
            self.wf(),
        ensures
            key == row_key(projected(self@, row as int, ncols as nat)),
    {
        SampleKey::new(
            self.key_field(row, 0, ncols),
            self.key_field(row, 1, ncols),
            self.key_field(row, 2, ncols),
            self.key_field(row, 3, ncols),
        )
    }

    fn set_cell(&mut self, row: usize, col: usize, cell: GridCell)
        requires
            old(self).wf(),
            cell@.well_formed(),
        ensures
            final(self).wf(),
            final(self)@ == old(self)@.with_cell(row as int, col as int, cell@),
    {
        if row < self.rows.len() && col < self.col_ids.len() {
            assert(self@.rows[row as int].len() == self@.col_ids.len());
            let ghost before = self@;
            let ghost value = cell@;
            self.rows[row][col] = cell;
            assert(self@.rows =~= before.rows.update(
                row as int,
                before.rows[row as int].update(col as int, value),
            )) by {
                assert forall|r: int| 0 <= r < self@.rows.len() implies self@.rows[r]
                    =~= before.rows.update(
                    row as int,
                    before.rows[row as int].update(col as int, value),
                )[r] by {}
            }
            assert(self@.well_formed()) by {
                assert forall|r: int| 0 <= r < self@.rows.len() implies {
                    &&& (#[trigger] self@.rows[r]).len() == self@.col_ids.len()
                    &&& forall|c: int|
                        0 <= c < self@.col_ids.len() ==> (#[trigger] self@.rows[r][c]).well_formed()
                } by {
                    assert(before.rows[r].len() == before.col_ids.len());
                    assert forall|c: int| 0 <= c < self@.col_ids.len() implies (
                    #[trigger] self@.rows[r][c]).well_formed() by {
                        assert(before.rows[r][c].well_formed());
                    }
                }
            }
        }
    }

    /// Stores an integer scalar at `(row, col)`. Outside the batch nothing is
    /// stored.
    pub fn push_u64(&mut self, row: usize, col: usize, value: u64)
        requires
            old(self).wf(),
        ensures
            final(self).wf(),
            final(self)@ == old(self)@.with_cell(
                row as int,
                col as int,
                CellValue::u64_scalar(value),
            ),
    {
        self.set_cell(row, col, GridCell::from_u64(value));
    }

    /// Stores a list of integers at `(row, col)`.
    pub fn push_u64_values(&mut self, row: usize, col: usize, values: &[u64])
        requires
            old(self).wf(),
        ensures
            final(self).wf(),
            final(self)@ == old(self)@.with_cell(
                row as int,
                col as int,
                CellValue::u64_list(values@),
            ),
    {
        self.set_cell(row, col, GridCell::from_u64_values(values));
    }

    /// Stores a float scalar, given by its bits, at `(row, col)`.
    pub fn push_f32(&mut self, row: usize, col: usize, bits: u32)
        requires
            old(self).wf(),
        ensures
            final(self).wf(),
            final(self)@ == old(self)@.with_cell(
                row as int,
                col as int,
                CellValue::f32_scalar(bits),
            ),
    {
        self.set_cell(row, col, GridCell::from_f32_bits(bits));
    }

    /// Stores a list of floats, given by their bits, at `(row, col)`.
    pub fn push_f32_values(&mut self, row: usize, col: usize, bits: &[u32])
        requires
            old(self).wf(),
        ensures
            final(self).wf(),
            final(self)@ == old(self)@.with_cell(
                row as int,
                col as int,
                CellValue::f32_list(bits@),
            ),
    {
        self.set_cell(row, col, GridCell::from_f32_bits_values(bits));
    }

    /// Stores `cell` in row `row` under the column with id `col_id`, or
    /// reports that the batch has no such column.
    fn set_cell_by_col_id(&mut self, row: usize, col_id: u32, cell: GridCell) -> (res: Result<
        (),
        DropletError,
    >)
        requires
            old(self).wf(),
            cell@.well_formed(),
        ensures
            final(self).wf(),
            match old(self)@.col_of(col_id) {
                Some(c) => res is Ok && final(self)@ == old(self)@.with_cell(row as int, c, cell@),
                None => res == Err::<(), DropletError>(DropletError::NotFound) && final(self)@
                    == old(self)@,
            },
    {
        match self.get_col_by_id(col_id) {
            Some(col) => {
                proof {
                    self@.col_ids.index_of_first_ensures(col_id);
                    assert(self@.col_ids.contains(col_id));
                    assert(self@.col_of(col_id) == Some(col as int));
                }
                self.set_cell(row, col, cell);
                Ok(())
            },
            None => {
                proof {
                    self@.col_ids.index_of_first_ensures(col_id);
                }
                Err(DropletError::NotFound)
            },
        }
    }

    /// `push_u64` under the column with id `col_id`; `NotFound` where the
    /// batch has no such column.
    pub fn push_u64_by_col_id(&mut self, row: usize, col_id: u32, value: u64) -> (res: Result<
        (),
        DropletError,
    >)
        requires
            old(self).wf(),
        ensures
            final(self).wf(),
            match old(self)@.col_of(col_id) {
                Some(c) => res is Ok && final(self)@ == old(self)@.with_cell(
                    row as int,
                    c,
                    CellValue::u64_scalar(value),
                ),
                None => res == Err::<(), DropletError>(DropletError::NotFound) && final(self)@
                    == old(self)@,
            },
    {
        self.set_cell_by_col_id(row, col_id, GridCell::from_u64(value))
    }

    /// `push_u64_values` under the column with id `col_id`.
    pub fn push_u64_values_by_col_id(&mut self, row: usize, col_id: u32, values: &[u64]) -> (res:
        Result<(), DropletError>)
        requires
            old(self).wf(),
        ensures
            final(self).wf(),
            match old(self)@.col_of(col_id) {
                Some(c) => res is Ok && final(self)@ == old(self)@.with_cell(
                    row as int,
                    c,
                    CellValue::u64_list(values@),
                ),
                None => res == Err::<(), DropletError>(DropletError::NotFound) && final(self)@
                    == old(self)@,
            },
    {
        self.set_cell_by_col_id(row, col_id, GridCell::from_u64_values(values))
    }

    /// `push_f32` under the column with id `col_id`.
    pub fn push_f32_by_col_id(&mut self, row: usize, col_id: u32, bits: u32) -> (res: Result<
        (),
        DropletError,
    >)
        requires
            old(self).wf(),
        ensures
            final(self).wf(),
            match old(self)@.col_of(col_id) {
                Some(c) => res is Ok && final(self)@ == old(self)@.with_cell(
                    row as int,
                    c,
                    CellValue::f32_scalar(bits),
                ),
                None => res == Err::<(), DropletError>(DropletError::NotFound) && final(self)@
                    == old(self)@,
            },
    {
        self.set_cell_by_col_id(row, col_id, GridCell::from_f32_bits(bits))
    }

    /// `push_f32_values` under the column with id `col_id`.
    pub fn push_f32_values_by_col_id(&mut self, row: usize, col_id: u32, bits: &[u32]) -> (res:
        Result<(), DropletError>)
        requires
            old(self).wf(),
        ensures
            final(self).wf(),
            match old(self)@.col_of(col_id) {
                Some(c) => res is Ok && final(self)@ == old(self)@.with_cell(
                    row as int,
                    c,
                    CellValue::f32_list(bits@),
                ),
                None => res == Err::<(), DropletError>(DropletError::NotFound) && final(self)@
                    == old(self)@,
            },
    {
        self.set_cell_by_col_id(row, col_id, GridCell::from_f32_bits_values(bits))
    }
}

/// How many rows at the start of `rows` have a key smaller than `key`.
pub open spec fn leading_smaller(rows: Seq<RowView>, key: SampleKey) -> nat
    decreases rows.len(),
{
    if rows.len() > 0 && row_key(rows[0]).lt(key) {
        1 + leading_smaller(rows.drop_first(), key)
    } else {
        0
    }
}

/// `rows` in key order, rows with equal keys in the order that they have in
/// `rows`: the first row is put into the order of the others, behind the
/// rows with smaller keys and before all others.
pub open spec fn stable_sorted(rows: Seq<RowView>) -> Seq<RowView>
    decreases rows.len(),
{
    if rows.len() == 0 {
        rows
    } else {
        let rest = stable_sorted(rows.drop_first());
        rest.insert(leading_smaller(rest, row_key(rows[0])) as int, rows[0])
    }
}

/// Where the rows before place `p` have smaller keys than `key` and the row
/// at place `p`, if there is one, has not, `p` rows at the start have a
/// smaller key.
proof fn lemma_leading_smaller(rows: Seq<RowView>, key: SampleKey, p: int)
    requires
        0 <= p <= rows.len(),
        forall|i: int| 0 <= i < p ==> row_key(#[trigger] rows[i]).lt(key),
        p < rows.len() ==> !row_key(rows[p]).lt(key),
    ensures
        leading_smaller(rows, key) == p,
    decreases rows.len(),
{
    if p > 0 {
        assert(row_key(rows[0]).lt(key));
        let rest = rows.drop_first();
        assert forall|i: int| 0 <= i < p - 1 implies row_key(#[trigger] rest[i]).lt(key) by {
            assert(rest[i] == rows[i + 1]);
        }
        lemma_leading_smaller(rest, key, p - 1);
    }
}

/// No row has a smaller key than a row before it.
pub open spec fn rows_sorted(rows: Seq<RowView>) -> bool {
    forall|i: int, j: int|
        0 <= i <= j < rows.len() ==> row_key(#[trigger] rows[i]).le(row_key(#[trigger] rows[j]))
}

/// The sample key of a row of cells.
fn key_of_cells(row: &Vec<GridCell>) -> (key: SampleKey)
    requires
        row_well_formed(row_view(row@)),
    ensures
        key == row_key(row_view(row@)),
{
    let mut fields: [u64; 4] = [0, 0, 0, 0];
    let mut c: usize = 0;
    while c < 4
        invariant
            c <= 4,
            row_well_formed(row_view(row@)),
            forall|k: int|
                0 <= k < c ==> #[trigger] fields[k] == if k < row@.len() {
                    row_view(row@)[k].key_field()
                } else {
                    0
                },
        decreases 4 - c,
    {
        let value: u64 = if c < row.len() {
            match row[c].kind {
                Some(CellKind::U64) => {
                    assert(row_view(row@)[c as int].well_formed());
                    row[c].u64_values[0]
                },
                _ => 0,
            }
        } else {
            0
        };
        fields[c] = value;
        c += 1;
    }
    SampleKey::new(fields[0], fields[1], fields[2], fields[3])
}

impl GridBatch {
    /// Puts the rows in key order. Rows with equal keys keep their order.
    pub fn sort_rows_by_sample_key(&mut self)
        requires
            old(self).wf(),
        ensures
            final(self).wf(),
            final(self)@.col_ids == old(self)@.col_ids,
            final(self)@.col_ids_hash == old(self)@.col_ids_hash,
            final(self)@.rows == stable_sorted(old(self)@.rows),
            rows_sorted(final(self)@.rows),
            final(self)@.rows.to_multiset() == old(self)@.rows.to_multiset(),
    {
        let ghost all = self@.rows;
        let ghost ncols = self@.col_ids.len();
        let mut rest: Vec<Vec<GridCell>> = Vec::new();
        core::mem::swap(&mut rest, &mut self.rows);
        let mut sorted: Vec<Vec<GridCell>> = Vec::new();
        proof {
            assert(rows_view(rest@) == all);
            assert(all.take(all.len() as int) =~= all);
            assert(all.skip(all.len() as int) =~= Seq::<RowView>::empty());
            assert(rows_view(sorted@) =~= stable_sorted(all.skip(all.len() as int)));
            assert(rows_view(sorted@).to_multiset().add(rows_view(rest@).to_multiset())
                =~= all.to_multiset()) by {
                rows_view(sorted@).to_multiset_ensures();
                assert(rows_view(sorted@) =~= Seq::<RowView>::empty());
                vstd::multiset::lemma_multiset_empty_len(rows_view(sorted@).to_multiset());
            }
        }
        while rest.len() > 0
            invariant
                rest@.len() <= all.len(),
                rows_view(rest@) == all.take(rest@.len() as int),
                rows_view(sorted@) == stable_sorted(all.skip(rest@.len() as int)),
                rows_sorted(rows_view(sorted@)),
                rows_view(sorted@).to_multiset().add(rows_view(rest@).to_multiset())
                    == all.to_multiset(),
                forall|i: int|
                    0 <= i < rest@.len() ==> (#[trigger] rows_view(rest@)[i]).len() == ncols
                        && row_well_formed(rows_view(rest@)[i]),
                forall|i: int|
                    0 <= i < sorted@.len() ==> (#[trigger] rows_view(sorted@)[i]).len() == ncols
                        && row_well_formed(rows_view(sorted@)[i]),
            decreases rest.len(),
        {
            let ghost rest_before = rows_view(rest@);
            let ghost sorted_before = rows_view(sorted@);
            let row = rest.pop().unwrap();
            proof {
                assert(rows_view(rest@) =~= rest_before.remove(rest_before.len() - 1));
                to_multiset_remove(rest_before, rest_before.len() - 1);
                assert(row_view(row@) == rest_before[rest_before.len() - 1]);
                assert(row_well_formed(row_view(row@)));
            }
            let key = key_of_cells(&row);
            let mut p: usize = 0;
            let mut found = false;
            while p < sorted.len() && !found
                invariant
                    p <= sorted.len(),
                    rows_view(sorted@) == sorted_before,
                    forall|i: int|
                        0 <= i < sorted@.len() ==> (#[trigger] rows_view(sorted@)[i]).len() == ncols
                            && row_well_formed(rows_view(sorted@)[i]),
                    forall|i: int| 0 <= i < p ==> row_key(#[trigger] sorted_before[i]).lt(key),
                    found ==> p < sorted.len() && !row_key(sorted_before[p as int]).lt(key),
                decreases sorted.len() - p + if found {
                    0int
                } else {
                    1int
                },
            {
                assert(row_view(sorted@[p as int]@) == rows_view(sorted@)[p as int]);
                let other = key_of_cells(&sorted[p]);
                if other < key {
                    p += 1;
                } else {
                    found = true;
                }
            }
            let ghost value = row_view(row@);
            sorted.insert(p, row);
            proof {
                assert(rows_view(sorted@) =~= sorted_before.insert(p as int, value));
                let k = rest@.len() as int;
                assert(value == all[k]);
                assert(rows_view(rest@) =~= all.take(k));
                assert(all.skip(k).drop_first() =~= all.skip(k + 1));
                assert(all.skip(k)[0] == all[k]);
                lemma_leading_smaller(sorted_before, key, p as int);
                to_multiset_insert(sorted_before, p as int, value);
                rest_before.to_multiset_ensures();
                assert(rest_before.to_multiset().count(value) > 0);
                assert(rows_view(sorted@).to_multiset().add(rows_view(rest@).to_multiset())
                    =~= sorted_before.to_multiset().add(rest_before.to_multiset()));
                let after = rows_view(sorted@);
                assert forall|i: int, j: int| 0 <= i <= j < after.len() implies row_key(
                    #[trigger] after[i],
                ).le(row_key(#[trigger] after[j])) by {
                    let at = |k: int|
                        if k < p {
                            k
                        } else {
                            k - 1
                        };
                    if i == p && j == p {
                    } else if j == p {
                        assert(row_key(sorted_before[i]).lt(key));
                    } else if i == p {
                        assert(row_key(sorted_before[p as int]).le(row_key(sorted_before[j - 1])));
                        crate::sample_key::lemma_order_is_total(
                            key,
                            row_key(sorted_before[p as int]),
                            row_key(sorted_before[j - 1]),
                        );
                    } else {
                        assert(row_key(sorted_before[at(i)]).le(row_key(sorted_before[at(j)])));
                    }
                }
                assert forall|i: int| 0 <= i < sorted@.len() implies (
                #[trigger] rows_view(sorted@)[i]).len() == ncols && row_well_formed(
                    rows_view(sorted@)[i],
                ) by {
                    if i < p {
                        assert(sorted_before[i].len() == ncols);
                    } else if i > p {
                        assert(sorted_before[i - 1].len() == ncols);
                    }
                }
                assert forall|i: int| 0 <= i < rest@.len() implies (
                #[trigger] rows_view(rest@)[i]).len() == ncols && row_well_formed(
                    rows_view(rest@)[i],
                ) by {
                    assert(rest_before[i].len() == ncols);
                }
            }
        }
        proof {
            rows_view(rest@).to_multiset_ensures();
            assert(rows_view(rest@) =~= Seq::<RowView>::empty());
            vstd::multiset::lemma_multiset_empty_len(rows_view(rest@).to_multiset());
            assert(rows_view(sorted@).to_multiset() =~= all.to_multiset());
        }
        self.rows = sorted;
        proof {
            assert(all.skip(0) =~= all);
            assert forall|r: int| 0 <= r < self@.rows.len() implies {
                &&& (#[trigger] self@.rows[r]).len() == self@.col_ids.len()
                &&& forall|c: int|
                    0 <= c < self@.col_ids.len() ==> (#[trigger] self@.rows[r][c]).well_formed()
            } by {
                assert(rows_view(sorted@)[r].len() == ncols);
                assert(row_well_formed(rows_view(sorted@)[r]));
            }
        }
    }
}

impl GridBatch {
    /// Stores integers at `(row, col)` as they come from a store that does
    /// not tell scalars from lists: one value as a scalar, any other
    /// number of values as a list.
    pub fn store_u64(&mut self, row: usize, col: usize, values: &[u64])
        requires
            old(self).wf(),
        ensures
            final(self).wf(),
            final(self)@ == old(self)@.with_cell(
                row as int,
                col as int,
                if values@.len() == 1 {
                    CellValue::u64_scalar(values@[0])
                } else {
                    CellValue::u64_list(values@)
                },
            ),
    {
        if values.len() == 1 {
            self.push_u64(row, col, values[0]);
        } else {
            self.push_u64_values(row, col, values);
        }
    }

    /// Stores floats, given by their bits, at `(row, col)` as they come
    /// from a store that does not tell scalars from lists.
    pub fn store_f32(&mut self, row: usize, col: usize, bits: &[u32])
        requires
            old(self).wf(),
        ensures
            final(self).wf(),
            final(self)@ == old(self)@.with_cell(
                row as int,
                col as int,
                if bits@.len() == 1 {
                    CellValue::f32_scalar(bits@[0])
                } else {
                    CellValue::f32_list(bits@)
                },
            ),
    {
        if bits.len() == 1 {
            self.push_f32(row, col, bits[0]);
        } else {
            self.push_f32_values(row, col, bits);
        }
    }
}

} // verus!
