//! Rows and samples: handles to single rows of a batch, lists of such
//! handles, and batches whose first four columns hold the sample key.
use crate::error::DropletError;
use crate::grid::lemma_projected;
use crate::grid::projected;
use crate::grid::rows_sorted;
use crate::grid::stable_sorted;
use crate::grid::rows_view;
use crate::grid::CellKind;
use crate::grid::CellValue;
use crate::grid::GridBatch;
use crate::grid::GridCell;
use crate::grid::GridView;
use crate::sample_key::SampleKey;
use likely_stable::unlikely;
use vstd::prelude::*;

verus! {

/// The first four columns of `grid` are the sample-key columns, in key
/// order.
pub open spec fn has_key_columns(grid: GridView) -> bool {
    grid.col_ids.len() >= 4 && grid.col_ids.take(4) == SampleKey::sample_key_ids()
}

/// Decides `has_key_columns`.
pub fn is_valid_sample(gridbuffer: &GridBatch) -> (valid: bool)
    ensures
        valid == has_key_columns(gridbuffer@),
{
    let col_ids = gridbuffer.col_ids();
    if unlikely(col_ids.len() < 4) {
        return false;
    }
    let ids = SampleKey::get_sample_key_ids();
    let mut i: usize = 0;
    while i < 4
        invariant
            i <= 4,
            col_ids@.len() >= 4,
            col_ids@ == gridbuffer@.col_ids,
            ids@ == SampleKey::sample_key_ids(),
            forall|k: int| 0 <= k < i ==> col_ids@[k] == ids@[k],
        decreases 4 - i,
    {
        if col_ids[i] != ids[i] {
            assert(col_ids@.take(4)[i as int] != SampleKey::sample_key_ids()[i as int]);
            return false;
        }
        i += 1;
    }
    assert(col_ids@.take(4) =~= SampleKey::sample_key_ids());
    true
}

/// A handle to one row of a batch. It borrows the batch, so it cannot
/// outlive it.
#[derive(Clone, Copy)]
pub struct GridRow<'a> {
    /// The batch.
    gridbuffer: &'a GridBatch,
    /// The index of the row.
    row: usize,
}

impl<'a> GridRow<'a> {
    /// The batch that the row belongs to.
    pub closed spec fn grid(&self) -> GridView {
        self.gridbuffer@
    }

    /// The index of the row.
    pub closed spec fn index(&self) -> usize {
        self.row
    }

    /// The batch is well formed.
    pub closed spec fn wf(&self) -> bool {
        self.gridbuffer.wf()
    }

    /// A handle to row `row` of `gridbuffer`.
    pub fn new(gridbuffer: &'a GridBatch, row: usize) -> (handle: Self)
        requires
            gridbuffer.wf(),
        ensures
            handle.wf(),
            handle.grid() == gridbuffer@,
            handle.index() == row,
    {
        Self { gridbuffer, row }
    }

    pub fn get_gridbuffer(&self) -> (gridbuffer: &'a GridBatch)
        requires
            self.wf(),
        ensures
            gridbuffer@ == self.grid(),
            gridbuffer.wf(),
    {
        self.gridbuffer
    }

    pub fn row(&self) -> (row: usize)
        ensures
            row == self.index(),
    {
        self.row
    }

    /// Whether the first four columns are the sample-key columns.
    pub fn is_valid_sample(&self) -> (valid: bool)
        ensures
            valid == has_key_columns(self.grid()),
    {
        is_valid_sample(self.gridbuffer)
    }

    /// The row's sample key: the integer scalars of its first four cells,
    /// 0 for a cell that holds none.
    pub fn get_sample_key(&self) -> (key: SampleKey)
        requires
            self.wf(),
        ensures
            key == (SampleKey {
                timestamp: self.grid().cell(self.index() as int, 0).key_field(),
                user_id: self.grid().cell(self.index() as int, 1).key_field(),
                item_id: self.grid().cell(self.index() as int, 2).key_field(),
                request_id: self.grid().cell(self.index() as int, 3).key_field(),
            }),
    {
        SampleKey::new(
            self.gridbuffer.get_u64(self.row, 0).unwrap_or(0),
            self.gridbuffer.get_u64(self.row, 1).unwrap_or(0),
            self.gridbuffer.get_u64(self.row, 2).unwrap_or(0),
            self.gridbuffer.get_u64(self.row, 3).unwrap_or(0),
        )
    }

    pub fn get_u64_values(&self, col: usize) -> (values: Vec<u64>)
        requires
            self.wf(),
        ensures
            values@ == self.grid().cell(self.index() as int, col as int).u64_values,
    {
        self.gridbuffer.get_u64_values(self.row, col)
    }

    pub fn get_f32_values(&self, col: usize) -> (bits: Vec<u32>)
        requires
            self.wf(),
        ensures
            bits@ == self.grid().cell(self.index() as int, col as int).f32_values,
    {
        self.gridbuffer.get_f32_values(self.row, col)
    }

    pub fn get_u64(&self, col: usize) -> (value: Option<u64>)
        requires
            self.wf(),
        ensures
            value == self.grid().cell(self.index() as int, col as int).as_u64(),
    {
        self.gridbuffer.get_u64(self.row, col)
    }

    pub fn get_f32(&self, col: usize) -> (bits: Option<u32>)
        requires
            self.wf(),
        ensures
            bits == self.grid().cell(self.index() as int, col as int).as_f32(),
    {
        self.gridbuffer.get_f32(self.row, col)
    }

    pub fn get_cell(&self, col: usize) -> (kind: Option<CellKind>)
        requires
            self.wf(),
        ensures
            kind == self.grid().cell(self.index() as int, col as int).kind,
    {
        self.gridbuffer.get_cell(self.row, col)
    }
}

/// The batch that a list of row handles makes: the columns of the first
/// row's batch, and every row laid out over them. No rows make the batch
/// without columns or rows.
pub open spec fn gathered(rows: Seq<GridRow<'_>>) -> GridView {
    if rows.len() == 0 {
        GridView::blank(0, Seq::empty(), 0)
    } else {
        GridView {
            col_ids: rows[0].grid().col_ids,
            col_ids_hash: rows[0].grid().col_ids_hash,
            rows: Seq::new(
                rows.len(),
                |i: int|
                    projected(rows[i].grid(), rows[i].index() as int, rows[0].grid().col_ids.len()),
            ),
        }
    }
}

/// A list of row handles, for making a batch of rows of other batches
/// without copying a row more than once.
pub struct GridRows<'a> {
    pub rows: Vec<GridRow<'a>>,
}

impl<'a> GridRows<'a> {
    /// Every handle's batch is well formed.
    pub open spec fn wf(&self) -> bool {
        forall|i: int| 0 <= i < self.rows@.len() ==> (#[trigger] self.rows@[i]).wf()
    }

    pub fn new() -> (rows: Self)
        ensures
            rows.wf(),
            rows.rows@.len() == 0,
    {
        Self { rows: Vec::new() }
    }

    /// Whether every row's batch has the sample-key columns first.
    pub fn is_valid_sample(&self) -> (valid: bool)
        ensures
            valid == forall|i: int|
                0 <= i < self.rows@.len() ==> has_key_columns((#[trigger] self.rows@[i]).grid()),
    {
        let mut i: usize = 0;
        while i < self.rows.len()
            invariant
                i <= self.rows.len(),
                forall|k: int| 0 <= k < i ==> has_key_columns((#[trigger] self.rows@[k]).grid()),
            decreases self.rows.len() - i,
        {
            if !self.rows[i].is_valid_sample() {
                return false;
            }
            i += 1;
        }
        true
    }

    pub fn push(&mut self, row: GridRow<'a>)
        requires
            old(self).wf(),
            row.wf(),
        ensures
            final(self).wf(),
            final(self).rows@ == old(self).rows@.push(row),
    {
        self.rows.push(row);
    }

    pub fn len(&self) -> (n: usize)
        ensures
            n == self.rows@.len(),
    {
        self.rows.len()
    }

    pub fn clear(&mut self)
        ensures
            final(self).wf(),
            final(self).rows@.len() == 0,
    {
        self.rows.clear();
    }

    /// Copies the rows into a new batch.
    pub fn to_gridbuffer(&self) -> (gridbuffer: GridBatch)
        requires
            self.wf(),
        ensures
            gridbuffer.wf(),
            gridbuffer@ == gathered(self.rows@),
    {
        if self.rows.len() == 0 {
            return GridBatch::new();
        }
        let first = self.rows[0].get_gridbuffer();
        let num_cols = first.num_cols();
        let col_ids = vstd::slice::slice_to_vec(first.col_ids().as_slice());
        let col_ids_hash = first.col_ids_hash();
        let mut rows: Vec<Vec<GridCell>> = Vec::new();
        let mut i: usize = 0;
        while i < self.rows.len()
            invariant
                self.wf(),
                i <= self.rows.len(),
                rows@.len() == i,
                num_cols == self.rows@[0].grid().col_ids.len(),
                forall|k: int|
                    0 <= k < i ==> #[trigger] rows_view(rows@)[k] == projected(
                        self.rows@[k].grid(),
                        self.rows@[k].index() as int,
                        num_cols as nat,
                    ),
            decreases self.rows.len() - i,
        {
            let handle = &self.rows[i];
            let ghost held = rows_view(rows@);
            let cells = handle.get_gridbuffer().project_row(handle.row(), num_cols);
            rows.push(cells);
            proof {
                assert forall|k: int| 0 <= k < i + 1 implies #[trigger] rows_view(rows@)[k]
                    == projected(
                    self.rows@[k].grid(),
                    self.rows@[k].index() as int,
                    num_cols as nat,
                ) by {
                    if k < i {
                        assert(rows_view(rows@)[k] == held[k]);
                    }
                }
            }
            i += 1;
        }
        proof {
            let grid = GridView { col_ids: col_ids@, col_ids_hash, rows: rows_view(rows@) };
            assert(grid.rows =~= gathered(self.rows@).rows);
            assert forall|r: int| 0 <= r < grid.rows.len() implies {
                &&& (#[trigger] grid.rows[r]).len() == grid.col_ids.len()
                &&& forall|c: int|
                    0 <= c < grid.col_ids.len() ==> (#[trigger] grid.rows[r][c]).well_formed()
            } by {
                lemma_projected(
                    self.rows@[r].grid(),
                    self.rows@[r].index() as int,
                    num_cols as nat,
                );
                assert(rows_view(rows@)[r] == projected(
                    self.rows@[r].grid(),
                    self.rows@[r].index() as int,
                    num_cols as nat,
                ));
                assert(crate::grid::row_well_formed(grid.rows[r]));
            }
        }
        GridBatch::from_rows(col_ids, col_ids_hash, rows)
    }
}

/// A batch whose rows are samples: the first four columns hold the
/// timestamp, the user id, the item id and the request id.
pub struct GridSample {
    /// The batch.
    pub gridbuffer: GridBatch,
}

impl GridSample {
    /// The batch is well formed.
    pub open spec fn wf(&self) -> bool {
        self.gridbuffer.wf()
    }

    /// A sample batch of `num_rows` empty rows: the sample-key columns,
    /// then `cols`. The hash of the column ids is the caller's to name.
    pub fn new(num_rows: usize, cols: &Vec<u32>, col_ids_hash: u32) -> (sample: Self)
        ensures
            sample.wf(),
            sample.gridbuffer@ == GridView::blank(
                num_rows as nat,
                SampleKey::sample_key_ids() + cols@,
                col_ids_hash,
            ),
    {
        let ids = SampleKey::get_sample_key_ids();
        let mut all_cols: Vec<u32> = Vec::new();
        let mut i: usize = 0;
        while i < ids.len()
            invariant
                i <= ids.len(),
                all_cols@ == ids@.take(i as int),
            decreases ids.len() - i,
        {
            all_cols.push(ids[i]);
            assert(ids@.take(i as int + 1) =~= ids@.take(i as int).push(ids@[i as int]));
            i += 1;
        }
        assert(ids@.take(ids.len() as int) =~= ids@);
        let mut j: usize = 0;
        while j < cols.len()
            invariant
                j <= cols.len(),
                all_cols@ == ids@ + cols@.take(j as int),
            decreases cols.len() - j,
        {
            all_cols.push(cols[j]);
            assert(cols@.take(j as int + 1) =~= cols@.take(j as int).push(cols@[j as int]));
            assert(ids@ + cols@.take(j as int + 1) =~= (ids@ + cols@.take(j as int)).push(
                cols@[j as int],
            ));
            j += 1;
        }
        assert(cols@.take(cols.len() as int) =~= cols@);
        Self { gridbuffer: GridBatch::new_with_num_rows_col_ids_hash(num_rows, all_cols, col_ids_hash) }
    }

    /// Takes a batch as a sample batch. A batch whose first four columns
    /// are not the sample-key columns is refused with `InvalidArgument`.
    pub fn from_gridbuffer(gridbuffer: GridBatch) -> (res: Result<Self, DropletError>)
        ensures
            match res {
                Ok(sample) => has_key_columns(gridbuffer@) && sample.gridbuffer == gridbuffer,
                Err(e) => !has_key_columns(gridbuffer@) && e == DropletError::InvalidArgument,
            },
    {
        if unlikely(!is_valid_sample(&gridbuffer)) {
            return Err(DropletError::InvalidArgument);
        }
        Ok(Self { gridbuffer })
    }

    /// Stores `sample_key` in the first four cells of row `row`.
    pub fn set_sample_key(&mut self, row: usize, sample_key: &SampleKey)
        requires
            old(self).wf(),
        ensures
            final(self).wf(),
            final(self).gridbuffer@ == old(self).gridbuffer@.with_cell(
                row as int,
                0,
                CellValue::u64_scalar(sample_key.timestamp),
            ).with_cell(row as int, 1, CellValue::u64_scalar(sample_key.user_id)).with_cell(
                row as int,
                2,
                CellValue::u64_scalar(sample_key.item_id),
            ).with_cell(row as int, 3, CellValue::u64_scalar(sample_key.request_id)),
    {
        self.gridbuffer.push_u64(row, 0, sample_key.timestamp);
        self.gridbuffer.push_u64(row, 1, sample_key.user_id);
        self.gridbuffer.push_u64(row, 2, sample_key.item_id);
        self.gridbuffer.push_u64(row, 3, sample_key.request_id);
    }

    fn key_field(&self, row: usize, col: usize) -> (value: u64)
        requires
            self.wf(),
        ensures
            value == self.gridbuffer@.cell(row as int, col as int).key_field(),
    {
        match self.gridbuffer.get_u64(row, col) {
            Some(value) => value,
            None => 0,
        }
    }

    /// The sample key of row `row`.
    pub fn get_sample_key(&self, row: usize) -> (key: SampleKey)
        requires
            self.wf(),
        ensures
            key == (SampleKey {
                timestamp: self.gridbuffer@.cell(row as int, 0).key_field(),
                user_id: self.gridbuffer@.cell(row as int, 1).key_field(),
                item_id: self.gridbuffer@.cell(row as int, 2).key_field(),
                request_id: self.gridbuffer@.cell(row as int, 3).key_field(),
            }),
    {
        SampleKey::new(
            self.key_field(row, 0),
            self.key_field(row, 1),
            self.key_field(row, 2),
            self.key_field(row, 3),
        )
    }

    /// The timestamp of row `row`.
    pub fn get_timestamp(&self, row: usize) -> (value: u64)
        requires
            self.wf(),
        ensures
            value == self.gridbuffer@.cell(row as int, 0).key_field(),
    {
        self.key_field(row, 0)
    }

    /// The user id of row `row`.
    pub fn get_user_id(&self, row: usize) -> (value: u64)
        requires
            self.wf(),
        ensures
            value == self.gridbuffer@.cell(row as int, 1).key_field(),
    {
        self.key_field(row, 1)
    }

    /// The item id of row `row`.
    pub fn get_item_id(&self, row: usize) -> (value: u64)
        requires
            self.wf(),
        ensures
            value == self.gridbuffer@.cell(row as int, 2).key_field(),
    {
        self.key_field(row, 2)
    }

    /// The request id of row `row`.
    pub fn get_request_id(&self, row: usize) -> (value: u64)
        requires
            self.wf(),
        ensures
            value == self.gridbuffer@.cell(row as int, 3).key_field(),
    {
        self.key_field(row, 3)
    }

    /// Stores integers under the column with id `col_id`; `NotFound` where
    /// the batch has no such column.
    pub fn push_u64_values_by_col_id(&mut self, row: usize, col_id: u32, values: &[u64]) -> (res:
        Result<(), DropletError>)
        requires
            old(self).wf(),
        ensures
            final(self).wf(),
            match old(self).gridbuffer@.col_of(col_id) {
                Some(c) => res is Ok && final(self).gridbuffer@ == old(self).gridbuffer@.with_cell(
                    row as int,
                    c,
                    CellValue::u64_list(values@),
                ),
                None => res == Err::<(), DropletError>(DropletError::NotFound) && final(self).gridbuffer@ == old(self).gridbuffer@,
            },
    {
        self.gridbuffer.push_u64_values_by_col_id(row, col_id, values)
    }

    pub fn push_u64_values(&mut self, row: usize, col: usize, values: &[u64])
        requires
            old(self).wf(),
        ensures
            final(self).wf(),
            final(self).gridbuffer@ == old(self).gridbuffer@.with_cell(
                row as int,
                col as int,
                CellValue::u64_list(values@),
            ),
    {
        self.gridbuffer.push_u64_values(row, col, values)
    }

    /// Stores an integer under the column with id `col_id`.
    pub fn push_u64_by_col_id(&mut self, row: usize, col_id: u32, value: u64) -> (res: Result<
        (),
        DropletError,
    >)
        requires
            old(self).wf(),
        ensures
            final(self).wf(),
            match old(self).gridbuffer@.col_of(col_id) {
                Some(c) => res is Ok && final(self).gridbuffer@ == old(self).gridbuffer@.with_cell(
                    row as int,
                    c,
                    CellValue::u64_scalar(value),
                ),
                None => res == Err::<(), DropletError>(DropletError::NotFound) && final(self).gridbuffer@ == old(self).gridbuffer@,
            },
    {
        self.gridbuffer.push_u64_by_col_id(row, col_id, value)
    }

    pub fn push_u64(&mut self, row: usize, col: usize, value: u64)
        requires
            old(self).wf(),
        ensures
            final(self).wf(),
            final(self).gridbuffer@ == old(self).gridbuffer@.with_cell(
                row as int,
                col as int,
                CellValue::u64_scalar(value),
            ),
    {
        self.gridbuffer.push_u64(row, col, value)
    }

    /// Stores floats, given by their bits, under the column with id
    /// `col_id`.
    pub fn push_f32_values_by_col_id(&mut self, row: usize, col_id: u32, bits: &[u32]) -> (res:
        Result<(), DropletError>)
        requires
            old(self).wf(),
        ensures
            final(self).wf(),
            match old(self).gridbuffer@.col_of(col_id) {
                Some(c) => res is Ok && final(self).gridbuffer@ == old(self).gridbuffer@.with_cell(
                    row as int,
                    c,
                    CellValue::f32_list(bits@),
                ),
                None => res == Err::<(), DropletError>(DropletError::NotFound) && final(self).gridbuffer@ == old(self).gridbuffer@,
            },
    {
        self.gridbuffer.push_f32_values_by_col_id(row, col_id, bits)
    }

    pub fn push_f32_values(&mut self, row: usize, col: usize, bits: &[u32])
        requires
            old(self).wf(),
        ensures
            final(self).wf(),
            final(self).gridbuffer@ == old(self).gridbuffer@.with_cell(
                row as int,
                col as int,
                CellValue::f32_list(bits@),
            ),
    {
        self.gridbuffer.push_f32_values(row, col, bits)
    }

    /// Stores a float, given by its bits, under the column with id `col_id`.
    pub fn push_f32_by_col_id(&mut self, row: usize, col_id: u32, bits: u32) -> (res: Result<
        (),
        DropletError,
    >)
        requires
            old(self).wf(),
        ensures
            final(self).wf(),
            match old(self).gridbuffer@.col_of(col_id) {
                Some(c) => res is Ok && final(self).gridbuffer@ == old(self).gridbuffer@.with_cell(
                    row as int,
                    c,
                    CellValue::f32_scalar(bits),
                ),
                None => res == Err::<(), DropletError>(DropletError::NotFound) && final(self).gridbuffer@ == old(self).gridbuffer@,
            },
    {
        self.gridbuffer.push_f32_by_col_id(row, col_id, bits)
    }

    pub fn push_f32(&mut self, row: usize, col: usize, bits: u32)
        requires
            old(self).wf(),
        ensures
            final(self).wf(),
            final(self).gridbuffer@ == old(self).gridbuffer@.with_cell(
                row as int,
                col as int,
                CellValue::f32_scalar(bits),
            ),
    {
        self.gridbuffer.push_f32(row, col, bits)
    }

    /// Puts the rows in key order. Rows with equal keys keep their order.
    pub fn sort_rows_by_sample_key(&mut self)
        requires
            old(self).wf(),
        ensures
            final(self).wf(),
            final(self).gridbuffer@.col_ids == old(self).gridbuffer@.col_ids,
            final(self).gridbuffer@.col_ids_hash == old(self).gridbuffer@.col_ids_hash,
            final(self).gridbuffer@.rows == stable_sorted(old(self).gridbuffer@.rows),
            rows_sorted(final(self).gridbuffer@.rows),
            final(self).gridbuffer@.rows.to_multiset() == old(self).gridbuffer@.rows.to_multiset(),
    {
        self.gridbuffer.sort_rows_by_sample_key();
    }
}

} // verus!
