//! The window heap: a bounded buffer that sorts a stream of batches.
//!
//! The heap keeps up to `window_size` input batches in numbered slots and a
//! min-heap of references to their rows. When a batch arrives and no slot is
//! free, rows leave in key order until a slot has given up its last row.
//! Rows that leave are copied to a stage, and every `batch_size` staged rows
//! become one output batch. A slot is reused only after its last row has
//! left, and a row is copied when it leaves, so no reference outlives the
//! batch it points into.
use crate::error::DropletError;
use crate::grid::lemma_projected;
use crate::grid::projected;
use crate::grid::row_key;
use crate::grid::row_view;
use crate::grid::row_well_formed;
use crate::grid::rows_view;
use crate::grid::GridBatch;
use crate::grid::GridCell;
use crate::grid::GridView;
use crate::grid::RowView;
use crate::min_heap::in_order;
use crate::min_heap::lemma_in_order;
use crate::min_heap::lemma_in_order_of_sorted;
use crate::min_heap::lemma_in_order_unique;
use crate::min_heap::MinHeap;
use crate::min_heap::RowRef;
use crate::window_laws::lemma_drained;
use crate::window_laws::lemma_evicted;
use crate::window_laws::lemma_initial;
use crate::window_laws::lemma_locked;
use crate::window_laws::lemma_placed;
use crate::window_laws::lemma_popped;
use crate::window_laws::lemma_taken_consistent;
use likely_stable::unlikely;
use vstd::prelude::*;
use vstd::seq_lib::to_multiset_build;
use vstd::slice::slice_to_vec;

verus! {

/// References to all rows of `grid`, as they enter the heap when the batch
/// is stored in slot `slot` of a heap that sorts over `ncols` columns.
pub open spec fn fresh_refs(grid: GridView, slot: usize, ncols: nat) -> Seq<RowRef> {
    Seq::new(
        grid.rows.len(),
        |r: int| RowRef { key: row_key(projected(grid, r, ncols)), slot, row: r as usize },
    )
}

/// A window heap as a mathematical value.
pub struct WindowView {
    /// How many input batches the heap keeps at most.
    pub window_size: nat,
    /// How many rows an output batch has.
    pub batch_size: nat,
    /// The column ids and their hash, once the first batch has come.
    pub columns: Option<(Seq<u32>, u32)>,
    /// The batch last stored in each slot.
    pub slots: Seq<GridView>,
    /// How many rows of each slot have not left yet.
    pub rows_left: Seq<usize>,
    /// The reader that each slot's batch was read from, where one was named.
    pub readers: Seq<Option<usize>>,
    /// The free slots, as a stack whose top is the last element.
    pub free: Seq<usize>,
    /// The rows that have not left yet, in the order in which they will.
    pub pending: Seq<RowRef>,
    /// The rows that have left and are not part of an output batch yet.
    pub stage: Seq<RowView>,
    /// The output batches that the caller has not taken yet, oldest first.
    pub out: Seq<GridView>,
    /// The reader of the row that left last.
    pub out_reader: Option<usize>,
}

impl WindowView {
    /// The column ids that output batches carry.
    pub open spec fn col_ids(self) -> Seq<u32> {
        match self.columns {
            Some(c) => c.0,
            None => Seq::empty(),
        }
    }

    /// The hash that every batch must carry.
    pub open spec fn col_ids_hash(self) -> u32 {
        match self.columns {
            Some(c) => c.1,
            None => 0,
        }
    }

    pub open spec fn ncols(self) -> nat {
        self.col_ids().len()
    }

    /// The row that `e` refers to, laid out over the heap's columns.
    pub open spec fn row_of(self, e: RowRef) -> RowView {
        projected(self.slots[e.slot as int], e.row as int, self.ncols())
    }

    /// The structural invariant of a heap.
    pub open spec fn well_formed(self) -> bool {
        &&& self.window_size <= usize::MAX
        &&& self.batch_size <= usize::MAX
        &&& self.slots.len() == self.window_size
        &&& self.rows_left.len() == self.window_size
        &&& self.readers.len() == self.window_size
        &&& forall|s: int| 0 <= s < self.slots.len() ==> (#[trigger] self.slots[s]).well_formed()
        &&& forall|i: int| 0 <= i < self.pending.len() ==> (#[trigger] self.pending[i]).slot < self.window_size
        &&& forall|i: int| 0 <= i < self.free.len() ==> (#[trigger] self.free[i]) < self.window_size
        &&& forall|i: int|
            0 <= i < self.stage.len() ==> (#[trigger] self.stage[i]).len() == self.ncols()
                && row_well_formed(self.stage[i])
        &&& forall|i: int| 0 <= i < self.out.len() ==> (#[trigger] self.out[i]).well_formed()
        &&& self.columns is None ==> self.pending.len() == 0 && self.stage.len() == 0
    }

    /// A new heap: every slot free, slot 0 on top of the stack.
    pub open spec fn initial(window_size: nat, batch_size: nat) -> WindowView {
        WindowView {
            window_size,
            batch_size,
            columns: None,
            slots: Seq::new(window_size, |s: int| GridView::blank(0, Seq::empty(), 0)),
            rows_left: Seq::new(window_size, |s: int| 0usize),
            readers: Seq::new(window_size, |s: int| None),
            free: Seq::new(window_size, |i: int| (window_size - 1 - i) as usize),
            pending: Seq::empty(),
            stage: Seq::empty(),
            out: Seq::empty(),
            out_reader: None,
        }
    }

    /// The staged rows become the newest output batch.
    pub open spec fn flushed(self) -> WindowView {
        WindowView {
            out: self.out.push(
                GridView {
                    col_ids: self.col_ids(),
                    col_ids_hash: self.col_ids_hash(),
                    rows: self.stage,
                },
            ),
            stage: Seq::empty(),
            ..self
        }
    }

    /// The first pending row leaves: it is staged, its slot counts one row
    /// less and is free when that was the last, and a full stage becomes an
    /// output batch.
    pub open spec fn popped(self) -> WindowView
        recommends
            self.pending.len() > 0,
    {
        let e = self.pending[0];
        let s = e.slot as int;
        let left: usize = if self.rows_left[s] > 0 {
            (self.rows_left[s] - 1) as usize
        } else {
            0
        };
        let moved = WindowView {
            pending: self.pending.drop_first(),
            stage: self.stage.push(self.row_of(e)),
            rows_left: self.rows_left.update(s, left),
            out_reader: self.readers[s],
            free: if left == 0 {
                self.free.push(e.slot)
            } else {
                self.free
            },
            ..self
        };
        if moved.stage.len() >= self.batch_size {
            moved.flushed()
        } else {
            moved
        }
    }

    /// Rows leave until a slot is free or none is pending.
    pub open spec fn evicted(self) -> WindowView
        decreases self.pending.len(),
    {
        if self.free.len() > 0 || self.pending.len() == 0 {
            self
        } else {
            self.popped().evicted()
        }
    }

    /// All pending rows leave.
    pub open spec fn emptied(self) -> WindowView
        decreases self.pending.len(),
    {
        if self.pending.len() == 0 {
            self
        } else {
            self.popped().emptied()
        }
    }

    /// `grid` is stored in the slot on top of the free stack and its rows are
    /// pending. A batch without rows leaves the slot free.
    pub open spec fn placed(self, grid: GridView, reader: Option<usize>) -> WindowView
        recommends
            self.free.len() > 0,
    {
        let slot = self.free.last();
        WindowView {
            free: if grid.rows.len() == 0 {
                self.free
            } else {
                self.free.drop_last()
            },
            slots: self.slots.update(slot as int, grid),
            rows_left: self.rows_left.update(slot as int, grid.rows.len() as usize),
            readers: self.readers.update(slot as int, reader),
            pending: in_order(self.pending + fresh_refs(grid, slot, self.ncols())),
            ..self
        }
    }

    /// The heap with its columns fixed: by `grid`, where no batch came before.
    pub open spec fn locked(self, grid: GridView) -> WindowView {
        if self.columns is None {
            WindowView { columns: Some((grid.col_ids, grid.col_ids_hash)), ..self }
        } else {
            self
        }
    }

    /// The heap can take `grid`: it has a slot to keep a batch in, and
    /// `grid` carries the hash that the heap's batches carry.
    pub open spec fn accepts(self, grid: GridView) -> bool {
        self.window_size > 0 && (self.columns is None || self.col_ids_hash()
            == grid.col_ids_hash)
    }

    /// The heap after `push` of an accepted batch: rows leave until a slot is
    /// free, and the batch takes that slot.
    pub open spec fn pushed(self, grid: GridView, reader: Option<usize>) -> WindowView {
        self.locked(grid).evicted().placed(grid, reader)
    }

    /// The heap after `drain`: all pending rows have left, and staged rows
    /// that do not fill a batch make a last, shorter one.
    pub open spec fn drained(self) -> WindowView {
        let done = self.emptied();
        if done.stage.len() > 0 {
            done.flushed()
        } else {
            done
        }
    }

    /// The heap after its oldest output batch was taken.
    pub open spec fn taken(self) -> WindowView {
        WindowView { out: self.out.drop_first(), ..self }
    }
}

/// Adds a reference to each row of `grid` to `heap`.
fn push_refs(heap: &mut MinHeap, grid: &GridBatch, slot: usize, ncols: usize)
    requires
        old(heap).wf(),
        grid.wf(),
    ensures
        final(heap).wf(),
        final(heap)@ == in_order(old(heap)@ + fresh_refs(grid@, slot, ncols as nat)),
{
    let n = grid.num_rows();
    let ghost start = heap@;
    let ghost fresh = fresh_refs(grid@, slot, ncols as nat);
    proof {
        heap.lemma_view_sorted();
        lemma_in_order_of_sorted(start);
        assert(start + fresh.take(0) =~= start);
    }
    let mut r: usize = 0;
    while r < n
        invariant
            heap.wf(),
            grid.wf(),
            n == grid@.rows.len(),
            fresh == fresh_refs(grid@, slot, ncols as nat),
            r <= n,
            heap@ == in_order(start + fresh.take(r as int)),
        decreases n - r,
    {
        let key = grid.projected_key(r, ncols);
        let item = RowRef::new(key, slot, r);
        heap.push(item);
        proof {
            let held = start + fresh.take(r as int);
            assert(item == fresh[r as int]);
            assert(held.push(item) =~= start + fresh.take(r as int + 1));
            lemma_in_order(held);
            lemma_in_order(held.push(item));
            lemma_in_order(in_order(held).push(item));
            to_multiset_build(in_order(held), item);
            to_multiset_build(held, item);
            lemma_in_order_unique(in_order(in_order(held).push(item)), in_order(held.push(item)));
        }
        r += 1;
    }
    proof {
        assert(fresh.take(n as int) =~= fresh);
    }
}

/// The batches of `v` as values.
pub open spec fn grids_view(v: Seq<GridBatch>) -> Seq<GridView> {
    Seq::new(v.len(), |i: int| v[i]@)
}

/// A bounded buffer that merges batches into sample-key order.
pub struct WindowHeap {
    /// The number of input batches kept at most.
    window_size: usize,
    /// The number of rows of an output batch.
    batch_size: usize,
    /// References to the rows that have not left yet.
    heap: MinHeap,
    /// The free slots, as a stack.
    available_positions: Vec<usize>,
    /// The slots.
    elements: Vec<GridBatch>,
    /// For each slot, the number of its rows that have not left yet.
    num_rows_left: Vec<usize>,
    /// For each slot, the reader that its batch came from.
    slot_readers: Vec<Option<usize>>,
    /// The finished output batches, oldest first.
    out_gridbuffers: Vec<GridBatch>,
    /// The rows that wait for an output batch.
    gridrows: Vec<Vec<GridCell>>,
    /// The column ids of all batches.
    col_ids: Vec<u32>,
    /// The hash of `col_ids`.
    col_ids_hash: u32,
    /// Whether `col_ids` and `col_ids_hash` have been taken from a batch.
    locked: bool,
    /// The reader of the row that left last.
    out_reader_index: Option<usize>,
}

impl View for WindowHeap {
    type V = WindowView;

    closed spec fn view(&self) -> WindowView {
        WindowView {
            window_size: self.window_size as nat,
            batch_size: self.batch_size as nat,
            columns: if self.locked {
                Some((self.col_ids@, self.col_ids_hash))
            } else {
                None
            },
            slots: grids_view(self.elements@),
            rows_left: self.num_rows_left@,
            readers: self.slot_readers@,
            free: self.available_positions@,
            pending: self.heap@,
            stage: rows_view(self.gridrows@),
            out: grids_view(self.out_gridbuffers@),
            out_reader: self.out_reader_index,
        }
    }
}

impl WindowHeap {
    /// The heap's invariant.
    pub closed spec fn wf(&self) -> bool {
        &&& self.shaped()
        &&& self@.consistent()
    }

    /// What holds of the heap's parts at every step, also between the
    /// steps of one operation.
    closed spec fn shaped(&self) -> bool {
        &&& self@.well_formed()
        &&& self.heap.wf()
        &&& !self.locked ==> self.col_ids@.len() == 0 && self.col_ids_hash == 0
    }

    /// A well-formed heap has a well-formed view, and its bookkeeping is
    /// right.
    pub proof fn lemma_wf_view(&self)
        requires
            self.wf(),
        ensures
            self@.well_formed(),
            self@.consistent(),
    {
    }

    /// A heap that keeps up to `window_size` batches and puts out batches of
    /// `batch_size` rows.
    pub fn new(window_size: usize, batch_size: usize) -> (heap: Self)
        ensures
            heap.wf(),
            heap@ == WindowView::initial(window_size as nat, batch_size as nat),
    {
        let mut available_positions: Vec<usize> = Vec::new();
        let mut elements: Vec<GridBatch> = Vec::new();
        let mut num_rows_left: Vec<usize> = Vec::new();
        let mut slot_readers: Vec<Option<usize>> = Vec::new();
        let mut s: usize = 0;
        while s < window_size
            invariant
                s <= window_size,
                available_positions.len() == s,
                elements.len() == s,
                num_rows_left.len() == s,
                slot_readers.len() == s,
                forall|i: int| 0 <= i < s ==> #[trigger] available_positions[i] == window_size - 1 - i,
                forall|i: int|
                    0 <= i < s ==> (#[trigger] elements[i])@ == GridView::blank(0, Seq::empty(), 0),
                forall|i: int| 0 <= i < s ==> (#[trigger] elements[i]).wf(),
                forall|i: int| 0 <= i < s ==> #[trigger] num_rows_left[i] == 0,
                forall|i: int| 0 <= i < s ==> #[trigger] slot_readers[i] == None::<usize>,
            decreases window_size - s,
        {
            available_positions.push(window_size - 1 - s);
            elements.push(GridBatch::new());
            num_rows_left.push(0);
            slot_readers.push(None);
            s += 1;
        }
        let heap = WindowHeap {
            window_size,
            batch_size,
            heap: MinHeap::new(),
            available_positions,
            elements,
            num_rows_left,
            slot_readers,
            out_gridbuffers: Vec::new(),
            gridrows: Vec::new(),
            col_ids: Vec::new(),
            col_ids_hash: 0,
            locked: false,
            out_reader_index: None,
        };
        proof {
            let v = heap@;
            let init = WindowView::initial(window_size as nat, batch_size as nat);
            assert(v.slots =~= init.slots);
            assert(v.rows_left =~= init.rows_left);
            assert(v.readers =~= init.readers);
            assert(v.free =~= init.free);
            assert(v.pending =~= init.pending);
            assert(v.stage =~= init.stage);
            assert(v.out =~= init.out);
            lemma_initial(window_size as nat, batch_size as nat);
        }
        heap
    }

    pub fn window_size(&self) -> (n: usize)
        ensures
            n == self@.window_size,
    {
        self.window_size
    }

    pub fn batch_size(&self) -> (n: usize)
        ensures
            n == self@.batch_size,
    {
        self.batch_size
    }

    /// The number of rows that have not left yet.
    pub fn len(&self) -> (n: usize)
        ensures
            n == self@.pending.len(),
    {
        self.heap.len()
    }

    pub fn is_empty(&self) -> (b: bool)
        ensures
            b == (self@.pending.len() == 0),
    {
        self.heap.is_empty()
    }

    /// Whether the heap holds exactly `window_size` rows.
    pub fn is_full(&self) -> (b: bool)
        ensures
            b == (self@.pending.len() == self@.window_size),
    {
        self.heap.len() == self.window_size
    }

    /// The output batches that have not been taken yet, oldest first.
    pub fn out_gridbuffers(&self) -> (out: &[GridBatch])
        ensures
            grids_view(out@) == self@.out,
    {
        self.out_gridbuffers.as_slice()
    }

    /// The reader whose row left last, where the row's batch named one.
    pub fn get_out_reader_index(&self) -> (reader: Option<usize>)
        ensures
            reader == self@.out_reader,
    {
        self.out_reader_index
    }

    /// Takes the oldest output batch.
    pub fn get_out_gridbuffer(&mut self) -> (out: Option<GridBatch>)
        requires
            old(self).wf(),
        ensures
            final(self).wf(),
            match out {
                Some(batch) => old(self)@.out.len() > 0 && batch.wf() && batch@ == old(self)@.out[0]
                    && final(self)@ == old(self)@.taken(),
                None => old(self)@.out.len() == 0 && final(self)@ == old(self)@,
            },
    {
        if self.out_gridbuffers.len() == 0 {
            None
        } else {
            let ghost before = self@;
            let batch = self.out_gridbuffers.remove(0);
            proof {
                assert(before.out[0].well_formed());
                assert(self@.out =~= before.out.drop_first()) by {
                    assert forall|i: int| 0 <= i < self@.out.len() implies self@.out[i]
                        == before.out.drop_first()[i] by {
                        assert(self.out_gridbuffers@[i] == old(self).out_gridbuffers@[i + 1]);
                    }
                }
                assert(self@ == before.taken());
                lemma_taken_consistent(before);
            }
            Some(batch)
        }
    }

    /// Makes an output batch of the staged rows.
    fn flush(&mut self)
        requires
            old(self).shaped(),
        ensures
            final(self).shaped(),
            final(self)@ == old(self)@.flushed(),
    {
        let ghost before = self@;
        let mut rows: Vec<Vec<GridCell>> = Vec::new();
        core::mem::swap(&mut rows, &mut self.gridrows);
        let col_ids = slice_to_vec(self.col_ids.as_slice());
        proof {
            let grid = GridView {
                col_ids: col_ids@,
                col_ids_hash: self.col_ids_hash,
                rows: rows_view(rows@),
            };
            assert(rows_view(rows@) == before.stage);
            assert(col_ids@ == before.col_ids());
            assert(grid.well_formed()) by {
                assert forall|r: int| 0 <= r < grid.rows.len() implies {
                    &&& (#[trigger] grid.rows[r]).len() == grid.col_ids.len()
                    &&& forall|c: int|
                        0 <= c < grid.col_ids.len() ==> (#[trigger] grid.rows[r][c]).well_formed()
                } by {
                    assert(before.stage[r].len() == before.ncols());
                    assert(row_well_formed(before.stage[r]));
                }
            }
        }
        let batch = GridBatch::from_rows(col_ids, self.col_ids_hash, rows);
        self.out_gridbuffers.push(batch);
        proof {
            assert(self@.stage =~= Seq::<RowView>::empty());
            assert(self@.out =~= before.flushed().out);
            assert(self@ == before.flushed());
        }
    }

    /// Lets the first pending row leave.
    fn pop_one(&mut self)
        requires
            old(self).shaped(),
            old(self)@.pending.len() > 0,
        ensures
            final(self).shaped(),
            final(self)@ == old(self)@.popped(),
    {
        let ghost before = self@;
        let e = self.heap.pop().unwrap();
        assert(e == before.pending[0]);
        assert(e.slot < self.window_size);
        let cells = self.elements[e.slot].project_row(e.row, self.col_ids.len());
        proof {
            lemma_projected(before.slots[e.slot as int], e.row as int, before.ncols());
            assert(before.slots[e.slot as int] == self.elements@[e.slot as int]@);
            assert(row_view(cells@) == before.row_of(e));
        }
        self.gridrows.push(cells);
        self.out_reader_index = self.slot_readers[e.slot];
        let left: usize = if self.num_rows_left[e.slot] > 0 {
            self.num_rows_left[e.slot] - 1
        } else {
            0
        };
        self.num_rows_left[e.slot] = left;
        if left == 0 {
            self.available_positions.push(e.slot);
        }
        proof {
            let moved = WindowView {
                pending: before.pending.drop_first(),
                stage: before.stage.push(before.row_of(e)),
                rows_left: before.rows_left.update(e.slot as int, left),
                out_reader: before.readers[e.slot as int],
                free: if left == 0 {
                    before.free.push(e.slot)
                } else {
                    before.free
                },
                ..before
            };
            assert(self@.stage =~= moved.stage);
            assert(self@.slots =~= moved.slots);
            assert(self@.out =~= moved.out);
            assert(self@ == moved);
            assert(moved.well_formed()) by {
                assert forall|i: int| 0 <= i < moved.pending.len() implies (
                #[trigger] moved.pending[i]).slot < moved.window_size by {
                    assert(before.pending[i + 1].slot < before.window_size);
                }
                assert forall|i: int| 0 <= i < moved.stage.len() implies (
                #[trigger] moved.stage[i]).len() == moved.ncols() && row_well_formed(
                    moved.stage[i],
                ) by {
                    if i < before.stage.len() {
                        assert(before.stage[i].len() == before.ncols());
                    }
                }
            }
        }
        if self.gridrows.len() >= self.batch_size {
            self.flush();
        }
    }

    /// Stores `gridbuffer` in a slot, letting rows leave first where no slot
    /// is free.
    fn push_inner(&mut self, gridbuffer: GridBatch, reader: Option<usize>) -> (res: Result<
        (),
        DropletError,
    >)
        requires
            old(self).wf(),
            gridbuffer.wf(),
        ensures
            final(self).wf(),
            final(self)@.window_size == old(self)@.window_size,
            final(self)@.batch_size == old(self)@.batch_size,
            old(self)@.accepts(gridbuffer@) ==> res is Ok && final(self)@ == old(self)@.pushed(
                gridbuffer@,
                reader,
            ),
            !old(self)@.accepts(gridbuffer@) ==> res == Err::<(), DropletError>(
                DropletError::InvalidArgument,
            ) && final(self)@ == old(self)@,
    {
        if unlikely(
            self.window_size == 0 || (self.locked && self.col_ids_hash
                != gridbuffer.col_ids_hash()),
        ) {
            return Err(DropletError::InvalidArgument);
        }
        if !self.locked {
            self.col_ids = slice_to_vec(gridbuffer.col_ids().as_slice());
            self.col_ids_hash = gridbuffer.col_ids_hash();
            self.locked = true;
        }
        let ghost start = self@;
        proof {
            assert(start == old(self)@.locked(gridbuffer@));
            lemma_locked(old(self)@, gridbuffer@);
        }
        while self.available_positions.len() == 0 && self.heap.len() > 0
            invariant
                self.shaped(),
                self@.consistent(),
                self.locked,
                self@.window_size == start.window_size,
                self@.batch_size == start.batch_size,
                self@.evicted() == start.evicted(),
            decreases self@.pending.len(),
        {
            proof {
                lemma_popped(self@);
            }
            self.pop_one();
        }
        let ghost ready = self@;
        proof {
            assert(ready == start.evicted());
            lemma_evicted(start);
        }
        let slot = self.available_positions.pop().unwrap();
        assert(slot == ready.free.last());
        let n = gridbuffer.num_rows();
        let ghost grid = gridbuffer@;
        push_refs(&mut self.heap, &gridbuffer, slot, self.col_ids.len());
        self.elements[slot] = gridbuffer;
        self.num_rows_left[slot] = n;
        self.slot_readers[slot] = reader;
        if n == 0 {
            self.available_positions.push(slot);
        }
        proof {
            let placed = ready.placed(grid, reader);
            assert(self@.free =~= placed.free);
            assert(self@.slots =~= placed.slots);
            assert(self@.stage =~= placed.stage);
            assert(self@.out =~= placed.out);
            assert(self@ == placed);
            lemma_placed(ready, grid, reader);
        }
        Ok(())
    }

    /// Takes in a batch.
    ///
    /// The first batch fixes the heap's column ids and their hash. A batch
    /// with another hash is refused and leaves the heap as it was, and so
    /// is every batch by a heap without slots, which could not keep it. Where no
    /// slot is free, rows leave in key order until a slot has given up its
    /// last row, and the batch takes that slot.
    pub fn push(&mut self, gridbuffer: GridBatch) -> (res: Result<(), DropletError>)
        requires
            old(self).wf(),
            gridbuffer.wf(),
        ensures
            final(self).wf(),
            final(self)@.window_size == old(self)@.window_size,
            final(self)@.batch_size == old(self)@.batch_size,
            old(self)@.accepts(gridbuffer@) ==> res is Ok && final(self)@ == old(self)@.pushed(
                gridbuffer@,
                None,
            ),
            !old(self)@.accepts(gridbuffer@) ==> res == Err::<(), DropletError>(
                DropletError::InvalidArgument,
            ) && final(self)@ == old(self)@,
    {
        self.push_inner(gridbuffer, None)
    }

    /// `push` of a batch that was read from reader `reader_index`.
    pub fn push_with_reader_index(&mut self, gridbuffer: GridBatch, reader_index: usize) -> (res:
        Result<(), DropletError>)
        requires
            old(self).wf(),
            gridbuffer.wf(),
        ensures
            final(self).wf(),
            final(self)@.window_size == old(self)@.window_size,
            final(self)@.batch_size == old(self)@.batch_size,
            old(self)@.accepts(gridbuffer@) ==> res is Ok && final(self)@ == old(self)@.pushed(
                gridbuffer@,
                Some(reader_index),
            ),
            !old(self)@.accepts(gridbuffer@) ==> res == Err::<(), DropletError>(
                DropletError::InvalidArgument,
            ) && final(self)@ == old(self)@,
    {
        self.push_inner(gridbuffer, Some(reader_index))
    }

    /// Lets all pending rows leave and makes a last output batch of the rows
    /// that are staged then.
    pub fn drain(&mut self)
        requires
            old(self).wf(),
        ensures
            final(self).wf(),
            final(self)@.window_size == old(self)@.window_size,
            final(self)@.batch_size == old(self)@.batch_size,
            final(self)@ == old(self)@.drained(),
    {
        let ghost start = self@;
        while self.heap.len() > 0
            invariant
                self.shaped(),
                self@.consistent(),
                self@.window_size == start.window_size,
                self@.batch_size == start.batch_size,
                self@.emptied() == start.emptied(),
            decreases self@.pending.len(),
        {
            proof {
                lemma_popped(self@);
            }
            self.pop_one();
        }
        assert(self@ == start.emptied());
        if self.gridrows.len() > 0 {
            self.flush();
        }
        proof {
            lemma_drained(start);
        }
    }
}

} // verus!
