//! What holds of every window heap: no row is lost or made up, and rows
//! leave in key order as long as no batch comes too late.
use crate::bag::lemma_count_add;
use crate::bag::lemma_count_all;
use crate::bag::lemma_count_drop_first;
use crate::bag::lemma_count_zero;
use crate::bag::lemma_map_same_elements;
use crate::bag::slot_count;
use crate::grid::lemma_projected;
use crate::grid::projected;
use crate::grid::row_key;
use crate::grid::row_well_formed;
use crate::grid::GridView;
use crate::grid::RowView;
use crate::min_heap::lemma_in_order;
use crate::min_heap::row_ref_leq;
use crate::min_heap::RowRef;
use crate::window_heap::fresh_refs;
use crate::window_heap::WindowView;
use vstd::prelude::*;
use vstd::relations::sorted_by;
use vstd::seq_lib::lemma_multiset_commutative;

verus! {

/// The rows of a sequence of batches, one batch after the other.
pub open spec fn flat_rows(out: Seq<GridView>) -> Seq<RowView>
    decreases out.len(),
{
    if out.len() == 0 {
        Seq::empty()
    } else {
        flat_rows(out.drop_last()) + out.last().rows
    }
}

/// The rows of `grid`, each laid out over `ncols` columns.
pub open spec fn projected_rows(grid: GridView, ncols: nat) -> Seq<RowView> {
    Seq::new(grid.rows.len(), |r: int| projected(grid, r, ncols))
}

/// No row has a smaller key than a row before it.
pub open spec fn keys_sorted(rows: Seq<RowView>) -> bool {
    forall|i: int, j: int|
        0 <= i <= j < rows.len() ==> row_key(#[trigger] rows[i]).le(row_key(#[trigger] rows[j]))
}

impl WindowView {
    /// The function from a reference to the row it refers to.
    pub open spec fn row_fn(self) -> spec_fn(RowRef) -> RowView {
        |e: RowRef| self.row_of(e)
    }

    /// The rows that have left, in the order in which they left: those of
    /// the output batches, then the staged ones.
    pub open spec fn emitted(self) -> Seq<RowView> {
        flat_rows(self.out) + self.stage
    }

    /// The rows that have not left, in the order in which they will.
    pub open spec fn pending_rows(self) -> Seq<RowView> {
        self.pending.map_values(self.row_fn())
    }

    /// All rows in the order in which they have left or will leave, if no
    /// further batch comes.
    pub open spec fn outcome(self) -> Seq<RowView> {
        self.emitted() + self.pending_rows()
    }

    /// `e` refers to a row of the batch in its slot and carries that row's
    /// key.
    pub open spec fn refers(self, e: RowRef) -> bool {
        e.row < self.slots[e.slot as int].rows.len() && e.key == row_key(self.row_of(e))
    }

    /// The bookkeeping of the heap is right: a slot counts the pending rows
    /// that point into it, the free slots are those that count none, each
    /// once and no more than the slot's batch has rows, every pending
    /// reference refers to a row, and the output batches carry the heap's
    /// columns and no more rows than a batch may.
    pub open spec fn orderly(self) -> bool {
        &&& self.well_formed()
        &&& forall|i: int, j: int|
            0 <= i < j < self.free.len() ==> #[trigger] self.free[i] != #[trigger] self.free[j]
        &&& forall|s: usize|
            s < self.window_size ==> #[trigger] self.rows_left[s as int] == slot_count(
                self.pending,
                s,
            )
        &&& forall|s: usize|
            s < self.window_size ==> (#[trigger] self.rows_left[s as int] == 0
                <==> self.free.contains(s))
        &&& forall|i: int| 0 <= i < self.pending.len() ==> self.refers(#[trigger] self.pending[i])
        &&& forall|i: int|
            0 <= i < self.out.len() ==> (#[trigger] self.out[i]).col_ids == self.col_ids()
                && self.out[i].col_ids_hash == self.col_ids_hash()
        &&& self.columns is None ==> self.out.len() == 0
        &&& forall|i: int|
            0 <= i < self.out.len() ==> (#[trigger] self.out[i]).rows.len() <= self.batch_size
                || self.out[i].rows.len() <= 1
        &&& forall|s: int|
            0 <= s < self.window_size ==> #[trigger] self.rows_left[s] <= self.slots[s].rows.len()
        &&& forall|i: int| 0 <= i < self.out.len() ==> (#[trigger] self.out[i]).rows.len() > 0
    }

    /// The heap is as it is between two operations: its bookkeeping is
    /// right, and the stage holds fewer rows than make a batch.
    pub open spec fn consistent(self) -> bool {
        &&& self.orderly()
        &&& self.stage.len() <= self.batch_size
        &&& self.batch_size > 0 ==> self.stage.len() < self.batch_size
    }
}

/// The rows of some batches and one more are the rows of the batches, then
/// the rows of the one.
pub proof fn lemma_flat_rows_push(out: Seq<GridView>, grid: GridView)
    ensures
        flat_rows(out.push(grid)) == flat_rows(out) + grid.rows,
{
    assert(out.push(grid).drop_last() =~= out);
}

/// A new heap is consistent and holds no row.
pub proof fn lemma_initial(window_size: nat, batch_size: nat)
    requires
        window_size <= usize::MAX,
        batch_size <= usize::MAX,
    ensures
        WindowView::initial(window_size, batch_size).consistent(),
        WindowView::initial(window_size, batch_size).outcome() == Seq::<RowView>::empty(),
{
    let m = WindowView::initial(window_size, batch_size);
    assert(m.outcome() =~= Seq::<RowView>::empty());
    assert forall|s: usize| s < m.window_size implies #[trigger] m.rows_left[s as int]
        == slot_count(m.pending, s) by {
        lemma_count_zero(m.pending, s);
    }
    assert forall|s: usize| s < m.window_size implies (#[trigger] m.rows_left[s as int] == 0
        <==> m.free.contains(s)) by {
        assert(m.free[window_size - 1 - s] == s);
    }
    assert forall|s: int| 0 <= s < m.slots.len() implies (#[trigger] m.slots[s]).well_formed() by {}
}

/// Making a batch of the staged rows changes neither which rows have left
/// nor their order.
pub proof fn lemma_flushed(m: WindowView)
    requires
        m.orderly(),
        m.columns is Some,
        m.stage.len() > 0,
        m.stage.len() <= m.batch_size || m.stage.len() <= 1,
    ensures
        m.flushed().consistent(),
        m.flushed().emitted() == m.emitted(),
        m.flushed().outcome() == m.outcome(),
        m.flushed().pending == m.pending,
        m.flushed().slots == m.slots,
        m.flushed().columns == m.columns,
        m.flushed().window_size == m.window_size,
        m.flushed().free == m.free,
        m.flushed().stage.len() == 0,
{
    let f = m.flushed();
    let batch = GridView { col_ids: m.col_ids(), col_ids_hash: m.col_ids_hash(), rows: m.stage };
    lemma_flat_rows_push(m.out, batch);
    assert(f.emitted() =~= m.emitted());
    assert(f.row_fn() == m.row_fn()) by {
        assert forall|e: RowRef| #[trigger] f.row_fn()(e) == m.row_fn()(e) by {}
        assert(f.row_fn() =~= m.row_fn());
    }
    assert(batch.well_formed()) by {
        assert forall|r: int| 0 <= r < batch.rows.len() implies {
            &&& (#[trigger] batch.rows[r]).len() == batch.col_ids.len()
            &&& forall|c: int|
                0 <= c < batch.col_ids.len() ==> (#[trigger] batch.rows[r][c]).well_formed()
        } by {
            assert(m.stage[r].len() == m.ncols());
            assert(row_well_formed(m.stage[r]));
        }
    }
    assert forall|i: int| 0 <= i < f.out.len() implies (#[trigger] f.out[i]).well_formed()
        && f.out[i].col_ids == f.col_ids() && f.out[i].col_ids_hash == f.col_ids_hash() by {
        if i < m.out.len() {
            assert(m.out[i].well_formed());
            assert(m.out[i].col_ids == m.col_ids());
        }
    }
    assert forall|i: int| 0 <= i < f.out.len() implies (#[trigger] f.out[i]).rows.len() > 0 by {
        if i < m.out.len() {
            assert(m.out[i].rows.len() > 0);
        }
    }
    assert forall|i: int| 0 <= i < f.pending.len() implies f.refers(#[trigger] f.pending[i]) by {
        assert(m.refers(m.pending[i]));
    }
}

/// When the first pending row leaves, the heap stays consistent and the
/// order of all rows stays as it was.
pub proof fn lemma_popped(m: WindowView)
    requires
        m.consistent(),
        m.pending.len() > 0,
    ensures
        m.popped().consistent(),
        m.popped().outcome() == m.outcome(),
        m.popped().pending == m.pending.drop_first(),
        m.popped().slots == m.slots,
        m.popped().columns == m.columns,
        m.popped().window_size == m.window_size,
{
    let e = m.pending[0];
    let s = e.slot as int;
    assert(e.slot < m.window_size);
    lemma_count_drop_first(m.pending, e.slot);
    assert(m.rows_left[s] == slot_count(m.pending, e.slot));
    assert(m.rows_left[s] >= 1);
    assert(!m.free.contains(e.slot));
    let left: usize = (m.rows_left[s] - 1) as usize;
    let moved = WindowView {
        pending: m.pending.drop_first(),
        stage: m.stage.push(m.row_of(e)),
        rows_left: m.rows_left.update(s, left),
        out_reader: m.readers[s],
        free: if left == 0 {
            m.free.push(e.slot)
        } else {
            m.free
        },
        ..m
    };
    assert(moved.row_fn() == m.row_fn()) by {
        assert forall|x: RowRef| #[trigger] moved.row_fn()(x) == m.row_fn()(x) by {}
        assert(moved.row_fn() =~= m.row_fn());
    }
    assert(moved.outcome() =~= m.outcome()) by {
        assert(m.pending_rows() =~= seq![m.row_of(e)] + moved.pending_rows());
    }
    assert(moved.orderly()) by {
        lemma_projected(m.slots[s], e.row as int, m.ncols());
        assert forall|i: int| 0 <= i < moved.pending.len() implies (
        #[trigger] moved.pending[i]).slot < moved.window_size by {
            assert(m.pending[i + 1].slot < m.window_size);
        }
        assert forall|i: int| 0 <= i < moved.stage.len() implies (#[trigger] moved.stage[i]).len()
            == moved.ncols() && row_well_formed(moved.stage[i]) by {
            if i < m.stage.len() {
                assert(m.stage[i].len() == m.ncols());
            }
        }
        assert forall|i: int| 0 <= i < moved.free.len() implies (#[trigger] moved.free[i])
            < moved.window_size by {
            if i < m.free.len() {
                assert(m.free[i] < m.window_size);
            }
        }
        assert(moved.well_formed());
        assert forall|i: int, j: int| 0 <= i < j < moved.free.len() implies #[trigger] moved.free[i]
            != #[trigger] moved.free[j] by {
            if j < m.free.len() {
                assert(m.free[i] != m.free[j]);
            } else {
                assert(m.free.contains(m.free[i]));
            }
        }
        assert forall|t: usize| t < moved.window_size implies #[trigger] moved.rows_left[t as int]
            == slot_count(moved.pending, t) by {
            lemma_count_drop_first(m.pending, t);
            assert(m.rows_left[t as int] == slot_count(m.pending, t));
        }
        assert forall|t: usize| t < moved.window_size implies (
        #[trigger] moved.rows_left[t as int] == 0 <==> moved.free.contains(t)) by {
            assert(m.rows_left[t as int] == 0 <==> m.free.contains(t));
            if left == 0 {
                assert(moved.free.last() == e.slot);
                if t != e.slot {
                    if moved.free.contains(t) {
                        let i = choose|i: int| 0 <= i < moved.free.len() && moved.free[i] == t;
                        assert(m.free[i] == t);
                    }
                    if m.free.contains(t) {
                        let i = choose|i: int| 0 <= i < m.free.len() && m.free[i] == t;
                        assert(moved.free[i] == t);
                    }
                }
            }
        }
        assert forall|i: int| 0 <= i < moved.pending.len() implies moved.refers(
            #[trigger] moved.pending[i],
        ) by {
            assert(m.refers(m.pending[i + 1]));
        }
    }
    assert(moved.stage.len() == m.stage.len() + 1);
    if moved.stage.len() >= m.batch_size {
        lemma_flushed(moved);
    }
}

/// Letting rows leave until a slot is free keeps the heap consistent and the
/// order of all rows, and ends with a free slot in every heap that has
/// slots.
pub proof fn lemma_evicted(m: WindowView)
    requires
        m.consistent(),
    ensures
        m.evicted().consistent(),
        m.evicted().outcome() == m.outcome(),
        m.evicted().columns == m.columns,
        m.evicted().window_size == m.window_size,
        m.window_size >= 1 ==> m.evicted().free.len() > 0,
    decreases m.pending.len(),
{
    if m.free.len() > 0 || m.pending.len() == 0 {
        if m.window_size >= 1 && m.free.len() == 0 {
            lemma_count_zero(m.pending, 0);
            assert(m.rows_left[0] == slot_count(m.pending, 0));
            assert(m.free.contains(0usize));
        }
    } else {
        lemma_popped(m);
        lemma_evicted(m.popped());
    }
}

/// Letting all rows leave keeps the heap consistent and the order of all
/// rows, and leaves no row pending.
pub proof fn lemma_emptied(m: WindowView)
    requires
        m.consistent(),
    ensures
        m.emptied().consistent(),
        m.emptied().outcome() == m.outcome(),
        m.emptied().pending.len() == 0,
        m.emptied().columns == m.columns,
        m.emptied().window_size == m.window_size,
    decreases m.pending.len(),
{
    if m.pending.len() > 0 {
        lemma_popped(m);
        lemma_emptied(m.popped());
    }
}

/// After `drain` every row has left in an output batch, in the order that
/// the heap had for them.
pub proof fn lemma_drained(m: WindowView)
    requires
        m.consistent(),
    ensures
        m.drained().consistent(),
        m.drained().pending.len() == 0,
        m.drained().stage.len() == 0,
        m.drained().columns == m.columns,
        flat_rows(m.drained().out) == m.outcome(),
{
    lemma_emptied(m);
    let done = m.emptied();
    if done.stage.len() > 0 {
        lemma_flushed(done);
    }
    let d = m.drained();
    assert(d.pending_rows() =~= Seq::<RowView>::empty());
    assert(d.outcome() =~= flat_rows(d.out));
}

/// Fixing the columns of a heap that has seen no batch changes nothing else.
pub proof fn lemma_locked(m: WindowView, grid: GridView)
    requires
        m.consistent(),
    ensures
        m.locked(grid).consistent(),
        m.locked(grid).outcome() == m.outcome(),
        m.locked(grid).columns is Some,
        m.locked(grid).window_size == m.window_size,
{
    let l = m.locked(grid);
    if m.columns is None {
        assert(l.pending_rows() =~= m.pending_rows());
        assert(l.outcome() =~= m.outcome());
    }
}

/// Where a reference of the heap after `placed` comes from: it was pending
/// before, or it is one of the new batch's.
pub proof fn lemma_placed_sources(m: WindowView, grid: GridView, reader: Option<usize>, i: int)
    requires
        m.free.len() > 0,
        0 <= i < m.placed(grid, reader).pending.len(),
    ensures
        (exists|k: int| 0 <= k < m.pending.len() && m.pending[k] == m.placed(grid, reader).pending[i])
            || (exists|r: int|
            0 <= r < grid.rows.len() && fresh_refs(grid, m.free.last(), m.ncols())[r] == m.placed(
                grid,
                reader,
            ).pending[i]),
{
    let slot = m.free.last();
    let fresh = fresh_refs(grid, slot, m.ncols());
    let all = m.pending + fresh;
    let after = m.placed(grid, reader).pending;
    lemma_in_order(all);
    after.to_multiset_ensures();
    all.to_multiset_ensures();
    let e = after[i];
    assert(after.contains(e));
    assert(after.to_multiset().count(e) > 0);
    assert(all.contains(e));
    let k = choose|k: int| 0 <= k < all.len() && all[k] == e;
    if k < m.pending.len() {
        assert(m.pending[k] == e);
    } else {
        assert(fresh[k - m.pending.len()] == e);
    }
}

/// Storing a batch in a free slot keeps the heap consistent, changes nothing
/// about the rows that have left, and adds the batch's rows to the pending
/// ones.
pub proof fn lemma_placed(m: WindowView, grid: GridView, reader: Option<usize>)
    requires
        m.consistent(),
        m.free.len() > 0,
        m.columns is Some,
        grid.well_formed(),
        grid.rows.len() <= usize::MAX,
    ensures
        m.placed(grid, reader).consistent(),
        m.placed(grid, reader).emitted() == m.emitted(),
        m.placed(grid, reader).pending_rows().to_multiset() == m.pending_rows().to_multiset().add(
            projected_rows(grid, m.ncols()).to_multiset(),
        ),
        m.placed(grid, reader).columns == m.columns,
        m.placed(grid, reader).window_size == m.window_size,
        forall|k: int|
            0 <= k < m.pending.len() ==> m.placed(grid, reader).row_of(#[trigger] m.pending[k])
                == m.row_of(m.pending[k]),
{
    let slot = m.free.last();
    let n = grid.rows.len();
    let fresh = fresh_refs(grid, slot, m.ncols());
    let all = m.pending + fresh;
    let after = m.placed(grid, reader);
    assert(slot < m.window_size);
    assert(m.free.contains(slot));
    assert(m.rows_left[slot as int] == 0);
    assert(m.rows_left[slot as int] == slot_count(m.pending, slot));
    lemma_count_zero(m.pending, slot);
    lemma_in_order(all);
    let f = m.row_fn();
    let g = after.row_fn();
    assert forall|k: int| 0 <= k < m.pending.len() implies after.row_of(#[trigger] m.pending[k])
        == m.row_of(m.pending[k]) by {
        assert(m.pending[k].slot != slot);
    }
    assert(all.map_values(g) =~= m.pending.map_values(f) + projected_rows(grid, m.ncols())) by {
        assert forall|k: int| 0 <= k < all.len() implies #[trigger] all.map_values(g)[k] == (
        m.pending.map_values(f) + projected_rows(grid, m.ncols()))[k] by {
            if k < m.pending.len() {
                assert(after.row_of(m.pending[k]) == m.row_of(m.pending[k]));
            } else {
                assert(all[k] == fresh[k - m.pending.len()]);
            }
        }
    }
    lemma_map_same_elements(after.pending, all, g);
    lemma_multiset_commutative(m.pending.map_values(f), projected_rows(grid, m.ncols()));
    assert(after.emitted() =~= m.emitted());
    assert(after.consistent()) by {
        assert forall|i: int| 0 <= i < after.pending.len() implies (
        #[trigger] after.pending[i]).slot < after.window_size && after.refers(after.pending[i]) by {
            lemma_placed_sources(m, grid, reader, i);
            let e = after.pending[i];
            if exists|k: int| 0 <= k < m.pending.len() && m.pending[k] == e {
                let k = choose|k: int| 0 <= k < m.pending.len() && m.pending[k] == e;
                assert(m.refers(m.pending[k]));
                assert(after.row_of(m.pending[k]) == m.row_of(m.pending[k]));
            } else {
                let r = choose|r: int| 0 <= r < grid.rows.len() && fresh[r] == e;
                assert(e.slot == slot);
                assert(e.row == r);
            }
        }
        assert forall|s: int| 0 <= s < after.slots.len() implies (
        #[trigger] after.slots[s]).well_formed() by {
            if s != slot {
                assert(m.slots[s].well_formed());
            }
        }
        assert forall|i: int| 0 <= i < after.free.len() implies (#[trigger] after.free[i])
            < after.window_size by {
            assert(m.free[i] < m.window_size);
        }
        assert forall|i: int| 0 <= i < after.stage.len() implies (#[trigger] after.stage[i]).len()
            == after.ncols() && row_well_formed(after.stage[i]) by {
            assert(m.stage[i].len() == m.ncols());
        }
        assert(after.well_formed());
        assert forall|i: int, j: int| 0 <= i < j < after.free.len() implies #[trigger] after.free[i]
            != #[trigger] after.free[j] by {
            assert(m.free[i] != m.free[j]);
        }
        assert forall|t: usize| t < after.window_size implies #[trigger] after.rows_left[t as int]
            == slot_count(after.pending, t) by {
            lemma_count_add(m.pending, fresh, t);
            assert(m.rows_left[t as int] == slot_count(m.pending, t));
            if t == slot {
                lemma_count_all(fresh, slot);
            } else {
                lemma_count_zero(fresh, t);
            }
        }
        assert forall|t: usize| t < after.window_size implies (
        #[trigger] after.rows_left[t as int] == 0 <==> after.free.contains(t)) by {
            assert(m.rows_left[t as int] == 0 <==> m.free.contains(t));
            if n > 0 {
                if t == slot {
                    if after.free.contains(t) {
                        let i = choose|i: int| 0 <= i < after.free.len() && after.free[i] == t;
                        assert(m.free[i] != m.free[m.free.len() - 1]);
                    }
                } else {
                    if after.free.contains(t) {
                        let i = choose|i: int| 0 <= i < after.free.len() && after.free[i] == t;
                        assert(m.free[i] == t);
                    }
                    if m.free.contains(t) {
                        let i = choose|i: int| 0 <= i < m.free.len() && m.free[i] == t;
                        assert(after.free[i] == t);
                    }
                }
            }
        }
    }
}

/// `push` of an accepted batch into a heap that has slots keeps the heap
/// consistent and adds exactly the batch's rows to the heap's rows.
pub proof fn lemma_pushed(m: WindowView, grid: GridView, reader: Option<usize>)
    requires
        m.consistent(),
        m.window_size >= 1,
        grid.well_formed(),
        grid.rows.len() <= usize::MAX,
    ensures
        m.pushed(grid, reader).consistent(),
        m.pushed(grid, reader).columns == m.locked(grid).columns,
        m.pushed(grid, reader).window_size == m.window_size,
        m.pushed(grid, reader).outcome().to_multiset() == m.outcome().to_multiset().add(
            projected_rows(grid, m.locked(grid).ncols()).to_multiset(),
        ),
{
    lemma_locked(m, grid);
    let ready = m.locked(grid).evicted();
    lemma_evicted(m.locked(grid));
    lemma_placed(ready, grid, reader);
    let after = ready.placed(grid, reader);
    lemma_multiset_commutative(ready.emitted(), ready.pending_rows());
    lemma_multiset_commutative(after.emitted(), after.pending_rows());
    assert(after.outcome().to_multiset() =~= ready.outcome().to_multiset().add(
        projected_rows(grid, ready.ncols()).to_multiset(),
    ));
}

/// An accepted batch always finds a slot: in a consistent heap that has
/// slots, letting rows leave frees one, so `push` stores the batch and
/// drops nothing.
pub proof fn lemma_pushed_is_placed(m: WindowView, grid: GridView, reader: Option<usize>)
    requires
        m.consistent(),
        m.accepts(grid),
    ensures
        m.locked(grid).evicted().free.len() > 0,
{
    lemma_locked(m, grid);
    lemma_evicted(m.locked(grid));
}

/// Every row of `grid` has a key that is no smaller than the key of any row
/// that has left by the time the batch takes its slot.
pub open spec fn in_window(m: WindowView, grid: GridView) -> bool {
    let ready = m.locked(grid).evicted();
    forall|i: int, r: int|
        0 <= i < ready.emitted().len() && 0 <= r < grid.rows.len() ==> row_key(
            #[trigger] ready.emitted()[i],
        ).le(row_key(#[trigger] projected(grid, r, ready.ncols())))
}

/// References that are sorted refer to rows whose keys are sorted.
proof fn lemma_sorted_refs_sorted_keys(m: WindowView, i: int, j: int)
    requires
        sorted_by(m.pending, row_ref_leq()),
        0 <= i <= j < m.pending.len(),
        m.refers(m.pending[i]),
        m.refers(m.pending[j]),
    ensures
        row_key(m.pending_rows()[i]).le(row_key(m.pending_rows()[j])),
{
    if i < j {
        assert(row_ref_leq()(m.pending[i], m.pending[j]));
    }
}

/// As long as batches come in window, rows leave in key order: where all
/// rows of a heap are in key order and an accepted batch is in window, all
/// rows are in key order after `push`.
pub proof fn lemma_pushed_keeps_order(m: WindowView, grid: GridView, reader: Option<usize>)
    requires
        m.consistent(),
        m.window_size >= 1,
        grid.well_formed(),
        grid.rows.len() <= usize::MAX,
        keys_sorted(m.outcome()),
        in_window(m, grid),
    ensures
        keys_sorted(m.pushed(grid, reader).outcome()),
{
    lemma_locked(m, grid);
    let ready = m.locked(grid).evicted();
    lemma_evicted(m.locked(grid));
    lemma_placed(ready, grid, reader);
    let after = ready.placed(grid, reader);
    let rows = after.outcome();
    let fresh = fresh_refs(grid, ready.free.last(), ready.ncols());
    lemma_in_order(ready.pending + fresh);
    let ne = ready.emitted().len() as int;
    assert(after.emitted() == ready.emitted());
    assert forall|i: int, j: int| 0 <= i <= j < rows.len() implies row_key(
        #[trigger] rows[i],
    ).le(row_key(#[trigger] rows[j])) by {
        if j < ne {
            assert(rows[i] == ready.outcome()[i]);
            assert(rows[j] == ready.outcome()[j]);
        } else if i < ne {
            let e = after.pending[j - ne];
            assert(rows[j] == after.row_of(e));
            assert(rows[i] == ready.emitted()[i]);
            lemma_placed_sources(ready, grid, reader, j - ne);
            if exists|k: int| 0 <= k < ready.pending.len() && ready.pending[k] == e {
                let k = choose|k: int| 0 <= k < ready.pending.len() && ready.pending[k] == e;
                assert(after.row_of(ready.pending[k]) == ready.row_of(ready.pending[k]));
                assert(ready.outcome()[ne + k] == ready.row_of(ready.pending[k]));
                assert(ready.outcome()[i] == rows[i]);
            } else {
                let r = choose|r: int| 0 <= r < grid.rows.len() && fresh[r] == e;
                assert(after.row_of(e) == projected(grid, r, ready.ncols()));
            }
        } else {
            assert(after.refers(after.pending[i - ne]));
            assert(after.refers(after.pending[j - ne]));
            lemma_sorted_refs_sorted_keys(after, i - ne, j - ne);
            assert(rows[i] == after.pending_rows()[i - ne]);
            assert(rows[j] == after.pending_rows()[j - ne]);
        }
    }
}

/// The readers that the batches of a run were read from: one for each
/// batch's place in the run, or none.
pub type Tags = spec_fn(int) -> Option<usize>;

/// The heap after the batches of `inputs` were pushed in turn, the batch
/// at place `k` as one read from reader `tags(k)`.
pub open spec fn fed(m: WindowView, inputs: Seq<GridView>, tags: Tags) -> WindowView
    decreases inputs.len(),
{
    if inputs.len() == 0 {
        m
    } else {
        fed(m, inputs.drop_last(), tags).pushed(inputs.last(), tags(inputs.len() - 1))
    }
}

/// Every batch of `inputs` is accepted when its turn comes.
pub open spec fn all_accepted(m: WindowView, inputs: Seq<GridView>, tags: Tags) -> bool {
    forall|k: int|
        0 <= k < inputs.len() ==> fed(m, inputs.take(k), tags).accepts(#[trigger] inputs[k])
}

/// Every batch of `inputs` is in window when its turn comes.
pub open spec fn all_in_window(m: WindowView, inputs: Seq<GridView>, tags: Tags) -> bool {
    forall|k: int|
        0 <= k < inputs.len() ==> in_window(fed(m, inputs.take(k), tags), #[trigger] inputs[k])
}

/// The rows of all batches of `inputs`, each laid out over `ncols` columns.
pub open spec fn input_rows(inputs: Seq<GridView>, ncols: nat) -> Seq<RowView>
    decreases inputs.len(),
{
    if inputs.len() == 0 {
        Seq::empty()
    } else {
        input_rows(inputs.drop_last(), ncols) + projected_rows(inputs.last(), ncols)
    }
}

/// The number of columns that a new heap sorts over once it has been fed
/// `inputs`: that of the first batch.
pub open spec fn first_ncols(inputs: Seq<GridView>) -> nat {
    if inputs.len() == 0 {
        0
    } else {
        inputs[0].col_ids.len()
    }
}

/// Over its own columns a well-formed batch is laid out as it is.
pub proof fn lemma_projected_rows_same_shape(grid: GridView)
    requires
        grid.well_formed(),
    ensures
        projected_rows(grid, grid.col_ids.len()) == grid.rows,
{
    assert forall|r: int| 0 <= r < grid.rows.len() implies #[trigger] projected_rows(
        grid,
        grid.col_ids.len(),
    )[r] == grid.rows[r] by {
        lemma_projected(grid, r, grid.col_ids.len());
    }
    assert(projected_rows(grid, grid.col_ids.len()) =~= grid.rows);
}

/// What holds of a new heap after any number of batches.
pub proof fn lemma_fed(window_size: nat, batch_size: nat, inputs: Seq<GridView>, tags: Tags)
    requires
        1 <= window_size <= usize::MAX,
        batch_size <= usize::MAX,
        forall|k: int|
            0 <= k < inputs.len() ==> (#[trigger] inputs[k]).well_formed() && inputs[k].rows.len()
                <= usize::MAX,
    ensures
        fed(WindowView::initial(window_size, batch_size), inputs, tags).consistent(),
        fed(WindowView::initial(window_size, batch_size), inputs, tags).window_size == window_size,
        inputs.len() == 0 ==> fed(
            WindowView::initial(window_size, batch_size),
            inputs,
            tags,
        ).columns is None,
        inputs.len() > 0 ==> fed(WindowView::initial(window_size, batch_size), inputs, tags).columns
            == Some((inputs[0].col_ids, inputs[0].col_ids_hash)),
        fed(WindowView::initial(window_size, batch_size), inputs, tags).outcome().to_multiset()
            == input_rows(inputs, first_ncols(inputs)).to_multiset(),
        all_in_window(WindowView::initial(window_size, batch_size), inputs, tags) ==> keys_sorted(
            fed(WindowView::initial(window_size, batch_size), inputs, tags).outcome(),
        ),
    decreases inputs.len(),
{
    let start = WindowView::initial(window_size, batch_size);
    lemma_initial(window_size, batch_size);
    if inputs.len() == 0 {
        assert(input_rows(inputs, first_ncols(inputs)) =~= Seq::<RowView>::empty());
    } else {
        let before = inputs.drop_last();
        let last = inputs.last();
        let tag = tags(inputs.len() - 1);
        assert forall|k: int| 0 <= k < before.len() implies (#[trigger] before[k]).well_formed()
            && before[k].rows.len() <= usize::MAX by {
            assert(before[k] == inputs[k]);
        }
        lemma_fed(window_size, batch_size, before, tags);
        let m = fed(start, before, tags);
        lemma_pushed(m, last, tag);
        assert(inputs.take(inputs.len() - 1) =~= before);
        let ncols = first_ncols(inputs);
        assert(m.locked(last).ncols() == ncols) by {
            if before.len() > 0 {
                assert(before[0] == inputs[0]);
            }
        }
        if before.len() > 0 {
            assert(before[0] == inputs[0]);
            assert(first_ncols(before) == ncols);
        } else {
            assert(input_rows(before, first_ncols(before)) =~= input_rows(before, ncols));
        }
        lemma_multiset_commutative(input_rows(before, ncols), projected_rows(last, ncols));
        if all_in_window(start, inputs, tags) {
            assert(all_in_window(start, before, tags)) by {
                assert forall|k: int| 0 <= k < before.len() implies in_window(
                    fed(start, before.take(k), tags),
                    #[trigger] before[k],
                ) by {
                    assert(before.take(k) =~= inputs.take(k));
                    assert(before[k] == inputs[k]);
                }
            }
            assert(in_window(
                fed(start, inputs.take(inputs.len() - 1), tags),
                inputs[inputs.len() - 1],
            ));
            lemma_pushed_keeps_order(m, last, tag);
        }
    }
}

/// The window heap sorts: after any batches were pushed into a new heap
/// that has at least one slot and the heap was drained, the output batches
/// hold exactly the rows that were pushed, each laid out over the columns
/// of the first batch, and nothing is left in the heap. If every batch was
/// in window when it was pushed, the rows of the output batches are in key
/// order.
pub proof fn theorem_window_heap_sorts(
    window_size: nat,
    batch_size: nat,
    inputs: Seq<GridView>,
    tags: Tags,
)
    requires
        1 <= window_size <= usize::MAX,
        batch_size <= usize::MAX,
        all_accepted(WindowView::initial(window_size, batch_size), inputs, tags),
        forall|k: int|
            0 <= k < inputs.len() ==> (#[trigger] inputs[k]).well_formed() && inputs[k].rows.len()
                <= usize::MAX,
    ensures
        fed(WindowView::initial(window_size, batch_size), inputs, tags).drained().pending.len()
            == 0,
        fed(WindowView::initial(window_size, batch_size), inputs, tags).drained().stage.len() == 0,
        flat_rows(
            fed(WindowView::initial(window_size, batch_size), inputs, tags).drained().out,
        ).to_multiset() == input_rows(inputs, first_ncols(inputs)).to_multiset(),
        all_in_window(WindowView::initial(window_size, batch_size), inputs, tags) ==> keys_sorted(
            flat_rows(
                fed(WindowView::initial(window_size, batch_size), inputs, tags).drained().out,
            ),
        ),
{
    lemma_fed(window_size, batch_size, inputs, tags);
    lemma_drained(fed(WindowView::initial(window_size, batch_size), inputs, tags));
}

/// `m` with the output batches `before` put in front of its own.
pub open spec fn after_outputs(before: Seq<GridView>, m: WindowView) -> WindowView {
    WindowView { out: before + m.out, ..m }
}

/// `m` after its output batches were taken.
pub open spec fn cleared(m: WindowView) -> WindowView {
    WindowView { out: Seq::empty(), ..m }
}

/// Output batches that wait to be taken have no part in what the heap does:
/// a row leaves the same way whatever waits.
pub proof fn lemma_popped_after_outputs(before: Seq<GridView>, m: WindowView)
    requires
        m.pending.len() > 0,
    ensures
        after_outputs(before, m).popped() == after_outputs(before, m.popped()),
{
    let a = after_outputs(before, m).popped();
    let b = after_outputs(before, m.popped());
    assert(a.out =~= b.out);
}

/// Rows leave until a slot is free the same way whatever waits.
pub proof fn lemma_evicted_after_outputs(before: Seq<GridView>, m: WindowView)
    ensures
        after_outputs(before, m).evicted() == after_outputs(before, m.evicted()),
    decreases m.pending.len(),
{
    if m.free.len() > 0 || m.pending.len() == 0 {
    } else {
        lemma_popped_after_outputs(before, m);
        lemma_evicted_after_outputs(before, m.popped());
    }
}

/// All rows leave the same way whatever waits.
pub proof fn lemma_emptied_after_outputs(before: Seq<GridView>, m: WindowView)
    ensures
        after_outputs(before, m).emptied() == after_outputs(before, m.emptied()),
    decreases m.pending.len(),
{
    if m.pending.len() > 0 {
        lemma_popped_after_outputs(before, m);
        lemma_emptied_after_outputs(before, m.popped());
    }
}

/// `push` does the same whatever waits.
pub proof fn lemma_pushed_after_outputs(
    before: Seq<GridView>,
    m: WindowView,
    grid: GridView,
    reader: Option<usize>,
)
    ensures
        after_outputs(before, m).pushed(grid, reader) == after_outputs(
            before,
            m.pushed(grid, reader),
        ),
        after_outputs(before, m).accepts(grid) == m.accepts(grid),
{
    assert(after_outputs(before, m).locked(grid) == after_outputs(before, m.locked(grid)));
    lemma_evicted_after_outputs(before, m.locked(grid));
}

/// `drain` does the same whatever waits.
pub proof fn lemma_drained_after_outputs(before: Seq<GridView>, m: WindowView)
    ensures
        after_outputs(before, m).drained() == after_outputs(before, m.drained()),
{
    lemma_emptied_after_outputs(before, m.emptied());
    lemma_emptied_after_outputs(before, m);
    let done = m.emptied();
    if done.stage.len() > 0 {
        assert(after_outputs(before, done).flushed().out =~= after_outputs(
            before,
            done.flushed(),
        ).out);
    }
}

/// The batches that were taken so far and the heap that is left when the
/// batches of `inputs` are pushed in turn and the output batches are taken
/// after every push.
pub open spec fn streamed(m: WindowView, inputs: Seq<GridView>, tags: Tags) -> (
    Seq<GridView>,
    WindowView,
)
    decreases inputs.len(),
{
    if inputs.len() == 0 {
        (m.out, cleared(m))
    } else {
        let (taken, heap) = streamed(m, inputs.drop_last(), tags);
        let pushed = heap.pushed(inputs.last(), tags(inputs.len() - 1));
        (taken + pushed.out, cleared(pushed))
    }
}

/// Taking the output batches early changes nothing: whether they are taken
/// after every push or all at the end, the same batches come out in the
/// same order, the same batches are accepted, and the heap is left the same.
pub proof fn theorem_streaming(m: WindowView, inputs: Seq<GridView>, tags: Tags)
    ensures
        streamed(m, inputs, tags).0 == fed(m, inputs, tags).out,
        streamed(m, inputs, tags).1 == cleared(fed(m, inputs, tags)),
        streamed(m, inputs, tags).0 + streamed(m, inputs, tags).1.drained().out == fed(
            m,
            inputs,
            tags,
        ).drained().out,
    decreases inputs.len(),
{
    let all = fed(m, inputs, tags);
    if inputs.len() > 0 {
        let before = inputs.drop_last();
        theorem_streaming(m, before, tags);
        let f = fed(m, before, tags);
        let tag = tags(inputs.len() - 1);
        assert(after_outputs(f.out, cleared(f)) == f) by {
            assert(f.out + Seq::<GridView>::empty() =~= f.out);
        }
        lemma_pushed_after_outputs(f.out, cleared(f), inputs.last(), tag);
    }
    assert(after_outputs(all.out, cleared(all)) == all) by {
        assert(all.out + Seq::<GridView>::empty() =~= all.out);
    }
    lemma_drained_after_outputs(all.out, cleared(all));
}

/// A heap whose output batches are taken as they come sorts as well: when
/// batches are pushed into a new heap that has at least one slot, the
/// output batches are taken after every push, and the heap is drained at
/// the end, the batches that were taken hold exactly the rows that were
/// pushed, each laid out over the columns of the first batch. If every
/// batch was in window when it was pushed, the rows that were taken are in
/// key order. This is how a worker fills its file and how the final merge
/// fills the sorted files.
pub proof fn theorem_streamed_heap_sorts(
    window_size: nat,
    batch_size: nat,
    inputs: Seq<GridView>,
    tags: Tags,
)
    requires
        1 <= window_size <= usize::MAX,
        batch_size <= usize::MAX,
        all_accepted(WindowView::initial(window_size, batch_size), inputs, tags),
        forall|k: int|
            0 <= k < inputs.len() ==> (#[trigger] inputs[k]).well_formed() && inputs[k].rows.len()
                <= usize::MAX,
    ensures
        ({
            let (taken, heap) = streamed(WindowView::initial(window_size, batch_size), inputs, tags);
            let written = taken + heap.drained().out;
            &&& flat_rows(written).to_multiset() == input_rows(
                inputs,
                first_ncols(inputs),
            ).to_multiset()
            &&& all_in_window(WindowView::initial(window_size, batch_size), inputs, tags)
                ==> keys_sorted(flat_rows(written))
        }),
{
    theorem_streaming(WindowView::initial(window_size, batch_size), inputs, tags);
    theorem_window_heap_sorts(window_size, batch_size, inputs, tags);
}

/// The sum of the numbers in `counts`.
pub open spec fn total_left(counts: Seq<usize>) -> nat
    decreases counts.len(),
{
    if counts.len() == 0 {
        0
    } else {
        total_left(counts.drop_last()) + counts.last() as nat
    }
}

/// How many references of `p` point into the first `n` slots, slot by slot.
spec fn counted(p: Seq<RowRef>, n: nat) -> nat
    decreases n,
{
    if n == 0 {
        0
    } else {
        counted(p, (n - 1) as nat) + slot_count(p, (n - 1) as usize)
    }
}

/// Slot by slot, the first reference is counted once if it points into one
/// of the slots.
proof fn lemma_counted_drop_first(p: Seq<RowRef>, n: nat)
    requires
        p.len() > 0,
        n <= usize::MAX,
    ensures
        counted(p, n) == counted(p.drop_first(), n) + if p[0].slot < n {
            1nat
        } else {
            0nat
        },
    decreases n,
{
    if n > 0 {
        lemma_counted_drop_first(p, (n - 1) as nat);
        lemma_count_drop_first(p, (n - 1) as usize);
    }
}

/// References that all point into the first `n` slots are counted once
/// each.
proof fn lemma_counted_all(p: Seq<RowRef>, n: nat)
    requires
        n <= usize::MAX,
        forall|i: int| 0 <= i < p.len() ==> (#[trigger] p[i]).slot < n,
    ensures
        counted(p, n) == p.len(),
    decreases p.len(),
{
    if p.len() == 0 {
        lemma_counted_none(p, n);
    } else {
        let rest = p.drop_first();
        assert forall|i: int| 0 <= i < rest.len() implies (#[trigger] rest[i]).slot < n by {
            assert(rest[i] == p[i + 1]);
        }
        lemma_counted_all(rest, n);
        lemma_counted_drop_first(p, n);
    }
}

/// No references are counted in no slot.
proof fn lemma_counted_none(p: Seq<RowRef>, n: nat)
    requires
        p.len() == 0,
        n <= usize::MAX,
    ensures
        counted(p, n) == 0,
    decreases n,
{
    if n > 0 {
        lemma_counted_none(p, (n - 1) as nat);
        lemma_count_zero(p, (n - 1) as usize);
    }
}

/// The slots count the pending rows: the counts of all slots add up to
/// the number of pending rows.
pub proof fn lemma_pending_is_counted(m: WindowView)
    requires
        m.orderly(),
    ensures
        m.pending.len() == total_left(m.rows_left),
{
    lemma_counted_all(m.pending, m.window_size);
    lemma_counted_is_total(m, m.window_size);
    assert(m.rows_left.take(m.window_size as int) =~= m.rows_left);
}

proof fn lemma_counted_is_total(m: WindowView, n: nat)
    requires
        m.orderly(),
        n <= m.window_size,
    ensures
        counted(m.pending, n) == total_left(m.rows_left.take(n as int)),
    decreases n,
{
    if n > 0 {
        lemma_counted_is_total(m, (n - 1) as nat);
        let prefix = m.rows_left.take(n as int);
        assert(prefix.drop_last() =~= m.rows_left.take(n - 1));
        assert(prefix.last() == m.rows_left[n - 1]);
        assert(m.rows_left[((n - 1) as usize) as int] == slot_count(m.pending, (n - 1) as usize));
    }
}

/// The heap is bounded: it never holds more pending rows than its slots
/// can hold, that is, no more than `window_size` times the rows of the
/// largest batch in a slot.
pub proof fn lemma_pending_bounded(m: WindowView, max_rows: nat)
    requires
        m.orderly(),
        forall|s: int| 0 <= s < m.slots.len() ==> (#[trigger] m.slots[s]).rows.len() <= max_rows,
    ensures
        m.pending.len() <= m.window_size * max_rows,
{
    lemma_pending_is_counted(m);
    lemma_total_bounded(m, m.window_size, max_rows);
    assert(m.rows_left.take(m.window_size as int) =~= m.rows_left);
}

proof fn lemma_total_bounded(m: WindowView, n: nat, max_rows: nat)
    requires
        m.orderly(),
        n <= m.window_size,
        forall|s: int| 0 <= s < m.slots.len() ==> (#[trigger] m.slots[s]).rows.len() <= max_rows,
    ensures
        total_left(m.rows_left.take(n as int)) <= n * max_rows,
    decreases n,
{
    if n > 0 {
        lemma_total_bounded(m, (n - 1) as nat, max_rows);
        let prefix = m.rows_left.take(n as int);
        assert(prefix.drop_last() =~= m.rows_left.take(n - 1));
        assert(prefix.last() == m.rows_left[n - 1]);
        assert(m.rows_left[n - 1] <= m.slots[n - 1].rows.len());
        assert((n - 1) * max_rows + max_rows == n * max_rows) by (nonlinear_arith);
    } else {
        assert(0 * max_rows == 0) by (nonlinear_arith);
    }
}

/// Taking output batches leaves the heap consistent: what it holds and what
/// it will do do not depend on the batches that wait to be taken.
pub proof fn lemma_taken_consistent(m: WindowView)
    requires
        m.consistent(),
    ensures
        m.out.len() > 0 ==> m.taken().consistent(),
        cleared(m).consistent(),
{
    if m.out.len() > 0 {
        let t = m.taken();
        assert forall|i: int| 0 <= i < t.out.len() implies {
            &&& (#[trigger] t.out[i]).well_formed()
            &&& t.out[i].col_ids == t.col_ids()
            &&& t.out[i].col_ids_hash == t.col_ids_hash()
            &&& (t.out[i].rows.len() <= t.batch_size || t.out[i].rows.len() <= 1)
        } by {
            assert(t.out[i] == m.out[i + 1]);
            assert(m.out[i + 1].well_formed());
            assert(m.out[i + 1].col_ids == m.col_ids());
        }
        assert forall|i: int| 0 <= i < t.out.len() implies (#[trigger] t.out[i]).rows.len() > 0 by {
            assert(t.out[i] == m.out[i + 1]);
        }
        assert forall|i: int| 0 <= i < t.pending.len() implies t.refers(#[trigger] t.pending[i]) by {
            assert(m.refers(m.pending[i]));
        }
    }
    let c = cleared(m);
    assert forall|i: int| 0 <= i < c.pending.len() implies c.refers(#[trigger] c.pending[i]) by {
        assert(m.refers(m.pending[i]));
    }
}

/// The rows of a full output batch: `batch_size`, and one where that is 0.
pub open spec fn rows_per_batch(batch_size: nat) -> nat {
    if batch_size == 0 {
        1
    } else {
        batch_size
    }
}

/// Every output batch that waits is full.
pub open spec fn packed(m: WindowView) -> bool {
    forall|i: int|
        0 <= i < m.out.len() ==> (#[trigger] m.out[i]).rows.len() == rows_per_batch(m.batch_size)
}

/// Full batches of `unit` rows hold `unit` rows each.
pub proof fn lemma_packed_rows(out: Seq<GridView>, unit: nat)
    requires
        forall|i: int| 0 <= i < out.len() ==> (#[trigger] out[i]).rows.len() == unit,
    ensures
        flat_rows(out).len() == out.len() * unit,
    decreases out.len(),
{
    if out.len() > 0 {
        let before = out.drop_last();
        assert forall|i: int| 0 <= i < before.len() implies (#[trigger] before[i]).rows.len()
            == unit by {
            assert(before[i] == out[i]);
        }
        lemma_packed_rows(before, unit);
        assert(out.last() == out[out.len() - 1]);
        assert((out.len() - 1) * unit + unit == out.len() * unit) by (nonlinear_arith);
    } else {
        assert(0 * unit == 0) by (nonlinear_arith);
    }
}

/// A row that leaves fills batches: as long as the heap is not drained,
/// every output batch is full.
pub proof fn lemma_popped_packed(m: WindowView)
    requires
        m.consistent(),
        packed(m),
        m.pending.len() > 0,
    ensures
        packed(m.popped()),
        m.popped().batch_size == m.batch_size,
{
    let p = m.popped();
    assert forall|i: int| 0 <= i < p.out.len() implies (#[trigger] p.out[i]).rows.len()
        == rows_per_batch(p.batch_size) by {
        if i < m.out.len() {
            assert(p.out[i] == m.out[i]);
        }
    }
}

/// `push` leaves every output batch full.
pub proof fn lemma_pushed_packed(m: WindowView, grid: GridView, reader: Option<usize>)
    requires
        m.consistent(),
        packed(m),
    ensures
        packed(m.pushed(grid, reader)),
        m.pushed(grid, reader).batch_size == m.batch_size,
{
    lemma_locked(m, grid);
    lemma_evicted_packed(m.locked(grid));
}

proof fn lemma_evicted_packed(m: WindowView)
    requires
        m.consistent(),
        packed(m),
    ensures
        packed(m.evicted()),
        m.evicted().batch_size == m.batch_size,
    decreases m.pending.len(),
{
    if m.free.len() > 0 || m.pending.len() == 0 {
    } else {
        lemma_popped(m);
        lemma_popped_packed(m);
        lemma_evicted_packed(m.popped());
    }
}

proof fn lemma_emptied_packed(m: WindowView)
    requires
        m.consistent(),
        packed(m),
    ensures
        packed(m.emptied()),
        m.emptied().batch_size == m.batch_size,
    decreases m.pending.len(),
{
    if m.pending.len() > 0 {
        lemma_popped(m);
        lemma_popped_packed(m);
        lemma_emptied_packed(m.popped());
    }
}

/// How many batches hold `rows` rows when every batch but the last is full:
/// `rows / unit`, rounded up.
pub open spec fn batches_for(rows: nat, unit: nat) -> nat {
    ((rows + unit - 1) / (unit as int)) as nat
}

/// `drain` makes at most one batch that is not full: after a heap whose
/// output batches were all full was drained, the number of its output
/// batches is the number of their rows divided by the rows of a full batch,
/// rounded up.
pub proof fn lemma_drained_count(m: WindowView)
    requires
        m.consistent(),
        packed(m),
    ensures
        m.drained().out.len() == batches_for(
            flat_rows(m.drained().out).len(),
            rows_per_batch(m.batch_size),
        ),
{
    let unit = rows_per_batch(m.batch_size);
    lemma_emptied(m);
    lemma_emptied_packed(m);
    let done = m.emptied();
    lemma_packed_rows(done.out, unit);
    let n = done.out.len();
    if done.stage.len() > 0 {
        let d = done.flushed();
        let last = d.out.last();
        lemma_flat_rows_push(done.out, last);
        assert(d.out.drop_last() =~= done.out);
        let k = done.stage.len();
        assert(flat_rows(d.out).len() == n * unit + k);
        assert(0 < k < unit);
        assert((n * unit + k + unit - 1) / (unit as int) == n + 1) by (nonlinear_arith)
            requires
                0 < k < unit,
        ;
    } else {
        assert((n * unit + unit - 1) / (unit as int) == n) by (nonlinear_arith)
            requires
                unit > 0,
        ;
    }
}

/// After any number of batches every output batch of a new heap is full.
pub proof fn lemma_fed_packed(window_size: nat, batch_size: nat, inputs: Seq<GridView>, tags: Tags)
    requires
        1 <= window_size <= usize::MAX,
        batch_size <= usize::MAX,
        forall|k: int|
            0 <= k < inputs.len() ==> (#[trigger] inputs[k]).well_formed() && inputs[k].rows.len()
                <= usize::MAX,
    ensures
        packed(fed(WindowView::initial(window_size, batch_size), inputs, tags)),
        fed(WindowView::initial(window_size, batch_size), inputs, tags).batch_size == batch_size,
    decreases inputs.len(),
{
    if inputs.len() > 0 {
        let before = inputs.drop_last();
        assert forall|k: int| 0 <= k < before.len() implies (#[trigger] before[k]).well_formed()
            && before[k].rows.len() <= usize::MAX by {
            assert(before[k] == inputs[k]);
        }
        lemma_fed_packed(window_size, batch_size, before, tags);
        lemma_fed(window_size, batch_size, before, tags);
        lemma_pushed_packed(
            fed(WindowView::initial(window_size, batch_size), before, tags),
            inputs.last(),
            tags(inputs.len() - 1),
        );
    }
}

} // verus!
