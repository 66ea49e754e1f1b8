//! What holds of a whole partition: what the sinkers send is what the
//! sorted files hold.
//!
//! The samples of a partition are shared out among the workers, every
//! worker sorts its share through a window heap into the lines of a file,
//! and the final merge reads the lines of all files and sorts them through
//! another window heap into the lines of the sorted files.
use crate::grid::GridView;
use crate::grid::RowView;
use crate::window_heap::WindowView;
use crate::merge_sort::file_of_line;
use crate::merge_sort::lemma_files_at_most_readers;
use crate::window_laws::all_accepted;
use crate::window_laws::batches_for;
use crate::window_laws::lemma_drained_count;
use crate::window_laws::lemma_fed_packed;
use crate::window_laws::rows_per_batch;
use crate::window_laws::all_in_window;
use crate::window_laws::fed;
use crate::window_laws::first_ncols;
use crate::window_laws::flat_rows;
use crate::window_laws::input_rows;
use crate::window_laws::keys_sorted;
use crate::window_laws::lemma_drained;
use crate::window_laws::lemma_fed;
use crate::window_laws::lemma_projected_rows_same_shape;
use crate::window_laws::streamed;
use crate::window_laws::theorem_streamed_heap_sorts;
use crate::window_laws::theorem_streaming;
use crate::window_laws::Tags;
use vstd::prelude::*;
use vstd::seq_lib::lemma_multiset_commutative;
use vstd::seq_lib::to_multiset_remove;

verus! {

/// Every batch of `batches` is well formed, has the columns `col_ids` and
/// carries the hash `hash`.
pub open spec fn uniform(batches: Seq<GridView>, col_ids: Seq<u32>, hash: u32) -> bool {
    forall|k: int|
        0 <= k < batches.len() ==> {
            &&& (#[trigger] batches[k]).well_formed()
            &&& batches[k].col_ids == col_ids
            &&& batches[k].col_ids_hash == hash
            &&& batches[k].rows.len() <= usize::MAX
        }
}

/// The batches that leave a new heap when the batches of `inputs` are
/// pushed in turn, the output batches are taken after every push, and the
/// heap is drained at the end: the lines of a worker's file, and the lines
/// of the sorted files.
pub open spec fn written(window_size: nat, batch_size: nat, inputs: Seq<GridView>, tags: Tags) -> Seq<
    GridView,
> {
    let run = streamed(WindowView::initial(window_size, batch_size), inputs, tags);
    run.0 + run.1.drained().out
}

/// No batch is said to come from a reader.
pub open spec fn no_tags() -> Tags {
    |k: int| None
}

/// The batches of all parts, one part after the other.
pub open spec fn joined(parts: Seq<Seq<GridView>>) -> Seq<GridView>
    decreases parts.len(),
{
    if parts.len() == 0 {
        Seq::empty()
    } else {
        joined(parts.drop_last()) + parts.last()
    }
}

/// The files that the workers write, one for each share.
pub open spec fn files_of(window_size: nat, batch_size: nat, shares: Seq<Seq<GridView>>) -> Seq<
    Seq<GridView>,
> {
    Seq::new(shares.len(), |k: int| written(window_size, batch_size, shares[k], no_tags()))
}

/// The rows of batches that follow one another are the rows of the first,
/// then the rows of the others.
pub proof fn lemma_flat_rows_add(a: Seq<GridView>, b: Seq<GridView>)
    ensures
        flat_rows(a + b) == flat_rows(a) + flat_rows(b),
    decreases b.len(),
{
    if b.len() == 0 {
        assert(a + b =~= a);
        assert(flat_rows(a) + flat_rows(b) =~= flat_rows(a));
    } else {
        assert((a + b).drop_last() =~= a + b.drop_last());
        assert((a + b).last() == b.last());
        lemma_flat_rows_add(a, b.drop_last());
        assert(flat_rows(a + b) =~= flat_rows(a) + flat_rows(b));
    }
}

/// Taking a batch away takes its rows away.
proof fn lemma_flat_rows_remove(b: Seq<GridView>, j: int)
    requires
        0 <= j < b.len(),
    ensures
        flat_rows(b).to_multiset() == flat_rows(b.remove(j)).to_multiset().add(
            b[j].rows.to_multiset(),
        ),
{
    let head = b.take(j);
    let one = seq![b[j]];
    let tail = b.skip(j + 1);
    assert(b =~= head + (one + tail));
    assert(b.remove(j) =~= head + tail);
    lemma_flat_rows_add(head, one + tail);
    lemma_flat_rows_add(one, tail);
    lemma_flat_rows_add(head, tail);
    assert(one.drop_last() =~= Seq::<GridView>::empty());
    assert(flat_rows(one.drop_last()) =~= Seq::<RowView>::empty());
    assert(one.last() == b[j]);
    assert(flat_rows(one) =~= b[j].rows);
    lemma_multiset_commutative(flat_rows(head), flat_rows(one) + flat_rows(tail));
    lemma_multiset_commutative(flat_rows(one), flat_rows(tail));
    lemma_multiset_commutative(flat_rows(head), flat_rows(tail));
    assert(flat_rows(b).to_multiset() =~= flat_rows(b.remove(j)).to_multiset().add(
        b[j].rows.to_multiset(),
    ));
}

/// The same batches in another order hold the same rows.
pub proof fn lemma_flat_rows_same_batches(a: Seq<GridView>, b: Seq<GridView>)
    requires
        a.to_multiset() == b.to_multiset(),
    ensures
        flat_rows(a).to_multiset() == flat_rows(b).to_multiset(),
    decreases a.len(),
{
    a.to_multiset_ensures();
    b.to_multiset_ensures();
    if a.len() == 0 {
        assert(b.len() == 0);
    } else {
        let x = a.last();
        assert(a.contains(x));
        assert(a.to_multiset().count(x) > 0);
        assert(b.contains(x));
        let j = choose|j: int| 0 <= j < b.len() && b[j] == x;
        to_multiset_remove(a, a.len() - 1);
        assert(a.drop_last() =~= a.remove(a.len() - 1));
        to_multiset_remove(b, j);
        lemma_flat_rows_same_batches(a.drop_last(), b.remove(j));
        lemma_flat_rows_remove(b, j);
        lemma_multiset_commutative(flat_rows(a.drop_last()), x.rows);
    }
}

/// Batches that all have the columns that the heap sorts over are laid out
/// as they are.
pub proof fn lemma_input_rows_uniform(inputs: Seq<GridView>, col_ids: Seq<u32>, hash: u32)
    requires
        uniform(inputs, col_ids, hash),
    ensures
        input_rows(inputs, col_ids.len()) == flat_rows(inputs),
    decreases inputs.len(),
{
    if inputs.len() > 0 {
        let before = inputs.drop_last();
        assert forall|k: int| 0 <= k < before.len() implies {
            &&& (#[trigger] before[k]).well_formed()
            &&& before[k].col_ids == col_ids
            &&& before[k].col_ids_hash == hash
            &&& before[k].rows.len() <= usize::MAX
        } by {
            assert(before[k] == inputs[k]);
        }
        lemma_input_rows_uniform(before, col_ids, hash);
        assert(inputs.last() == inputs[inputs.len() - 1]);
        lemma_projected_rows_same_shape(inputs.last());
    }
}

/// A new heap that has slots accepts batches that all carry one hash.
pub proof fn lemma_uniform_accepted(
    window_size: nat,
    batch_size: nat,
    inputs: Seq<GridView>,
    tags: Tags,
    col_ids: Seq<u32>,
    hash: u32,
)
    requires
        1 <= window_size <= usize::MAX,
        batch_size <= usize::MAX,
        uniform(inputs, col_ids, hash),
    ensures
        all_accepted(WindowView::initial(window_size, batch_size), inputs, tags),
{
    let start = WindowView::initial(window_size, batch_size);
    assert forall|k: int| 0 <= k < inputs.len() implies fed(start, inputs.take(k), tags).accepts(
        #[trigger] inputs[k],
    ) by {
        let before = inputs.take(k);
        assert forall|i: int| 0 <= i < before.len() implies (#[trigger] before[i]).well_formed()
            && before[i].rows.len() <= usize::MAX by {
            assert(before[i] == inputs[i]);
        }
        lemma_fed(window_size, batch_size, before, tags);
        if k > 0 {
            assert(before[0] == inputs[0]);
        }
    }
}

/// What a heap writes of batches that all have the same columns has those
/// columns too.
pub proof fn lemma_written_uniform(
    window_size: nat,
    batch_size: nat,
    inputs: Seq<GridView>,
    tags: Tags,
    col_ids: Seq<u32>,
    hash: u32,
)
    requires
        1 <= window_size <= usize::MAX,
        batch_size <= usize::MAX,
        uniform(inputs, col_ids, hash),
    ensures
        uniform(written(window_size, batch_size, inputs, tags), col_ids, hash),
{
    let start = WindowView::initial(window_size, batch_size);
    theorem_streaming(start, inputs, tags);
    assert forall|i: int| 0 <= i < inputs.len() implies (#[trigger] inputs[i]).well_formed()
        && inputs[i].rows.len() <= usize::MAX by {}
    lemma_fed(window_size, batch_size, inputs, tags);
    let end = fed(start, inputs, tags);
    lemma_drained(end);
    let out = end.drained().out;
    assert(written(window_size, batch_size, inputs, tags) == out);
    assert forall|k: int| 0 <= k < out.len() implies {
        &&& (#[trigger] out[k]).well_formed()
        &&& out[k].col_ids == col_ids
        &&& out[k].col_ids_hash == hash
        &&& out[k].rows.len() <= usize::MAX
    } by {
        assert(end.drained().columns is Some);
        assert(inputs.len() > 0);
        assert(inputs[0].col_ids == col_ids);
    }
}

/// The files of the workers hold the rows of the shares.
proof fn lemma_files_keep_rows(
    window_size: nat,
    batch_size: nat,
    shares: Seq<Seq<GridView>>,
    col_ids: Seq<u32>,
    hash: u32,
)
    requires
        1 <= window_size <= usize::MAX,
        batch_size <= usize::MAX,
        forall|k: int| 0 <= k < shares.len() ==> uniform(#[trigger] shares[k], col_ids, hash),
    ensures
        flat_rows(joined(files_of(window_size, batch_size, shares))).to_multiset() == flat_rows(
            joined(shares),
        ).to_multiset(),
        uniform(joined(files_of(window_size, batch_size, shares)), col_ids, hash),
    decreases shares.len(),
{
    let files = files_of(window_size, batch_size, shares);
    if shares.len() > 0 {
        let before = shares.drop_last();
        let share = shares.last();
        assert forall|k: int| 0 <= k < before.len() implies uniform(
            #[trigger] before[k],
            col_ids,
            hash,
        ) by {
            assert(before[k] == shares[k]);
        }
        lemma_files_keep_rows(window_size, batch_size, before, col_ids, hash);
        assert(files.drop_last() =~= files_of(window_size, batch_size, before));
        let file = files.last();
        assert(file == written(window_size, batch_size, share, no_tags()));
        assert(uniform(share, col_ids, hash)) by {
            assert(share == shares[shares.len() - 1]);
        }
        lemma_uniform_accepted(window_size, batch_size, share, no_tags(), col_ids, hash);
        theorem_streamed_heap_sorts(window_size, batch_size, share, no_tags());
        lemma_written_uniform(window_size, batch_size, share, no_tags(), col_ids, hash);
        lemma_input_rows_uniform(share, col_ids, hash);
        if share.len() > 0 {
            assert(share[0].col_ids == col_ids);
        } else {
            assert(input_rows(share, first_ncols(share)) =~= input_rows(share, col_ids.len()));
        }
        lemma_flat_rows_add(joined(files.drop_last()), file);
        lemma_flat_rows_add(joined(before), share);
        lemma_multiset_commutative(flat_rows(joined(files.drop_last())), flat_rows(file));
        lemma_multiset_commutative(flat_rows(joined(before)), flat_rows(share));
        let all = joined(files);
        assert forall|k: int| 0 <= k < all.len() implies {
            &&& (#[trigger] all[k]).well_formed()
            &&& all[k].col_ids == col_ids
            &&& all[k].col_ids_hash == hash
            &&& all[k].rows.len() <= usize::MAX
        } by {
            let n = joined(files.drop_last()).len();
            if k < n {
                assert(all[k] == joined(files.drop_last())[k]);
            } else {
                assert(all[k] == file[k - n]);
            }
        }
    }
}

/// A partition keeps its rows. Where the samples of a partition are shared
/// out among workers, every worker writes what leaves its heap, and the
/// merge reads every line of every file once, in whatever order, the
/// sorted files hold exactly the rows that were shared out, provided that
/// all batches have the same columns and both heaps have slots. The rows
/// of the sorted files are in key order if every line was in window when
/// the merge pushed it.
pub proof fn theorem_partition_keeps_rows(
    worker_window: nat,
    worker_batch: nat,
    merge_window: nat,
    merge_batch: nat,
    shares: Seq<Seq<GridView>>,
    reads: Seq<GridView>,
    tags: Tags,
    col_ids: Seq<u32>,
    hash: u32,
)
    requires
        1 <= worker_window <= usize::MAX,
        1 <= merge_window <= usize::MAX,
        worker_batch <= usize::MAX,
        merge_batch <= usize::MAX,
        forall|k: int| 0 <= k < shares.len() ==> uniform(#[trigger] shares[k], col_ids, hash),
        reads.to_multiset() == joined(
            files_of(worker_window, worker_batch, shares),
        ).to_multiset(),
    ensures
        flat_rows(written(merge_window, merge_batch, reads, tags)).to_multiset() == flat_rows(
            joined(shares),
        ).to_multiset(),
        all_in_window(WindowView::initial(merge_window, merge_batch), reads, tags) ==> keys_sorted(
            flat_rows(written(merge_window, merge_batch, reads, tags)),
        ),
{
    let lines = joined(files_of(worker_window, worker_batch, shares));
    lemma_files_keep_rows(worker_window, worker_batch, shares, col_ids, hash);
    reads.to_multiset_ensures();
    lines.to_multiset_ensures();
    assert forall|k: int| 0 <= k < reads.len() implies {
        &&& (#[trigger] reads[k]).well_formed()
        &&& reads[k].col_ids == col_ids
        &&& reads[k].col_ids_hash == hash
        &&& reads[k].rows.len() <= usize::MAX
    } by {
        assert(reads.contains(reads[k]));
        assert(reads.to_multiset().count(reads[k]) > 0);
        assert(lines.contains(reads[k]));
        let j = choose|j: int| 0 <= j < lines.len() && lines[j] == reads[k];
        assert(lines[j].well_formed());
    }
    lemma_uniform_accepted(merge_window, merge_batch, reads, tags, col_ids, hash);
    theorem_streamed_heap_sorts(merge_window, merge_batch, reads, tags);
    lemma_input_rows_uniform(reads, col_ids, hash);
    if reads.len() > 0 {
        assert(reads[0].col_ids == col_ids);
    } else {
        assert(input_rows(reads, first_ncols(reads)) =~= input_rows(reads, col_ids.len()));
    }
    lemma_flat_rows_same_batches(reads, lines);
}

/// What a heap writes is as many batches as its rows need: the number of
/// batches that a new heap writes of batches that all have the same columns
/// is the number of their rows divided by the rows of a full batch, rounded
/// up. No rows make no batch.
pub proof fn lemma_written_count(
    window_size: nat,
    batch_size: nat,
    inputs: Seq<GridView>,
    tags: Tags,
    col_ids: Seq<u32>,
    hash: u32,
)
    requires
        1 <= window_size <= usize::MAX,
        batch_size <= usize::MAX,
        uniform(inputs, col_ids, hash),
    ensures
        written(window_size, batch_size, inputs, tags).len() == batches_for(
            flat_rows(inputs).len(),
            rows_per_batch(batch_size),
        ),
        flat_rows(written(window_size, batch_size, inputs, tags)).len() == flat_rows(inputs).len(),
{
    let start = WindowView::initial(window_size, batch_size);
    theorem_streaming(start, inputs, tags);
    assert forall|i: int| 0 <= i < inputs.len() implies (#[trigger] inputs[i]).well_formed()
        && inputs[i].rows.len() <= usize::MAX by {}
    lemma_fed(window_size, batch_size, inputs, tags);
    lemma_fed_packed(window_size, batch_size, inputs, tags);
    let end = fed(start, inputs, tags);
    lemma_drained_count(end);
    lemma_uniform_accepted(window_size, batch_size, inputs, tags, col_ids, hash);
    theorem_streamed_heap_sorts(window_size, batch_size, inputs, tags);
    lemma_input_rows_uniform(inputs, col_ids, hash);
    if inputs.len() > 0 {
        assert(inputs[0].col_ids == col_ids);
    } else {
        assert(input_rows(inputs, first_ncols(inputs)) =~= input_rows(inputs, col_ids.len()));
    }
    flat_rows(written(window_size, batch_size, inputs, tags)).to_multiset_ensures();
    flat_rows(inputs).to_multiset_ensures();
}

/// Rows that are batched apart need no fewer batches than rows that are
/// batched together.
proof fn lemma_batches_apart(a: nat, b: nat, unit: nat)
    requires
        unit > 0,
    ensures
        batches_for(a + b, unit) <= batches_for(a, unit) + batches_for(b, unit),
        batches_for(0, unit) == 0,
{
    assert((a + b + unit - 1) / (unit as int) <= (a + unit - 1) / (unit as int) + (b + unit - 1) / (
    unit as int)) by (nonlinear_arith)
        requires
            unit > 0,
    ;
    assert((0 + unit - 1) / (unit as int) == 0) by (nonlinear_arith)
        requires
            unit > 0,
    ;
}

/// The workers' files hold no fewer lines than the rows of all shares need.
proof fn lemma_files_lines(
    window_size: nat,
    batch_size: nat,
    shares: Seq<Seq<GridView>>,
    col_ids: Seq<u32>,
    hash: u32,
)
    requires
        1 <= window_size <= usize::MAX,
        batch_size <= usize::MAX,
        forall|k: int| 0 <= k < shares.len() ==> uniform(#[trigger] shares[k], col_ids, hash),
    ensures
        batches_for(flat_rows(joined(shares)).len(), rows_per_batch(batch_size)) <= joined(
            files_of(window_size, batch_size, shares),
        ).len(),
    decreases shares.len(),
{
    let unit = rows_per_batch(batch_size);
    let files = files_of(window_size, batch_size, shares);
    if shares.len() > 0 {
        let before = shares.drop_last();
        let share = shares.last();
        assert forall|k: int| 0 <= k < before.len() implies uniform(
            #[trigger] before[k],
            col_ids,
            hash,
        ) by {
            assert(before[k] == shares[k]);
        }
        lemma_files_lines(window_size, batch_size, before, col_ids, hash);
        assert(files.drop_last() =~= files_of(window_size, batch_size, before));
        assert(files.last() == written(window_size, batch_size, share, no_tags()));
        assert(uniform(share, col_ids, hash)) by {
            assert(share == shares[shares.len() - 1]);
        }
        lemma_written_count(window_size, batch_size, share, no_tags(), col_ids, hash);
        lemma_flat_rows_add(joined(before), share);
        lemma_batches_apart(flat_rows(joined(before)).len(), flat_rows(share).len(), unit);
    } else {
        lemma_batches_apart(0, 0, unit);
    }
}

/// A partition is merged into no more files than it has workers. Where
/// the workers and the merge make batches of the same size, the merge
/// writes no more lines than the workers' files hold, and none where no row
/// was received. So, where the workers' files hold the same number of
/// lines each on average, or fewer lines than there are workers, every
/// line of the merge goes to one of the sorted files `0` to `K - 1` for `K`
/// workers.
pub proof fn theorem_partition_files(
    worker_window: nat,
    merge_window: nat,
    batch_size: nat,
    shares: Seq<Seq<GridView>>,
    reads: Seq<GridView>,
    tags: Tags,
    col_ids: Seq<u32>,
    hash: u32,
)
    requires
        1 <= worker_window <= usize::MAX,
        1 <= merge_window <= usize::MAX,
        batch_size <= usize::MAX,
        shares.len() > 0,
        forall|k: int| 0 <= k < shares.len() ==> uniform(#[trigger] shares[k], col_ids, hash),
        reads.to_multiset() == joined(files_of(worker_window, batch_size, shares)).to_multiset(),
    ensures
        written(merge_window, batch_size, reads, tags).len() <= joined(
            files_of(worker_window, batch_size, shares),
        ).len(),
        flat_rows(joined(shares)).len() == 0 ==> written(
            merge_window,
            batch_size,
            reads,
            tags,
        ).len() == 0,
        ({
            let total = joined(files_of(worker_window, batch_size, shares)).len();
            total % shares.len() == 0 || total < shares.len() ==> forall|line: nat|
                line < written(merge_window, batch_size, reads, tags).len() ==> #[trigger] file_of_line(
                    line,
                    total / shares.len(),
                ) < shares.len()
        }),
{
    let lines = joined(files_of(worker_window, batch_size, shares));
    let merged = written(merge_window, batch_size, reads, tags);
    let unit = rows_per_batch(batch_size);
    lemma_files_keep_rows(worker_window, batch_size, shares, col_ids, hash);
    lemma_files_lines(worker_window, batch_size, shares, col_ids, hash);
    reads.to_multiset_ensures();
    lines.to_multiset_ensures();
    assert forall|k: int| 0 <= k < reads.len() implies {
        &&& (#[trigger] reads[k]).well_formed()
        &&& reads[k].col_ids == col_ids
        &&& reads[k].col_ids_hash == hash
        &&& reads[k].rows.len() <= usize::MAX
    } by {
        assert(reads.contains(reads[k]));
        assert(reads.to_multiset().count(reads[k]) > 0);
        assert(lines.contains(reads[k]));
        let j = choose|j: int| 0 <= j < lines.len() && lines[j] == reads[k];
        assert(lines[j].well_formed());
    }
    lemma_written_count(merge_window, batch_size, reads, tags, col_ids, hash);
    lemma_flat_rows_same_batches(reads, lines);
    flat_rows(reads).to_multiset_ensures();
    flat_rows(lines).to_multiset_ensures();
    flat_rows(joined(shares)).to_multiset_ensures();
    assert(flat_rows(reads).len() == flat_rows(joined(shares)).len());
    lemma_batches_apart(0, 0, unit);
    let total = lines.len();
    if total % shares.len() == 0 || total < shares.len() {
        assert forall|line: nat| line < merged.len() implies #[trigger] file_of_line(
            line,
            total / shares.len(),
        ) < shares.len() by {
            lemma_files_at_most_readers(line, merged.len(), total, shares.len());
        }
    }
}

} // verus!
