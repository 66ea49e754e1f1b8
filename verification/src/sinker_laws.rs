//! What holds of a whole run of a sinker: what it is given is what it
//! sends, and it sends it in key order.
use crate::grid::GridView;
use crate::grid::RowView;
use crate::grid_sinker::routed;
use crate::grid_sinker::routed_one;
use crate::grid_sinker::ActionView;
use crate::grid_sinker::SinkerIds;
use crate::grid_sinker::SinkerView;
use crate::grid_sinker::Step;
use crate::grid_sinker::SINKER_BATCH_SIZE;
use crate::grid_sinker::SINKER_WINDOW_SIZE;
use crate::partition::index_of_grid;
use crate::saver_laws::lemma_flat_rows_add;
use crate::saver_laws::no_tags;
use crate::saver_laws::written;
use crate::window_heap::WindowView;
use crate::window_laws::all_accepted;
use crate::window_laws::all_in_window;
use crate::window_laws::cleared;
use crate::window_laws::fed;
use crate::window_laws::first_ncols;
use crate::window_laws::flat_rows;
use crate::window_laws::input_rows;
use crate::window_laws::keys_sorted;
use crate::window_laws::streamed;
use crate::window_laws::theorem_streamed_heap_sorts;
use crate::window_laws::theorem_streaming;
use vstd::prelude::*;

verus! {

/// The rows that the requests `actions` send, in the order in which they
/// are sent.
pub open spec fn sent_rows(actions: Seq<ActionView>) -> Seq<RowView>
    decreases actions.len(),
{
    if actions.len() == 0 {
        Seq::empty()
    } else {
        sent_rows(actions.drop_last()) + match actions.last() {
            ActionView::SinkGridSample { gridbuffer, .. } => gridbuffer.rows,
            _ => Seq::empty(),
        }
    }
}

/// Requests that follow one another send the rows of the first, then the
/// rows of the others.
pub proof fn lemma_sent_rows_add(a: Seq<ActionView>, b: Seq<ActionView>)
    ensures
        sent_rows(a + b) == sent_rows(a) + sent_rows(b),
    decreases b.len(),
{
    if b.len() == 0 {
        assert(a + b =~= a);
        assert(sent_rows(a) + sent_rows(b) =~= sent_rows(a));
    } else {
        assert((a + b).drop_last() =~= a + b.drop_last());
        assert((a + b).last() == b.last());
        lemma_sent_rows_add(a, b.drop_last());
        assert(sent_rows(a + b) =~= sent_rows(a) + sent_rows(b));
    }
}

/// Routing sends every batch, whole and in turn: where routing does not
/// stop, the rows that its requests send are the rows of the batches, in
/// their order.
pub proof fn lemma_routed_sends_outputs(ids: SinkerIds, open: u32, outs: Seq<GridView>)
    requires
        routed(ids, open, outs).error is None,
    ensures
        sent_rows(routed(ids, open, outs).actions) == flat_rows(outs),
        routed(ids, open, outs).consumed == outs.len(),
    decreases outs.len(),
{
    reveal_with_fuel(sent_rows, 6);
    if outs.len() == 0 {
        assert(flat_rows(outs) =~= Seq::<RowView>::empty());
    } else {
        let before = routed(ids, open, outs.drop_last());
        let grid = outs.last();
        lemma_routed_sends_outputs(ids, open, outs.drop_last());
        let after = routed_one(ids, before, grid);
        if grid.rows.len() == 0 {
            assert(flat_rows(outs) =~= flat_rows(outs.drop_last()));
        } else {
            let index = index_of_grid(grid, ids.partition_count_per_day).unwrap() as u32;
            let sink = ActionView::SinkGridSample {
                path_id: ids.path_id,
                sinker_id: ids.sinker_id,
                partition_index: index,
                gridbuffer: grid,
            };
            let switch = if index_of_grid(grid, ids.partition_count_per_day).unwrap()
                == before.open {
                Seq::<ActionView>::empty()
            } else {
                seq![
                    ActionView::FinishSinkPartition {
                        path_id: ids.path_id,
                        sinker_id: ids.sinker_id,
                        partition_index: before.open,
                    },
                    ActionView::ResolveEndpoint { partition_index: index },
                    ActionView::StartSinkPartition {
                        sinker_id: ids.sinker_id,
                        partition_index: index,
                    },
                ]
            };
            let tail = switch + seq![sink];
            assert(after.actions =~= before.actions + tail);
            lemma_sent_rows_add(before.actions, tail);
            lemma_sent_rows_add(switch, seq![sink]);
            assert(sent_rows(switch) =~= Seq::<RowView>::empty()) by {
                if switch.len() > 0 {
                    let s2 = switch.drop_last();
                    let s1 = s2.drop_last();
                    assert(s1.drop_last() =~= Seq::<ActionView>::empty());
                }
            }
            assert(seq![sink].drop_last() =~= Seq::<ActionView>::empty());
            assert(sent_rows(seq![sink]) =~= grid.rows);
            assert(sent_rows(after.actions) =~= flat_rows(outs));
        }
    }
}

/// A sinker that has sent nothing.
pub open spec fn new_sinker(ids: SinkerIds) -> SinkerView {
    SinkerView {
        ids,
        open: None,
        heap: WindowView::initial(SINKER_WINDOW_SIZE as nat, SINKER_BATCH_SIZE as nat),
    }
}

/// What `sink` of the batches of `inputs`, one after the other, comes to.
/// The run stops at the first batch that ends it.
pub open spec fn run(v: SinkerView, inputs: Seq<GridView>) -> Step
    decreases inputs.len(),
{
    if inputs.len() == 0 {
        Step { view: v, actions: Seq::empty(), error: None }
    } else {
        let before = run(v, inputs.drop_last());
        if before.error is Some {
            before
        } else {
            let step = before.view.sunk(inputs.last());
            Step { view: step.view, actions: before.actions + step.actions, error: step.error }
        }
    }
}

/// What `sink` of the batches of `inputs` and then `finish` come to.
pub open spec fn whole_run(v: SinkerView, inputs: Seq<GridView>) -> Step {
    let before = run(v, inputs);
    if before.error is Some {
        before
    } else {
        let step = before.view.finished();
        Step { view: step.view, actions: before.actions + step.actions, error: step.error }
    }
}

/// What holds after any number of batches of a run that has not stopped.
proof fn lemma_run(ids: SinkerIds, inputs: Seq<GridView>)
    requires
        run(new_sinker(ids), inputs).error is None,
    ensures
        ({
            let start = WindowView::initial(SINKER_WINDOW_SIZE as nat, SINKER_BATCH_SIZE as nat);
            let r = run(new_sinker(ids), inputs);
            &&& r.view.ids == ids
            &&& r.view.heap == streamed(start, inputs, no_tags()).1
            &&& sent_rows(r.actions) == flat_rows(streamed(start, inputs, no_tags()).0)
            &&& inputs.len() > 0 ==> r.view.open is Some
            &&& inputs.len() == 0 ==> r.view.open is None
            &&& all_accepted(start, inputs, no_tags())
        }),
    decreases inputs.len(),
{
    let start = WindowView::initial(SINKER_WINDOW_SIZE as nat, SINKER_BATCH_SIZE as nat);
    reveal_with_fuel(sent_rows, 4);
    if inputs.len() == 0 {
        assert(cleared(start) == start) by {
            assert(start.out =~= Seq::<GridView>::empty());
        }
        assert(flat_rows(start.out) =~= Seq::<RowView>::empty());
    } else {
        let earlier = inputs.drop_last();
        let grid = inputs.last();
        let before = run(new_sinker(ids), earlier);
        lemma_run(ids, earlier);
        let step = before.view.sunk(grid);
        let open = before.view.opening(grid).unwrap();
        let pushed = before.view.heap.pushed(grid, None);
        let r = routed(ids, open, pushed.out);
        lemma_routed_sends_outputs(ids, open, pushed.out);
        assert(pushed.out.skip(pushed.out.len() as int) =~= Seq::<GridView>::empty());
        assert(step.view.heap == cleared(pushed));
        let taken = streamed(start, earlier, no_tags()).0;
        lemma_flat_rows_add(taken, pushed.out);
        let hand = before.view.handshake(open);
        lemma_sent_rows_add(before.actions, step.actions);
        lemma_sent_rows_add(hand, r.actions);
        assert(sent_rows(hand) =~= Seq::<RowView>::empty()) by {
            if hand.len() > 0 {
                assert(hand.drop_last().drop_last() =~= Seq::<ActionView>::empty());
            }
        }
        assert(sent_rows(before.actions + step.actions) =~= flat_rows(taken + pushed.out));
        assert(all_accepted(start, inputs, no_tags())) by {
            theorem_streaming(start, earlier, no_tags());
            assert forall|k: int| 0 <= k < inputs.len() implies fed(
                start,
                inputs.take(k),
                no_tags(),
            ).accepts(#[trigger] inputs[k]) by {
                if k < earlier.len() {
                    assert(earlier.take(k) =~= inputs.take(k));
                    assert(earlier[k] == inputs[k]);
                } else {
                    assert(inputs.take(k) =~= earlier);
                }
            }
        }
    }
}

/// A sinker sends what it is given, sorted. When the batches of `inputs`
/// are handed to a new sinker one after the other and the sinker is
/// finished, and neither a batch nor the finish ends the run with an error,
/// the rows that the sinker's requests send, in the order in which they are
/// sent, are the rows that a window heap of two slots writes in batches of
/// four: exactly the rows of `inputs`, each laid out over the columns of
/// the first batch, and in key order if every batch was in window when it
/// was handed over.
pub proof fn theorem_sinker_sends_in_key_order(ids: SinkerIds, inputs: Seq<GridView>)
    requires
        whole_run(new_sinker(ids), inputs).error is None,
        forall|k: int|
            0 <= k < inputs.len() ==> (#[trigger] inputs[k]).well_formed() && inputs[k].rows.len()
                <= usize::MAX,
    ensures
        sent_rows(whole_run(new_sinker(ids), inputs).actions) == flat_rows(
            written(SINKER_WINDOW_SIZE as nat, SINKER_BATCH_SIZE as nat, inputs, no_tags()),
        ),
        sent_rows(whole_run(new_sinker(ids), inputs).actions).to_multiset() == input_rows(
            inputs,
            first_ncols(inputs),
        ).to_multiset(),
        all_in_window(
            WindowView::initial(SINKER_WINDOW_SIZE as nat, SINKER_BATCH_SIZE as nat),
            inputs,
            no_tags(),
        ) ==> keys_sorted(sent_rows(whole_run(new_sinker(ids), inputs).actions)),
{
    let start = WindowView::initial(SINKER_WINDOW_SIZE as nat, SINKER_BATCH_SIZE as nat);
    let before = run(new_sinker(ids), inputs);
    lemma_run(ids, inputs);
    let step = before.view.finished();
    let taken = streamed(start, inputs, no_tags()).0;
    let heap = streamed(start, inputs, no_tags()).1;
    reveal_with_fuel(sent_rows, 3);
    lemma_sent_rows_add(before.actions, step.actions);
    lemma_flat_rows_add(taken, heap.drained().out);
    if inputs.len() == 0 {
        assert(cleared(start) == start) by {
            assert(start.out =~= Seq::<GridView>::empty());
        }
        crate::window_laws::lemma_initial(
            SINKER_WINDOW_SIZE as nat,
            SINKER_BATCH_SIZE as nat,
        );
        crate::window_laws::lemma_drained(start);
        assert(flat_rows(heap.drained().out) =~= Seq::<RowView>::empty());
        assert(sent_rows(step.actions) =~= Seq::<RowView>::empty());
    } else {
        let open = before.view.open.unwrap();
        let drained = before.view.heap.drained();
        let r = routed(ids, open, drained.out);
        lemma_routed_sends_outputs(ids, open, drained.out);
        let finish = ActionView::FinishSinkPartition {
            path_id: ids.path_id,
            sinker_id: ids.sinker_id,
            partition_index: r.open,
        };
        assert(step.actions =~= r.actions + seq![finish]);
        lemma_sent_rows_add(r.actions, seq![finish]);
        assert(seq![finish].drop_last() =~= Seq::<ActionView>::empty());
        assert(sent_rows(seq![finish]) =~= Seq::<RowView>::empty());
        assert(sent_rows(step.actions) =~= flat_rows(drained.out));
    }
    theorem_streamed_heap_sorts(
        SINKER_WINDOW_SIZE as nat,
        SINKER_BATCH_SIZE as nat,
        inputs,
        no_tags(),
    );
}

} // verus!
