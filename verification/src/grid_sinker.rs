//! The grid sinker: the producer's side of the ingest protocol.
//!
//! A sinker sorts the batches it is given through a small window heap and
//! decides, for every batch that leaves the heap, which partition it goes to
//! and which requests that takes. The sinker holds no connection: it names
//! the requests, and its caller sends them in the order given.
//!
//! Per partition the protocol is
//!
//! ```text
//! start_sink_partition, sink_grid_sample*, finish_sink_partition
//! ```
//!
//! and a batch whose partition is not the open one first finishes the open
//! partition, has the endpoint of the new one looked up, and starts the new
//! one.
use crate::error::DropletError;
use crate::grid::GridBatch;
use crate::grid::GridView;
use crate::partition::get_partition_index_by_timestamp;
use crate::partition::index_of_grid;
use crate::window_heap::WindowHeap;
use crate::window_heap::WindowView;
use likely_stable::likely;
use vstd::prelude::*;

verus! {

/// The slots of a sinker's window heap.
pub const SINKER_WINDOW_SIZE: usize = 2;

/// The rows of the batches that a sinker sends.
pub const SINKER_BATCH_SIZE: usize = 4;

/// A request that the sinker's caller is to send.
pub enum SinkerAction {
    /// Ask the endpoint whether it is alive.
    Heartbeat { sinker_id: u32 },
    /// Look up the endpoint of the partition, and connect to it where it is
    /// not the endpoint in use.
    ResolveEndpoint { partition_index: u32 },
    /// Open the partition.
    StartSinkPartition { sinker_id: u32, partition_index: u32 },
    /// Send a batch to the open partition.
    SinkGridSample { path_id: u32, sinker_id: u32, partition_index: u32, gridbuffer: GridBatch },
    /// Close the partition.
    FinishSinkPartition { path_id: u32, sinker_id: u32, partition_index: u32 },
}

/// A request as a mathematical value.
pub enum ActionView {
    Heartbeat { sinker_id: u32 },
    ResolveEndpoint { partition_index: u32 },
    StartSinkPartition { sinker_id: u32, partition_index: u32 },
    SinkGridSample { path_id: u32, sinker_id: u32, partition_index: u32, gridbuffer: GridView },
    FinishSinkPartition { path_id: u32, sinker_id: u32, partition_index: u32 },
}

impl View for SinkerAction {
    type V = ActionView;

    open spec fn view(&self) -> ActionView {
        match *self {
            SinkerAction::Heartbeat { sinker_id } => ActionView::Heartbeat { sinker_id },
            SinkerAction::ResolveEndpoint { partition_index } => ActionView::ResolveEndpoint {
                partition_index,
            },
            SinkerAction::StartSinkPartition {
                sinker_id,
                partition_index,
            } => ActionView::StartSinkPartition { sinker_id, partition_index },
            SinkerAction::SinkGridSample {
                path_id,
                sinker_id,
                partition_index,
                gridbuffer,
            } => ActionView::SinkGridSample {
                path_id,
                sinker_id,
                partition_index,
                gridbuffer: gridbuffer@,
            },
            SinkerAction::FinishSinkPartition {
                path_id,
                sinker_id,
                partition_index,
            } => ActionView::FinishSinkPartition { path_id, sinker_id, partition_index },
        }
    }
}

/// The requests of a list, as values.
pub open spec fn actions_view(actions: Seq<SinkerAction>) -> Seq<ActionView> {
    Seq::new(actions.len(), |i: int| actions[i]@)
}

/// What a sinker's caller is to do, and why the sinker stopped if it did.
pub struct SinkerStep {
    /// The requests to send, in this order.
    pub actions: Vec<SinkerAction>,
    /// The reason for which the run ends here, if it does.
    pub error: Option<DropletError>,
}

/// What identifies a sinker's requests.
pub struct SinkerIds {
    pub partition_count_per_day: u32,
    pub sinker_id: u32,
    pub path_id: u32,
}

/// The outcome of routing some batches.
pub struct Routed {
    /// The requests that the batches take.
    pub actions: Seq<ActionView>,
    /// The partition that is open afterwards.
    pub open: u32,
    /// The reason for which routing stopped, if it did.
    pub error: Option<DropletError>,
    /// How many batches were looked at.
    pub consumed: nat,
}

/// The requests that one batch takes when partition `open` is open: none
/// for a batch without rows; for a batch of the open partition the batch
/// itself; for a batch of another partition first the switch to it.
pub open spec fn routed_one(ids: SinkerIds, before: Routed, grid: GridView) -> Routed {
    if grid.rows.len() == 0 {
        Routed { consumed: before.consumed + 1, ..before }
    } else {
        match index_of_grid(grid, ids.partition_count_per_day) {
            None => Routed {
                error: Some(DropletError::InvalidArgument),
                consumed: before.consumed + 1,
                ..before
            },
            Some(index) => {
                let sink = ActionView::SinkGridSample {
                    path_id: ids.path_id,
                    sinker_id: ids.sinker_id,
                    partition_index: index as u32,
                    gridbuffer: grid,
                };
                let switch = if index == before.open {
                    Seq::<ActionView>::empty()
                } else {
                    seq![
                        ActionView::FinishSinkPartition {
                            path_id: ids.path_id,
                            sinker_id: ids.sinker_id,
                            partition_index: before.open,
                        },
                        ActionView::ResolveEndpoint { partition_index: index as u32 },
                        ActionView::StartSinkPartition {
                            sinker_id: ids.sinker_id,
                            partition_index: index as u32,
                        },
                    ]
                };
                Routed {
                    actions: before.actions + switch + seq![sink],
                    open: index as u32,
                    error: None,
                    consumed: before.consumed + 1,
                }
            },
        }
    }
}

/// The requests that the batches `outs` take, in turn, when partition `open`
/// is open at the start. Routing stops at the first batch whose partition
/// cannot be told.
pub open spec fn routed(ids: SinkerIds, open: u32, outs: Seq<GridView>) -> Routed
    decreases outs.len(),
{
    if outs.len() == 0 {
        Routed { actions: Seq::empty(), open, error: None, consumed: 0 }
    } else {
        let before = routed(ids, open, outs.drop_last());
        if before.error is Some {
            before
        } else {
            routed_one(ids, before, outs.last())
        }
    }
}

/// Routing that has stopped stays stopped.
proof fn lemma_routed_stopped(ids: SinkerIds, open: u32, outs: Seq<GridView>, n: int)
    requires
        0 <= n <= outs.len(),
        routed(ids, open, outs.take(n)).error is Some,
    ensures
        routed(ids, open, outs) == routed(ids, open, outs.take(n)),
    decreases outs.len() - n,
{
    if n < outs.len() {
        assert(outs.take(n + 1).drop_last() =~= outs.take(n));
        lemma_routed_stopped(ids, open, outs, n + 1);
    } else {
        assert(outs.take(n) =~= outs);
    }
}

/// Routing looks at every batch unless it stops.
proof fn lemma_routed_consumed(ids: SinkerIds, open: u32, outs: Seq<GridView>)
    ensures
        routed(ids, open, outs).consumed <= outs.len(),
        routed(ids, open, outs).error is None ==> routed(ids, open, outs).consumed == outs.len(),
    decreases outs.len(),
{
    if outs.len() > 0 {
        lemma_routed_consumed(ids, open, outs.drop_last());
    }
}

/// Every batch is sent to its partition: a `SinkGridSample` request that
/// routing gives carries a batch with rows, and names the partition that
/// the timestamp of the batch's first row falls in.
pub proof fn lemma_routed_sinks_to_partition(
    ids: SinkerIds,
    open: u32,
    outs: Seq<GridView>,
    i: int,
)
    requires
        0 <= i < routed(ids, open, outs).actions.len(),
    ensures
        routed(ids, open, outs).actions[i] matches ActionView::SinkGridSample {
            partition_index,
            gridbuffer,
            ..
        } ==> gridbuffer.rows.len() > 0 && index_of_grid(gridbuffer, ids.partition_count_per_day)
            == Some(partition_index as nat) && partition_index < ids.partition_count_per_day,
    decreases outs.len(),
{
    if outs.len() > 0 {
        let before = routed(ids, open, outs.drop_last());
        if i < before.actions.len() {
            lemma_routed_sinks_to_partition(ids, open, outs.drop_last(), i);
            if before.error is None {
                let after = routed_one(ids, before, outs.last());
                assert(after.actions.len() >= before.actions.len());
                if after.actions.len() > before.actions.len() {
                    assert(after.actions[i] == before.actions[i]);
                }
            }
        } else {
            let grid = outs.last();
            let index = index_of_grid(grid, ids.partition_count_per_day).unwrap();
            crate::partition::lemma_index_below_count(
                (grid.key(0).timestamp % 86400) as nat,
                ids.partition_count_per_day as nat,
            );
        }
    }
}

/// What the protocol allows. With no partition open: a heartbeat, the
/// lookup of an endpoint, and the start of a partition, which opens it. With
/// a partition open: batches for that partition, and its finish, which
/// closes it. The result is the partition that is open afterwards, or
/// `None` where the request is out of place.
pub open spec fn protocol_step(open: Option<u32>, action: ActionView) -> Option<Option<u32>> {
    match action {
        ActionView::Heartbeat { .. } => if open is None {
            Some(open)
        } else {
            None
        },
        ActionView::ResolveEndpoint { .. } => if open is None {
            Some(open)
        } else {
            None
        },
        ActionView::StartSinkPartition { partition_index, .. } => if open is None {
            Some(Some(partition_index))
        } else {
            None
        },
        ActionView::SinkGridSample { partition_index, .. } => if open == Some(partition_index) {
            Some(open)
        } else {
            None
        },
        ActionView::FinishSinkPartition { partition_index, .. } => if open == Some(
            partition_index,
        ) {
            Some(None)
        } else {
            None
        },
    }
}

/// The partition that is open after the requests `actions`, or `None`
/// where one of them is out of place.
pub open spec fn protocol_run(open: Option<u32>, actions: Seq<ActionView>) -> Option<Option<u32>>
    decreases actions.len(),
{
    if actions.len() == 0 {
        Some(open)
    } else {
        match protocol_run(open, actions.drop_last()) {
            Some(then) => protocol_step(then, actions.last()),
            None => None,
        }
    }
}

/// Requests that follow the protocol one after the other follow it
/// together.
pub proof fn lemma_protocol_run_add(open: Option<u32>, a: Seq<ActionView>, b: Seq<ActionView>)
    ensures
        protocol_run(open, a + b) == match protocol_run(open, a) {
            Some(then) => protocol_run(then, b),
            None => None,
        },
    decreases b.len(),
{
    if b.len() == 0 {
        assert(a + b =~= a);
    } else {
        assert((a + b).drop_last() =~= a + b.drop_last());
        assert((a + b).last() == b.last());
        lemma_protocol_run_add(open, a, b.drop_last());
    }
}

/// The requests that routing gives follow the protocol: starting with the
/// partition `open` open, no request is out of place, and afterwards the
/// partition is open that routing says.
pub proof fn lemma_routed_follows_protocol(ids: SinkerIds, open: u32, outs: Seq<GridView>)
    ensures
        protocol_run(Some(open), routed(ids, open, outs).actions) == Some(
            Some(routed(ids, open, outs).open),
        ),
    decreases outs.len(),
{
    if outs.len() > 0 {
        let before = routed(ids, open, outs.drop_last());
        lemma_routed_follows_protocol(ids, open, outs.drop_last());
        if before.error is None {
            let grid = outs.last();
            let after = routed_one(ids, before, grid);
            if grid.rows.len() > 0 && index_of_grid(grid, ids.partition_count_per_day) is Some {
                let place = index_of_grid(grid, ids.partition_count_per_day).unwrap();
                crate::partition::lemma_index_below_count(
                    (grid.key(0).timestamp % 86400) as nat,
                    ids.partition_count_per_day as nat,
                );
                let index = place as u32;
                assert(index == place);
                let sink = ActionView::SinkGridSample {
                    path_id: ids.path_id,
                    sinker_id: ids.sinker_id,
                    partition_index: index,
                    gridbuffer: grid,
                };
                let finish = ActionView::FinishSinkPartition {
                    path_id: ids.path_id,
                    sinker_id: ids.sinker_id,
                    partition_index: before.open,
                };
                let resolve = ActionView::ResolveEndpoint { partition_index: index };
                let start = ActionView::StartSinkPartition {
                    sinker_id: ids.sinker_id,
                    partition_index: index,
                };
                let tail = if index == before.open {
                    seq![sink]
                } else {
                    seq![finish, resolve, start, sink]
                };
                assert(after.actions =~= before.actions + tail);
                lemma_protocol_run_add(Some(open), before.actions, tail);
                reveal_with_fuel(protocol_run, 6);
                if index == before.open {
                    assert(tail.drop_last() =~= Seq::<ActionView>::empty());
                    assert(protocol_run(Some(before.open), tail) == Some(Some(index)));
                } else {
                    let t3 = tail.drop_last();
                    let t2 = t3.drop_last();
                    let t1 = t2.drop_last();
                    assert(t3 =~= seq![finish, resolve, start]);
                    assert(t2 =~= seq![finish, resolve]);
                    assert(t1 =~= seq![finish]);
                    assert(t1.drop_last() =~= Seq::<ActionView>::empty());
                    assert(protocol_run(Some(before.open), t1) == Some(None::<u32>));
                    assert(protocol_run(Some(before.open), t2) == Some(None::<u32>));
                    assert(protocol_run(Some(before.open), t3) == Some(Some(index)));
                    assert(protocol_run(Some(before.open), tail) == Some(Some(index)));
                }
            }
        }
    }
}

/// A sinker as a mathematical value.
pub struct SinkerView {
    pub ids: SinkerIds,
    /// The partition that is open, if one is.
    pub open: Option<u32>,
    pub heap: WindowView,
}

impl SinkerView {
    /// The partition that is open when the batch `grid` is routed: the one
    /// that is open already, else the partition of the batch's first row.
    /// `None` where the heap refuses the batch, or no partition is open and
    /// the partition of the batch cannot be told.
    pub open spec fn opening(self, grid: GridView) -> Option<u32> {
        if !self.heap.accepts(grid) {
            None
        } else {
            match self.open {
                Some(open) => Some(open),
                None => match index_of_grid(grid, self.ids.partition_count_per_day) {
                    Some(index) => Some(index as u32),
                    None => None,
                },
            }
        }
    }

    /// The requests that come before the first batch is sent: none where a
    /// partition is open; else a heartbeat and the start of partition
    /// `open`.
    pub open spec fn handshake(self, open: u32) -> Seq<ActionView> {
        if self.open is Some {
            Seq::empty()
        } else {
            seq![
                ActionView::Heartbeat { sinker_id: self.ids.sinker_id },
                ActionView::StartSinkPartition {
                    sinker_id: self.ids.sinker_id,
                    partition_index: open,
                },
            ]
        }
    }

    /// What `sink` of the batch `grid` comes to: the batch is pushed into
    /// the heap, and the batches that leave the heap are routed, after the
    /// handshake where no partition was open. A batch that cannot open a
    /// partition, and a batch that the heap refuses, end the run and change
    /// nothing.
    pub open spec fn sunk(self, grid: GridView) -> Step {
        match self.opening(grid) {
            None => Step {
                view: self,
                actions: Seq::empty(),
                error: Some(DropletError::InvalidArgument),
            },
            Some(open) => {
                let pushed = self.heap.pushed(grid, None);
                let r = routed(self.ids, open, pushed.out);
                Step {
                    view: SinkerView {
                        open: Some(r.open),
                        heap: WindowView { out: pushed.out.skip(r.consumed as int), ..pushed },
                        ..self
                    },
                    actions: self.handshake(open) + r.actions,
                    error: r.error,
                }
            },
        }
    }

    /// What `finish` comes to: the heap is drained, the batches that leave
    /// it are routed, and the partition that is open then is finished.
    /// Where no partition is open there is nothing to do.
    pub open spec fn finished(self) -> Step {
        match self.open {
            None => Step { view: self, actions: Seq::empty(), error: None },
            Some(open) => {
                let drained = self.heap.drained();
                let r = routed(self.ids, open, drained.out);
                let heap = WindowView { out: drained.out.skip(r.consumed as int), ..drained };
                if r.error is Some {
                    Step {
                        view: SinkerView { open: Some(r.open), heap, ..self },
                        actions: r.actions,
                        error: r.error,
                    }
                } else {
                    Step {
                        view: SinkerView { open: None, heap, ..self },
                        actions: r.actions.push(
                            ActionView::FinishSinkPartition {
                                path_id: self.ids.path_id,
                                sinker_id: self.ids.sinker_id,
                                partition_index: r.open,
                            },
                        ),
                        error: None,
                    }
                }
            },
        }
    }
}

/// What one call of a sinker comes to.
pub struct Step {
    /// The sinker afterwards.
    pub view: SinkerView,
    /// The requests to send.
    pub actions: Seq<ActionView>,
    /// The reason for which the run ends, if it does.
    pub error: Option<DropletError>,
}

/// Sorts batches and tells which requests send them to their partitions.
pub struct GridSinker {
    /// Table name. It is globally unique.
    table_name: String,
    /// Sorts the batches by sample key.
    window_heap: WindowHeap,
    /// The number of partitions per day.
    partition_count_per_day: u32,
    /// The id of the sinker.
    sinker_id: u32,
    /// The path of the table.
    path: String,
    /// The id of the path.
    path_id: u32,
    /// The partition that is open.
    partition_index: Option<u32>,
    /// The address of the server that the sinker's requests go to.
    server_endpoint: String,
}

impl View for GridSinker {
    type V = SinkerView;

    closed spec fn view(&self) -> SinkerView {
        SinkerView {
            ids: SinkerIds {
                partition_count_per_day: self.partition_count_per_day,
                sinker_id: self.sinker_id,
                path_id: self.path_id,
            },
            open: self.partition_index,
            heap: self.window_heap@,
        }
    }
}

impl GridSinker {
    /// The sinker's invariant.
    pub closed spec fn wf(&self) -> bool {
        self.window_heap.wf()
    }

    /// The table's name.
    pub closed spec fn table(&self) -> Seq<char> {
        self.table_name@
    }

    /// The table's path.
    pub closed spec fn table_path(&self) -> Seq<char> {
        self.path@
    }

    /// The address of the server in use; empty before the first.
    pub closed spec fn endpoint(&self) -> Seq<char> {
        self.server_endpoint@
    }

    /// A sinker for `table_name` with no partition open.
    pub fn new(
        table_name: &str,
        partition_count_per_day: u32,
        sinker_id: u32,
        path: String,
        path_id: u32,
    ) -> (sinker: Self)
        ensures
            sinker.wf(),
            sinker.table() == table_name@,
            sinker.table_path() == path@,
            sinker.endpoint() == Seq::<char>::empty(),
            sinker@ == (SinkerView {
                ids: SinkerIds { partition_count_per_day, sinker_id, path_id },
                open: None,
                heap: WindowView::initial(SINKER_WINDOW_SIZE as nat, SINKER_BATCH_SIZE as nat),
            }),
    {
        GridSinker {
            table_name: table_name.to_owned(),
            window_heap: WindowHeap::new(SINKER_WINDOW_SIZE, SINKER_BATCH_SIZE),
            partition_count_per_day,
            sinker_id,
            path,
            path_id,
            partition_index: None,
            server_endpoint: String::new(),
        }
    }

    /// The address of the server in use.
    pub fn server_endpoint(&self) -> (address: &String)
        ensures
            address@ == self.endpoint(),
    {
        &self.server_endpoint
    }

    /// Takes note of the address of the server that the next requests go
    /// to, and tells whether a new connection is needed: it is where the
    /// address is not the one in use.
    pub fn switch_endpoint(&mut self, address: String) -> (changed: bool)
        requires
            old(self).wf(),
        ensures
            final(self).wf(),
            final(self)@ == old(self)@,
            final(self).table() == old(self).table(),
            final(self).table_path() == old(self).table_path(),
            final(self).endpoint() == address@,
            changed == (address@ != old(self).endpoint()),
    {
        let changed = address != self.server_endpoint;
        self.server_endpoint = address;
        changed
    }

    pub fn table_name(&self) -> (name: &String)
        ensures
            name@ == self.table(),
    {
        &self.table_name
    }

    pub fn path(&self) -> (path: &String)
        ensures
            path@ == self.table_path(),
    {
        &self.path
    }

    pub fn path_id(&self) -> (id: u32)
        ensures
            id == self@.ids.path_id,
    {
        self.path_id
    }

    pub fn sinker_id(&self) -> (id: u32)
        ensures
            id == self@.ids.sinker_id,
    {
        self.sinker_id
    }

    pub fn partition_count_per_day(&self) -> (count: u32)
        ensures
            count == self@.ids.partition_count_per_day,
    {
        self.partition_count_per_day
    }

    /// The partition that is open.
    pub fn partition_index(&self) -> (open: Option<u32>)
        ensures
            open == self@.open,
    {
        self.partition_index
    }

    /// Routes the batches that have left the heap.
    fn route_outputs(&mut self, actions: &mut Vec<SinkerAction>) -> (error: Option<DropletError>)
        requires
            old(self).wf(),
            old(self)@.open is Some,
        ensures
            final(self).wf(),
            final(self).table() == old(self).table(),
            final(self).table_path() == old(self).table_path(),
            final(self).endpoint() == old(self).endpoint(),
            final(self)@.ids == old(self)@.ids,
            ({
                let r = routed(old(self)@.ids, old(self)@.open.unwrap(), old(self)@.heap.out);
                &&& actions_view(final(actions)@) == actions_view(old(actions)@) + r.actions
                &&& error == r.error
                &&& final(self)@.open == Some(r.open)
                &&& final(self)@.heap == (WindowView {
                    out: old(self)@.heap.out.skip(r.consumed as int),
                    ..old(self)@.heap
                })
            }),
    {
        let ghost ids = self@.ids;
        let ghost start = self@.open.unwrap();
        let ghost heap = self@.heap;
        let ghost outs = self@.heap.out;
        let ghost before = actions_view(actions@);
        let ghost k: int = 0;
        proof {
            assert(outs.take(0) =~= Seq::<GridView>::empty());
            assert(outs.skip(0) =~= outs);
            assert(actions_view(actions@) =~= before + routed(ids, start, outs.take(0)).actions);
        }
        loop
            invariant
                self.wf(),
                self.table() == old(self).table(),
                self.table_path() == old(self).table_path(),
                self.endpoint() == old(self).endpoint(),
                self@.ids == ids,
                0 <= k <= outs.len(),
                self@.heap == (WindowView { out: outs.skip(k), ..heap }),
                routed(ids, start, outs.take(k)).error is None,
                routed(ids, start, outs.take(k)).consumed == k,
                self@.open == Some(routed(ids, start, outs.take(k)).open),
                actions_view(actions@) == before + routed(ids, start, outs.take(k)).actions,
                ids == old(self)@.ids,
                start == old(self)@.open.unwrap(),
                heap == old(self)@.heap,
                outs == old(self)@.heap.out,
                before == actions_view(old(actions)@),
            ensures
                ({
                    let r = routed(ids, start, outs);
                    &&& self.wf()
                    &&& self.table() == old(self).table()
                    &&& self.table_path() == old(self).table_path()
                    &&& self.endpoint() == old(self).endpoint()
                    &&& self@.ids == ids
                    &&& actions_view(actions@) == before + r.actions
                    &&& self@.open == Some(r.open)
                    &&& self@.heap == (WindowView { out: outs.skip(r.consumed as int), ..heap })
                    &&& r.error is None
                }),
            decreases outs.len() - k,
        {
            let ghost done = routed(ids, start, outs.take(k));
            let gridbuffer = match self.window_heap.get_out_gridbuffer() {
                Some(gridbuffer) => gridbuffer,
                None => {
                    proof {
                        assert(outs.skip(k).len() == 0);
                        assert(outs.take(k) =~= outs);
                    }
                    break ;
                },
            };
            proof {
                assert(outs.skip(k)[0] == outs[k]);
                assert(outs.skip(k).drop_first() =~= outs.skip(k + 1));
                assert(outs.take(k + 1).drop_last() =~= outs.take(k));
                assert(outs.take(k + 1).last() == outs[k]);
            }
            let ghost next = routed(ids, start, outs.take(k + 1));
            assert(next == routed_one(ids, done, outs[k]));
            if likely(gridbuffer.num_rows() > 0) {
                let current = match get_partition_index_by_timestamp(
                    &gridbuffer,
                    self.partition_count_per_day,
                ) {
                    Ok(current) => current,
                    Err(e) => {
                        proof {
                            lemma_routed_stopped(ids, start, outs, k + 1);
                            assert(actions_view(actions@) =~= before + next.actions);
                        }
                        return Some(e);
                    },
                };
                let ghost held = actions@;
                let ghost grid = gridbuffer@;
                let open = self.partition_index.unwrap();
                let ghost sink = ActionView::SinkGridSample {
                    path_id: ids.path_id,
                    sinker_id: ids.sinker_id,
                    partition_index: current,
                    gridbuffer: grid,
                };
                let ghost switch = if current == open {
                    Seq::<ActionView>::empty()
                } else {
                    seq![
                        ActionView::FinishSinkPartition {
                            path_id: ids.path_id,
                            sinker_id: ids.sinker_id,
                            partition_index: open,
                        },
                        ActionView::ResolveEndpoint { partition_index: current },
                        ActionView::StartSinkPartition {
                            sinker_id: ids.sinker_id,
                            partition_index: current,
                        },
                    ]
                };
                assert(next.actions == done.actions + switch + seq![sink]);
                if current != open {
                    actions.push(
                        SinkerAction::FinishSinkPartition {
                            path_id: self.path_id,
                            sinker_id: self.sinker_id,
                            partition_index: open,
                        },
                    );
                    actions.push(SinkerAction::ResolveEndpoint { partition_index: current });
                    actions.push(
                        SinkerAction::StartSinkPartition {
                            sinker_id: self.sinker_id,
                            partition_index: current,
                        },
                    );
                }
                assert(actions_view(actions@) =~= actions_view(held) + switch);
                let ghost switched = actions@;
                self.partition_index = Some(current);
                actions.push(
                    SinkerAction::SinkGridSample {
                        path_id: self.path_id,
                        sinker_id: self.sinker_id,
                        partition_index: current,
                        gridbuffer,
                    },
                );
                proof {
                    assert(actions_view(actions@) =~= actions_view(switched) + seq![sink]);
                    assert(actions_view(actions@) =~= before + next.actions);
                }
            }
            proof {
                k = k + 1;
            }
        }
        None
    }

    /// Takes in a batch and tells what to send.
    ///
    /// Every batch goes through the window heap, and the batches that leave
    /// the heap are routed, so that what is sent is in key order as long as
    /// the batches come in window. Where no partition is open, the batch
    /// opens the partition of its first row: a heartbeat and the start of
    /// that partition come before anything is sent.
    ///
    /// The run ends with `InvalidArgument` where a partition cannot be told
    /// or the heap refuses the batch. A batch that cannot open a partition
    /// and a batch that the heap refuses change nothing.
    pub fn sink(&mut self, gridbuffer: GridBatch) -> (step: SinkerStep)
        requires
            old(self).wf(),
            gridbuffer.wf(),
        ensures
            final(self).wf(),
            final(self).table() == old(self).table(),
            final(self).table_path() == old(self).table_path(),
            final(self).endpoint() == old(self).endpoint(),
            final(self)@.ids == old(self)@.ids,
            step.error == old(self)@.sunk(gridbuffer@).error,
            actions_view(step.actions@) == old(self)@.sunk(gridbuffer@).actions,
            final(self)@ == old(self)@.sunk(gridbuffer@).view,
    {
        let mut actions: Vec<SinkerAction> = Vec::new();
        let opened = match self.partition_index {
            Some(_) => None,
            None => match get_partition_index_by_timestamp(
                &gridbuffer,
                self.partition_count_per_day,
            ) {
                Ok(index) => Some(index),
                Err(e) => {
                    assert(actions_view(actions@) =~= Seq::<ActionView>::empty());
                    return SinkerStep { actions, error: Some(e) };
                },
            },
        };
        match self.window_heap.push(gridbuffer) {
            Ok(()) => {},
            Err(e) => {
                assert(actions_view(actions@) =~= Seq::<ActionView>::empty());
                return SinkerStep { actions, error: Some(e) };
            },
        }
        match opened {
            Some(index) => {
                actions.push(SinkerAction::Heartbeat { sinker_id: self.sinker_id });
                actions.push(
                    SinkerAction::StartSinkPartition {
                        sinker_id: self.sinker_id,
                        partition_index: index,
                    },
                );
                self.partition_index = Some(index);
            },
            None => {},
        }
        proof {
            let open = old(self)@.opening(gridbuffer@).unwrap();
            assert(self@.open == Some(open));
            assert(actions_view(actions@) =~= old(self)@.handshake(open));
        }
        let error = self.route_outputs(&mut actions);
        SinkerStep { actions, error }
    }

    /// Ends the run: the rows that are left in the heap leave and are
    /// routed, and the open partition is finished. A sinker that has no
    /// partition open has nothing to send.
    pub fn finish(&mut self) -> (step: SinkerStep)
        requires
            old(self).wf(),
        ensures
            final(self).wf(),
            final(self).table() == old(self).table(),
            final(self).table_path() == old(self).table_path(),
            final(self).endpoint() == old(self).endpoint(),
            final(self)@.ids == old(self)@.ids,
            step.error == old(self)@.finished().error,
            actions_view(step.actions@) == old(self)@.finished().actions,
            final(self)@ == old(self)@.finished().view,
    {
        let mut actions: Vec<SinkerAction> = Vec::new();
        if self.partition_index.is_none() {
            assert(actions_view(actions@) =~= Seq::<ActionView>::empty());
            return SinkerStep { actions, error: None };
        }
        self.window_heap.drain();
        assert(actions_view(actions@) =~= Seq::<ActionView>::empty());
        let error = self.route_outputs(&mut actions);
        proof {
            let drained = old(self)@.heap.drained();
            let r = routed(old(self)@.ids, old(self)@.open.unwrap(), drained.out);
            assert(Seq::<ActionView>::empty() + r.actions =~= r.actions);
        }
        if error.is_some() {
            return SinkerStep { actions, error };
        }
        let open = self.partition_index.unwrap();
        let ghost held = actions@;
        actions.push(
            SinkerAction::FinishSinkPartition {
                path_id: self.path_id,
                sinker_id: self.sinker_id,
                partition_index: open,
            },
        );
        self.partition_index = None;
        proof {
            assert(actions_view(actions@) =~= actions_view(held).push(
                ActionView::FinishSinkPartition {
                    path_id: self.path_id,
                    sinker_id: self.sinker_id,
                    partition_index: open,
                },
            ));
        }
        SinkerStep { actions, error: None }
    }
}

} // verus!
