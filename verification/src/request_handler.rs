//! What a storage node decides when a request comes in.
//!
//! The node keeps one coordinator per path id. It does not touch a file or
//! a channel here: it says whether a coordinator has to be set up, whether
//! a batch may be handed to the workers, and when a partition is to be
//! closed and merged.
use crate::error::DropletError;
use crate::sample_saver::success_file_name;
use crate::sample_saver::SampleSaver;
use crate::sample_saver::SaverView;
use crate::sample_saver::WorkerInfo;
use vstd::prelude::*;

verus! {

/// What `start_sink_partition` found.
#[derive(Clone, Copy, Debug, PartialEq, Eq, Structural)]
pub enum StartOutcome {
    /// The partition is being written to already; the sinker has joined.
    Joined,
    /// The sinker is the partition's first: a coordinator was made, and its
    /// directories and workers are to be set up.
    Created,
}

/// What `finish_sink_partition` found.
#[derive(Clone, Copy, Debug, PartialEq, Eq, Structural)]
pub enum FinishOutcome {
    /// Nothing is to be done: other sinkers are still writing, or the
    /// partition was closed before.
    Open,
    /// The last sinker has finished: the partition takes no more batches,
    /// and once its workers are done it is to be merged, marked complete
    /// and removed.
    Closed,
}

/// The coordinators of a list, as values.
pub open spec fn savers_view(savers: Seq<SampleSaver>) -> Seq<SaverView> {
    Seq::new(savers.len(), |i: int| savers[i]@)
}

/// Where the coordinator of `path_id` stands in `savers`.
pub open spec fn position(savers: Seq<SaverView>, path_id: u32) -> Option<int> {
    if exists|i: int| 0 <= i < savers.len() && (#[trigger] savers[i]).path_id == path_id {
        Some(choose|i: int| 0 <= i < savers.len() && (#[trigger] savers[i]).path_id == path_id)
    } else {
        None
    }
}

/// No two coordinators have the same path id.
pub open spec fn distinct_paths(savers: Seq<SaverView>) -> bool {
    forall|i: int, j: int|
        0 <= i < j < savers.len() ==> (#[trigger] savers[i]).path_id != (
        #[trigger] savers[j]).path_id
}

/// The storage node's view of the partitions that are being written.
pub struct DropletServerImpl {
    /// The coordinators, one per path id.
    sample_savers: Vec<SampleSaver>,
}

impl View for DropletServerImpl {
    type V = Seq<SaverView>;

    closed spec fn view(&self) -> Seq<SaverView> {
        savers_view(self.sample_savers@)
    }
}

impl DropletServerImpl {
    /// The node's invariant.
    pub closed spec fn wf(&self) -> bool {
        &&& distinct_paths(self@)
        &&& forall|i: int|
            0 <= i < self.sample_savers.len() ==> (#[trigger] self.sample_savers[i]).wf()
    }

    /// In a well-formed node no two coordinators have the same path id.
    pub proof fn lemma_wf_view(&self)
        requires
            self.wf(),
        ensures
            distinct_paths(self@),
    {
    }

    /// A node without partitions.
    pub fn new() -> (server: Self)
        ensures
            server.wf(),
            server@ == Seq::<SaverView>::empty(),
    {
        let server = DropletServerImpl { sample_savers: Vec::new() };
        assert(server@ =~= Seq::<SaverView>::empty());
        server
    }

    /// Every heartbeat is acknowledged.
    pub fn heartbeat(&self, node_id: u32) -> (acknowledged: bool)
        ensures
            acknowledged,
    {
        true
    }

    fn find(&self, path_id: u32) -> (at: Option<usize>)
        requires
            self.wf(),
        ensures
            match at {
                Some(i) => i < self@.len() && position(self@, path_id) == Some(i as int)
                    && self@[i as int].path_id == path_id,
                None => position(self@, path_id) is None,
            },
    {
        let mut i: usize = 0;
        while i < self.sample_savers.len()
            invariant
                self.wf(),
                i <= self.sample_savers.len(),
                forall|k: int| 0 <= k < i ==> (#[trigger] self@[k]).path_id != path_id,
            decreases self.sample_savers.len() - i,
        {
            if self.sample_savers[i].path_id() == path_id {
                proof {
                    let views = self@;
                    assert(views[i as int].path_id == path_id);
                    let c = choose|c: int|
                        0 <= c < views.len() && (#[trigger] views[c]).path_id == path_id;
                    if c < i {
                        assert(views[c].path_id != views[i as int].path_id);
                    }
                    if c > i {
                        assert(views[i as int].path_id != views[c].path_id);
                    }
                }
                return Some(i);
            }
            i += 1;
        }
        None
    }

    /// The coordinator of `path_id`.
    pub fn saver(&self, path_id: u32) -> (saver: Option<&SampleSaver>)
        requires
            self.wf(),
        ensures
            match saver {
                Some(s) => s.wf() && position(self@, path_id) is Some && s@ == self@[position(
                    self@,
                    path_id,
                ).unwrap()],
                None => position(self@, path_id) is None,
            },
    {
        match self.find(path_id) {
            Some(i) => Some(&self.sample_savers[i]),
            None => None,
        }
    }

    /// Sinker `sinker_id` starts to write to the partition under `path`.
    /// The partition's first sinker has the coordinator made.
    pub fn start_sink_partition(
        &mut self,
        path: &str,
        path_id: u32,
        sinker_id: u32,
        partition_index: u32,
    ) -> (outcome: StartOutcome)
        requires
            old(self).wf(),
        ensures
            final(self).wf(),
            match position(old(self)@, path_id) {
                Some(i) => outcome == StartOutcome::Joined && final(self)@ == old(self)@.update(
                    i,
                    SaverView {
                        sinkers: old(self)@[i].sinkers.insert(sinker_id),
                        ..old(self)@[i]
                    },
                ),
                None => outcome == StartOutcome::Created && final(self)@ == old(self)@.push(
                    SaverView {
                        sinkers: Set::<u32>::empty().insert(sinker_id),
                        ..SaverView::initial(path@, path_id, partition_index)
                    },
                ),
            },
    {
        let ghost before = self@;
        match self.find(path_id) {
            Some(i) => {
                self.sample_savers[i].start_partition(sinker_id);
                proof {
                    let after = self@;
                    assert(after =~= before.update(
                        i as int,
                        SaverView {
                            sinkers: before[i as int].sinkers.insert(sinker_id),
                            ..before[i as int]
                        },
                    ));
                    assert forall|a: int, b: int| 0 <= a < b < after.len() implies (
                    #[trigger] after[a]).path_id != (#[trigger] after[b]).path_id by {
                        assert(before[a].path_id != before[b].path_id);
                    }
                }
                StartOutcome::Joined
            },
            None => {
                let mut saver = SampleSaver::new(path, path_id, partition_index);
                saver.start_partition(sinker_id);
                self.sample_savers.push(saver);
                proof {
                    let after = self@;
                    assert(after =~= before.push(
                        SaverView {
                            sinkers: Set::<u32>::empty().insert(sinker_id),
                            ..SaverView::initial(path@, path_id, partition_index)
                        },
                    ));
                    assert forall|a: int, b: int| 0 <= a < b < after.len() implies (
                    #[trigger] after[a]).path_id != (#[trigger] after[b]).path_id by {
                        if b < before.len() {
                            assert(before[a].path_id != before[b].path_id);
                        } else {
                            assert(before[a].path_id != path_id);
                        }
                    }
                }
                StartOutcome::Created
            },
        }
    }

    /// Whether a batch for `path_id` may be handed to the partition's
    /// workers. Refused: a path id without a partition, with `NotFound`,
    /// and a partition that is closed, with `Fatal`.
    pub fn sink_grid_sample(&self, path_id: u32) -> (res: Result<(), DropletError>)
        requires
            self.wf(),
        ensures
            res == match position(self@, path_id) {
                Some(i) => if self@[i].closed {
                    Err::<(), DropletError>(DropletError::Fatal)
                } else {
                    Ok::<(), DropletError>(())
                },
                None => Err::<(), DropletError>(DropletError::NotFound),
            },
    {
        match self.find(path_id) {
            Some(i) => self.sample_savers[i].accept_sample(),
            None => Err(DropletError::NotFound),
        }
    }

    /// Sinker `sinker_id` has finished with the partition of `path_id`.
    /// When it was the last, the partition is closed. A partition is closed
    /// once: a finish for a partition that is closed already changes
    /// nothing. A path id without a partition is refused with `NotFound`.
    pub fn finish_sink_partition(&mut self, path_id: u32, sinker_id: u32) -> (res: Result<
        FinishOutcome,
        DropletError,
    >)
        requires
            old(self).wf(),
        ensures
            final(self).wf(),
            match position(old(self)@, path_id) {
                Some(i) => {
                    let left = old(self)@[i].sinkers.remove(sinker_id);
                    if old(self)@[i].closed {
                        res == Ok::<FinishOutcome, DropletError>(FinishOutcome::Open)
                            && final(self)@ == old(self)@
                    } else if left == Set::<u32>::empty() {
                        res == Ok::<FinishOutcome, DropletError>(FinishOutcome::Closed)
                            && final(self)@ == old(self)@.update(
                            i,
                            SaverView { sinkers: left, closed: true, ..old(self)@[i] },
                        )
                    } else {
                        res == Ok::<FinishOutcome, DropletError>(FinishOutcome::Open)
                            && final(self)@ == old(self)@.update(
                            i,
                            SaverView { sinkers: left, ..old(self)@[i] },
                        )
                    }
                },
                None => res == Err::<FinishOutcome, DropletError>(DropletError::NotFound)
                    && final(self)@ == old(self)@,
            },
    {
        let ghost before = self@;
        match self.find(path_id) {
            Some(i) => {
                if self.sample_savers[i].is_closed() {
                    return Ok(FinishOutcome::Open);
                }
                self.sample_savers[i].finish_partition(sinker_id);
                let done = self.sample_savers[i].is_sinkers_done();
                if done {
                    self.sample_savers[i].close_sender();
                }
                proof {
                    let after = self@;
                    let left = before[i as int].sinkers.remove(sinker_id);
                    if done {
                        assert(after =~= before.update(
                            i as int,
                            SaverView { sinkers: left, closed: true, ..before[i as int] },
                        ));
                    } else {
                        assert(after =~= before.update(
                            i as int,
                            SaverView { sinkers: left, ..before[i as int] },
                        ));
                    }
                    assert forall|a: int, b: int| 0 <= a < b < after.len() implies (
                    #[trigger] after[a]).path_id != (#[trigger] after[b]).path_id by {
                        assert(before[a].path_id != before[b].path_id);
                    }
                }
                if done {
                    Ok(FinishOutcome::Closed)
                } else {
                    Ok(FinishOutcome::Open)
                }
            },
            None => Err(DropletError::NotFound),
        }
    }

    /// Whether the partition of `path_id` is complete, given whether its
    /// merge went well, and if it is, the name of the empty file that marks
    /// it so. A partition is complete when it is closed, every worker has
    /// succeeded and the merge went well; its coordinator then leaves the
    /// node. The file is named for no other partition: not for one that no
    /// sinker has started, and not for one whose merge failed.
    ///
    /// Refused, and the node left as it is: a path id without a partition,
    /// with `NotFound`; a partition that is not complete, with `Fatal`; a
    /// partition without a path, with `InvalidArgument`.
    pub fn complete_partition(&mut self, path_id: u32, merged: bool) -> (res: Result<
        String,
        DropletError,
    >)
        requires
            old(self).wf(),
        ensures
            final(self).wf(),
            match position(old(self)@, path_id) {
                Some(i) => if !(old(self)@[i].closed && old(self)@[i].workers_done() && merged) {
                    res == Err::<String, DropletError>(DropletError::Fatal) && final(self)@
                        == old(self)@
                } else if old(self)@[i].path.len() == 0 {
                    res == Err::<String, DropletError>(DropletError::InvalidArgument) && final(self)@ == old(self)@
                } else {
                    res is Ok && res.unwrap()@ == success_file_name(old(self)@[i].path) && final(self)@ == old(self)@.remove(i)
                },
                None => res == Err::<String, DropletError>(DropletError::NotFound) && final(self)@
                    == old(self)@,
            },
    {
        let i = match self.find(path_id) {
            Some(i) => i,
            None => {
                return Err(DropletError::NotFound);
            },
        };
        let saver = &self.sample_savers[i];
        if !(saver.is_closed() && saver.is_workers_done() && merged) {
            return Err(DropletError::Fatal);
        }
        let name = match saver.success_filename() {
            Ok(name) => name,
            Err(e) => {
                return Err(e);
            },
        };
        self.remove_saver(path_id);
        Ok(name)
    }

    /// Takes note of what a worker of the partition of `path_id` reports.
    /// A path id without a partition is refused with `NotFound`.
    pub fn record_worker(&mut self, path_id: u32, worker_id: u32, info: WorkerInfo) -> (res: Result<
        (),
        DropletError,
    >)
        requires
            old(self).wf(),
        ensures
            final(self).wf(),
            match position(old(self)@, path_id) {
                Some(i) => res is Ok && final(self)@ == old(self)@.update(
                    i,
                    SaverView {
                        workers: if worker_id < old(self)@[i].workers.len() {
                            old(self)@[i].workers.update(worker_id as int, info)
                        } else {
                            old(self)@[i].workers
                        },
                        ..old(self)@[i]
                    },
                ),
                None => res == Err::<(), DropletError>(DropletError::NotFound) && final(self)@
                    == old(self)@,
            },
    {
        let ghost before = self@;
        match self.find(path_id) {
            Some(i) => {
                self.sample_savers[i].record_worker(worker_id, info);
                proof {
                    let after = self@;
                    assert(after =~= before.update(
                        i as int,
                        SaverView {
                            workers: if worker_id < before[i as int].workers.len() {
                                before[i as int].workers.update(worker_id as int, info)
                            } else {
                                before[i as int].workers
                            },
                            ..before[i as int]
                        },
                    ));
                    assert forall|a: int, b: int| 0 <= a < b < after.len() implies (
                    #[trigger] after[a]).path_id != (#[trigger] after[b]).path_id by {
                        assert(before[a].path_id != before[b].path_id);
                    }
                }
                Ok(())
            },
            None => Err(DropletError::NotFound),
        }
    }

    /// Takes the coordinator of `path_id` out of the node, when its
    /// partition has been merged.
    pub fn remove_saver(&mut self, path_id: u32) -> (saver: Option<SampleSaver>)
        requires
            old(self).wf(),
        ensures
            final(self).wf(),
            match position(old(self)@, path_id) {
                Some(i) => saver is Some && saver.unwrap().wf() && saver.unwrap()@ == old(self)@[i]
                    && final(self)@ == old(self)@.remove(i),
                None => saver is None && final(self)@ == old(self)@,
            },
    {
        let ghost before = self@;
        match self.find(path_id) {
            Some(i) => {
                let saver = self.sample_savers.remove(i);
                proof {
                    let after = self@;
                    assert(after =~= before.remove(i as int));
                    assert forall|a: int, b: int| 0 <= a < b < after.len() implies (
                    #[trigger] after[a]).path_id != (#[trigger] after[b]).path_id by {
                        let a0 = if a < i {
                            a
                        } else {
                            a + 1
                        };
                        let b0 = if b < i {
                            b
                        } else {
                            b + 1
                        };
                        assert(before[a0].path_id != before[b0].path_id);
                    }
                }
                Some(saver)
            },
            None => None,
        }
    }
}

/// A partition closes exactly when its last sinker finishes, and a sinker
/// that finishes again changes nothing: after sinker `a` and sinker `b`
/// have started, the finish of one of them leaves the partition open, the
/// finish of the same one again leaves it as it is, and the finish of the
/// other one leaves no sinker.
pub proof fn lemma_partition_closes_with_last_sinker(a: u32, b: u32)
    requires
        a != b,
    ensures
        Set::<u32>::empty().insert(a).insert(b).remove(a) != Set::<u32>::empty(),
        Set::<u32>::empty().insert(a).insert(b).remove(a).remove(a) == Set::<u32>::empty().insert(
            a,
        ).insert(b).remove(a),
        Set::<u32>::empty().insert(a).insert(b).remove(a).remove(b) == Set::<u32>::empty(),
{
    let both = Set::<u32>::empty().insert(a).insert(b);
    assert(both.remove(a).contains(b));
    assert(both.remove(a).remove(a) =~= both.remove(a));
    assert(both.remove(a).remove(b) =~= Set::<u32>::empty());
}

/// A partition is marked complete at most once, and only if a sinker has
/// started it: a node without partitions has none to complete, and a
/// partition that was taken out of a node is not found in it again.
pub proof fn lemma_completed_is_gone(savers: Seq<SaverView>, i: int, path_id: u32)
    requires
        distinct_paths(savers),
        0 <= i < savers.len(),
    ensures
        position(Seq::<SaverView>::empty(), path_id) is None,
        position(savers.remove(i), savers[i].path_id) is None,
{
    let rest = savers.remove(i);
    assert forall|k: int| 0 <= k < rest.len() implies (#[trigger] rest[k]).path_id
        != savers[i].path_id by {
        if k < i {
            assert(rest[k] == savers[k]);
            assert(savers[k].path_id != savers[i].path_id);
        } else {
            assert(rest[k] == savers[k + 1]);
            assert(savers[i].path_id != savers[k + 1].path_id);
        }
    }
}

} // verus!
