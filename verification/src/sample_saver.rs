//! The storage node's side of a partition: the coordinator that knows which
//! sinkers write to the partition and how its workers fare, and the worker
//! that sorts what it receives into one file.
//!
//! Neither holds a file or a channel. A worker is handed decoded batches and
//! hands back the batches to append to its file, one per line; the
//! coordinator is told what was received and tells what is to happen.
use crate::error::DropletError;
use crate::grid::GridBatch;
use crate::merge_sort::MergeSorter;
use crate::merge_sort::MergeView;
use crate::sinker_set::sinker_entries;
use crate::sinker_set::sinkers_insert;
use crate::sinker_set::sinkers_len;
use crate::sinker_set::sinkers_new;
use crate::sinker_set::sinkers_remove;
use crate::sinker_set::SinkerMap;
use crate::text::chars_string;
use crate::text::decimal;
use crate::text::push_decimal;
use crate::text::push_str;
use crate::text::replace_all;
use crate::text::replaced;
use crate::text::str_chars;
use crate::window_heap::grids_view;
use crate::window_heap::WindowHeap;
use crate::window_heap::WindowView;
use likely_stable::unlikely;
use vstd::prelude::*;

verus! {

/// The workers of a partition.
pub const WORKER_NUM: u32 = 8;

/// The slots of a worker's window heap, and of the heap of the final merge.
pub const SAVER_WINDOW_SIZE: u32 = 256;

/// The rows of a line that a worker or the merge writes.
pub const SAVER_BATCH_SIZE: u32 = 4;

/// How far a worker has come. A worker runs until it succeeds or fails, and
/// then stays what it is.
#[derive(Clone, Copy, Debug, PartialEq, Eq, Structural)]
pub enum WorkerState {
    Running,
    Failed,
    Success,
}

/// How the workers of a partition fare, all in all.
#[derive(Clone, Copy, Debug, PartialEq, Eq, Structural)]
pub enum WorkerPoll {
    /// Some worker has failed: the partition has failed.
    Failed,
    /// Every worker has succeeded: the files can be merged.
    Done,
    /// No worker has failed and some worker is still running: wait.
    Running,
}

/// What a coordinator knows of a worker.
#[derive(Clone, Copy, Debug, PartialEq, Eq, Structural)]
pub struct WorkerInfo {
    worker_id: u32,
    total: u64,
    worker_state: WorkerState,
}

impl Default for WorkerInfo {
    fn default() -> (info: Self)
        ensures
            info.id() == 0,
            info.lines() == 0,
            info.state() == WorkerState::Running,
    {
        WorkerInfo { worker_id: 0, total: 0, worker_state: WorkerState::Running }
    }
}

impl WorkerInfo {
    pub closed spec fn id(self) -> u32 {
        self.worker_id
    }

    /// The number of lines that the worker has written.
    pub closed spec fn lines(self) -> u64 {
        self.total
    }

    pub closed spec fn state(self) -> WorkerState {
        self.worker_state
    }

    /// The info of a running worker that has written nothing yet.
    pub closed spec fn fresh(worker_id: u32) -> WorkerInfo {
        WorkerInfo { worker_id, total: 0, worker_state: WorkerState::Running }
    }

    /// A fresh worker runs and has written nothing.
    pub proof fn lemma_fresh(worker_id: u32)
        ensures
            Self::fresh(worker_id).id() == worker_id,
            Self::fresh(worker_id).lines() == 0,
            Self::fresh(worker_id).state() == WorkerState::Running,
    {
    }

    /// The info of worker `worker_id` that has written nothing yet.
    pub fn new(worker_id: u32) -> (info: Self)
        ensures
            info == Self::fresh(worker_id),
            info.id() == worker_id,
            info.lines() == 0,
            info.state() == WorkerState::Running,
    {
        WorkerInfo { worker_id, total: 0, worker_state: WorkerState::Running }
    }

    pub fn worker_id(&self) -> (id: u32)
        ensures
            id == self.id(),
    {
        self.worker_id
    }

    pub fn total(&self) -> (total: u64)
        ensures
            total == self.lines(),
    {
        self.total
    }

    pub fn worker_state(&self) -> (state: WorkerState)
        ensures
            state == self.state(),
    {
        self.worker_state
    }

    /// Counts `lines` more lines. The count stops at the largest number.
    pub fn add_lines(&mut self, lines: usize)
        ensures
            final(self).id() == old(self).id(),
            final(self).state() == old(self).state(),
            final(self).lines() == if old(self).lines() + lines <= u64::MAX {
                (old(self).lines() + lines) as u64
            } else {
                u64::MAX
            },
    {
        let lines = lines as u64;
        if lines <= u64::MAX - self.total {
            self.total = self.total + lines;
        } else {
            self.total = u64::MAX;
        }
    }

    /// Ends a running worker, as a success or a failure. A worker that has
    /// ended stays what it is.
    pub fn set_worker_state(&mut self, state: WorkerState)
        ensures
            final(self).id() == old(self).id(),
            final(self).lines() == old(self).lines(),
            final(self).state() == if old(self).state() == WorkerState::Running {
                state
            } else {
                old(self).state()
            },
    {
        if self.worker_state == WorkerState::Running {
            self.worker_state = state;
        }
    }
}

/// The lines that some workers have written, all in all.
pub open spec fn total_lines(workers: Seq<WorkerInfo>) -> nat
    decreases workers.len(),
{
    if workers.len() == 0 {
        0
    } else {
        total_lines(workers.drop_last()) + workers.last().lines() as nat
    }
}

/// The name of file `index` in directory `path`.
pub open spec fn grid_file_name(path: Seq<char>, index: nat) -> Seq<char> {
    path + seq!['/'] + decimal(index) + seq!['.', 'g', 'r', 'i', 'd']
}

/// The directory of the sorted files that belong to `path`.
pub open spec fn sorted_path(path: Seq<char>) -> Seq<char> {
    replaced(path, seq!['d', 'r', 'o', 'p', 'l', 'e', 't'], seq![
        'd',
        'r',
        'o',
        'p',
        'l',
        'e',
        't',
        '_',
        's',
        'o',
        'r',
        't',
        'e',
        'd',
    ])
}

/// The name of the file that marks a partition as complete.
pub open spec fn success_file_name(path: Seq<char>) -> Seq<char> {
    path + seq!['/', 'S', 'U', 'C', 'C', 'E', 'S', 'S']
}

/// The name of file `index` in directory `path`: `path/index.grid`.
pub fn grid_filename(path: &str, index: u64) -> (name: String)
    ensures
        name@ == grid_file_name(path@, index as nat),
{
    let mut text = str_chars(path);
    text.push('/');
    push_decimal(&mut text, index);
    text.push('.');
    text.push('g');
    text.push('r');
    text.push('i');
    text.push('d');
    assert(text@ =~= grid_file_name(path@, index as nat));
    chars_string(&text)
}

/// The directory of the sorted files that belong to `path`: `path` with
/// every `droplet` replaced by `droplet_sorted`.
pub fn sorted_path_of(path: &str) -> (sorted: String)
    ensures
        sorted@ == sorted_path(path@),
{
    let text = str_chars(path);
    let from = str_chars("droplet");
    let to = str_chars("droplet_sorted");
    proof {
        reveal_strlit("droplet");
        reveal_strlit("droplet_sorted");
        assert(from@ =~= seq!['d', 'r', 'o', 'p', 'l', 'e', 't']);
        assert(to@ =~= seq![
            'd',
            'r',
            'o',
            'p',
            'l',
            'e',
            't',
            '_',
            's',
            'o',
            'r',
            't',
            'e',
            'd',
        ]);
    }
    let out = replace_all(&text, &from, &to);
    chars_string(&out)
}

/// A coordinator as a mathematical value.
pub struct SaverView {
    pub path: Seq<char>,
    pub path_id: u32,
    pub partition_index: u32,
    /// The names of the workers' files.
    pub filenames: Seq<Seq<char>>,
    /// The sinkers that have started and not finished.
    pub sinkers: Set<u32>,
    /// Whether the partition takes no more batches.
    pub closed: bool,
    pub workers: Seq<WorkerInfo>,
    pub path_sorted: Seq<char>,
    pub batch_size: u32,
    pub window_size: u32,
}

impl SaverView {
    /// The coordinator of a partition that nobody has written to.
    pub open spec fn initial(path: Seq<char>, path_id: u32, partition_index: u32) -> SaverView {
        SaverView {
            path,
            path_id,
            partition_index,
            filenames: Seq::new(WORKER_NUM as nat, |i: int| grid_file_name(path, i as nat)),
            sinkers: Set::empty(),
            closed: false,
            workers: Seq::new(WORKER_NUM as nat, |i: int| WorkerInfo::fresh(i as u32)),
            path_sorted: sorted_path(path),
            batch_size: SAVER_BATCH_SIZE,
            window_size: SAVER_WINDOW_SIZE,
        }
    }

    /// Every worker has succeeded.
    pub open spec fn workers_done(self) -> bool {
        forall|i: int|
            0 <= i < self.workers.len() ==> (#[trigger] self.workers[i]).state()
                == WorkerState::Success
    }

    /// Some worker has failed.
    pub open spec fn workers_failed(self) -> bool {
        exists|i: int|
            0 <= i < self.workers.len() && (#[trigger] self.workers[i]).state()
                == WorkerState::Failed
    }

    /// The lines that go into one sorted file: the workers' lines divided by
    /// the number of workers.
    pub open spec fn lines_per_file(self) -> nat {
        if self.workers.len() == 0 {
            0
        } else {
            total_lines(self.workers) / self.workers.len()
        }
    }
}

/// The names in `names`, as values.
pub open spec fn names_view(names: Seq<String>) -> Seq<Seq<char>> {
    Seq::new(names.len(), |i: int| names[i]@)
}

/// Saves the samples of one partition.
///
/// The samples come from many sinkers. There may be hundreds, so each does
/// not get a thread of its own: what they send is handed to a fixed number
/// of workers, each of which writes one sorted file, and when all sinkers
/// have finished the files are merged.
pub struct SampleSaver {
    /// Path.
    path: String,
    /// Path id.
    path_id: u32,
    /// Partition index.
    partition_index: u32,
    /// The workers' files under `path`.
    filenames: Vec<String>,
    /// The sinkers that write to the partition.
    sinker_ids: SinkerMap,
    /// Whether the workers' channel is closed.
    closed: bool,
    /// Number of workers.
    worker_num: u32,
    /// What is known of each worker.
    worker_infos: Vec<WorkerInfo>,
    /// Path of the sorted files.
    path_sorted: String,
    /// Batch size of the final merge.
    batch_size: u32,
    /// Window size of the final merge.
    window_size: u32,
}

impl View for SampleSaver {
    type V = SaverView;

    closed spec fn view(&self) -> SaverView {
        SaverView {
            path: self.path@,
            path_id: self.path_id,
            partition_index: self.partition_index,
            filenames: names_view(self.filenames@),
            sinkers: sinker_entries(self.sinker_ids).dom(),
            closed: self.closed,
            workers: self.worker_infos@,
            path_sorted: self.path_sorted@,
            batch_size: self.batch_size,
            window_size: self.window_size,
        }
    }
}

impl SampleSaver {
    /// The coordinator's invariant.
    pub closed spec fn wf(&self) -> bool {
        &&& sinker_entries(self.sinker_ids).dom().finite()
        &&& self.worker_infos.len() == self.worker_num
        &&& self.filenames.len() == self.worker_num
    }

    /// The coordinator of partition `partition_index` under `path`, with
    /// eight workers that write `path/0.grid` to `path/7.grid`.
    pub fn new(path: &str, path_id: u32, partition_index: u32) -> (saver: Self)
        ensures
            saver.wf(),
            saver@ == SaverView::initial(path@, path_id, partition_index),
    {
        let mut filenames: Vec<String> = Vec::new();
        let mut worker_infos: Vec<WorkerInfo> = Vec::new();
        let mut i: u32 = 0;
        while i < WORKER_NUM
            invariant
                i <= WORKER_NUM,
                filenames.len() == i,
                worker_infos.len() == i,
                forall|k: int|
                    0 <= k < i ==> (#[trigger] filenames[k])@ == grid_file_name(path@, k as nat),
                forall|k: int| 0 <= k < i ==> #[trigger] worker_infos[k] == WorkerInfo::fresh(k as u32),
            decreases WORKER_NUM - i,
        {
            filenames.push(grid_filename(path, i as u64));
            worker_infos.push(WorkerInfo::new(i));
            i += 1;
        }
        let saver = SampleSaver {
            path: path.to_owned(),
            path_id,
            partition_index,
            filenames,
            sinker_ids: sinkers_new(),
            closed: false,
            worker_num: WORKER_NUM,
            worker_infos,
            path_sorted: sorted_path_of(path),
            batch_size: SAVER_BATCH_SIZE,
            window_size: SAVER_WINDOW_SIZE,
        };
        proof {
            let init = SaverView::initial(path@, path_id, partition_index);
            assert(saver@.filenames =~= init.filenames);
            assert(saver@.workers =~= init.workers);
            assert(saver@.sinkers =~= init.sinkers);
        }
        saver
    }

    pub fn path(&self) -> (path: &str)
        ensures
            path@ == self@.path,
    {
        self.path.as_str()
    }

    pub fn path_id(&self) -> (id: u32)
        ensures
            id == self@.path_id,
    {
        self.path_id
    }

    pub fn partition_index(&self) -> (index: u32)
        ensures
            index == self@.partition_index,
    {
        self.partition_index
    }

    pub fn path_sorted(&self) -> (path: &str)
        ensures
            path@ == self@.path_sorted,
    {
        self.path_sorted.as_str()
    }

    /// The names of the workers' files.
    pub fn filenames(&self) -> (names: &Vec<String>)
        ensures
            names_view(names@) == self@.filenames,
    {
        &self.filenames
    }

    pub fn window_size(&self) -> (n: u32)
        ensures
            n == self@.window_size,
    {
        self.window_size
    }

    pub fn batch_size(&self) -> (n: u32)
        ensures
            n == self@.batch_size,
    {
        self.batch_size
    }

    /// Sinker `sinker_id` starts to write to the partition.
    pub fn start_partition(&mut self, sinker_id: u32)
        requires
            old(self).wf(),
        ensures
            final(self).wf(),
            final(self)@ == (SaverView {
                sinkers: old(self)@.sinkers.insert(sinker_id),
                ..old(self)@
            }),
    {
        sinkers_insert(&mut self.sinker_ids, sinker_id, true);
        proof {
            assert(self@.sinkers =~= old(self)@.sinkers.insert(sinker_id));
        }
    }

    /// Sinker `sinker_id` has finished. A sinker that is not writing to the
    /// partition changes nothing.
    pub fn finish_partition(&mut self, sinker_id: u32)
        requires
            old(self).wf(),
        ensures
            final(self).wf(),
            final(self)@ == (SaverView {
                sinkers: old(self)@.sinkers.remove(sinker_id),
                ..old(self)@
            }),
    {
        sinkers_remove(&mut self.sinker_ids, sinker_id);
        proof {
            assert(self@.sinkers =~= old(self)@.sinkers.remove(sinker_id));
        }
    }

    /// The partition takes no more batches.
    pub fn close_sender(&mut self)
        requires
            old(self).wf(),
        ensures
            final(self).wf(),
            final(self)@ == (SaverView { closed: true, ..old(self)@ }),
    {
        self.closed = true;
    }

    /// Whether the partition takes no more batches.
    pub fn is_closed(&self) -> (closed: bool)
        ensures
            closed == self@.closed,
    {
        self.closed
    }

    /// Whether no sinker writes to the partition.
    pub fn is_sinkers_done(&self) -> (done: bool)
        requires
            self.wf(),
        ensures
            done == (self@.sinkers == Set::<u32>::empty()),
    {
        let n = sinkers_len(&self.sinker_ids);
        proof {
            let dom = sinker_entries(self.sinker_ids).dom();
            if n == 0 {
                dom.lemma_len0_is_empty();
                assert(dom =~= Set::<u32>::empty());
            }
        }
        n == 0
    }

    /// Whether a batch for the partition may be handed to the workers: the
    /// partition must not be closed.
    pub fn accept_sample(&self) -> (res: Result<(), DropletError>)
        ensures
            res == if self@.closed {
                Err::<(), DropletError>(DropletError::Fatal)
            } else {
                Ok::<(), DropletError>(())
            },
    {
        if self.closed {
            Err(DropletError::Fatal)
        } else {
            Ok(())
        }
    }

    /// Takes note of what worker `worker_id` reports of itself. A report
    /// of a worker that the partition does not have changes nothing.
    pub fn record_worker(&mut self, worker_id: u32, info: WorkerInfo)
        requires
            old(self).wf(),
        ensures
            final(self).wf(),
            final(self)@ == (SaverView {
                workers: if worker_id < old(self)@.workers.len() {
                    old(self)@.workers.update(worker_id as int, info)
                } else {
                    old(self)@.workers
                },
                ..old(self)@
            }),
    {
        if (worker_id as usize) < self.worker_infos.len() {
            self.worker_infos[worker_id as usize] = info;
        }
        proof {
            assert(self@.workers =~= if worker_id < old(self)@.workers.len() {
                old(self)@.workers.update(worker_id as int, info)
            } else {
                old(self)@.workers
            });
        }
    }

    /// What is known of the workers.
    pub fn worker_infos(&self) -> (infos: &Vec<WorkerInfo>)
        ensures
            infos@ == self@.workers,
    {
        &self.worker_infos
    }

    /// Whether every worker has succeeded.
    pub fn is_workers_done(&self) -> (done: bool)
        ensures
            done == self@.workers_done(),
    {
        let mut i: usize = 0;
        while i < self.worker_infos.len()
            invariant
                i <= self.worker_infos.len(),
                forall|k: int|
                    0 <= k < i ==> (#[trigger] self.worker_infos[k]).state()
                        == WorkerState::Success,
            decreases self.worker_infos.len() - i,
        {
            if self.worker_infos[i].worker_state != WorkerState::Success {
                return false;
            }
            i += 1;
        }
        true
    }

    /// Whether every worker has succeeded.
    pub fn is_success(&self) -> (done: bool)
        ensures
            done == self@.workers_done(),
    {
        self.is_workers_done()
    }

    /// Whether some worker has failed.
    pub fn is_failed(&self) -> (failed: bool)
        ensures
            failed == self@.workers_failed(),
    {
        let mut i: usize = 0;
        while i < self.worker_infos.len()
            invariant
                i <= self.worker_infos.len(),
                forall|k: int|
                    0 <= k < i ==> (#[trigger] self.worker_infos[k]).state()
                        != WorkerState::Failed,
            decreases self.worker_infos.len() - i,
        {
            if self.worker_infos[i].worker_state == WorkerState::Failed {
                return true;
            }
            i += 1;
        }
        false
    }

    /// What is to be done with the partition's workers: a single worker
    /// that has failed fails the partition; else the files are merged once
    /// every worker has succeeded.
    pub fn poll_workers(&self) -> (poll: WorkerPoll)
        ensures
            poll == if self@.workers_failed() {
                WorkerPoll::Failed
            } else if self@.workers_done() {
                WorkerPoll::Done
            } else {
                WorkerPoll::Running
            },
    {
        if self.is_failed() {
            WorkerPoll::Failed
        } else if self.is_workers_done() {
            WorkerPoll::Done
        } else {
            WorkerPoll::Running
        }
    }

    /// Starts the final merge of the workers' files: one reader per file,
    /// the partition's window and batch size, and as many lines per sorted
    /// file as the workers have written per worker. Refused with `Fatal`
    /// unless every worker has succeeded.
    pub fn merge_sort(&self) -> (res: Result<MergeSorter, DropletError>)
        requires
            self.wf(),
        ensures
            match res {
                Ok(merge) => self@.workers_done() && merge.wf() && merge@ == MergeView::initial(
                    self@.filenames.len(),
                    self@.window_size as nat,
                    self@.batch_size as nat,
                    if total_lines(self@.workers) <= u64::MAX {
                        total_lines(self@.workers) as u64
                    } else {
                        u64::MAX
                    },
                ),
                Err(e) => e == DropletError::Fatal && !self@.workers_done(),
            },
    {
        if !self.is_workers_done() {
            return Err(DropletError::Fatal);
        }
        Ok(
            MergeSorter::new(
                self.filenames.len(),
                self.window_size as usize,
                self.batch_size as usize,
                self.get_total_lines(),
            ),
        )
    }

    /// The lines that the workers have written, all in all; the largest
    /// number where they are more.
    pub fn get_total_lines(&self) -> (total: u64)
        ensures
            total == if total_lines(self@.workers) <= u64::MAX {
                total_lines(self@.workers) as u64
            } else {
                u64::MAX
            },
    {
        let mut total: u64 = 0;
        let mut i: usize = 0;
        assert(self.worker_infos@.take(0) =~= Seq::<WorkerInfo>::empty());
        while i < self.worker_infos.len()
            invariant
                i <= self.worker_infos.len(),
                total == if total_lines(self.worker_infos@.take(i as int)) <= u64::MAX {
                    total_lines(self.worker_infos@.take(i as int)) as u64
                } else {
                    u64::MAX
                },
            decreases self.worker_infos.len() - i,
        {
            proof {
                let next = self.worker_infos@.take(i as int + 1);
                assert(next.drop_last() =~= self.worker_infos@.take(i as int));
                assert(next.last() == self.worker_infos@[i as int]);
            }
            let lines = self.worker_infos[i].total;
            if lines <= u64::MAX - total {
                total = total + lines;
            } else {
                total = u64::MAX;
            }
            i += 1;
        }
        assert(self.worker_infos@.take(self.worker_infos.len() as int) =~= self.worker_infos@);
        total
    }

    /// The name of the file that marks the partition as complete:
    /// `path/SUCCESS`. A partition without a path has none.
    pub fn success_filename(&self) -> (res: Result<String, DropletError>)
        ensures
            match res {
                Ok(name) => self@.path.len() > 0 && name@ == success_file_name(self@.path),
                Err(e) => self@.path.len() == 0 && e == DropletError::InvalidArgument,
            },
    {
        let mut text = str_chars(self.path.as_str());
        if unlikely(text.len() == 0) {
            return Err(DropletError::InvalidArgument);
        }
        push_str(&mut text, "/SUCCESS");
        proof {
            reveal_strlit("/SUCCESS");
            assert("/SUCCESS"@ =~= seq!['/', 'S', 'U', 'C', 'C', 'E', 'S', 'S']);
        }
        Ok(chars_string(&text))
    }

    /// The name of sorted file `index`: `path_sorted/index.grid`.
    pub fn sorted_filename(&self, index: u64) -> (name: String)
        ensures
            name@ == grid_file_name(self@.path_sorted, index as nat),
    {
        grid_filename(self.path_sorted.as_str(), index)
    }
}

/// Finishing is idempotent, and a partition is done exactly when every
/// sinker that started has finished: a sinker that finishes a second time
/// changes nothing, and after `start` of a sinker the partition is not done
/// until that sinker has finished.
pub proof fn lemma_finish_twice(sinkers: Set<u32>, sinker_id: u32, other: u32)
    ensures
        sinkers.remove(sinker_id).remove(sinker_id) == sinkers.remove(sinker_id),
        sinkers.insert(sinker_id) != Set::<u32>::empty(),
        other != sinker_id ==> sinkers.insert(sinker_id).remove(other) != Set::<u32>::empty(),
        sinkers.insert(sinker_id).remove(sinker_id) == sinkers.remove(sinker_id),
{
    assert(sinkers.remove(sinker_id).remove(sinker_id) =~= sinkers.remove(sinker_id));
    assert(sinkers.insert(sinker_id).contains(sinker_id));
    assert(other != sinker_id ==> sinkers.insert(sinker_id).remove(other).contains(sinker_id));
    assert(sinkers.insert(sinker_id).remove(sinker_id) =~= sinkers.remove(sinker_id));
}

/// Takes all output batches out of `heap`, oldest first.
pub fn take_outputs(heap: &mut WindowHeap) -> (out: Vec<GridBatch>)
    requires
        old(heap).wf(),
    ensures
        final(heap).wf(),
        grids_view(out@) == old(heap)@.out,
        forall|i: int| 0 <= i < out@.len() ==> (#[trigger] out@[i]).wf(),
        final(heap)@ == (WindowView { out: Seq::empty(), ..old(heap)@ }),
{
    let mut out: Vec<GridBatch> = Vec::new();
    let ghost all = heap@.out;
    let ghost start = heap@;
    assert(all.skip(0) =~= all);
    assert(grids_view(out@) =~= all.take(0));
    loop
        invariant
            heap.wf(),
            0 <= out@.len() <= all.len(),
            grids_view(out@) == all.take(out@.len() as int),
            forall|i: int| 0 <= i < out@.len() ==> (#[trigger] out@[i]).wf(),
            heap@ == (WindowView { out: all.skip(out@.len() as int), ..start }),
        ensures
            heap.wf(),
            grids_view(out@) == all,
            forall|i: int| 0 <= i < out@.len() ==> (#[trigger] out@[i]).wf(),
            heap@ == (WindowView { out: Seq::empty(), ..start }),
        decreases all.len() - out@.len(),
    {
        let ghost k = out@.len() as int;
        match heap.get_out_gridbuffer() {
            Some(batch) => {
                let ghost held = out@;
                out.push(batch);
                proof {
                    assert(all.skip(k)[0] == all[k]);
                    assert(all.skip(k).drop_first() =~= all.skip(k + 1));
                    assert(grids_view(out@) =~= all.take(k + 1)) by {
                        assert forall|i: int| 0 <= i < out@.len() implies grids_view(out@)[i]
                            == all.take(k + 1)[i] by {
                            if i < k {
                                assert(out@[i] == held[i]);
                                assert(grids_view(held)[i] == all.take(k)[i]);
                            }
                        }
                    }
                    assert forall|i: int| 0 <= i < out@.len() implies (#[trigger] out@[i]).wf() by {
                        if i < k {
                            assert(out@[i] == held[i]);
                        }
                    }
                }
            },
            None => {
                proof {
                    assert(all.skip(k).len() == 0);
                    assert(all.take(k) =~= all);
                    assert(all.skip(k) =~= Seq::<crate::grid::GridView>::empty());
                }
                break ;
            },
        }
    }
    out
}

/// A worker as a mathematical value.
pub struct WorkerView {
    pub filename: Seq<char>,
    pub info: WorkerInfo,
    pub heap: WindowView,
}

/// Sorts the batches it is handed into the lines of one file.
pub struct SampleSaverWorker {
    /// The file that the worker's lines go to.
    filename: String,
    /// Worker id.
    worker_id: u32,
    /// Window heap for sorting the batches.
    window_heap: WindowHeap,
    /// Window size.
    window_size: u32,
    /// Batch size.
    batch_size: u32,
    /// What the worker reports of itself.
    worker_info: WorkerInfo,
}

impl View for SampleSaverWorker {
    type V = WorkerView;

    closed spec fn view(&self) -> WorkerView {
        WorkerView { filename: self.filename@, info: self.worker_info, heap: self.window_heap@ }
    }
}

impl SampleSaverWorker {
    /// The worker's invariant.
    pub closed spec fn wf(&self) -> bool {
        self.window_heap.wf()
    }

    /// Worker `worker_id`, which writes to `filename`.
    pub fn new(worker_id: u32, filename: &str) -> (worker: Self)
        ensures
            worker.wf(),
            worker@.filename == filename@,
            worker@.info.id() == worker_id,
            worker@.info.lines() == 0,
            worker@.info.state() == WorkerState::Running,
            worker@.heap == WindowView::initial(
                SAVER_WINDOW_SIZE as nat,
                SAVER_BATCH_SIZE as nat,
            ),
    {
        SampleSaverWorker {
            filename: filename.to_owned(),
            worker_id,
            window_heap: WindowHeap::new(SAVER_WINDOW_SIZE as usize, SAVER_BATCH_SIZE as usize),
            window_size: SAVER_WINDOW_SIZE,
            batch_size: SAVER_BATCH_SIZE,
            worker_info: WorkerInfo::new(worker_id),
        }
    }

    pub fn filename(&self) -> (name: &str)
        ensures
            name@ == self@.filename,
    {
        self.filename.as_str()
    }

    /// What the worker reports of itself.
    pub fn worker_info(&self) -> (info: WorkerInfo)
        ensures
            info == self@.info,
    {
        self.worker_info
    }

    /// Whether the worker can start: it needs a file to write to.
    pub fn check_filename(&self) -> (res: Result<(), DropletError>)
        ensures
            res == if self@.filename.len() == 0 {
                Err::<(), DropletError>(DropletError::InvalidArgument)
            } else {
                Ok::<(), DropletError>(())
            },
    {
        let text = str_chars(self.filename.as_str());
        if unlikely(text.len() == 0) {
            Err(DropletError::InvalidArgument)
        } else {
            Ok(())
        }
    }

    /// Takes in a batch and hands back the lines to append to the file, in
    /// this order. Every line is counted.
    ///
    /// A batch that the heap refuses fails the worker, and a worker that
    /// has ended takes no batch: both give `Fatal`.
    pub fn on_request(&mut self, gridbuffer: GridBatch) -> (res: Result<Vec<GridBatch>, DropletError>)
        requires
            old(self).wf(),
            gridbuffer.wf(),
        ensures
            final(self).wf(),
            final(self)@.filename == old(self)@.filename,
            final(self)@.info.id() == old(self)@.info.id(),
            match res {
                Ok(lines) => {
                    &&& old(self)@.info.state() == WorkerState::Running
                    &&& old(self)@.heap.accepts(gridbuffer@)
                    &&& grids_view(lines@) == old(self)@.heap.pushed(gridbuffer@, None).out
                    &&& forall|i: int| 0 <= i < lines@.len() ==> (#[trigger] lines@[i]).wf()
                    &&& final(self)@.heap == (WindowView {
                        out: Seq::empty(),
                        ..old(self)@.heap.pushed(gridbuffer@, None)
                    })
                    &&& final(self)@.info.state() == WorkerState::Running
                    &&& final(self)@.info.lines() == if old(self)@.info.lines() + lines@.len()
                        <= u64::MAX {
                        (old(self)@.info.lines() + lines@.len()) as u64
                    } else {
                        u64::MAX
                    }
                },
                Err(e) => {
                    &&& e == DropletError::Fatal
                    &&& !(old(self)@.info.state() == WorkerState::Running && old(self)@.heap.accepts(gridbuffer@))
                    &&& final(self)@.heap == old(self)@.heap
                    &&& final(self)@.info.lines() == old(self)@.info.lines()
                    &&& final(self)@.info.state() == if old(self)@.info.state()
                        == WorkerState::Running {
                        WorkerState::Failed
                    } else {
                        old(self)@.info.state()
                    }
                },
            },
    {
        if self.worker_info.worker_state() != WorkerState::Running {
            return Err(DropletError::Fatal);
        }
        match self.window_heap.push(gridbuffer) {
            Ok(()) => {},
            Err(_) => {
                self.worker_info.set_worker_state(WorkerState::Failed);
                return Err(DropletError::Fatal);
            },
        }
        let lines = take_outputs(&mut self.window_heap);
        self.worker_info.add_lines(lines.len());
        Ok(lines)
    }

    /// The worker is told that no batch will come: the rows that are left
    /// in the heap leave, and the lines to append to the file are handed
    /// back and counted.
    pub fn finish(&mut self) -> (lines: Vec<GridBatch>)
        requires
            old(self).wf(),
        ensures
            final(self).wf(),
            final(self)@.filename == old(self)@.filename,
            final(self)@.info.id() == old(self)@.info.id(),
            final(self)@.info.state() == old(self)@.info.state(),
            grids_view(lines@) == old(self)@.heap.drained().out,
            forall|i: int| 0 <= i < lines@.len() ==> (#[trigger] lines@[i]).wf(),
            final(self)@.heap == (WindowView { out: Seq::empty(), ..old(self)@.heap.drained() }),
            final(self)@.info.lines() == if old(self)@.info.lines() + lines@.len() <= u64::MAX {
                (old(self)@.info.lines() + lines@.len()) as u64
            } else {
                u64::MAX
            },
    {
        self.window_heap.drain();
        let lines = take_outputs(&mut self.window_heap);
        self.worker_info.add_lines(lines.len());
        lines
    }

    /// Ends the worker: as a success where all its lines were written, as a
    /// failure otherwise. A worker that has ended stays what it is.
    pub fn set_worker_state(&mut self, state: WorkerState)
        requires
            old(self).wf(),
        ensures
            final(self).wf(),
            final(self)@.filename == old(self)@.filename,
            final(self)@.heap == old(self)@.heap,
            final(self)@.info.id() == old(self)@.info.id(),
            final(self)@.info.lines() == old(self)@.info.lines(),
            final(self)@.info.state() == if old(self)@.info.state() == WorkerState::Running {
                state
            } else {
                old(self)@.info.state()
            },
    {
        self.worker_info.set_worker_state(state);
    }
}

} // verus!
