use droplet::error::DropletError;
use droplet::grid::GridBatch;
use droplet::merge_sort::MergeSorter;
use droplet::merge_sort::MergeWrite;
use droplet::request_handler::DropletServerImpl;
use droplet::request_handler::FinishOutcome;
use droplet::request_handler::StartOutcome;
use droplet::sample_saver::grid_filename;
use droplet::sample_saver::sorted_path_of;
use droplet::sample_saver::SampleSaver;
use droplet::sample_saver::SampleSaverWorker;
use droplet::sample_saver::WorkerInfo;
use droplet::sample_saver::WorkerPoll;
use droplet::sample_saver::WorkerState;
use std::collections::VecDeque;

const HASH: u32 = 11;

fn batch_at(timestamps: &[u64], hash: u32) -> GridBatch {
    let mut gb = GridBatch::new_with_num_rows_col_ids_hash(timestamps.len(), vec![2, 4, 5, 6], hash);
    for (row, t) in timestamps.iter().enumerate() {
        gb.push_u64(row, 0, *t);
        gb.push_u64(row, 1, 1);
    }
    gb
}

fn timestamps(gb: &GridBatch) -> Vec<u64> {
    (0..gb.num_rows()).filter_map(|i| gb.get_u64(i, 0)).collect()
}

fn copy(gb: &GridBatch) -> GridBatch {
    batch_at(&timestamps(gb), gb.col_ids_hash())
}

/// Runs a merge over in-memory files and gives the lines of each output file.
fn run_merge(
    files: &[Vec<GridBatch>],
    window_size: usize,
    batch_size: usize,
    total_lines: u64,
) -> Result<Vec<(u64, Vec<u64>)>, DropletError> {
    let mut readers: Vec<VecDeque<GridBatch>> =
        files.iter().map(|f| f.iter().map(copy).collect()).collect();
    let mut merge = MergeSorter::new(files.len(), window_size, batch_size, total_lines);
    let mut written: Vec<(u64, Vec<u64>)> = Vec::new();
    let mut note = |writes: Vec<MergeWrite>| {
        for w in writes {
            written.push((w.file_index, timestamps(&w.gridbuffer)));
        }
    };
    let mut steps = 0;
    while let Some(reader) = merge.next_reader() {
        steps += 1;
        assert!(steps < 100_000, "the merge does not come to an end");
        match readers[reader].pop_front() {
            Some(gb) => note(merge.on_line(reader, gb)?),
            None => merge.on_eof(reader)?,
        }
    }
    note(merge.finish());
    assert_eq!(merge.lines_written(), written.len() as u64);
    Ok(written)
}

#[test]
fn saver_names_its_files() {
    let saver = SampleSaver::new("/tmp/droplet/tables/clicks/20220108/9", 5, 9);
    assert_eq!(saver.path(), "/tmp/droplet/tables/clicks/20220108/9");
    assert_eq!(saver.path_id(), 5);
    assert_eq!(saver.partition_index(), 9);
    assert_eq!(saver.path_sorted(), "/tmp/droplet_sorted/tables/clicks/20220108/9");
    assert_eq!(saver.window_size(), 256);
    assert_eq!(saver.batch_size(), 4);
    let names = saver.filenames();
    assert_eq!(names.len(), 8);
    for (i, name) in names.iter().enumerate() {
        assert_eq!(name, &format!("/tmp/droplet/tables/clicks/20220108/9/{}.grid", i));
    }
    assert_eq!(
        saver.success_filename(),
        Ok("/tmp/droplet/tables/clicks/20220108/9/SUCCESS".to_string())
    );
    assert_eq!(
        saver.sorted_filename(12),
        "/tmp/droplet_sorted/tables/clicks/20220108/9/12.grid"
    );
    assert_eq!(
        SampleSaver::new("", 1, 0).success_filename(),
        Err(DropletError::InvalidArgument)
    );
}

#[test]
fn every_droplet_in_a_path_is_replaced() {
    assert_eq!(sorted_path_of("/tmp/droplet/tables/t"), "/tmp/droplet_sorted/tables/t");
    assert_eq!(
        sorted_path_of("/tmp/droplet/tables/droplet_x"),
        "/tmp/droplet_sorted/tables/droplet_sorted_x"
    );
    assert_eq!(sorted_path_of("dropletdroplet"), "droplet_sorteddroplet_sorted");
    assert_eq!(sorted_path_of("/data/dropl/et"), "/data/dropl/et");
    assert_eq!(sorted_path_of("drople"), "drople");
    assert_eq!(sorted_path_of(""), "");
    assert_eq!(grid_filename("/a", 0), "/a/0.grid");
    assert_eq!(grid_filename("", 1234567890123), "/1234567890123.grid");
}

#[test]
fn partition_is_done_when_every_sinker_has_finished() {
    let mut saver = SampleSaver::new("/tmp/droplet/t", 1, 0);
    assert!(saver.is_sinkers_done());
    saver.start_partition(7);
    saver.start_partition(8);
    saver.start_partition(7);
    assert!(!saver.is_sinkers_done());
    saver.finish_partition(7);
    assert!(!saver.is_sinkers_done());
    // A second finish of the same sinker changes nothing.
    saver.finish_partition(7);
    assert!(!saver.is_sinkers_done());
    saver.finish_partition(99);
    assert!(!saver.is_sinkers_done());
    saver.finish_partition(8);
    assert!(saver.is_sinkers_done());

    assert!(!saver.is_closed());
    assert_eq!(saver.accept_sample(), Ok(()));
    saver.close_sender();
    assert!(saver.is_closed());
    assert_eq!(saver.accept_sample(), Err(DropletError::Fatal));
}

#[test]
fn worker_info_counts_and_ends_once() {
    let mut info = WorkerInfo::new(3);
    assert_eq!(info.worker_id(), 3);
    assert_eq!(info.total(), 0);
    assert_eq!(info.worker_state(), WorkerState::Running);
    info.add_lines(5);
    info.add_lines(2);
    assert_eq!(info.total(), 7);
    info.set_worker_state(WorkerState::Success);
    assert_eq!(info.worker_state(), WorkerState::Success);
    // A worker that has ended stays what it is.
    info.set_worker_state(WorkerState::Failed);
    assert_eq!(info.worker_state(), WorkerState::Success);
    info.set_worker_state(WorkerState::Running);
    assert_eq!(info.worker_state(), WorkerState::Success);

    let info = WorkerInfo::default();
    assert_eq!(info.worker_id(), 0);
    assert_eq!(info.total(), 0);
    assert_eq!(info.worker_state(), WorkerState::Running);
}

#[test]
fn saver_sums_up_its_workers() {
    let mut saver = SampleSaver::new("/tmp/droplet/t", 1, 0);
    assert!(!saver.is_workers_done());
    assert!(!saver.is_success());
    assert!(!saver.is_failed());
    assert_eq!(saver.get_total_lines(), 0);
    for id in 0..8u32 {
        let mut info = WorkerInfo::new(id);
        info.add_lines(10 + id as usize);
        info.set_worker_state(WorkerState::Success);
        assert!(!saver.is_workers_done());
        saver.record_worker(id, info);
    }
    assert!(saver.is_workers_done());
    assert!(saver.is_success());
    assert!(!saver.is_failed());
    assert_eq!(saver.get_total_lines(), 80 + 28);
    assert_eq!(saver.worker_infos()[3].total(), 13);

    // A report of a worker that does not exist changes nothing.
    saver.record_worker(8, WorkerInfo::new(8));
    assert!(saver.is_workers_done());

    let mut failed = WorkerInfo::new(2);
    failed.set_worker_state(WorkerState::Failed);
    saver.record_worker(2, failed);
    assert!(saver.is_failed());
    assert!(!saver.is_success());

    let mut huge = WorkerInfo::new(0);
    huge.add_lines(usize::MAX);
    huge.add_lines(usize::MAX);
    assert_eq!(huge.total(), u64::MAX);
    saver.record_worker(0, huge);
    assert_eq!(saver.get_total_lines(), u64::MAX);
}

#[test]
fn worker_sorts_what_it_is_handed() {
    let mut worker = SampleSaverWorker::new(4, "/tmp/droplet/t/4.grid");
    assert_eq!(worker.filename(), "/tmp/droplet/t/4.grid");
    assert_eq!(worker.check_filename(), Ok(()));
    assert_eq!(
        SampleSaverWorker::new(0, "").check_filename(),
        Err(DropletError::InvalidArgument)
    );
    let mut lines = Vec::new();
    // 300 batches of two rows do not fit in 256 slots. The batches come
    // almost in order: neighbours have changed places.
    let stamp = |i: u64| (i ^ 1) * 3;
    for i in 0..300u64 {
        lines.extend(worker.on_request(batch_at(&[stamp(i), stamp(i) + 1], HASH)).unwrap());
    }
    assert!(!lines.is_empty());
    assert_eq!(worker.worker_info().total(), lines.len() as u64);
    lines.extend(worker.finish());
    assert_eq!(worker.worker_info().total(), lines.len() as u64);
    assert_eq!(worker.worker_info().worker_state(), WorkerState::Running);
    worker.set_worker_state(WorkerState::Success);
    assert_eq!(worker.worker_info().worker_state(), WorkerState::Success);

    assert_eq!(lines.len(), 150);
    for line in &lines {
        assert_eq!(line.num_rows(), 4);
    }
    let rows: Vec<u64> = lines.iter().flat_map(timestamps).collect();
    let mut expected: Vec<u64> = (0..300u64).flat_map(|i| [i * 3, i * 3 + 1]).collect();
    expected.sort();
    assert_eq!(rows, expected);

    // A worker that has ended takes no batch.
    assert_eq!(
        worker.on_request(batch_at(&[1], HASH)).err(),
        Some(DropletError::Fatal)
    );
}

#[test]
fn worker_fails_on_hash_drift() {
    let mut worker = SampleSaverWorker::new(0, "f");
    assert!(worker.on_request(batch_at(&[1], 1)).is_ok());
    assert_eq!(worker.on_request(batch_at(&[2], 2)).err(), Some(DropletError::Fatal));
    assert_eq!(worker.worker_info().worker_state(), WorkerState::Failed);
    assert_eq!(worker.worker_info().total(), 0);
}

#[test]
fn eighty_buffers_over_eight_workers_merge_into_sorted_files() {
    let mut workers: Vec<SampleSaverWorker> =
        (0..8).map(|i| SampleSaverWorker::new(i, &format!("/tmp/droplet/t/{}.grid", i))).collect();
    let mut files: Vec<Vec<GridBatch>> = (0..8).map(|_| Vec::new()).collect();
    for i in 0..80u64 {
        let w = (i % 8) as usize;
        let t = 1000 + i * 4;
        files[w].extend(workers[w].on_request(batch_at(&[t, t + 1, t + 2, t + 3], HASH)).unwrap());
    }
    let mut saver = SampleSaver::new("/tmp/droplet/t", 1, 0);
    for (w, worker) in workers.iter_mut().enumerate() {
        files[w].extend(worker.finish());
        worker.set_worker_state(WorkerState::Success);
        saver.record_worker(w as u32, worker.worker_info());
        assert_eq!(files[w].len(), 10);
    }
    assert!(saver.is_workers_done());
    assert_eq!(saver.get_total_lines(), 80);

    let written = run_merge(
        &files,
        saver.window_size() as usize,
        saver.batch_size() as usize,
        saver.get_total_lines(),
    )
    .unwrap();
    assert_eq!(written.len(), 80);
    let files_used: Vec<u64> = written.iter().map(|(f, _)| *f).collect();
    assert!(files_used.windows(2).all(|w| w[0] <= w[1]));
    assert_eq!(*files_used.last().unwrap(), 7);
    for f in 0..8u64 {
        assert_eq!(files_used.iter().filter(|x| **x == f).count(), 10);
    }
    let rows: Vec<u64> = written.iter().flat_map(|(_, t)| t.clone()).collect();
    assert_eq!(rows, (1000..1320).collect::<Vec<u64>>());
}

#[test]
fn merge_with_an_empty_file_uses_the_others() {
    let files = vec![
        vec![batch_at(&[1, 5], HASH), batch_at(&[9, 13], HASH)],
        vec![],
        vec![batch_at(&[2, 6], HASH), batch_at(&[10, 14], HASH)],
        vec![batch_at(&[3, 7, 11], HASH)],
    ];
    let written = run_merge(&files, 256, 4, 5).unwrap();
    let rows: Vec<u64> = written.iter().flat_map(|(_, t)| t.clone()).collect();
    assert_eq!(rows, vec![1, 2, 3, 5, 6, 7, 9, 10, 11, 13, 14]);
    // One line per file: five lines over four readers.
    assert_eq!(
        written.iter().map(|(f, t)| (*f, t.len())).collect::<Vec<_>>(),
        vec![(0, 4), (1, 4), (2, 3)]
    );
}

#[test]
fn merge_of_nothing_writes_nothing() {
    assert_eq!(run_merge(&[vec![], vec![], vec![]], 256, 4, 0).unwrap(), vec![]);
    assert_eq!(run_merge(&[], 256, 4, 0).unwrap(), vec![]);
    let mut merge = MergeSorter::new(0, 4, 4, 9);
    assert_eq!(merge.next_reader(), None);
    assert_eq!(merge.lines_per_file(), 0);
    assert_eq!(merge.reader_count(), 0);
    assert!(merge.finish().is_empty());
}

#[test]
fn merge_through_a_small_window_keeps_every_row() {
    let files: Vec<Vec<GridBatch>> = (0..3u64)
        .map(|r| (0..20u64).map(|i| batch_at(&[i * 3 + r, i * 3 + r + 100], HASH)).collect())
        .collect();
    let written = run_merge(&files, 2, 3, 60).unwrap();
    let mut rows: Vec<u64> = written.iter().flat_map(|(_, t)| t.clone()).collect();
    assert_eq!(rows.len(), 120);
    for (_, line) in &written[..written.len() - 1] {
        assert_eq!(line.len(), 3);
    }
    rows.sort();
    let mut expected: Vec<u64> =
        (0..3u64).flat_map(|r| (0..20u64).flat_map(move |i| [i * 3 + r, i * 3 + r + 100])).collect();
    expected.sort();
    assert_eq!(rows, expected);
    // Twenty lines per file.
    assert!(written.iter().enumerate().all(|(n, (f, _))| *f == n as u64 / 20));
}

#[test]
fn merge_reads_round_robin_and_skips_exhausted_readers() {
    let mut merge = MergeSorter::new(3, 256, 4, 0);
    assert_eq!(merge.next_reader(), Some(0));
    merge.on_line(0, batch_at(&[1], HASH)).unwrap();
    assert_eq!(merge.next_reader(), Some(1));
    merge.on_eof(1).unwrap();
    assert_eq!(merge.next_reader(), Some(2));
    merge.on_line(2, batch_at(&[2], HASH)).unwrap();
    assert_eq!(merge.next_reader(), Some(0));
    merge.on_line(0, batch_at(&[3], HASH)).unwrap();
    // Reader 1 is exhausted.
    assert_eq!(merge.next_reader(), Some(2));
    merge.on_eof(2).unwrap();
    assert_eq!(merge.next_reader(), Some(0));
    merge.on_eof(0).unwrap();
    assert_eq!(merge.next_reader(), None);
    let writes = merge.finish();
    assert_eq!(writes.len(), 1);
    assert_eq!(timestamps(&writes[0].gridbuffer), vec![1, 2, 3]);
    // No line per file was asked for: every line has its own file.
    assert_eq!(writes[0].file_index, 0);
}

#[test]
fn merge_follows_the_reader_whose_row_left_last() {
    // One slot: every push after the first lets the rows of the batch before leave.
    let mut merge = MergeSorter::new(3, 1, 1, 100);
    merge.on_line(0, batch_at(&[5], HASH)).unwrap();
    // The heap was full after one row: priming is over, the cursor stays.
    assert_eq!(merge.next_reader(), Some(0));
    let writes = merge.on_line(2, batch_at(&[6], HASH)).unwrap();
    assert_eq!(writes.len(), 1);
    // The row that left came from reader 0.
    assert_eq!(merge.next_reader(), Some(0));
    merge.on_line(1, batch_at(&[7], HASH)).unwrap();
    assert_eq!(merge.next_reader(), Some(2));
}

#[test]
fn merge_refuses_what_it_cannot_take() {
    let mut merge = MergeSorter::new(2, 4, 4, 8);
    assert_eq!(merge.lines_per_file(), 4);
    assert_eq!(
        merge.on_line(2, batch_at(&[1], HASH)).err(),
        Some(DropletError::InvalidArgument)
    );
    assert_eq!(merge.on_eof(2), Err(DropletError::InvalidArgument));
    assert_eq!(merge.on_read_error(5), Err(DropletError::InvalidArgument));
    merge.on_line(0, batch_at(&[1], HASH)).unwrap();
    assert_eq!(merge.on_line(1, batch_at(&[2], HASH + 1)).err(), Some(DropletError::Fatal));
    // A reader that gave no line may go away; one that gave lines may not.
    assert_eq!(merge.on_read_error(1), Ok(()));
    assert_eq!(merge.on_read_error(0), Err(DropletError::Fatal));
    assert_eq!(merge.next_reader(), Some(0));
}

#[test]
fn node_keeps_one_coordinator_per_path() {
    let mut node = DropletServerImpl::new();
    assert!(node.heartbeat(0));
    assert_eq!(node.sink_grid_sample(5), Err(DropletError::NotFound));
    assert_eq!(node.finish_sink_partition(5, 1), Err(DropletError::NotFound));
    assert!(node.saver(5).is_none());
    assert!(node.remove_saver(5).is_none());

    assert_eq!(node.start_sink_partition("/tmp/droplet/a", 5, 1, 9), StartOutcome::Created);
    assert_eq!(node.start_sink_partition("/tmp/droplet/a", 5, 2, 9), StartOutcome::Joined);
    assert_eq!(node.start_sink_partition("/tmp/droplet/b", 6, 1, 3), StartOutcome::Created);
    assert_eq!(node.saver(5).unwrap().path(), "/tmp/droplet/a");
    assert_eq!(node.saver(6).unwrap().partition_index(), 3);
    assert_eq!(node.sink_grid_sample(5), Ok(()));

    assert_eq!(node.finish_sink_partition(5, 1), Ok(FinishOutcome::Open));
    // The same sinker again: nothing changes, the partition stays open.
    assert_eq!(node.finish_sink_partition(5, 1), Ok(FinishOutcome::Open));
    assert_eq!(node.sink_grid_sample(5), Ok(()));
    assert_eq!(node.finish_sink_partition(5, 2), Ok(FinishOutcome::Closed));
    assert_eq!(node.sink_grid_sample(5), Err(DropletError::Fatal));
    assert!(node.saver(5).unwrap().is_closed());
    assert_eq!(node.sink_grid_sample(6), Ok(()));

    let mut info = WorkerInfo::new(0);
    info.add_lines(3);
    assert_eq!(node.record_worker(5, 0, info), Ok(()));
    assert_eq!(node.record_worker(9, 0, info), Err(DropletError::NotFound));
    assert_eq!(node.saver(5).unwrap().get_total_lines(), 3);

    // A partition is closed once.
    assert_eq!(node.finish_sink_partition(5, 2), Ok(FinishOutcome::Open));
    assert_eq!(node.finish_sink_partition(5, 77), Ok(FinishOutcome::Open));
    assert!(node.saver(5).unwrap().is_closed());

    let saver = node.remove_saver(5).unwrap();
    assert_eq!(saver.path_id(), 5);
    assert!(node.saver(5).is_none());
    assert_eq!(node.sink_grid_sample(5), Err(DropletError::NotFound));
    assert_eq!(node.sink_grid_sample(6), Ok(()));
}

fn all_workers(node: &mut DropletServerImpl, path_id: u32, state: WorkerState) {
    for id in 0..8u32 {
        let mut info = WorkerInfo::new(id);
        info.set_worker_state(state);
        node.record_worker(path_id, id, info).unwrap();
    }
}

#[test]
fn a_partition_is_marked_complete_when_it_was_started_closed_and_merged() {
    let mut node = DropletServerImpl::new();
    // Never started.
    assert_eq!(node.complete_partition(5, true), Err(DropletError::NotFound));

    assert_eq!(node.start_sink_partition("/tmp/droplet/a", 5, 1, 9), StartOutcome::Created);
    // Not closed.
    assert_eq!(node.complete_partition(5, true), Err(DropletError::Fatal));
    assert_eq!(node.finish_sink_partition(5, 1), Ok(FinishOutcome::Closed));
    // Workers still running.
    assert_eq!(node.complete_partition(5, true), Err(DropletError::Fatal));
    all_workers(&mut node, 5, WorkerState::Success);
    // The merge failed.
    assert_eq!(node.complete_partition(5, false), Err(DropletError::Fatal));
    assert!(node.saver(5).is_some());
    // No row was received; the partition is complete all the same.
    assert_eq!(node.saver(5).unwrap().get_total_lines(), 0);
    assert_eq!(node.complete_partition(5, true), Ok("/tmp/droplet/a/SUCCESS".to_string()));
    assert!(node.saver(5).is_none());
    assert_eq!(node.complete_partition(5, true), Err(DropletError::NotFound));

    // A failed worker.
    assert_eq!(node.start_sink_partition("/tmp/droplet/b", 6, 1, 9), StartOutcome::Created);
    assert_eq!(node.finish_sink_partition(6, 1), Ok(FinishOutcome::Closed));
    all_workers(&mut node, 6, WorkerState::Failed);
    assert_eq!(node.complete_partition(6, true), Err(DropletError::Fatal));

    // A partition without a path.
    assert_eq!(node.start_sink_partition("", 7, 1, 9), StartOutcome::Created);
    assert_eq!(node.finish_sink_partition(7, 1), Ok(FinishOutcome::Closed));
    all_workers(&mut node, 7, WorkerState::Success);
    assert_eq!(node.complete_partition(7, true), Err(DropletError::InvalidArgument));
}

#[test]
fn workers_are_polled_and_merged_when_done() {
    let mut saver = SampleSaver::new("/tmp/droplet/t", 1, 0);
    assert_eq!(saver.poll_workers(), WorkerPoll::Running);
    assert_eq!(saver.merge_sort().err(), Some(DropletError::Fatal));
    for id in 0..7u32 {
        let mut info = WorkerInfo::new(id);
        info.add_lines(10);
        info.set_worker_state(WorkerState::Success);
        saver.record_worker(id, info);
    }
    assert_eq!(saver.poll_workers(), WorkerPoll::Running);
    assert!(saver.merge_sort().is_err());
    let mut last = WorkerInfo::new(7);
    last.add_lines(18);
    last.set_worker_state(WorkerState::Success);
    saver.record_worker(7, last);
    assert_eq!(saver.poll_workers(), WorkerPoll::Done);

    let mut merge = saver.merge_sort().unwrap();
    assert_eq!(merge.reader_count(), 8);
    assert_eq!(merge.lines_per_file(), 11);
    assert_eq!(merge.lines_written(), 0);
    assert_eq!(merge.next_reader(), Some(0));

    // A single failure fails the partition, whatever the others did.
    let mut failed = WorkerInfo::new(3);
    failed.set_worker_state(WorkerState::Failed);
    saver.record_worker(3, failed);
    assert_eq!(saver.poll_workers(), WorkerPoll::Failed);
    assert_eq!(saver.merge_sort().err(), Some(DropletError::Fatal));
}
