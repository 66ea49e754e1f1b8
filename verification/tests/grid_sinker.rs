use droplet::error::DropletError;
use droplet::grid::GridBatch;
use droplet::grid_sinker::GridSinker;
use droplet::grid_sinker::SinkerAction;
use droplet::grid_sinker::SinkerStep;

const DAY: u64 = 19_000 * 86_400;
const HASH: u32 = 7;

fn batch_at(timestamps: &[u64], hash: u32) -> GridBatch {
    let mut gb = GridBatch::new_with_num_rows_col_ids_hash(timestamps.len(), vec![2, 4, 5, 6], hash);
    for (row, t) in timestamps.iter().enumerate() {
        gb.push_u64(row, 0, *t);
    }
    gb
}

fn timestamps(gb: &GridBatch) -> Vec<u64> {
    (0..gb.num_rows()).filter_map(|i| gb.get_u64(i, 0)).collect()
}

/// A request in short: its name, its partition, the timestamps it carries.
fn short(action: &SinkerAction) -> (&'static str, u32, Vec<u64>) {
    match action {
        SinkerAction::Heartbeat { sinker_id } => ("heartbeat", *sinker_id, vec![]),
        SinkerAction::ResolveEndpoint { partition_index } => ("resolve", *partition_index, vec![]),
        SinkerAction::StartSinkPartition { sinker_id, partition_index } => {
            assert_eq!(*sinker_id, 42);
            ("start", *partition_index, vec![])
        }
        SinkerAction::SinkGridSample { path_id, sinker_id, partition_index, gridbuffer } => {
            assert_eq!((*path_id, *sinker_id), (5, 42));
            ("sink", *partition_index, timestamps(gridbuffer))
        }
        SinkerAction::FinishSinkPartition { path_id, sinker_id, partition_index } => {
            assert_eq!((*path_id, *sinker_id), (5, 42));
            ("finish", *partition_index, vec![])
        }
    }
}

fn shorts(step: &SinkerStep) -> Vec<(&'static str, u32, Vec<u64>)> {
    step.actions.iter().map(short).collect()
}

fn new_sinker(count: u32) -> GridSinker {
    GridSinker::new("clicks", count, 42, "/tmp/droplet/tables/clicks".to_string(), 5)
}

#[test]
fn sinker_knows_what_it_was_made_with() {
    let sinker = new_sinker(24);
    assert_eq!(sinker.table_name(), "clicks");
    assert_eq!(sinker.path(), "/tmp/droplet/tables/clicks");
    assert_eq!(sinker.path_id(), 5);
    assert_eq!(sinker.sinker_id(), 42);
    assert_eq!(sinker.partition_count_per_day(), 24);
    assert_eq!(sinker.partition_index(), None);
    assert_eq!(sinker.server_endpoint(), "");
}

#[test]
fn a_new_endpoint_needs_a_new_connection() {
    let mut sinker = new_sinker(24);
    assert!(sinker.switch_endpoint("node-1:50052".to_string()));
    assert!(!sinker.switch_endpoint("node-1:50052".to_string()));
    assert!(sinker.switch_endpoint("node-2:50052".to_string()));
    assert_eq!(sinker.server_endpoint(), "node-2:50052");
}

#[test]
fn partition_crossing_finishes_and_starts() {
    let nine = DAY + 9 * 3600;
    let mut sinker = new_sinker(24);
    let mut all = Vec::new();

    // Four rows of the ninth hour make one batch of their own.
    let step = sinker.sink(batch_at(&[nine, nine + 1800, nine + 3599, nine + 60], HASH));
    assert_eq!(step.error, None);
    all.extend(shorts(&step));
    assert_eq!(sinker.partition_index(), Some(9));

    let step = sinker.sink(batch_at(&[nine + 3600], HASH));
    assert_eq!(step.error, None);
    all.extend(shorts(&step));

    let step = sinker.finish();
    assert_eq!(step.error, None);
    all.extend(shorts(&step));
    assert_eq!(sinker.partition_index(), None);

    assert_eq!(
        all,
        vec![
            ("heartbeat", 42, vec![]),
            ("start", 9, vec![]),
            ("sink", 9, vec![nine, nine + 60, nine + 1800, nine + 3599]),
            ("finish", 9, vec![]),
            ("resolve", 10, vec![]),
            ("start", 10, vec![]),
            ("sink", 10, vec![nine + 3600]),
            ("finish", 10, vec![]),
        ]
    );
}

#[test]
fn every_batch_is_sent_to_the_partition_of_its_first_row() {
    let mut sinker = new_sinker(24);
    let mut all = Vec::new();
    let mut t = DAY;
    let step = sinker.sink(batch_at(&[t], HASH));
    all.extend(shorts(&step));
    for _ in 0..40 {
        t += 1700;
        let step = sinker.sink(batch_at(&[t + 2, t, t + 1], HASH));
        assert_eq!(step.error, None);
        all.extend(shorts(&step));
    }
    all.extend(shorts(&sinker.finish()));

    let mut open: Option<u32> = None;
    let mut sent: Vec<u64> = Vec::new();
    for (name, partition, stamps) in all {
        match name {
            "start" => {
                assert_eq!(open, None);
                open = Some(partition);
            }
            "finish" => {
                assert_eq!(open, Some(partition));
                open = None;
            }
            "sink" => {
                assert_eq!(open, Some(partition));
                assert!(!stamps.is_empty());
                assert_eq!(((stamps[0] % 86_400) * 24 / 86_400) as u32, partition);
                let span = 86_400 / 24;
                assert!((partition as u64) * span <= stamps[0] % 86_400);
                assert!(stamps[0] % 86_400 < (partition as u64 + 1) * span);
                sent.extend(stamps);
            }
            _ => {}
        }
    }
    assert_eq!(open, None);
    assert_eq!(sent.len(), 1 + 40 * 3);
    // What is sent is in key order.
    assert!(sent.windows(2).all(|w| w[0] <= w[1]));
}

#[test]
fn a_batch_that_spans_a_boundary_goes_with_its_first_row() {
    let nine = DAY + 9 * 3600;
    let mut sinker = new_sinker(24);
    let mut all = shorts(&sinker.sink(batch_at(&[nine, nine + 3599], HASH)));
    all.extend(shorts(&sinker.sink(batch_at(&[nine + 3600], HASH))));
    all.extend(shorts(&sinker.finish()));
    // The three rows leave the heap as one batch, which goes where its
    // first row goes.
    assert_eq!(
        all,
        vec![
            ("heartbeat", 42, vec![]),
            ("start", 9, vec![]),
            ("sink", 9, vec![nine, nine + 3599, nine + 3600]),
            ("finish", 9, vec![]),
        ]
    );
}

#[test]
fn the_first_batch_is_sorted_too() {
    let mut sinker = new_sinker(24);
    let step = sinker.sink(batch_at(&[DAY + 5, DAY + 3], HASH));
    assert_eq!(step.error, None);
    // Nothing is sent before the rows have left the heap.
    assert_eq!(shorts(&step), vec![("heartbeat", 42, vec![]), ("start", 0, vec![])]);
    assert_eq!(sinker.partition_index(), Some(0));
    let step = sinker.finish();
    assert_eq!(
        shorts(&step),
        vec![("sink", 0, vec![DAY + 3, DAY + 5]), ("finish", 0, vec![])]
    );
}

#[test]
fn batches_are_sorted_before_they_are_sent() {
    let mut sinker = new_sinker(1);
    assert_eq!(
        shorts(&sinker.sink(batch_at(&[DAY + 30, DAY + 10], HASH))),
        vec![("heartbeat", 42, vec![]), ("start", 0, vec![])]
    );
    assert!(sinker.sink(batch_at(&[DAY + 20, DAY + 40], HASH)).actions.is_empty());
    // The window is full: rows leave until a slot is free. Three rows do
    // not make a batch yet.
    assert!(sinker.sink(batch_at(&[DAY + 50], HASH)).actions.is_empty());
    let step = sinker.sink(batch_at(&[DAY + 45], HASH));
    assert_eq!(shorts(&step), vec![("sink", 0, vec![DAY + 10, DAY + 20, DAY + 30, DAY + 40])]);
    let step = sinker.finish();
    assert_eq!(
        shorts(&step),
        vec![("sink", 0, vec![DAY + 45, DAY + 50]), ("finish", 0, vec![])]
    );
}

#[test]
fn sinker_stops_on_what_it_cannot_route() {
    // No rows in the batch that is to open a partition.
    let mut sinker = new_sinker(24);
    let step = sinker.sink(batch_at(&[], HASH));
    assert_eq!(step.error, Some(DropletError::InvalidArgument));
    assert!(step.actions.is_empty());
    assert_eq!(sinker.partition_index(), None);

    // A table without partitions.
    let mut sinker = new_sinker(0);
    let step = sinker.sink(batch_at(&[DAY], HASH));
    assert_eq!(step.error, Some(DropletError::InvalidArgument));
    assert!(step.actions.is_empty());

    // Another column hash in mid-run.
    let mut sinker = new_sinker(24);
    assert_eq!(sinker.sink(batch_at(&[DAY], HASH)).error, None);
    assert_eq!(sinker.sink(batch_at(&[DAY + 1], HASH)).error, None);
    let step = sinker.sink(batch_at(&[DAY + 2], HASH + 1));
    assert_eq!(step.error, Some(DropletError::InvalidArgument));
    assert!(step.actions.is_empty());
    assert_eq!(sinker.partition_index(), Some(0));

    // Another column hash after a finish: no partition is opened.
    let mut sinker = new_sinker(24);
    assert_eq!(sinker.sink(batch_at(&[DAY], HASH)).error, None);
    assert_eq!(sinker.finish().error, None);
    let step = sinker.sink(batch_at(&[DAY + 2], HASH + 1));
    assert_eq!(step.error, Some(DropletError::InvalidArgument));
    assert!(step.actions.is_empty());
    assert_eq!(sinker.partition_index(), None);

    // A timestamp without a date, found when the row leaves the heap at
    // the head of a batch.
    let mut sinker = new_sinker(24);
    assert_eq!(sinker.sink(batch_at(&[DAY, DAY + 1, DAY + 2, DAY + 3], HASH)).error, None);
    assert_eq!(sinker.sink(batch_at(&[u64::MAX], HASH)).error, None);
    let step = sinker.finish();
    assert_eq!(step.error, Some(DropletError::InvalidArgument));
    assert_eq!(shorts(&step), vec![("sink", 0, vec![DAY, DAY + 1, DAY + 2, DAY + 3])]);
    assert_eq!(sinker.partition_index(), Some(0));
}

#[test]
fn a_sinker_that_never_started_has_nothing_to_finish() {
    let mut sinker = new_sinker(24);
    let step = sinker.finish();
    assert_eq!(step.error, None);
    assert!(step.actions.is_empty());
}
