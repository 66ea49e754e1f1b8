use droplet::error::DropletError;
use droplet::grid::GridBatch;
use droplet::sample_key::SampleKey;
use droplet::window_heap::WindowHeap;

const TEST_HASH: u32 = 0x5eed_0001;

fn create_test_gridbuffer(num_rows: usize) -> GridBatch {
    let feature_ids: Vec<u32> = vec![101, 102, 103, 104];

    let col_ids: Vec<u32> = SampleKey::get_sample_key_ids()
        .iter()
        .chain(feature_ids.iter())
        .map(|id| *id)
        .collect();

    let mut gb = GridBatch::new_with_num_rows_col_ids_hash(num_rows, col_ids, TEST_HASH);

    for i in 0..num_rows {
        gb.push_u64(i, 0, i as u64);
        gb.push_u64(i, 1, (i + 1) as u64);
        gb.push_u64(i, 2, (i + 2) as u64);
        gb.push_u64(i, 3, (i + 3) as u64);

        gb.push_u64(i, 4, 10 as u64);
        gb.push_u64(i, 5, 11 as u64);
        gb.push_u64(i, 6, 12 as u64);
        gb.push_u64(i, 7, 13 as u64);
    }

    gb
}

/// One row with the given timestamp and a payload that tells rows apart.
fn single_row(timestamp: u64, payload: u64, hash: u32) -> GridBatch {
    let mut gb = GridBatch::new_with_num_rows_col_ids_hash(1, vec![2, 4, 5, 6, 9], hash);
    gb.push_u64(0, 0, timestamp);
    gb.push_u64(0, 1, 7);
    gb.push_u64(0, 2, 8);
    gb.push_u64(0, 3, 9);
    gb.push_u64_values(0, 4, &[payload, payload + 1]);
    gb
}

fn timestamps(gb: &GridBatch) -> Vec<u64> {
    (0..gb.num_rows()).filter_map(|i| gb.get_u64(i, 0)).collect()
}

fn take_all(heap: &mut WindowHeap) -> Vec<GridBatch> {
    let mut out = Vec::new();
    while let Some(gb) = heap.get_out_gridbuffer() {
        out.push(gb);
    }
    out
}

#[test]
fn test_window_heap_push() {
    let mut heap = WindowHeap::new(3, 4);

    // Push 3 GridBuffers (window size)
    heap.push(create_test_gridbuffer(2)).unwrap();
    heap.push(create_test_gridbuffer(2)).unwrap();
    heap.push(create_test_gridbuffer(2)).unwrap();

    assert!(!heap.is_full());
    assert_eq!(heap.len(), 6); // 3 GridBuffers * 2 rows each

    // Push another GridBuffer, should trigger output
    heap.push(create_test_gridbuffer(2)).unwrap();

    assert_eq!(heap.out_gridbuffers().len(), 1);
    let out_gb = heap.get_out_gridbuffer().unwrap();
    assert_eq!(out_gb.num_rows(), 4); // batch size
}

#[test]
fn test_window_heap_order() {
    let mut heap = WindowHeap::new(3, 4);

    heap.push(create_test_gridbuffer(2)).unwrap();
    heap.push(create_test_gridbuffer(2)).unwrap();
    heap.push(create_test_gridbuffer(2)).unwrap();

    // Push to trigger output
    heap.push(create_test_gridbuffer(2)).unwrap();

    let out_gb = heap.get_out_gridbuffer().unwrap();
    assert_eq!(out_gb.num_rows(), 4);

    // Check if the output is in correct order
    let timestamps: Vec<u64> = (0..4).filter_map(|i| out_gb.get_u64(i, 0)).collect();
    assert_eq!(timestamps, vec![0, 0, 0, 1]);
}

#[test]
fn test_window_heap_overflow() {
    let mut heap = WindowHeap::new(2, 4);

    heap.push(create_test_gridbuffer(2)).unwrap();
    heap.push(create_test_gridbuffer(2)).unwrap();

    assert!(!heap.is_full());

    // This should trigger overflow handling
    heap.push(create_test_gridbuffer(2)).unwrap();
    heap.push(create_test_gridbuffer(2)).unwrap();

    assert_eq!(heap.out_gridbuffers().len(), 1);

    let out_gb = heap.get_out_gridbuffer();

    assert!(out_gb.is_some());

    let timestamp = out_gb.unwrap().get_u64(0, 0).unwrap();
    assert_eq!(timestamp, 0);
}

#[test]
fn three_single_rows_then_drain() {
    let mut heap = WindowHeap::new(3, 2);
    heap.push(single_row(1, 10, TEST_HASH)).unwrap();
    heap.push(single_row(3, 30, TEST_HASH)).unwrap();
    heap.push(single_row(2, 20, TEST_HASH)).unwrap();
    assert_eq!(heap.len(), 3);
    assert!(heap.out_gridbuffers().is_empty());

    heap.drain();
    assert!(heap.is_empty());

    let out = take_all(&mut heap);
    assert_eq!(out.len(), 2);
    assert_eq!(timestamps(&out[0]), vec![1, 2]);
    assert_eq!(timestamps(&out[1]), vec![3]);
    // Cells are copied by value, lists included.
    assert_eq!(out[0].get_u64_values(0, 4), vec![10, 11]);
    assert_eq!(out[0].get_u64_values(1, 4), vec![20, 21]);
    assert_eq!(out[1].get_u64_values(0, 4), vec![30, 31]);
    // Output batches carry the columns of the first input.
    assert_eq!(out[0].col_ids(), &vec![2, 4, 5, 6, 9]);
    assert_eq!(out[1].col_ids_hash(), TEST_HASH);
}

#[test]
fn hash_drift_is_refused_and_changes_nothing() {
    let mut heap = WindowHeap::new(2, 4);
    heap.push(single_row(5, 50, 0xA)).unwrap();

    let res = heap.push(single_row(4, 40, 0xB));
    assert_eq!(res, Err(DropletError::InvalidArgument));

    assert_eq!(heap.len(), 1);
    assert!(heap.out_gridbuffers().is_empty());
    heap.drain();
    let out = take_all(&mut heap);
    assert_eq!(out.len(), 1);
    assert_eq!(timestamps(&out[0]), vec![5]);
    assert_eq!(out[0].col_ids_hash(), 0xA);
}

#[test]
fn identical_keys_keep_multiplicity_and_order() {
    let run = || {
        let mut heap = WindowHeap::new(2, 3);
        for payload in 0..7u64 {
            heap.push(single_row(42, payload * 100, TEST_HASH)).unwrap();
        }
        heap.drain();
        let mut payloads = Vec::new();
        for gb in take_all(&mut heap) {
            assert_eq!(timestamps(&gb), vec![42; gb.num_rows()]);
            for r in 0..gb.num_rows() {
                payloads.push(gb.get_u64_values(r, 4)[0]);
            }
        }
        payloads
    };
    let first = run();
    assert_eq!(first.len(), 7);
    let mut sorted = first.clone();
    sorted.sort();
    assert_eq!(sorted, vec![0, 100, 200, 300, 400, 500, 600]);
    // The same input gives the same output.
    assert_eq!(run(), first);
    // Equal keys leave by slot: slot 0 was filled first.
    assert_eq!(first[0], 0);
}

#[test]
fn outputs_leave_oldest_first() {
    let mut heap = WindowHeap::new(1, 1);
    let mut gb = GridBatch::new_with_num_rows_col_ids_hash(3, vec![2, 4, 5, 6], TEST_HASH);
    gb.push_u64(0, 0, 30);
    gb.push_u64(1, 0, 10);
    gb.push_u64(2, 0, 20);
    heap.push(gb).unwrap();
    heap.drain();
    assert_eq!(heap.out_gridbuffers().len(), 3);
    assert_eq!(timestamps(&heap.get_out_gridbuffer().unwrap()), vec![10]);
    assert_eq!(timestamps(&heap.get_out_gridbuffer().unwrap()), vec![20]);
    assert_eq!(timestamps(&heap.get_out_gridbuffer().unwrap()), vec![30]);
    assert!(heap.get_out_gridbuffer().is_none());
}

#[test]
fn empty_batch_takes_no_slot() {
    let mut heap = WindowHeap::new(1, 2);
    heap.push(GridBatch::new_with_num_rows_col_ids_hash(0, vec![2, 4, 5, 6, 9], TEST_HASH))
        .unwrap();
    heap.push(single_row(9, 1, TEST_HASH)).unwrap();
    heap.push(single_row(8, 2, TEST_HASH)).unwrap();
    heap.drain();
    let out = take_all(&mut heap);
    assert_eq!(out.len(), 1);
    assert_eq!(timestamps(&out[0]), vec![9, 8]);
}

#[test]
fn heap_without_slots_takes_nothing() {
    let mut heap = WindowHeap::new(0, 2);
    assert_eq!(
        heap.push(single_row(1, 1, TEST_HASH)),
        Err(DropletError::InvalidArgument)
    );
    assert_eq!(heap.len(), 0);
    heap.drain();
    assert!(heap.get_out_gridbuffer().is_none());
}

#[test]
fn reader_hint_names_the_source_of_the_last_row() {
    let mut heap = WindowHeap::new(2, 8);
    assert_eq!(heap.get_out_reader_index(), None);
    heap.push_with_reader_index(single_row(5, 0, TEST_HASH), 3).unwrap();
    heap.push_with_reader_index(single_row(2, 0, TEST_HASH), 6).unwrap();
    assert_eq!(heap.get_out_reader_index(), None);
    // No slot is free: the smallest row, read from reader 6, leaves.
    heap.push_with_reader_index(single_row(7, 0, TEST_HASH), 1).unwrap();
    assert_eq!(heap.get_out_reader_index(), Some(6));
    assert_eq!(heap.len(), 2);
}
