use droplet::error::DropletError;
use droplet::grid::CellKind;
use droplet::grid::GridBatch;
use droplet::grid_sample::is_valid_sample;
use droplet::grid_sample::GridRow;
use droplet::grid_sample::GridRows;
use droplet::grid_sample::GridSample;
use droplet::sample_key::SampleKey;

#[test]
fn new_batch_has_empty_cells() {
    let gb = GridBatch::new_with_num_rows_col_ids_hash(2, vec![2, 4, 5, 6, 11], 77);
    assert_eq!(gb.num_rows(), 2);
    assert_eq!(gb.num_cols(), 5);
    assert_eq!(gb.col_ids(), &vec![2, 4, 5, 6, 11]);
    assert_eq!(gb.col_ids_hash(), 77);
    for r in 0..2 {
        for c in 0..5 {
            assert_eq!(gb.get_cell(r, c), None);
            assert_eq!(gb.get_u64(r, c), None);
            assert_eq!(gb.get_f32(r, c), None);
            assert!(gb.get_u64_values(r, c).is_empty());
            assert!(gb.get_f32_values(r, c).is_empty());
        }
    }
    let empty = GridBatch::new();
    assert_eq!(empty.num_rows(), 0);
    assert_eq!(empty.num_cols(), 0);
    assert_eq!(empty.col_ids_hash(), 0);
}

#[test]
fn cells_hold_what_was_pushed() {
    let mut gb = GridBatch::new_with_num_rows_col_ids_hash(2, vec![2, 4, 5, 6, 11, 12], 1);
    gb.push_u64(0, 0, 99);
    gb.push_u64_values(0, 4, &[1, 2, 3]);
    gb.push_f32(1, 5, 1.5f32.to_bits());
    gb.push_f32_values(1, 4, &[0.25f32.to_bits(), (-2.0f32).to_bits()]);

    assert_eq!(gb.get_cell(0, 0), Some(CellKind::U64));
    assert_eq!(gb.get_u64(0, 0), Some(99));
    assert_eq!(gb.get_u64_values(0, 0), vec![99]);

    assert_eq!(gb.get_cell(0, 4), Some(CellKind::U64List));
    assert_eq!(gb.get_u64(0, 4), None);
    assert_eq!(gb.get_u64_values(0, 4), vec![1, 2, 3]);

    assert_eq!(gb.get_cell(1, 5), Some(CellKind::F32));
    assert_eq!(gb.get_f32(1, 5).map(f32::from_bits), Some(1.5));
    assert_eq!(gb.get_u64(1, 5), None);

    assert_eq!(gb.get_cell(1, 4), Some(CellKind::F32List));
    let floats: Vec<f32> = gb.get_f32_values(1, 4).into_iter().map(f32::from_bits).collect();
    assert_eq!(floats, vec![0.25, -2.0]);

    // A later push replaces the cell.
    gb.push_u64(0, 4, 8);
    assert_eq!(gb.get_cell(0, 4), Some(CellKind::U64));
    assert_eq!(gb.get_u64_values(0, 4), vec![8]);
}

#[test]
fn pushes_outside_the_batch_store_nothing() {
    let mut gb = GridBatch::new_with_num_rows_col_ids_hash(1, vec![2, 4], 1);
    gb.push_u64(1, 0, 5);
    gb.push_u64(0, 2, 5);
    gb.push_u64_values(7, 7, &[5]);
    assert_eq!(gb.get_cell(0, 0), None);
    assert_eq!(gb.get_cell(0, 1), None);
    assert_eq!(gb.get_u64(1, 0), None);
    assert_eq!(gb.get_u64(0, 2), None);
}

#[test]
fn columns_are_found_by_id() {
    let mut gb = GridBatch::new_with_num_rows_col_ids_hash(1, vec![2, 4, 5, 6, 30, 31, 30], 1);
    assert_eq!(gb.get_col_by_id(2), Some(0));
    assert_eq!(gb.get_col_by_id(30), Some(4));
    assert_eq!(gb.get_col_by_id(31), Some(5));
    assert_eq!(gb.get_col_by_id(32), None);

    assert_eq!(gb.push_u64_by_col_id(0, 31, 17), Ok(()));
    assert_eq!(gb.get_u64(0, 5), Some(17));
    assert_eq!(gb.push_u64_values_by_col_id(0, 30, &[1, 2]), Ok(()));
    assert_eq!(gb.get_u64_values(0, 4), vec![1, 2]);
    assert_eq!(gb.get_cell(0, 6), None);
    assert_eq!(gb.push_f32_by_col_id(0, 6, 3.0f32.to_bits()), Ok(()));
    assert_eq!(gb.get_f32(0, 3).map(f32::from_bits), Some(3.0));
    assert_eq!(gb.push_f32_values_by_col_id(0, 5, &[7]), Ok(()));
    assert_eq!(gb.get_f32_values(0, 2), vec![7]);

    assert_eq!(gb.push_u64_by_col_id(0, 99, 1), Err(DropletError::NotFound));
    assert_eq!(gb.push_u64_values_by_col_id(0, 99, &[1]), Err(DropletError::NotFound));
    assert_eq!(gb.push_f32_by_col_id(0, 99, 1), Err(DropletError::NotFound));
    assert_eq!(gb.push_f32_values_by_col_id(0, 99, &[1]), Err(DropletError::NotFound));
}

#[test]
fn sample_key_is_read_from_the_first_four_cells() {
    let mut gb = GridBatch::new_with_num_rows_col_ids_hash(2, vec![2, 4, 5, 6], 1);
    gb.push_u64(0, 0, 10);
    gb.push_u64(0, 1, 20);
    gb.push_u64(0, 2, 30);
    gb.push_u64(0, 3, 40);
    gb.push_u64(1, 0, 11);
    gb.push_u64_values(1, 1, &[5, 6]);
    assert!(gb.sample_key(0) == SampleKey::new(10, 20, 30, 40));
    // A cell that holds no integer scalar counts as 0.
    assert!(gb.sample_key(1) == SampleKey::new(11, 0, 0, 0));
    assert!(gb.projected_key(0, 2) == SampleKey::new(10, 20, 0, 0));

    let row = GridRow::new(&gb, 0);
    assert!(row.get_sample_key() == SampleKey::new(10, 20, 30, 40));
    assert_eq!(row.get_u64(2), Some(30));
    assert_eq!(row.get_cell(3), Some(CellKind::U64));
    assert_eq!(row.get_u64_values(1), vec![20]);
    assert_eq!(row.get_f32(0), None);
    assert!(row.get_f32_values(0).is_empty());
    assert_eq!(row.row(), 0);
    assert_eq!(row.get_gridbuffer().num_rows(), 2);
    assert!(row.is_valid_sample());
    // A row outside the batch has the key of empty cells.
    assert!(GridRow::new(&gb, 5).get_sample_key() == SampleKey::new(0, 0, 0, 0));
}

#[test]
fn sample_batches_need_the_key_columns_first() {
    let good = GridBatch::new_with_num_rows_col_ids_hash(1, vec![2, 4, 5, 6, 100], 1);
    assert!(is_valid_sample(&good));
    assert!(GridSample::from_gridbuffer(good).is_ok());

    let exact = GridBatch::new_with_num_rows_col_ids_hash(1, vec![2, 4, 5, 6], 1);
    assert!(GridSample::from_gridbuffer(exact).is_ok());

    let short = GridBatch::new_with_num_rows_col_ids_hash(1, vec![2, 4, 5], 1);
    assert!(!is_valid_sample(&short));
    assert!(matches!(
        GridSample::from_gridbuffer(short),
        Err(DropletError::InvalidArgument)
    ));

    let shuffled = GridBatch::new_with_num_rows_col_ids_hash(1, vec![4, 2, 5, 6, 100], 1);
    assert!(matches!(
        GridSample::from_gridbuffer(shuffled),
        Err(DropletError::InvalidArgument)
    ));
}

#[test]
fn grid_sample_stores_and_reads_keys() {
    let mut sample = GridSample::new(2, &vec![50, 51], 9);
    assert_eq!(sample.gridbuffer.col_ids(), &vec![2, 4, 5, 6, 50, 51]);
    assert_eq!(sample.gridbuffer.col_ids_hash(), 9);
    assert_eq!(sample.gridbuffer.num_rows(), 2);

    sample.set_sample_key(1, &SampleKey::new(7, 8, 9, 10));
    assert!(sample.get_sample_key(1) == SampleKey::new(7, 8, 9, 10));
    assert!(sample.get_sample_key(0) == SampleKey::new(0, 0, 0, 0));
    assert_eq!(sample.get_timestamp(1), 7);
    assert_eq!(sample.get_user_id(1), 8);
    assert_eq!(sample.get_item_id(1), 9);
    assert_eq!(sample.get_request_id(1), 10);
    assert_eq!(sample.get_timestamp(0), 0);

    sample.push_u64(0, 4, 3);
    sample.push_u64_values(0, 5, &[4, 5]);
    assert_eq!(sample.push_u64_by_col_id(1, 50, 6), Ok(()));
    assert_eq!(sample.push_u64_values_by_col_id(1, 51, &[7]), Ok(()));
    assert_eq!(sample.push_u64_by_col_id(1, 52, 6), Err(DropletError::NotFound));
    assert_eq!(sample.gridbuffer.get_u64(0, 4), Some(3));
    assert_eq!(sample.gridbuffer.get_u64_values(0, 5), vec![4, 5]);
    assert_eq!(sample.gridbuffer.get_u64(1, 4), Some(6));
    assert_eq!(sample.gridbuffer.get_u64_values(1, 5), vec![7]);

    sample.push_f32(0, 4, 2.5f32.to_bits());
    sample.push_f32_values(0, 5, &[1.0f32.to_bits()]);
    assert_eq!(sample.push_f32_by_col_id(1, 50, 0.5f32.to_bits()), Ok(()));
    assert_eq!(sample.push_f32_values_by_col_id(1, 53, &[1]), Err(DropletError::NotFound));
    assert_eq!(sample.gridbuffer.get_f32(0, 4).map(f32::from_bits), Some(2.5));
    assert_eq!(sample.gridbuffer.get_f32(1, 4).map(f32::from_bits), Some(0.5));
}

#[test]
fn rows_are_sorted_by_key_and_equal_keys_keep_their_order() {
    let mut sample = GridSample::new(5, &vec![50], 9);
    let keys = [(3u64, 1u64), (1, 1), (2, 9), (1, 0), (2, 9)];
    for (row, (t, u)) in keys.iter().enumerate() {
        sample.set_sample_key(row, &SampleKey::new(*t, *u, 0, 0));
        sample.push_u64(row, 4, row as u64);
    }
    sample.sort_rows_by_sample_key();
    let got: Vec<(u64, u64, u64)> = (0..5)
        .map(|r| {
            (
                sample.get_timestamp(r),
                sample.get_user_id(r),
                sample.gridbuffer.get_u64(r, 4).unwrap(),
            )
        })
        .collect();
    assert_eq!(got, vec![(1, 0, 3), (1, 1, 1), (2, 9, 2), (2, 9, 4), (3, 1, 0)]);
    assert_eq!(sample.gridbuffer.col_ids(), &vec![2, 4, 5, 6, 50]);
}

#[test]
fn grid_rows_copy_rows_into_a_new_batch() {
    let mut a = GridBatch::new_with_num_rows_col_ids_hash(2, vec![2, 4, 5, 6, 9], 3);
    a.push_u64(0, 0, 1);
    a.push_u64(1, 0, 2);
    a.push_u64_values(1, 4, &[8, 9]);
    let mut b = GridBatch::new_with_num_rows_col_ids_hash(1, vec![2, 4, 5, 6, 9], 3);
    b.push_u64(0, 0, 3);
    b.push_f32_values(0, 4, &[4.5f32.to_bits()]);

    let mut rows = GridRows::new();
    assert_eq!(rows.len(), 0);
    assert_eq!(rows.to_gridbuffer().num_rows(), 0);
    rows.push(GridRow::new(&b, 0));
    rows.push(GridRow::new(&a, 1));
    rows.push(GridRow::new(&a, 0));
    assert_eq!(rows.len(), 3);
    assert!(rows.is_valid_sample());

    let gb = rows.to_gridbuffer();
    assert_eq!(gb.num_rows(), 3);
    assert_eq!(gb.col_ids(), &vec![2, 4, 5, 6, 9]);
    assert_eq!(gb.col_ids_hash(), 3);
    assert_eq!(gb.get_u64(0, 0), Some(3));
    assert_eq!(gb.get_f32_values(0, 4), vec![4.5f32.to_bits()]);
    assert_eq!(gb.get_u64(1, 0), Some(2));
    assert_eq!(gb.get_u64_values(1, 4), vec![8, 9]);
    assert_eq!(gb.get_u64(2, 0), Some(1));
    assert_eq!(gb.get_cell(2, 4), None);

    rows.clear();
    assert_eq!(rows.len(), 0);
}
