use droplet::error::DropletError;
use droplet::grid::GridBatch;
use droplet::partition::get_partition_index_by_timestamp;
use droplet::partition::partition_index_of_seconds;
use droplet::partition::partition_index_of_timestamp;
use droplet::partition::partition_window;
use droplet::partition::MAX_UTC_SECONDS;

const DAY: u64 = 19_000 * 86_400;

fn batch_at(timestamps: &[u64]) -> GridBatch {
    let mut gb = GridBatch::new_with_num_rows_col_ids_hash(timestamps.len(), vec![2, 4, 5, 6], 1);
    for (row, t) in timestamps.iter().enumerate() {
        gb.push_u64(row, 0, *t);
    }
    gb
}

#[test]
fn index_is_seconds_times_count_over_day() {
    assert_eq!(partition_index_of_seconds(0, 24), 0);
    assert_eq!(partition_index_of_seconds(3599, 24), 0);
    assert_eq!(partition_index_of_seconds(3600, 24), 1);
    assert_eq!(partition_index_of_seconds(86399, 24), 23);
    assert_eq!(partition_index_of_seconds(86399, 1), 0);
    assert_eq!(partition_index_of_seconds(43200, 288), 144);
    // Seven partitions do not divide the day evenly.
    assert_eq!(partition_index_of_seconds(12342, 7), 0);
    assert_eq!(partition_index_of_seconds(12343, 7), 1);
    assert_eq!(partition_index_of_seconds(86399, u32::MAX), u32::MAX - 49711);
    assert_eq!(partition_index_of_seconds(86399, 0), 0);
}

#[test]
fn index_of_a_timestamp_goes_by_the_utc_day() {
    assert_eq!(partition_index_of_timestamp(DAY + 9 * 3600, 24), Ok(9));
    assert_eq!(partition_index_of_timestamp(DAY + 9 * 3600 + 3599, 24), Ok(9));
    assert_eq!(partition_index_of_timestamp(DAY + 10 * 3600, 24), Ok(10));
    assert_eq!(partition_index_of_timestamp(0, 24), Ok(0));
    assert_eq!(partition_index_of_timestamp(MAX_UTC_SECONDS, 24), Ok(23));
}

#[test]
fn index_refuses_what_has_no_partition() {
    assert_eq!(
        partition_index_of_timestamp(DAY, 0),
        Err(DropletError::InvalidArgument)
    );
    assert_eq!(
        partition_index_of_timestamp(MAX_UTC_SECONDS + 1, 24),
        Err(DropletError::InvalidArgument)
    );
    assert_eq!(
        partition_index_of_timestamp(u64::MAX, 24),
        Err(DropletError::InvalidArgument)
    );
    assert_eq!(
        get_partition_index_by_timestamp(&batch_at(&[]), 24),
        Err(DropletError::InvalidArgument)
    );
    assert_eq!(
        get_partition_index_by_timestamp(&batch_at(&[DAY]), 0),
        Err(DropletError::InvalidArgument)
    );
}

#[test]
fn a_batch_goes_with_its_first_row() {
    // The second row lies in partition 10; the batch goes to partition 9.
    let gb = batch_at(&[DAY + 9 * 3600 + 3599, DAY + 10 * 3600]);
    assert_eq!(get_partition_index_by_timestamp(&gb, 24), Ok(9));
    let gb = batch_at(&[DAY + 10 * 3600, DAY + 9 * 3600]);
    assert_eq!(get_partition_index_by_timestamp(&gb, 24), Ok(10));
}

#[test]
fn partition_window_has_day_and_bounds() {
    // 2022-01-08 is day 19000 since the epoch.
    let w = partition_window(DAY + 9 * 3600 + 17, 24).unwrap();
    assert_eq!(w.partition_date, 20220108);
    assert_eq!(w.partition_index, 9);
    assert_eq!(w.time_start, (DAY + 9 * 3600) * 1000);
    assert_eq!(w.time_end, (DAY + 10 * 3600) * 1000);

    let w = partition_window(0, 1).unwrap();
    assert_eq!(w.partition_date, 19700101);
    assert_eq!(w.partition_index, 0);
    assert_eq!(w.time_start, 0);
    assert_eq!(w.time_end, 86_400_000);

    // 2000-02-29 23:59:59
    let w = partition_window(951_868_799, 288).unwrap();
    assert_eq!(w.partition_date, 20000229);
    assert_eq!(w.partition_index, 287);
    assert_eq!(w.time_end, 951_868_800_000);

    let w = partition_window(MAX_UTC_SECONDS, 24).unwrap();
    assert_eq!(w.partition_date, 2621421231);

    assert_eq!(partition_window(DAY, 0), Err(DropletError::InvalidArgument));
    assert_eq!(
        partition_window(MAX_UTC_SECONDS + 1, 24),
        Err(DropletError::InvalidArgument)
    );
}
