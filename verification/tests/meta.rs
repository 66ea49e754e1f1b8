use droplet::error::DropletError;
use droplet::feature_sinker::FeatureSinker;
use droplet::grid::GridBatch;
use droplet::gridbuffer_reader::buffer_rows;
use droplet::gridbuffer_reader::join_step;
use droplet::gridbuffer_reader::push_missing_cells;
use droplet::gridbuffer_reader::row_cells;
use droplet::gridbuffer_reader::total_key_ids;
use droplet::gridbuffer_reader::FileCursor;
use droplet::gridbuffer_reader::GridCellRef;
use droplet::gridbuffer_reader::GridRowRef;
use droplet::gridbuffer_reader::JoinStep;
use droplet::id_mapping::IDMapping;
use droplet::meta_info::get_default_server_endpoint;
use droplet::meta_info::get_partition_path;
use droplet::meta_info::get_path_by_table;
use droplet::meta_info::get_table_paths_by_date;
use droplet::meta_info::key_id_or_zero;
use droplet::meta_info::parse_date_from_u32;
use droplet::meta_info::server_endpoint;
use droplet::meta_info::DROPPLET_SERVER_PORT;
use droplet::meta_info::META_SERVER_PORT;
use droplet::partition::partition_window_on;
use droplet::sample_key::SampleKey;

#[test]
fn paths_are_made_of_table_date_and_index() {
    assert_eq!(get_path_by_table("clicks"), "/tmp/droplet/tables/clicks");
    assert_eq!(get_path_by_table(""), "/tmp/droplet/tables/");
    assert_eq!(
        get_partition_path("clicks", 20220108, 9),
        "/tmp/droplet/tables/clicks/20220108/9"
    );
    assert_eq!(
        get_table_paths_by_date("t", 20240229, 3),
        vec![
            "/tmp/droplet/tables/t/20240229/0".to_string(),
            "/tmp/droplet/tables/t/20240229/1".to_string(),
            "/tmp/droplet/tables/t/20240229/2".to_string(),
        ]
    );
    assert!(get_table_paths_by_date("t", 20240229, 0).is_empty());
}

#[test]
fn endpoints_are_host_and_port() {
    assert_eq!(META_SERVER_PORT, 50051);
    assert_eq!(DROPPLET_SERVER_PORT, 50052);
    assert_eq!(get_default_server_endpoint("node-7"), "node-7:50052");
    assert_eq!(server_endpoint("10.0.0.3", 50051), "10.0.0.3:50051");
    assert_eq!(server_endpoint("h", 0), "h:0");
}

#[test]
fn key_id_falls_back_to_zero() {
    assert_eq!(key_id_or_zero(Some(7), None), 7);
    assert_eq!(key_id_or_zero(Some(7), Some(8)), 7);
    assert_eq!(key_id_or_zero(None, Some(8)), 8);
    assert_eq!(key_id_or_zero(None, None), 0);
}

#[test]
fn date_numbers_are_split() {
    assert_eq!(parse_date_from_u32(20240229), (2024, 2, 29));
    assert_eq!(parse_date_from_u32(101), (0, 1, 1));
    assert_eq!(parse_date_from_u32(0), (0, 0, 0));
}

#[test]
fn partition_window_on_a_given_date() {
    let day: u64 = 19_000 * 86_400;
    let w = partition_window_on(day + 100, 7, 2022, 1, 8).unwrap();
    assert_eq!(w.partition_date, 20220108);
    assert_eq!(w.partition_index, 0);
    assert_eq!(w.time_start, day * 1000);
    // A span is 12342 whole seconds.
    assert_eq!(w.time_end, (day + 12342) * 1000);

    let w = partition_window_on(day + 86_399, 7, 2022, 1, 8).unwrap();
    assert_eq!(w.partition_index, 6);
    assert_eq!(w.time_start, (day + 6 * 12342) * 1000);
    assert_eq!(w.time_end, (day + 7 * 12342) * 1000);

    assert_eq!(partition_window_on(day, 7, -1, 1, 8), Err(DropletError::InvalidArgument));
    assert_eq!(partition_window_on(day, 0, 2022, 1, 8), Err(DropletError::InvalidArgument));
    assert_eq!(partition_window_on(day, 7, 429_497, 1, 1), Err(DropletError::InvalidArgument));
    assert_eq!(partition_window_on(day, 7, 429_496, 72, 95).unwrap().partition_date, u32::MAX);
    assert_eq!(partition_window_on(u64::MAX, 7, 2022, 1, 8), Err(DropletError::InvalidArgument));
}

#[test]
fn id_mapping_remembers_what_it_learns() {
    let mut mapping = IDMapping::new();
    assert_eq!(mapping.len(), 0);
    assert_eq!(mapping.get_cached_id("droplet"), None);
    mapping.remember("droplet", 1);
    mapping.remember("photo_id", 7);
    assert_eq!(mapping.get_cached_id("droplet"), Some(1));
    assert_eq!(mapping.get_cached_id("photo_id"), Some(7));
    assert_eq!(mapping.get_cached_id("photo"), None);
    assert_eq!(mapping.get_cached_id(""), None);
    mapping.remember("droplet", 2);
    assert_eq!(mapping.get_cached_id("droplet"), Some(2));
    assert_eq!(mapping.get_cached_id("photo_id"), Some(7));
    assert_eq!(mapping.len(), 2);
}

#[test]
fn cells_are_found_by_column_id() {
    let mut gb = GridBatch::new_with_num_rows_col_ids_hash(2, vec![2, 4, 5, 6, 20, 21], 1);
    gb.push_u64(1, 0, 77);
    let cells = row_cells(&gb, 1, &vec![21, 2]).unwrap();
    assert_eq!(cells.len(), 2);
    assert_eq!((cells[0].row_index, cells[0].col_index), (1, 5));
    assert_eq!((cells[1].row_index, cells[1].col_index), (1, 0));
    assert!(cells[0].is_valid());
    assert!(cells[0].get_sample_key().unwrap() == SampleKey::new(77, 0, 0, 0));
    assert!(row_cells(&gb, 1, &vec![21, 22]).is_none());
    assert_eq!(row_cells(&gb, 0, &vec![]).unwrap().len(), 0);

    let rows = buffer_rows(&gb, &vec![20]).unwrap();
    assert_eq!(rows.rows.len(), 2);
    assert_eq!(rows.rows[1].cells[0].row_index, 1);
    assert_eq!(rows.rows[1].cells[0].col_index, 4);
    assert!(rows.rows[1].inner_row.unwrap().get_sample_key() == SampleKey::new(77, 0, 0, 0));
    assert!(buffer_rows(&gb, &vec![99]).is_none());
    let empty = GridBatch::new_with_num_rows_col_ids_hash(0, vec![2], 1);
    assert_eq!(buffer_rows(&empty, &vec![99]).unwrap().rows.len(), 0);

    let nothing = GridCellRef::default();
    assert!(!nothing.is_valid());
    assert!(nothing.get_sample_key().is_none());
    assert!(GridRowRef::new(vec![]).inner_row.is_none());
    assert!(GridRowRef::new(vec![nothing]).inner_row.is_none());
    let given = GridCellRef::new(Some(&gb), 1, 3);
    assert_eq!((given.row_index, given.col_index), (1, 3));
}

#[test]
fn join_goes_by_the_key_of_the_first_table() {
    let primary = SampleKey::new(5, 5, 5, 5);
    assert_eq!(join_step(&SampleKey::new(5, 5, 5, 4), &primary), JoinStep::Skip);
    assert_eq!(join_step(&SampleKey::new(4, 9, 9, 9), &primary), JoinStep::Skip);
    assert_eq!(join_step(&SampleKey::new(5, 5, 5, 5), &primary), JoinStep::Take);
    assert_eq!(join_step(&SampleKey::new(5, 5, 5, 6), &primary), JoinStep::Stop);
    assert_eq!(join_step(&SampleKey::new(6, 0, 0, 0), &primary), JoinStep::Stop);

    let gb = GridBatch::new_with_num_rows_col_ids_hash(1, vec![2], 1);
    let mut cells = vec![GridCellRef::new(Some(&gb), 0, 0)];
    push_missing_cells(&mut cells, 3);
    assert_eq!(cells.len(), 4);
    assert!(cells[0].is_valid());
    assert!(cells[1..].iter().all(|c| !c.is_valid()));

    assert_eq!(total_key_ids(&vec![vec![1, 2], vec![], vec![3]]), 3);
    assert_eq!(total_key_ids(&vec![]), 0);
}

#[test]
fn file_cursor_hands_files_out_in_turn() {
    let mut cursor = FileCursor::new(vec!["a".to_string(), "b".to_string()]);
    assert_eq!(cursor.open_next_file(), Some(&"a".to_string()));
    assert_eq!(cursor.open_next_file(), Some(&"b".to_string()));
    assert_eq!(cursor.open_next_file(), None);
    assert_eq!(cursor.open_next_file(), None);
    assert_eq!(FileCursor::new(vec![]).open_next_file(), None);
}

#[test]
fn feature_sinker_keeps_what_it_was_made_with() {
    let lines = vec!["a".to_string(), "b".to_string()];
    let sinker = FeatureSinker::new(&"test_feature_sinker".to_string(), lines.into_iter(), 16, 81);
    assert_eq!(sinker.table_name(), "test_feature_sinker");
    assert_eq!(sinker.num_rows(), 16);
    assert_eq!(sinker.num_cols(), 81);
    assert_eq!(sinker.into_reader().collect::<Vec<_>>(), vec!["a", "b"]);
}
