use droplet::error::DropletError;
use droplet::feature_info::DataType;
use droplet::feature_info::FeatureConfig;
use droplet::feature_info::FeatureInfo;
use droplet::local_file_reader::chunk_size;
use droplet::local_file_reader::get_test_feature_filenames;
use droplet::local_file_reader::get_test_gridbuffer_filenames;

#[test]
fn feature_info_is_read_from_a_line() {
    let info = FeatureInfo::from_str("feature_name = ExtractSparse0, data_type = U64List").unwrap();
    assert_eq!(info.feature_name, "ExtractSparse0");
    assert_eq!(info.data_type, DataType::U64List);

    // Attributes may come in any order and with any white space.
    let info = FeatureInfo::from_str("  data_type=F32 ,\tfeature_name =  dense 1  ").unwrap();
    assert_eq!(info.feature_name, "dense 1");
    assert_eq!(info.data_type, DataType::F32);

    // Other attributes are passed over; what is missing keeps its default.
    let info = FeatureInfo::from_str("comment = x, feature_name = a").unwrap();
    assert_eq!(info.feature_name, "a");
    assert_eq!(info.data_type, DataType::U64);

    // The last of several wins.
    let info = FeatureInfo::from_str("feature_name = a, feature_name = b").unwrap();
    assert_eq!(info.feature_name, "b");
}

#[test]
fn feature_info_refuses_what_it_cannot_read() {
    let refused = |s: &str| matches!(FeatureInfo::from_str(s), Err(DropletError::InvalidArgument));
    assert!(refused(""));
    assert!(refused("# feature_name = a"));
    assert!(refused("feature_name"));
    assert!(refused("feature_name = a = b"));
    assert!(refused("feature_name = a,"));
    assert!(refused("feature_name = a, data_type = I64"));
    assert!(refused("feature_name = a, data_type = u64"));
    // The quotes are part of the value.
    assert!(refused("feature_name = a, data_type = \"U64\""));
    assert_eq!(
        FeatureInfo::from_str("feature_name = \"a\"").unwrap().feature_name,
        "\"a\""
    );
}

#[test]
fn feature_info_new_and_default() {
    let info = FeatureInfo::new("user_id", DataType::F32List);
    assert_eq!(info.feature_name, "user_id");
    assert_eq!(info.data_type, DataType::F32List);
    let copy = info.clone();
    assert_eq!(copy.feature_name, "user_id");
    let info = FeatureInfo::default();
    assert_eq!(info.feature_name, "");
    assert_eq!(info.data_type, DataType::U64);
    assert_eq!(DataType::default(), DataType::U64);
}

#[test]
fn data_types_have_names_and_codes() {
    let all = [DataType::U64, DataType::F32, DataType::U64List, DataType::F32List];
    let names = ["U64", "F32", "U64List", "F32List"];
    assert_eq!(DataType::COUNT, 4);
    for (code, (t, name)) in all.iter().zip(names.iter()).enumerate() {
        assert_eq!(t.name(), *name);
        assert_eq!(DataType::from_str(name), Ok(*t));
        assert_eq!(t.repr(), code as u8);
        assert_eq!(DataType::from_repr(code as u8), Some(*t));
    }
    assert_eq!(DataType::from_repr(4), None);
    assert_eq!(DataType::from_repr(255), None);
    assert_eq!(DataType::from_str("U64 "), Err(DropletError::InvalidArgument));
    assert_eq!(DataType::from_str(""), Err(DropletError::InvalidArgument));
}

#[test]
fn stored_features_keep_their_type() {
    let info = FeatureInfo::new("a", DataType::U64List);
    assert!(info.agrees_with_stored(None));
    assert!(info.agrees_with_stored(Some(2)));
    assert!(!info.agrees_with_stored(Some(0)));
    assert!(!info.agrees_with_stored(Some(258)));
}

#[test]
fn feature_config_reads_one_feature_per_line() {
    let content = "# user_id feature\n\
                   feature_name = user_id, data_type = U64\n\
                   \n\
                   \t# indented comment\n\
                   this line is not a feature\n\
                   feature_name = item_id, data_type = Unknown\n\
                   feature_name = scores, data_type = F32List\n";
    let config = FeatureConfig::from_config_str(content).unwrap();
    let infos = config.feature_infos();
    assert_eq!(infos.len(), 2);
    assert_eq!(infos[0].feature_name, "user_id");
    assert_eq!(infos[0].data_type, DataType::U64);
    assert_eq!(infos[1].feature_name, "scores");
    assert_eq!(infos[1].data_type, DataType::F32List);

    assert_eq!(FeatureConfig::from_config_str("").unwrap().feature_infos().len(), 0);
    assert_eq!(
        FeatureConfig::from_config_str("\n\n# only comments\n").unwrap().feature_infos().len(),
        0
    );
    let config = FeatureConfig::new(vec![FeatureInfo::new("x", DataType::F32)]);
    assert_eq!(config.feature_infos()[0].feature_name, "x");
}

#[test]
fn test_file_names_are_repeated() {
    assert!(get_test_feature_filenames(0).is_empty());
    assert_eq!(
        get_test_feature_filenames(2),
        vec![
            "resources/simple_features_nohash_96.txt".to_string(),
            "resources/simple_features_nohash_96.txt".to_string()
        ]
    );
    assert_eq!(
        get_test_gridbuffer_filenames(3),
        vec!["resources/gridbuffers_nohash_row_16_col_81_bitpacking4x.txt".to_string(); 3]
    );
}

#[test]
fn files_are_shared_out_evenly() {
    assert_eq!(chunk_size(10, 3), 4);
    assert_eq!(chunk_size(9, 3), 3);
    assert_eq!(chunk_size(2, 2), 1);
    assert_eq!(chunk_size(1, 5), 1);
    assert_eq!(chunk_size(0, 5), 0);
    assert_eq!(chunk_size(5, 0), 0);
    assert_eq!(chunk_size(usize::MAX, 2), usize::MAX / 2 + 1);
    assert_eq!(chunk_size(usize::MAX, usize::MAX), 1);
}
