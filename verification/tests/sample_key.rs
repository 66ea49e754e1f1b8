use droplet::error::DropletError;
use droplet::sample_key::SampleKey;
use droplet::tool::is_keys_equal;
use droplet::tool::MESSAGE_LIMIT;

#[test]
fn test_is_keys_equal() {
    // Test equal keys
    let a = vec![1, 2, 3, 4, 5, 6, 7, 8];
    let b = vec![1, 2, 3, 4, 5, 6, 7, 8];
    assert!(is_keys_equal(&a, &b));

    // Test unequal keys
    let c = vec![1, 2, 3, 4, 5, 6, 7, 9];
    assert!(!is_keys_equal(&a, &c));

    // Test keys with different lengths
    let d = vec![1, 2, 3, 4, 5, 6, 7];
    assert!(!is_keys_equal(&a, &d));

    // Test empty keys
    let e: Vec<u32> = vec![];
    let f: Vec<u32> = vec![];
    assert!(is_keys_equal(&e, &f));

    // Test keys with length not divisible by 4
    let g = vec![1, 2, 3, 4, 5, 6, 7];
    let h = vec![1, 2, 3, 4, 5, 6, 7];
    assert!(is_keys_equal(&g, &h));

    // Test keys with length not divisible by 4 and unequal
    let i = vec![1, 2, 3, 4, 5, 6, 8];
    assert!(!is_keys_equal(&g, &i));

    // Test large keys
    let j: Vec<u32> = (0..1000).collect();
    let k: Vec<u32> = (0..1000).collect();
    assert!(is_keys_equal(&j, &k));

    // Test large unequal keys
    let mut l: Vec<u32> = (0..1000).collect();
    l[999] = 1001;
    assert!(!is_keys_equal(&j, &l));
}

#[test]
fn sample_key_orders_lexicographically() {
    let k = SampleKey::new(5, 5, 5, 5);
    assert!(SampleKey::new(4, 9, 9, 9) < k);
    assert!(SampleKey::new(5, 4, 9, 9) < k);
    assert!(SampleKey::new(5, 5, 4, 9) < k);
    assert!(SampleKey::new(5, 5, 5, 4) < k);
    assert!(k < SampleKey::new(5, 5, 5, 6));
    assert!(k < SampleKey::new(6, 0, 0, 0));
    assert!(!(k < k));
    assert!(k == SampleKey::new(5, 5, 5, 5));
    assert!(k != SampleKey::new(5, 5, 5, 6));
    assert_eq!(k.cmp(&SampleKey::new(5, 5, 6, 0)), std::cmp::Ordering::Less);
    assert_eq!(k.partial_cmp(&k), Some(std::cmp::Ordering::Equal));
    assert_eq!(
        SampleKey::new(u64::MAX, 0, 0, 0).partial_cmp(&SampleKey::new(0, u64::MAX, 0, 0)),
        Some(std::cmp::Ordering::Greater)
    );
}

#[test]
fn sample_key_to_string_joins_decimal_fields() {
    assert_eq!(SampleKey::new(1, 2, 3, 4).to_string(), "1_2_3_4");
    assert_eq!(SampleKey::new(0, 10, 909, 1234567890).to_string(), "0_10_909_1234567890");
    assert_eq!(
        SampleKey::new(u64::MAX, 0, 0, 0).to_string(),
        "18446744073709551615_0_0_0"
    );
}

#[test]
fn sample_key_columns_are_fixed() {
    assert_eq!(SampleKey::get_sample_key_ids(), &[2, 4, 5, 6]);
    assert_eq!(
        SampleKey::get_sample_key_names(),
        &["timestamp", "user_id", "item_id", "request_id"]
    );
    assert_eq!(
        SampleKey::get_sample_key_pair(),
        &[("timestamp", 2), ("user_id", 4), ("item_id", 5), ("request_id", 6)]
    );
    assert!(SampleKey::is_sample_key_ids(&[2, 4, 5, 6]));
    assert!(!SampleKey::is_sample_key_ids(&[2, 4, 5]));
    assert!(!SampleKey::is_sample_key_ids(&[2, 4, 5, 6, 7]));
    assert!(!SampleKey::is_sample_key_ids(&[2, 4, 6, 5]));
}

#[test]
fn message_limit_is_twenty_mebibytes() {
    assert_eq!(MESSAGE_LIMIT, 20_971_520);
    assert!(droplet::tool::within_message_limit(20_971_520));
    assert!(!droplet::tool::within_message_limit(20_971_521));
}

#[test]
fn errors_have_names() {
    assert_eq!(DropletError::InvalidArgument.name(), "InvalidArgument");
    assert_eq!(DropletError::NotFound.name(), "NotFound");
    assert_eq!(DropletError::Transient.name(), "Transient");
    assert_eq!(DropletError::Fatal.name(), "Fatal");
    assert_ne!(DropletError::Transient, DropletError::Fatal);
    assert_eq!(DropletError::InvalidArgument.status_code(), 3);
    assert_eq!(DropletError::NotFound.status_code(), 5);
    assert_eq!(DropletError::Fatal.status_code(), 13);
    assert_eq!(DropletError::Transient.status_code(), 14);
}
