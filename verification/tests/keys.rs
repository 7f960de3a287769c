use ballast_bench::keys::{tag_bytes, u64_be_bytes, u64_le_bytes, KeyCodec};
use ballast_bench::table::Table;
use std::collections::HashSet;

#[test]
fn table_names() {
    assert_eq!(Table::Small.as_str(), "small");
    assert_eq!(Table::Large.as_str(), "large");
    assert_eq!(Table::Ballast.as_str(), "ballast");
}

#[test]
fn bytes_of_a_number_in_both_orders() {
    assert_eq!(u64_le_bytes(0x0102_0304_0506_0708), vec![8, 7, 6, 5, 4, 3, 2, 1]);
    assert_eq!(u64_be_bytes(0x0102_0304_0506_0708), vec![1, 2, 3, 4, 5, 6, 7, 8]);
    assert_eq!(u64_le_bytes(0), vec![0; 8]);
    assert_eq!(u64_be_bytes(u64::MAX), vec![255; 8]);
    assert_eq!(u64_le_bytes(258), 258u64.to_le_bytes().to_vec());
    assert_eq!(u64_be_bytes(258), 258u64.to_be_bytes().to_vec());
}

#[test]
fn tags_are_the_names_with_a_hyphen() {
    assert_eq!(tag_bytes(Table::Small), b"small-".to_vec());
    assert_eq!(tag_bytes(Table::Large), b"large-".to_vec());
    assert_eq!(tag_bytes(Table::Ballast), b"ballast-".to_vec());
}

#[test]
fn tagged_key_is_tag_then_little_endian_index() {
    let key = KeyCodec::Tagged.encode(Table::Small, 258);
    assert_eq!(key, vec![b's', b'm', b'a', b'l', b'l', b'-', 2, 1, 0, 0, 0, 0, 0, 0]);
    let key = KeyCodec::Tagged.encode(Table::Ballast, u64::MAX);
    let mut expected = b"ballast-".to_vec();
    expected.extend_from_slice(&[255; 8]);
    assert_eq!(key, expected);
}

#[test]
fn flat_key_is_the_counter_big_endian() {
    let codec = KeyCodec::Flat { small: 1000, ballast: 50 };
    assert_eq!(codec.encode(Table::Small, 7), 7u64.to_be_bytes().to_vec());
    assert_eq!(codec.encode(Table::Ballast, 7), 1007u64.to_be_bytes().to_vec());
    assert_eq!(codec.encode(Table::Large, 7), 1057u64.to_be_bytes().to_vec());
}

#[test]
fn namespaces_of_the_two_layouts() {
    assert_eq!(KeyCodec::Tagged.namespace(Table::Small), "small");
    assert_eq!(KeyCodec::Tagged.namespace(Table::Large), "large");
    assert_eq!(KeyCodec::Tagged.namespace(Table::Ballast), "ballast");
    let flat = KeyCodec::Flat { small: 1, ballast: 1 };
    assert_eq!(flat.namespace(Table::Small), "data");
    assert_eq!(flat.namespace(Table::Large), "data");
    assert_eq!(flat.namespace(Table::Ballast), "data");
    assert!(flat.is_ascending());
    assert!(!KeyCodec::Tagged.is_ascending());
}

#[test]
fn can_encode_tells_when_the_counter_overflows() {
    let codec = KeyCodec::Flat { small: u64::MAX - 10, ballast: 5 };
    assert!(codec.can_encode(Table::Small, u64::MAX));
    assert!(codec.can_encode(Table::Ballast, 10));
    assert!(!codec.can_encode(Table::Ballast, 11));
    assert!(codec.can_encode(Table::Large, 5));
    assert!(!codec.can_encode(Table::Large, 6));
    let full = KeyCodec::Flat { small: u64::MAX, ballast: 1 };
    assert!(!full.can_encode(Table::Large, 0));
    assert!(KeyCodec::Tagged.can_encode(Table::Large, u64::MAX));
}

#[test]
fn keys_do_not_collide_within_or_across_tables() {
    let tables = [Table::Small, Table::Large, Table::Ballast];
    for codec in [KeyCodec::Tagged, KeyCodec::Flat { small: 300, ballast: 300 }] {
        let mut seen = HashSet::new();
        for table in tables {
            for index in 0..300u64 {
                assert!(seen.insert(codec.encode(table, index)));
            }
        }
        assert_eq!(seen.len(), 900);
    }
}

#[test]
fn flat_keys_ascend_in_the_order_of_writing() {
    let codec = KeyCodec::Flat { small: 300, ballast: 40 };
    let mut keys = Vec::new();
    for index in 0..300u64 {
        keys.push(codec.encode(Table::Small, index));
    }
    for index in 0..40u64 {
        keys.push(codec.encode(Table::Ballast, index));
    }
    for index in 0..300u64 {
        keys.push(codec.encode(Table::Large, index));
    }
    for pair in keys.windows(2) {
        assert!(pair[0] < pair[1]);
    }
}
