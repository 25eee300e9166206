use rustyrts::analysis::checksums::Checksums as CrateChecksums;
use rustyrts::checksums::{changed_doctests, insert_hashmap, Checksums};
use rustyrts::line_format::{native_order, ByteOrder};

#[test]
fn checksums_test_checksum_deserialization() {
    let mut checksums = Checksums::new();

    insert_hashmap(&mut checksums, &"node1".to_string(), (100000000000006, 0));
    insert_hashmap(&mut checksums, &"node2".to_string(), (2, 100000000000005));
    insert_hashmap(&mut checksums, &"node3".to_string(), (3, 100000000000004));
    insert_hashmap(&mut checksums, &"node4".to_string(), (4, 100000000000003));
    insert_hashmap(&mut checksums, &"node5".to_string(), (5, u64::MAX - 1));
    insert_hashmap(&mut checksums, &"node6".to_string(), (6, u64::MAX));

    let serialized: Vec<u8> = checksums.to_bytes();
    let deserialized = Checksums::from_bytes(serialized.as_slice());

    assert_eq!(checksums, deserialized);
}

#[test]
fn test_checksum_deserialization_empty() {
    let checksums = Checksums::new();

    let serialized: Vec<u8> = checksums.to_bytes();
    let deserialized = Checksums::from_bytes(serialized.as_slice());

    assert_eq!(checksums, deserialized);
}

#[test]
fn test_checksum_deserialization() {
    let mut checksums = CrateChecksums::new();
    let inner = checksums.inner();

    inner.insert("node1".to_string(), (100000000000006, 0));
    inner.insert("node2".to_string(), (2, 100000000000005));
    inner.insert("node3".to_string(), (3, 100000000000004));
    inner.insert("node4".to_string(), (4, 100000000000003));
    inner.insert("node5".to_string(), (5, u64::MAX - 1));
    inner.insert("node6".to_string(), (6, u64::MAX));

    let serialized = checksums.to_bytes();
    let deserialized = CrateChecksums::from_bytes(serialized.as_slice());

    assert_eq!(checksums, deserialized);
}

#[test]
fn several_checksums_for_one_name_are_kept() {
    let mut checksums = Checksums::new();
    insert_hashmap(&mut checksums, &"f".to_string(), (1, 2));
    insert_hashmap(&mut checksums, &"f".to_string(), (3, 4));
    insert_hashmap(&mut checksums, &"f".to_string(), (1, 2));
    let mut found = checksums.checksums_of(&"f".to_string());
    found.sort();
    assert_eq!(found, vec![(1, 2), (3, 4)]);
    assert!(checksums.contains_key(&"f".to_string()));
    assert!(!checksums.contains_key(&"g".to_string()));
}

#[test]
fn a_line_is_name_separator_and_sixteen_bytes() {
    let mut checksums = Checksums::new();
    insert_hashmap(&mut checksums, &"ab".to_string(), (1, 2));
    let bytes = checksums.to_bytes_in(ByteOrder::Little);
    let mut expected = b"ab - ".to_vec();
    expected.extend_from_slice(&1u64.to_le_bytes());
    expected.extend_from_slice(&2u64.to_le_bytes());
    expected.push(b'\n');
    assert_eq!(bytes, expected);
    let big = checksums.to_bytes_in(ByteOrder::Big);
    assert_eq!(&big[5..13], &1u64.to_be_bytes());
}

#[test]
fn the_native_order_is_the_machine_order() {
    let expected = if 1u64.to_ne_bytes()[0] == 1 { ByteOrder::Little } else { ByteOrder::Big };
    assert_eq!(native_order(), expected);
}

#[test]
fn reading_skips_bytes_that_form_no_line() {
    let mut bytes = b"garbage\n".to_vec();
    bytes.extend_from_slice(b"x - ");
    bytes.extend_from_slice(&7u64.to_le_bytes());
    bytes.extend_from_slice(&9u64.to_le_bytes());
    bytes.push(b'\n');
    bytes.extend_from_slice(b"tail");
    let read = Checksums::from_bytes_in(&bytes, ByteOrder::Little);
    let mut expected = Checksums::new();
    insert_hashmap(&mut expected, &"x".to_string(), (7, 9));
    assert_eq!(read, expected);
}

#[test]
fn a_later_line_replaces_an_earlier_one_of_the_same_name() {
    let mut bytes = Vec::new();
    for c in [(1u64, 1u64), (2, 2)] {
        bytes.extend_from_slice(b"n - ");
        bytes.extend_from_slice(&c.0.to_le_bytes());
        bytes.extend_from_slice(&c.1.to_le_bytes());
        bytes.push(b'\n');
    }
    let mut read = CrateChecksums::from_bytes_in(&bytes, ByteOrder::Little);
    assert_eq!(read.inner().get(&"n".to_string()), Some((2, 2)));
}

#[test]
fn inserting_returns_the_replaced_checksum() {
    let mut checksums = CrateChecksums::new();
    let inner = checksums.inner();
    assert_eq!(inner.insert("a".to_string(), (1, 1)), None);
    assert_eq!(inner.insert("a".to_string(), (2, 3)), Some((1, 1)));
    assert_eq!(inner.get(&"a".to_string()), Some((2, 3)));
    assert_eq!(inner.get(&"b".to_string()), None);
}

#[test]
fn changed_doctests_are_new_or_altered() {
    let mut old = Checksums::new();
    insert_hashmap(&mut old, &"same".to_string(), (1, 2));
    insert_hashmap(&mut old, &"altered".to_string(), (3, 4));
    insert_hashmap(&mut old, &"gone".to_string(), (5, 6));
    let mut new = Checksums::new();
    insert_hashmap(&mut new, &"same".to_string(), (1, 2));
    insert_hashmap(&mut new, &"altered".to_string(), (3, 4));
    insert_hashmap(&mut new, &"altered".to_string(), (3, 5));
    insert_hashmap(&mut new, &"added".to_string(), (7, 8));
    let mut changed = changed_doctests(&new, &old);
    changed.sort();
    assert_eq!(changed, vec!["added".to_string(), "altered".to_string()]);
    assert!(changed_doctests(&old, &old).is_empty());
}
