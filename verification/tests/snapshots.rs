use snapshot_set::{Element, SnapshotSet, StorageError};
use std::collections::BTreeSet;

fn text_set(words: &[&str]) -> SnapshotSet<String> {
    let mut set = SnapshotSet::new();
    for word in words {
        set.insert(word.to_string());
    }
    set
}

fn number_set(numbers: &[u64]) -> SnapshotSet<u64> {
    let mut set = SnapshotSet::new();
    for n in numbers {
        set.insert(*n);
    }
    set
}

fn contents<T: Element + Clone>(set: &SnapshotSet<T>) -> Vec<T> {
    let mut out = Vec::new();
    let mut at = 0;
    while let Some(e) = set.get(at) {
        out.push(e.clone());
        at += 1;
    }
    out
}

#[test]
fn empty_set_survives_save_and_load() {
    let set: SnapshotSet<String> = SnapshotSet::new();
    let bytes = set.snapshot();
    assert_eq!(bytes, vec![0]);
    let loaded: SnapshotSet<String> = SnapshotSet::restore(&bytes).unwrap();
    assert!(loaded.is_empty());
    assert_eq!(loaded.len(), 0);
}

#[test]
fn single_value_survives_save_and_load() {
    let set = text_set(&["value"]);
    let bytes = set.snapshot();
    let loaded: SnapshotSet<String> = SnapshotSet::restore(&bytes).unwrap();
    assert_eq!(contents(&loaded), vec!["value"]);
    assert!(loaded.contains(&"value".to_string()));
    assert!(!loaded.contains(&"other".to_string()));
}

#[test]
fn snapshot_of_single_value_is_count_length_bytes() {
    let set = text_set(&["value"]);
    assert_eq!(set.snapshot(), vec![1, 5, b'v', b'a', b'l', b'u', b'e']);
}

#[test]
fn snapshot_lists_strings_in_ascending_order() {
    let set = text_set(&["b", "", "ab"]);
    assert_eq!(set.snapshot(), vec![3, 0, 2, b'a', b'b', 1, b'b']);
}

#[test]
fn snapshot_of_numbers_uses_seven_bit_groups() {
    let set = number_set(&[300, 1, 128]);
    assert_eq!(set.snapshot(), vec![3, 1, 0x80, 0x01, 0xac, 0x02]);
}

#[test]
fn snapshot_of_largest_number_takes_ten_bytes() {
    let set = number_set(&[u64::MAX]);
    assert_eq!(
        set.snapshot(),
        vec![1, 0xff, 0xff, 0xff, 0xff, 0xff, 0xff, 0xff, 0xff, 0xff, 0x01]
    );
}

#[test]
fn count_above_127_takes_two_bytes() {
    let mut set = SnapshotSet::new();
    for n in 0..200u64 {
        set.insert(n);
    }
    let bytes = set.snapshot();
    assert_eq!(&bytes[..2], &[0xc8, 0x01]);
    assert_eq!(bytes.len(), 2 + 128 + 72 * 2);
    let loaded: SnapshotSet<u64> = SnapshotSet::restore(&bytes).unwrap();
    assert_eq!(contents(&loaded), (0..200).collect::<Vec<u64>>());
}

#[test]
fn long_string_has_two_byte_length() {
    let word = "x".repeat(130);
    let set = text_set(&[&word]);
    let bytes = set.snapshot();
    assert_eq!(&bytes[..3], &[1, 0x82, 0x01]);
    assert_eq!(bytes.len(), 3 + 130);
    let loaded: SnapshotSet<String> = SnapshotSet::restore(&bytes).unwrap();
    assert_eq!(contents(&loaded), vec![word]);
}

#[test]
fn strings_survive_save_and_load() {
    let set = text_set(&["pear", "apple", "", "plum", "é", "\u{1f600}", "apple pie"]);
    let loaded: SnapshotSet<String> = SnapshotSet::restore(&set.snapshot()).unwrap();
    assert_eq!(contents(&loaded), contents(&set));
    assert_eq!(contents(&loaded), vec!["", "apple", "apple pie", "pear", "plum", "é", "\u{1f600}"]);
}

#[test]
fn numbers_survive_save_and_load() {
    let set = number_set(&[0, 1, 127, 128, 16383, 16384, u64::MAX, 1 << 63, 42]);
    let loaded: SnapshotSet<u64> = SnapshotSet::restore(&set.snapshot()).unwrap();
    assert_eq!(contents(&loaded), contents(&set));
    assert_eq!(loaded.len(), 9);
}

#[test]
fn saving_twice_gives_the_same_bytes() {
    let set = text_set(&["pear", "apple", "plum"]);
    assert_eq!(set.snapshot(), set.snapshot());
}

#[test]
fn snapshot_does_not_depend_on_insertion_order() {
    let a = text_set(&["pear", "apple", "plum", "fig"]);
    let mut b = text_set(&["fig", "plum", "cherry", "apple", "pear", "apple"]);
    b.remove(&"cherry".to_string());
    assert_eq!(a.snapshot(), b.snapshot());
}

#[test]
fn saving_a_loaded_set_gives_the_same_bytes() {
    let set = number_set(&[9, 8, 7, 1000, 100000]);
    let bytes = set.snapshot();
    let loaded: SnapshotSet<u64> = SnapshotSet::restore(&bytes).unwrap();
    assert_eq!(loaded.snapshot(), bytes);
}

#[test]
fn snapshot_of_strings_is_what_postcard_writes_for_a_btree_set() {
    let words = ["pear", "apple", "", "plum", "é", "apple pie"];
    let set = text_set(&words);
    let reference: BTreeSet<String> = words.iter().map(|w| w.to_string()).collect();
    assert_eq!(set.snapshot(), postcard::to_allocvec(&reference).unwrap());
}

#[test]
fn snapshot_of_numbers_is_what_postcard_writes_for_a_btree_set() {
    let numbers = [5u64, 300, 0, u64::MAX, 1 << 35];
    let set = number_set(&numbers);
    let reference: BTreeSet<u64> = numbers.iter().copied().collect();
    assert_eq!(set.snapshot(), postcard::to_allocvec(&reference).unwrap());
}

#[test]
fn restore_reads_what_postcard_wrote() {
    let reference: BTreeSet<String> =
        ["delta", "alpha", "charlie", "bravo"].iter().map(|w| w.to_string()).collect();
    let bytes = postcard::to_allocvec(&reference).unwrap();
    let loaded: SnapshotSet<String> = SnapshotSet::restore(&bytes).unwrap();
    assert_eq!(contents(&loaded), reference.into_iter().collect::<Vec<String>>());
}

#[test]
fn postcard_reads_what_snapshot_wrote() {
    let set = text_set(&["delta", "alpha", "charlie", "bravo"]);
    let back: BTreeSet<String> = postcard::from_bytes(&set.snapshot()).unwrap();
    assert_eq!(back.into_iter().collect::<Vec<String>>(), contents(&set));
}

#[test]
fn restore_puts_unordered_elements_in_order() {
    let bytes = vec![3, 1, b'c', 1, b'a', 1, b'b'];
    let loaded: SnapshotSet<String> = SnapshotSet::restore(&bytes).unwrap();
    assert_eq!(contents(&loaded), vec!["a", "b", "c"]);
}

#[test]
fn restore_keeps_a_repeated_element_once() {
    let bytes = vec![3, 7, 7, 2];
    let loaded: SnapshotSet<u64> = SnapshotSet::restore(&bytes).unwrap();
    assert_eq!(contents(&loaded), vec![2, 7]);
}

#[test]
fn restore_reads_a_padded_count() {
    let loaded: SnapshotSet<u64> = SnapshotSet::restore(&[0x80, 0x00]).unwrap();
    assert!(loaded.is_empty());
    let loaded: SnapshotSet<u64> = SnapshotSet::restore(&[0x81, 0x00, 0x85, 0x00]).unwrap();
    assert_eq!(contents(&loaded), vec![5]);
}

#[test]
fn element_encodings_are_exact() {
    assert_eq!(0u64.encode(), vec![0]);
    assert_eq!(127u64.encode(), vec![0x7f]);
    assert_eq!(128u64.encode(), vec![0x80, 0x01]);
    assert_eq!(300u64.encode(), vec![0xac, 0x02]);
    assert_eq!(String::new().encode(), vec![0]);
    assert_eq!("hi".to_string().encode(), vec![2, b'h', b'i']);
    assert_eq!("é".to_string().encode(), vec![2, 0xc3, 0xa9]);
}

#[test]
fn element_decoding_hands_back_the_rest() {
    let bytes = [0xac, 0x02, 9, 9];
    let (n, rest) = u64::decode(&bytes).unwrap();
    assert_eq!(n, 300);
    assert_eq!(rest, &[9, 9]);
    let bytes = [2, b'h', b'i', b'!'];
    let (s, rest) = String::decode(&bytes).unwrap();
    assert_eq!(s, "hi");
    assert_eq!(rest, &[b'!']);
    let (s, rest) = String::decode(&[0]).unwrap();
    assert_eq!(s, "");
    assert!(rest.is_empty());
}

#[test]
fn element_decoding_refuses_what_it_cannot_read() {
    assert_eq!(u64::decode(&[]).unwrap_err(), StorageError::CorruptData);
    assert_eq!(u64::decode(&[0x80]).unwrap_err(), StorageError::CorruptData);
    assert_eq!(String::decode(&[]).unwrap_err(), StorageError::CorruptData);
    assert_eq!(String::decode(&[3, b'h', b'i']).unwrap_err(), StorageError::CorruptData);
    assert_eq!(String::decode(&[1, 0xff]).unwrap_err(), StorageError::CorruptData);
}
