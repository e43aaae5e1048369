use snapshot_set::order::precedes;
use snapshot_set::{Element, SnapshotSet};

fn strings(words: &[&str]) -> SnapshotSet<String> {
    let mut set = SnapshotSet::new();
    for word in words {
        set.insert(word.to_string());
    }
    set
}

fn listed<T: Element + Clone>(set: &SnapshotSet<T>) -> Vec<T> {
    let mut out = Vec::new();
    let mut at = 0;
    while let Some(e) = set.get(at) {
        out.push(e.clone());
        at += 1;
    }
    out
}

#[test]
fn new_set_is_empty() {
    let set: SnapshotSet<String> = SnapshotSet::new();
    assert_eq!(set.len(), 0);
    assert!(set.is_empty());
    assert!(set.get(0).is_none());
    assert!(!set.contains(&"value".to_string()));
}

#[test]
fn insert_reports_change() {
    let mut set = SnapshotSet::new();
    assert!(set.insert("value".to_string()));
    assert_eq!(set.len(), 1);
    assert!(!set.is_empty());
    assert!(set.contains(&"value".to_string()));
    assert!(!set.contains(&"other".to_string()));
}

#[test]
fn insert_of_present_element_changes_nothing() {
    let mut set = strings(&["pear", "apple", "plum"]);
    let before = listed(&set);
    assert!(!set.insert("apple".to_string()));
    assert!(!set.insert("plum".to_string()));
    assert_eq!(set.len(), 3);
    assert_eq!(listed(&set), before);
}

#[test]
fn elements_come_out_in_ascending_order() {
    let set = strings(&["pear", "apple", "plum", "fig", "apple", "banana"]);
    assert_eq!(listed(&set), vec!["apple", "banana", "fig", "pear", "plum"]);
    assert_eq!(set.get(0).map(|s| s.as_str()), Some("apple"));
    assert_eq!(set.get(4).map(|s| s.as_str()), Some("plum"));
    assert!(set.get(5).is_none());
}

#[test]
fn strings_rank_as_std_ranks_them() {
    let words = ["b", "a", "", "ab", "Z", "z", "é", "e", "zz", "\u{10000}", "\u{ffff}", "aa"];
    let set = strings(&words);
    let mut expected: Vec<String> = words.iter().map(|w| w.to_string()).collect();
    expected.sort();
    expected.dedup();
    assert_eq!(listed(&set), expected);
}

#[test]
fn numbers_rank_by_size() {
    let mut set = SnapshotSet::new();
    for n in [256u64, 255, 0, u64::MAX, 128, 127, 255, 1 << 40] {
        set.insert(n);
    }
    assert_eq!(listed(&set), vec![0, 127, 128, 255, 256, 1 << 40, u64::MAX]);
    assert!(set.contains(&255));
    assert!(!set.contains(&254));
}

#[test]
fn remove_reports_change() {
    let mut set = strings(&["pear", "apple", "plum"]);
    assert!(set.remove(&"pear".to_string()));
    assert_eq!(listed(&set), vec!["apple", "plum"]);
    assert!(!set.contains(&"pear".to_string()));
    assert!(!set.remove(&"pear".to_string()));
    assert!(!set.remove(&"cherry".to_string()));
    assert_eq!(set.len(), 2);
    assert!(set.remove(&"apple".to_string()));
    assert!(set.remove(&"plum".to_string()));
    assert!(set.is_empty());
    assert!(!set.remove(&"plum".to_string()));
}

#[test]
fn removed_element_can_be_inserted_again() {
    let mut set = SnapshotSet::new();
    assert!(set.insert(7u64));
    assert!(set.remove(&7));
    assert!(set.insert(7));
    assert_eq!(listed(&set), vec![7]);
}

#[test]
fn many_insertions_keep_order_and_uniqueness() {
    let mut set = SnapshotSet::new();
    let mut n: u64 = 1;
    for _ in 0..500 {
        n = n.wrapping_mul(6364136223846793005).wrapping_add(1442695040888963407);
        set.insert(n % 200);
    }
    let all = listed(&set);
    assert!(all.len() <= 200);
    for pair in all.windows(2) {
        assert!(pair[0] < pair[1]);
    }
    for n in 0..200u64 {
        assert_eq!(set.contains(&n), all.binary_search(&n).is_ok());
    }
}

#[test]
fn byte_order_is_dictionary_order() {
    assert!(precedes(b"", b"a"));
    assert!(!precedes(b"", b""));
    assert!(!precedes(b"a", b""));
    assert!(precedes(b"a", b"b"));
    assert!(!precedes(b"b", b"a"));
    assert!(precedes(b"ab", b"b"));
    assert!(precedes(b"a", b"ab"));
    assert!(!precedes(b"ab", b"ab"));
    assert!(!precedes(b"abd", b"abc"));
    assert!(precedes(&[0x7f], &[0x80]));
}

#[test]
fn elements_compare_by_their_order() {
    assert!(3u64.before(&4));
    assert!(!4u64.before(&4));
    assert!(!5u64.before(&4));
    assert!("Zebra".to_string().before(&"apple".to_string()));
    assert!(!"apple".to_string().before(&"apple".to_string()));
    assert!("apple".to_string().before(&"apples".to_string()));
}
