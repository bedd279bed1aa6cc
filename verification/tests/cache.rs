//! Which files have changed.

use pulci_core::cache::{FileCache, FileStamp};
use pulci_core::event_trace::{CacheDecision, EventRecord};
use pulci_core::paths::FilePath;

fn stamp(mtime_ns: i128, size: u64) -> Option<FileStamp> {
    Some(FileStamp { mtime_ns, size })
}

#[test]
fn missing_file_is_changed() {
    let path = FilePath::new("/tmp/pulci_no_such_file_test.py");
    let mut cache = FileCache::new();
    assert!(cache.has_changed(&path, None));
}

#[test]
fn unseen_file_is_changed() {
    let mut cache = FileCache::new();
    assert!(cache.has_changed(&FilePath::new("a.py"), stamp(1, 5)));
}

#[test]
fn unchanged_file_is_not_changed_on_second_call() {
    let path = FilePath::new("b.py");
    let mut cache = FileCache::new();
    cache.has_changed(&path, stamp(1, 5));
    assert!(!cache.has_changed(&path, stamp(1, 5)));
}

#[test]
fn different_size_is_detected() {
    let path = FilePath::new("c.py");
    let mut cache = FileCache::new();
    cache.has_changed(&path, stamp(1, 1));
    assert!(cache.has_changed(&path, stamp(1, 12)));
}

#[test]
fn different_time_is_detected() {
    let path = FilePath::new("c.py");
    let mut cache = FileCache::default();
    cache.has_changed(&path, stamp(1, 1));
    assert!(cache.has_changed(&path, stamp(2, 1)));
    assert!(!cache.has_changed(&path, stamp(2, 1)));
}

#[test]
fn filter_changed_returns_only_changed_files() {
    let p1 = FilePath::new("d.py");
    let p2 = FilePath::new("e.py");
    let mut cache = FileCache::new();
    cache.has_changed(&p1, stamp(1, 5));

    let changed = cache.filter_changed(&vec![(p1, stamp(1, 5)), (p2.clone(), stamp(1, 5))]);
    assert_eq!(changed.len(), 1);
    assert_eq!(changed[0], p2);
}

#[test]
fn file_that_comes_back_is_changed_again() {
    let path = FilePath::new("f.py");
    let mut cache = FileCache::new();
    assert!(cache.has_changed(&path, stamp(1, 5)));
    assert!(cache.has_changed(&path, None));
    assert!(cache.has_changed(&path, stamp(1, 5)));
}

#[test]
fn one_file_says_nothing_of_another() {
    let mut cache = FileCache::new();
    cache.has_changed(&FilePath::new("a.py"), stamp(1, 5));
    assert!(cache.has_changed(&FilePath::new("b.py"), stamp(1, 5)));
    assert!(!cache.has_changed(&FilePath::new("a.py"), stamp(1, 5)));
}

#[test]
fn file_listed_twice_is_returned_once() {
    let p = FilePath::new("a.py");
    let mut cache = FileCache::new();
    let changed = cache.filter_changed(&vec![(p.clone(), stamp(1, 5)), (p, stamp(1, 5))]);
    assert_eq!(changed.len(), 1);
}

#[test]
fn decisions_are_recorded() {
    let path = FilePath::new("g.py");
    let mut cache = FileCache::new();
    let unseen = cache.look(&path, stamp(7, 5));
    assert_eq!(unseen.decision, CacheDecision::Unseen);
    let filtered = cache.look(&path, stamp(7, 5));
    assert_eq!(filtered.decision, CacheDecision::Filtered);
    let changed = cache.look(&path, stamp(9, 6));
    assert_eq!(changed.decision, CacheDecision::Changed);
    match changed.record(100, path.clone()) {
        EventRecord::Cache {
            ts_ns,
            path: p,
            decision,
            prev_mtime_ns,
            curr_mtime_ns,
            prev_size,
            curr_size,
            batch_id,
        } => {
            assert_eq!(ts_ns, 100);
            assert_eq!(p, path);
            assert_eq!(decision, CacheDecision::Changed);
            assert_eq!(prev_mtime_ns, Some(7));
            assert_eq!(curr_mtime_ns, Some(9));
            assert_eq!(prev_size, Some(5));
            assert_eq!(curr_size, Some(6));
            assert_eq!(batch_id, None);
        }
        _ => panic!("expected a cache record"),
    }
    let missing = cache.look(&path, None);
    assert_eq!(missing.decision, CacheDecision::Missing);
    assert!(missing.changed);
}

#[test]
fn times_before_the_epoch_are_not_recorded() {
    let path = FilePath::new("old.py");
    let mut cache = FileCache::new();
    let seen = cache.look(&path, stamp(-1, 5));
    match seen.record(1, path) {
        EventRecord::Cache { curr_mtime_ns, curr_size, .. } => {
            assert_eq!(curr_mtime_ns, None);
            assert_eq!(curr_size, Some(5));
        }
        _ => panic!("expected a cache record"),
    }
}
