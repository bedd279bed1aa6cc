//! Replacing a published file.

use pulci_core::paths::FilePath;
use pulci_core::store::{Replacement, Stage, StoreStep};

fn begin() -> Replacement {
    let (r, first) = Replacement::begin(FilePath::new("/r/.pulci/state.json"));
    assert!(matches!(first, StoreStep::MakeDir { dir } if dir.as_str() == "/r/.pulci"));
    r
}

fn failure(step: StoreStep) -> String {
    match step {
        StoreStep::Done(Err(e)) => e,
        other => panic!("expected a failure, got {other:?}"),
    }
}

#[test]
fn replacement_writes_beside_and_renames() {
    let mut r = begin();
    assert!(
        matches!(r.next(Ok(())), StoreStep::Write { path } if path.as_str() == "/r/.pulci/state.json.tmp")
    );
    match r.next(Ok(())) {
        StoreStep::Rename { from, to } => {
            assert_eq!(from.as_str(), "/r/.pulci/state.json.tmp");
            assert_eq!(to.as_str(), "/r/.pulci/state.json");
        }
        other => panic!("expected a rename, got {other:?}"),
    }
    assert!(matches!(r.next(Ok(())), StoreStep::Done(Ok(()))));
    assert!(matches!(r.stage, Stage::Over));
}

#[test]
fn replacement_that_cannot_rename_cleans_up() {
    let mut r = begin();
    r.next(Ok(()));
    r.next(Ok(()));
    assert!(
        matches!(r.next(Err("denied".into())), StoreStep::Remove { path } if path.as_str() == "/r/.pulci/state.json.tmp")
    );
    assert_eq!(failure(r.next(Err("gone".into()))), "denied");
}

#[test]
fn replacement_stops_where_it_cannot_write() {
    let mut r = begin();
    assert_eq!(failure(r.next(Err("no directory".into()))), "no directory");
    let mut r = begin();
    r.next(Ok(()));
    assert_eq!(failure(r.next(Err("disk full".into()))), "disk full");
    assert!(matches!(r.stage, Stage::Over));
}

#[test]
fn temporary_file_has_its_own_extension() {
    for (file, temporary) in [
        ("d/state", "d/state.json.tmp"),
        ("d/state.txt", "d/state.json.tmp"),
        ("d/state.json.tmp", "d/state.json.json.tmp"),
        ("d/.state", "d/.state.json.tmp"),
    ] {
        let (mut r, _) = Replacement::begin(FilePath::new(file));
        match r.next(Ok(())) {
            StoreStep::Write { path } => assert_eq!(path.as_str(), temporary),
            other => panic!("expected a write, got {other:?}"),
        }
    }
}

#[test]
fn replacement_without_directory_writes_at_once() {
    let (r, first) = Replacement::begin(FilePath::new("/"));
    assert!(matches!(first, StoreStep::Write { path } if path.as_str() == "/"));
    assert!(matches!(r.stage, Stage::Temporary));
    let (_, first) = Replacement::begin(FilePath::new("state.json"));
    assert!(matches!(first, StoreStep::MakeDir { dir } if dir.as_str().is_empty()));
}
