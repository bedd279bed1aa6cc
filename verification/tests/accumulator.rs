//! The live view of a project.

use pulci_core::accumulator::Accumulator;
use pulci_core::hooks::{Diagnostic, Severity};
use pulci_core::paths::FilePath;
use pulci_core::state::{State, Summary, SCHEMA_VERSION};

fn diag(file: &str, line: u32, col: u32, msg: &str) -> Diagnostic {
    Diagnostic {
        tool: "ruff".into(),
        file: FilePath::new(file),
        line,
        col,
        severity: Severity::Error,
        code: None,
        message: msg.into(),
    }
}

fn warn(file: &str, line: u32, msg: &str) -> Diagnostic {
    Diagnostic {
        tool: "ty".into(),
        file: FilePath::new(file),
        line,
        col: 0,
        severity: Severity::Warning,
        code: None,
        message: msg.into(),
    }
}

fn make_state(diagnostics: Vec<Diagnostic>) -> State {
    State {
        schema_version: SCHEMA_VERSION,
        state_version: 0,
        timestamp: "test".into(),
        summary: Summary { errors: 0, warnings: 0, checks_run: 0, stale: false },
        diagnostics,
        tools: vec![],
        tool_errors: vec![],
    }
}

#[test]
fn new_accumulator_is_empty() {
    let a = Accumulator::new();
    assert_eq!(a.files_tracked(), 0);
    assert!(a.snapshot().is_empty());
    assert_eq!(Accumulator::default().files_tracked(), 0);
}

#[test]
fn files_tracked_counts_keys_including_clean_entries() {
    let mut a = Accumulator::new();
    a.update(FilePath::new("a.py"), vec![diag("a.py", 1, 0, "x")]);
    a.update(FilePath::new("b.py"), vec![]);
    assert_eq!(a.files_tracked(), 2);
}

#[test]
fn snapshot_returns_sorted_flattened_diagnostics() {
    let mut a = Accumulator::new();
    a.update(
        FilePath::new("b.py"),
        vec![diag("b.py", 5, 0, "second"), diag("b.py", 2, 0, "first")],
    );
    a.update(FilePath::new("a.py"), vec![diag("a.py", 10, 0, "alpha")]);
    let snap = a.snapshot();
    assert_eq!(snap.len(), 3);
    assert_eq!(snap[0].file, FilePath::new("a.py"));
    assert_eq!(snap[1].file, FilePath::new("b.py"));
    assert_eq!(snap[1].line, 2);
    assert_eq!(snap[2].line, 5);
}

#[test]
fn update_adds_entry_with_diagnostics() {
    let mut a = Accumulator::new();
    a.update(FilePath::new("x.py"), vec![diag("x.py", 1, 0, "msg")]);
    let snap = a.snapshot();
    assert_eq!(snap.len(), 1);
    assert_eq!(snap[0].message, "msg");
}

#[test]
fn update_with_empty_vec_keeps_entry_as_clean() {
    let mut a = Accumulator::new();
    a.update(FilePath::new("clean.py"), vec![]);
    assert_eq!(a.files_tracked(), 1);
    assert!(a.snapshot().is_empty());
}

#[test]
fn update_replaces_existing_entry() {
    let mut a = Accumulator::new();
    a.update(FilePath::new("x.py"), vec![diag("x.py", 1, 0, "old")]);
    a.update(FilePath::new("x.py"), vec![diag("x.py", 1, 0, "new")]);
    let snap = a.snapshot();
    assert_eq!(snap.len(), 1);
    assert_eq!(snap[0].message, "new");
}

#[test]
fn remove_deletes_entry() {
    let mut a = Accumulator::new();
    a.update(FilePath::new("x.py"), vec![diag("x.py", 1, 0, "msg")]);
    a.remove(&FilePath::new("x.py"));
    assert_eq!(a.files_tracked(), 0);
    assert!(a.snapshot().is_empty());
}

#[test]
fn remove_missing_path_is_noop() {
    let mut a = Accumulator::new();
    a.remove(&FilePath::new("nope.py"));
    assert_eq!(a.files_tracked(), 0);
}

#[test]
fn reconcile_drops_entries_not_in_current_files() {
    let mut a = Accumulator::new();
    a.update(FilePath::new("keep.py"), vec![diag("keep.py", 1, 0, "k")]);
    a.update(FilePath::new("drop.py"), vec![diag("drop.py", 1, 0, "d")]);
    let current = vec![FilePath::new("keep.py")];
    a.reconcile_with(&current);
    assert_eq!(a.files_tracked(), 1);
    let snap = a.snapshot();
    assert_eq!(snap.len(), 1);
    assert_eq!(snap[0].file, FilePath::new("keep.py"));
}

#[test]
fn from_state_rebuilds_groups_diagnostics_by_file() {
    let prev = make_state(vec![
        diag("a.py", 1, 0, "a1"),
        diag("a.py", 2, 0, "a2"),
        warn("b.py", 5, "b_warn"),
    ]);
    let a = Accumulator::from_state(&prev);
    assert_eq!(a.files_tracked(), 2);
    let snap = a.snapshot();
    assert_eq!(snap.len(), 3);
}

#[test]
fn from_state_with_empty_diagnostics_is_empty_accumulator() {
    let prev = make_state(vec![]);
    let a = Accumulator::from_state(&prev);
    assert_eq!(a.files_tracked(), 0);
}

#[test]
fn snapshot_of_a_rebuilt_accumulator_is_the_published_list() {
    let prev = make_state(vec![
        diag("a.py", 1, 4, "first"),
        diag("a.py", 1, 4, "second"),
        diag("a.py", 3, 0, "third"),
        warn("src/b.py", 5, "fourth"),
    ]);
    let again = Accumulator::from_state(&prev).snapshot();
    let messages: Vec<&str> = again.iter().map(|d| d.message.as_str()).collect();
    assert_eq!(messages, vec!["first", "second", "third", "fourth"]);
}

#[test]
fn snapshot_does_not_depend_on_the_order_of_updates() {
    let mut a = Accumulator::new();
    a.update(FilePath::new("a.py"), vec![diag("a.py", 2, 0, "a2"), diag("a.py", 1, 0, "a1")]);
    a.update(FilePath::new("b.py"), vec![diag("b.py", 1, 0, "b1")]);
    let mut b = Accumulator::new();
    b.update(FilePath::new("b.py"), vec![diag("b.py", 1, 0, "b1")]);
    b.update(FilePath::new("a.py"), vec![diag("a.py", 2, 0, "a2"), diag("a.py", 1, 0, "a1")]);
    let x: Vec<String> = a.snapshot().into_iter().map(|d| d.message).collect();
    let y: Vec<String> = b.snapshot().into_iter().map(|d| d.message).collect();
    assert_eq!(x, vec!["a1", "a2", "b1"]);
    assert_eq!(x, y);
}

#[test]
fn update_leaves_other_files_alone() {
    let mut a = Accumulator::new();
    a.update(FilePath::new("a.py"), vec![diag("a.py", 1, 0, "a")]);
    a.update(FilePath::new("b.py"), vec![diag("b.py", 1, 0, "b")]);
    a.update(FilePath::new("b.py"), vec![]);
    let snap = a.snapshot();
    assert_eq!(snap.len(), 1);
    assert_eq!(snap[0].message, "a");
    assert_eq!(a.files_tracked(), 2);
}

#[test]
fn one_path_in_two_spellings_is_one_file() {
    let mut a = Accumulator::new();
    a.update(FilePath::new("src//a.py"), vec![diag("src/a.py", 1, 0, "old")]);
    a.update(FilePath::new("src/./a.py"), vec![diag("src/a.py", 1, 0, "new")]);
    assert_eq!(a.files_tracked(), 1);
    assert_eq!(a.snapshot()[0].message, "new");
    a.remove(&FilePath::new("src/a.py/"));
    assert_eq!(a.files_tracked(), 0);
}
