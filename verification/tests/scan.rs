//! Which files are sources, and which events count.

use pulci_core::paths::FilePath;
use pulci_core::scan::{collect_py_files, is_excluded, is_source_file, DirEntry, Scan};
use pulci_core::watcher::{
    is_ignored, route, watcher_record, FileEvent, Modification, RawEvent, RawKind, RenameStep,
};
use pulci_core::event_trace::EventRecord;

fn p(s: &str) -> FilePath {
    FilePath::new(s)
}

#[test]
fn is_excluded_matches_path_under_excluded_dir() {
    let root = p("/project");
    let target = p("/project/benchmarks/fixture/foo.py");
    assert!(is_excluded(&target, &root, &vec!["benchmarks/fixture".to_string()]));
}

#[test]
fn is_excluded_does_not_match_sibling_path() {
    let root = p("/project");
    let target = p("/project/src/foo.py");
    assert!(!is_excluded(&target, &root, &vec!["benchmarks/fixture".to_string()]));
}

#[test]
fn is_excluded_empty_list_excludes_nothing() {
    let root = p("/project");
    let target = p("/project/src/foo.py");
    assert!(!is_excluded(&target, &root, &vec![]));
}

#[test]
fn is_excluded_matches_multiple_excludes_independently() {
    let root = p("/project");
    let a = p("/project/vendor/x.py");
    let b = p("/project/benchmarks/fixture/y.py");
    let c = p("/project/src/z.py");
    let excludes = vec!["vendor".to_string(), "benchmarks/fixture".to_string()];
    assert!(is_excluded(&a, &root, &excludes));
    assert!(is_excluded(&b, &root, &excludes));
    assert!(!is_excluded(&c, &root, &excludes));
}

#[test]
fn is_excluded_compares_whole_components() {
    let root = p("/project");
    assert!(!is_excluded(&p("/project/vendored/x.py"), &root, &vec!["vendor".to_string()]));
    assert!(is_excluded(&p("/project/vendor"), &root, &vec!["vendor/".to_string()]));
    assert!(is_excluded(&p("/other/x.py"), &root, &vec!["/other".to_string()]));
}

#[test]
fn is_source_file_py_always_accepted() {
    assert!(is_source_file(&p("foo.py"), false));
    assert!(is_source_file(&p("foo.py"), true));
    assert!(is_source_file(&p("/abs/path/x.py"), false));
}

#[test]
fn is_source_file_rs_only_when_clippy_enabled() {
    assert!(!is_source_file(&p("foo.rs"), false));
    assert!(is_source_file(&p("foo.rs"), true));
}

#[test]
fn is_source_file_other_extensions_rejected() {
    assert!(!is_source_file(&p("foo.md"), true));
    assert!(!is_source_file(&p("foo.toml"), true));
    assert!(!is_source_file(&p("Makefile"), true));
    assert!(!is_source_file(&p("noextension"), true));
}

#[test]
fn is_source_file_atomic_write_temp_files_rejected() {
    assert!(!is_source_file(&p("foo.py.tmp.12345.abc"), true));
    assert!(!is_source_file(&p("bar.rs.tmp.9999"), true));
}

#[test]
fn is_source_file_needs_a_name() {
    assert!(!is_source_file(&p(".py"), true));
    assert!(!is_source_file(&p(""), true));
    assert!(!is_source_file(&p("dir.py/.."), true));
    assert!(is_source_file(&p("dir/x.py/"), true));
}

#[test]
fn ignores_git_dir() {
    assert!(is_ignored(&p(".git/config")));
}

#[test]
fn ignores_pulci_state_dir() {
    assert!(is_ignored(&p(".pulci/state.json")));
    assert!(is_ignored(&p(".pulci/state.json.tmp")));
}

#[test]
fn ignores_pycache() {
    assert!(is_ignored(&p("src/__pycache__/foo.pyc")));
}

#[test]
fn ignores_venv() {
    assert!(is_ignored(&p(".venv/lib/python3.11/site.py")));
}

#[test]
fn ignores_node_modules() {
    assert!(is_ignored(&p("frontend/node_modules/react/index.js")));
}

#[test]
fn ignores_target() {
    assert!(is_ignored(&p("target/debug/pulci")));
}

#[test]
fn ignores_ruff_cache() {
    assert!(is_ignored(&p(".ruff_cache/0.15.0/abc123")));
}

#[test]
fn ignores_pytest_cache() {
    assert!(is_ignored(&p(".pytest_cache/v/cache/nodeids")));
}

#[test]
fn ignores_pytest_cache_files_tmpdir() {
    assert!(is_ignored(&p("pytest-cache-files-abc123/README.md")));
}

#[test]
fn allows_src_file() {
    assert!(!is_ignored(&p("src/main.rs")));
}

#[test]
fn allows_python_file() {
    assert!(!is_ignored(&p("python/pulci/cli.py")));
}

#[test]
fn allows_tests() {
    assert!(!is_ignored(&p("tests/test_smoke.py")));
}

fn event(kind: RawKind, paths: Vec<FilePath>) -> RawEvent {
    RawEvent { need_rescan: false, kind, kind_text: "kind".into(), paths }
}

#[test]
fn lost_events_ask_for_a_scan() {
    let mut e = event(RawKind::Any, vec![p("a.py")]);
    e.need_rescan = true;
    let out = route(&e);
    assert_eq!(out.len(), 1);
    assert!(matches!(out[0], FileEvent::Rescan));
}

#[test]
fn removals_and_changes_are_told_apart() {
    let from = RawKind::Modify(Modification::Name(RenameStep::From));
    let to = RawKind::Modify(Modification::Name(RenameStep::To));
    for kind in [RawKind::Remove, from] {
        let out = route(&event(kind, vec![p("a.py")]));
        assert!(matches!(&out[0], FileEvent::Removed { path } if *path == p("a.py")));
    }
    for kind in [RawKind::Create, to, RawKind::Modify(Modification::Data), RawKind::Access] {
        let out = route(&event(kind, vec![p("a.py")]));
        assert!(
            matches!(&out[0], FileEvent::Changed { path, kind } if *path == p("a.py") && kind == "kind")
        );
    }
}

#[test]
fn ignored_paths_make_no_event() {
    let out = route(&event(RawKind::Create, vec![p("/x/.pulci/state.json"), p("/x/a.py")]));
    assert_eq!(out.len(), 1);
    assert!(matches!(&out[0], FileEvent::Changed { path, .. } if *path == p("/x/a.py")));
    assert!(route(&event(RawKind::Remove, vec![p(".git/index")])).is_empty());
}

#[test]
fn watched_events_are_recorded() {
    let changed = FileEvent::Changed { path: p("a.py"), kind: "k".into() };
    match watcher_record(9, &changed, "Create", Some(5), Some(3), Some("ab".into())) {
        Some(EventRecord::Watcher { ts_ns, path, kind, mtime_ns, size, content_sha256 }) => {
            assert_eq!(ts_ns, 9);
            assert_eq!(path, p("a.py"));
            assert_eq!(kind, "Create");
            assert_eq!(mtime_ns, Some(5));
            assert_eq!(size, Some(3));
            assert_eq!(content_sha256.as_deref(), Some("ab"));
        }
        _ => panic!("expected a record"),
    }
    let removed = FileEvent::Removed { path: p("a.py") };
    match watcher_record(9, &removed, "Remove", Some(5), Some(3), Some("ab".into())) {
        Some(EventRecord::Watcher { mtime_ns, size, content_sha256, .. }) => {
            assert_eq!((mtime_ns, size, content_sha256), (None, None, None));
        }
        _ => panic!("expected a record"),
    }
    match watcher_record(9, &changed, "Modify", Some(-1), Some(3), None) {
        Some(EventRecord::Watcher { mtime_ns, size, .. }) => assert_eq!((mtime_ns, size), (None, Some(3))),
        _ => panic!("expected a record"),
    }
    assert!(watcher_record(9, &FileEvent::Rescan, "x", None, None, None).is_none());
}

struct Tree {
    dirs: Vec<(&'static str, Vec<(&'static str, bool)>)>,
}

impl Tree {
    fn list(&self, dir: &FilePath) -> Vec<DirEntry> {
        for (name, entries) in &self.dirs {
            if p(name) == *dir {
                return entries
                    .iter()
                    .map(|(n, is_dir)| DirEntry { path: dir.join(n), is_dir: *is_dir })
                    .collect();
            }
        }
        Vec::new()
    }

    fn scan(&self, root: &str, excludes: Vec<String>) -> Vec<String> {
        let root = p(root);
        let mut scan = Scan::new();
        let mut listing = self.list(&root);
        while let Some(dir) = collect_py_files(&mut scan, listing, &root, &excludes) {
            listing = self.list(&dir);
        }
        scan.found.iter().map(|f| f.as_str().to_string()).collect()
    }
}

#[test]
fn collect_py_files_finds_nested_files() {
    let tree = Tree {
        dirs: vec![
            ("/r", vec![("a.py", false), ("src", true), ("z.py", false)]),
            ("/r/src", vec![("b.py", false), ("sub", true), ("d.rs", false)]),
            ("/r/src/sub", vec![("c.py", false)]),
        ],
    };
    assert_eq!(
        tree.scan("/r", vec![]),
        vec!["/r/a.py", "/r/src/b.py", "/r/src/sub/c.py", "/r/z.py"]
    );
}

#[test]
fn collect_py_files_skips_watcher_ignored_dirs() {
    let tree = Tree {
        dirs: vec![
            ("/r", vec![("__pycache__", true), (".venv", true), ("target", true), ("a.py", false)]),
            ("/r/__pycache__", vec![("cached.py", false)]),
            ("/r/.venv", vec![("vendor.py", false)]),
            ("/r/target", vec![("debug.py", false)]),
        ],
    };
    assert_eq!(tree.scan("/r", vec![]), vec!["/r/a.py"]);
}

#[test]
fn collect_py_files_skips_user_excluded_dirs() {
    let tree = Tree {
        dirs: vec![
            ("/r", vec![("fixture", true), ("a.py", false)]),
            ("/r/fixture", vec![("intentional_violations.py", false)]),
        ],
    };
    assert_eq!(tree.scan("/r", vec!["fixture".to_string()]), vec!["/r/a.py"]);
}

#[test]
fn collect_py_files_missing_dir_returns_empty() {
    let tree = Tree { dirs: vec![] };
    assert!(tree.scan("/missing", vec![]).is_empty());
}

#[test]
fn collect_py_files_handles_empty_dir() {
    let tree = Tree { dirs: vec![("/r", vec![])] };
    assert!(tree.scan("/r", vec![]).is_empty());
}

#[test]
fn directories_named_like_sources_are_descended() {
    let tree = Tree {
        dirs: vec![("/r", vec![("odd.py", true)]), ("/r/odd.py", vec![("x.py", false)])],
    };
    assert_eq!(tree.scan("/r", vec![]), vec!["/r/odd.py/x.py"]);
}
