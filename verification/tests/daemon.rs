//! The decisions of the daemon.

use pulci_core::cache::FileStamp;
use pulci_core::config::{load_config, start_config, Config, ConfigFile, HooksConfig, StartConfig};
use pulci_core::daemon::{
    abort_message, group_results_by_file, turn, window_left, Batch, Canonical, CheckPass, Daemon,
    Examine, Received, Task, Turn, WriteStep,
};
use pulci_core::hooks::{Diagnostic, HookError, Severity, Span};
use pulci_core::orchestrator::{conclude, HookOutcome, Orchestrator, RunResult};
use pulci_core::paths::FilePath;
use pulci_core::state::{State, Summary, ToolInfo, SCHEMA_VERSION};
use pulci_core::watcher::FileEvent;

fn p(s: &str) -> FilePath {
    FilePath::new(s)
}

fn diag(file: &str, line: u32, message: &str) -> Diagnostic {
    Diagnostic {
        tool: "ruff".into(),
        file: p(file),
        line,
        col: 0,
        severity: Severity::Error,
        code: None,
        message: message.into(),
    }
}

fn result(diagnostics: Vec<Diagnostic>) -> RunResult {
    RunResult { tool: "ruff".into(), diagnostics, error: None }
}

fn tool(version: &str) -> ToolInfo {
    ToolInfo {
        name: "ruff".into(),
        version: version.into(),
        source: "local-venv".into(),
        path: None,
    }
}

fn prev(version: u64, passes: u32, tools: Vec<ToolInfo>, diagnostics: Vec<Diagnostic>) -> State {
    State {
        schema_version: SCHEMA_VERSION,
        state_version: version,
        timestamp: "then".into(),
        summary: Summary { errors: 0, warnings: 0, checks_run: passes, stale: false },
        diagnostics,
        tools,
        tool_errors: vec![],
    }
}

fn fresh() -> Daemon {
    Daemon::resume(p("/r"), vec!["vendor".to_string()], false, vec![tool("1")], &None)
}

fn seen(file: &str, mtime_ns: i128) -> (FilePath, Option<FileStamp>) {
    (p(file), Some(FileStamp { mtime_ns, size: 1 }))
}

fn messages(state: &State) -> Vec<&str> {
    state.diagnostics.iter().map(|d| d.message.as_str()).collect()
}

fn checked(task: Task) -> CheckPass {
    match task {
        Task::Check(pass) => pass,
        other => panic!("expected a check, got {other:?}"),
    }
}

#[test]
fn first_scan_checks_every_file() {
    let mut d = fresh();
    let files = vec![seen("/r/a.py", 1), seen("/r/b.py", 1)];
    let (task, outcomes) = d.on_first_scan(&files);
    assert_eq!(outcomes.len(), 2);
    assert!(outcomes.iter().all(|o| o.changed));
    let list = checked(task);
    assert_eq!(list.files.len(), 2);
    assert!(list.rescanned.is_none());
    let state = d.on_results(&list, &vec![result(vec![diag("/r/b.py", 3, "x")])], "t".into());
    assert_eq!(messages(&state), vec!["x"]);
    assert_eq!(state.state_version, 0);
    assert_eq!(state.summary.checks_run, 1);
    assert_eq!(d.accumulator.files_tracked(), 2);
}

#[test]
fn first_scan_of_an_empty_project_rests() {
    let mut d = fresh();
    assert!(matches!(d.on_first_scan(&vec![]).0, Task::Rest));
}

#[test]
fn restart_continues_counts_and_keeps_diagnostics() {
    let last = prev(41, 7, vec![tool("1")], vec![diag("/r/a.py", 1, "kept"), diag("/r/gone.py", 1, "lost")]);
    let mut d = Daemon::resume(p("/r"), vec![], false, vec![tool("1")], &Some(last));
    assert!(!d.stale);
    let list = checked(d.on_first_scan(&vec![seen("/r/a.py", 1)]).0);
    assert_eq!(list.files, vec![p("/r/a.py")]);
    let state = d.on_publish("t".into());
    assert_eq!(messages(&state), vec!["kept"]);
    assert_eq!(state.state_version, 42);
    assert_eq!(state.summary.checks_run, 8);
}

#[test]
fn restart_without_files_renews_the_state() {
    let last = prev(1, 1, vec![tool("1")], vec![diag("/r/gone.py", 1, "lost")]);
    let mut d = Daemon::resume(p("/r"), vec![], false, vec![tool("1")], &Some(last));
    assert!(matches!(d.on_first_scan(&vec![]).0, Task::Publish));
    assert!(d.on_publish("t".into()).diagnostics.is_empty());
}

#[test]
fn change_of_tools_shows_once() {
    let last = prev(1, 1, vec![tool("1")], vec![]);
    let mut d = Daemon::resume(p("/r"), vec![], false, vec![tool("2")], &Some(last));
    assert!(d.stale);
    let list = checked(d.on_first_scan(&vec![seen("/r/a.py", 1)]).0);
    let first = d.on_results(&list, &vec![], "t".into());
    assert!(first.summary.stale);
    let second = d.on_publish("t".into());
    assert!(!second.summary.stale);
    assert_eq!(second.state_version, first.state_version + 1);
}

#[test]
fn checking_one_file_keeps_the_others() {
    let mut d = fresh();
    let list = checked(d.on_first_scan(&vec![seen("/r/a.py", 1), seen("/r/b.py", 1)]).0);
    let both = vec![result(vec![diag("/r/a.py", 1, "a"), diag("/r/b.py", 1, "b")])];
    d.on_results(&list, &both, "t".into());

    let mut batch = Batch::new();
    batch.intake(
        FileEvent::Changed { path: p("a.py"), kind: "k".into() },
        Canonical::Resolved(p("/r/a.py")),
    );
    batch.close();
    match d.to_examine(&batch) {
        Examine::Files(files) => assert_eq!(files, vec![p("/r/a.py")]),
        other => panic!("expected files, got {other:?}"),
    }
    let list = checked(d.on_batch(&batch, &vec![seen("/r/a.py", 2)]).0);
    let state = d.on_results(&list, &vec![result(vec![])], "t".into());
    assert_eq!(messages(&state), vec!["b"]);
}

#[test]
fn fixed_finding_is_gone_however_its_file_was_named() {
    let mut d = fresh();
    let pass = checked(d.on_first_scan(&vec![seen("/r/src/a.py", 1)]).0);
    let printed = |list| {
        conclude(HookOutcome::Finished { tool: "ty".into(), dir: p("/r"), result: Ok(list) })
    };
    let found = vec![diag("src/a.py", 1, "relative"), diag("/r/src/a.py", 2, "absolute")];
    let state = d.on_results(&pass, &vec![printed(found)], "t".into());
    assert_eq!(messages(&state), vec!["relative", "absolute"]);
    assert_eq!(state.diagnostics[0].file.as_str(), "/r/src/a.py");
    assert_eq!(d.accumulator.files_tracked(), 1);

    let state = d.on_results(&pass, &vec![printed(vec![])], "t".into());
    assert!(state.diagnostics.is_empty());
}

#[test]
fn finding_without_a_place_stays_without() {
    let r = conclude(HookOutcome::Finished {
        tool: "ty".into(),
        dir: p("/r"),
        result: Ok(vec![diag("", 0, "x")]),
    });
    assert_eq!(r.diagnostics[0].file.as_str(), "");
}

#[test]
fn untouched_file_is_not_checked_again() {
    let mut d = fresh();
    checked(d.on_first_scan(&vec![seen("/r/a.py", 1)]).0);
    let batch = Batch::new();
    assert!(matches!(d.on_batch(&batch, &vec![seen("/r/a.py", 1)]).0, Task::Rest));
}

#[test]
fn removed_file_leaves_the_state() {
    let mut d = fresh();
    let list = checked(d.on_first_scan(&vec![seen("/r/a.py", 1), seen("/r/b.py", 1)]).0);
    let both = vec![result(vec![diag("/r/a.py", 1, "a"), diag("/r/b.py", 1, "b")])];
    d.on_results(&list, &both, "t".into());
    let mut batch = Batch::new();
    batch.intake(FileEvent::Removed { path: p("/r/a.py") }, Canonical::Missing);
    batch.close();
    assert!(matches!(d.on_batch(&batch, &vec![]).0, Task::Publish));
    assert_eq!(messages(&d.on_publish("t".into())), vec!["b"]);
}

#[test]
fn new_scan_drops_files_that_are_gone() {
    let mut d = fresh();
    let list = checked(d.on_first_scan(&vec![seen("/r/a.py", 1), seen("/r/b.py", 1)]).0);
    let both = vec![result(vec![diag("/r/a.py", 1, "a"), diag("/r/b.py", 1, "b")])];
    d.on_results(&list, &both, "t".into());
    let mut batch = Batch::new();
    batch.intake(FileEvent::Rescan, Canonical::Failed);
    batch.close();
    assert!(batch.rescan);
    assert!(matches!(d.to_examine(&batch), Examine::WholeProject));
    assert!(matches!(d.on_batch(&batch, &vec![seen("/r/b.py", 1)]).0, Task::Publish));
    assert_eq!(messages(&d.on_publish("t".into())), vec!["b"]);

    let list = checked(d.on_batch(&batch, &vec![seen("/r/c.py", 1)]).0);
    assert_eq!(list.rescanned, Some(vec![p("/r/c.py")]));
    let state = d.on_results(&list, &vec![result(vec![diag("/r/c.py", 1, "c")])], "t".into());
    assert_eq!(messages(&state), vec!["c"]);
}

#[test]
fn batch_holds_canonical_paths_once() {
    let mut batch = Batch::new();
    let changed = |s: &str| FileEvent::Changed { path: p(s), kind: "k".into() };
    batch.intake(changed("a.py"), Canonical::Resolved(p("/r/a.py")));
    batch.intake(changed("/r/a.py"), Canonical::Resolved(p("/r/a.py")));
    batch.intake(changed("/r/gone.py"), Canonical::Missing);
    batch.intake(changed("/r/odd.py"), Canonical::Failed);
    assert_eq!(batch.paths, vec![p("/r/a.py"), p("/r/odd.py")]);
    batch.intake(FileEvent::Removed { path: p("x.py") }, Canonical::Resolved(p("/r/x.py")));
    batch.intake(FileEvent::Removed { path: p("/r/odd.py") }, Canonical::Failed);
    assert_eq!(batch.removed, vec![p("/r/x.py"), p("/r/odd.py")]);
    batch.close();
    assert_eq!(batch.paths, vec![p("/r/a.py")]);
}

#[test]
fn batch_files_are_sources_that_are_not_excluded() {
    let d = fresh();
    let mut batch = Batch::new();
    for s in ["/r/a.py", "/r/vendor/b.py", "/r/c.rs", "/r/d.py.tmp"] {
        batch.intake(
            FileEvent::Changed { path: p(s), kind: "k".into() },
            Canonical::Resolved(p(s)),
        );
    }
    assert_eq!(d.batch_files(&batch), vec![p("/r/a.py")]);
    let rust = Daemon::resume(p("/r"), vec![], true, vec![], &None);
    assert_eq!(rust.batch_files(&batch), vec![p("/r/a.py"), p("/r/vendor/b.py"), p("/r/c.rs")]);
}

#[test]
fn results_are_grouped_by_file() {
    let results = vec![
        result(vec![diag("a.py", 1, "1"), diag("b.py", 1, "2")]),
        result(vec![diag("a.py", 2, "3")]),
    ];
    let groups = group_results_by_file(&results, &vec![p("a.py"), p("clean.py")]);
    assert_eq!(groups.count(), 3);
    let a: Vec<&str> =
        groups.get(&p("a.py")).unwrap().iter().map(|d| d.message.as_str()).collect();
    assert_eq!(a, vec!["1", "3"]);
    assert!(groups.get(&p("clean.py")).unwrap().is_empty());
    assert_eq!(groups.get(&p("b.py")).unwrap().len(), 1);
    assert!(groups.get(&p("never.py")).is_none());
}

#[test]
fn three_failed_writes_in_a_row_end_the_daemon() {
    let mut d = fresh();
    assert_eq!(d.on_write(false), WriteStep::Continue);
    assert_eq!(d.on_write(false), WriteStep::Continue);
    assert_eq!(d.on_write(true), WriteStep::Continue);
    assert_eq!(d.on_write(false), WriteStep::Continue);
    assert_eq!(d.on_write(false), WriteStep::Continue);
    assert_eq!(d.on_write(false), WriteStep::Abort);
    assert_eq!(
        abort_message("disk full"),
        "pulci aborting: 3 consecutive state.json writes failed. Last error: disk full. \
         Check disk space and .pulci/ permissions."
    );
}

#[test]
fn daemon_ends_with_its_watcher() {
    assert!(matches!(turn(Received::Event(FileEvent::Rescan)), Turn::Handle(FileEvent::Rescan)));
    assert!(matches!(turn(Received::Nothing), Turn::Wait));
    assert!(matches!(turn(Received::Closed { error: None }), Turn::End));
    match turn(Received::Closed { error: Some("no inotify".into()) }) {
        Turn::Fail(message) => assert_eq!(message, "pulci watcher failed: no inotify"),
        other => panic!("unexpected turn {other:?}"),
    }
}

#[test]
fn window_closes_after_fifty_milliseconds() {
    let after = |nanos: u32| window_left(Span { secs: 0, nanos });
    assert_eq!(after(0), Some(Span { secs: 0, nanos: 50_000_000 }));
    assert_eq!(after(49_999_999), Some(Span { secs: 0, nanos: 1 }));
    assert_eq!(after(50_000_000), None);
    assert_eq!(window_left(Span { secs: 1, nanos: 0 }), None);
}

#[test]
fn defaults_when_no_file() {
    let cfg = load_config(ConfigFile::Absent).unwrap();
    assert!(cfg.hooks.ruff);
    assert!(cfg.hooks.ty);
    assert!(!cfg.hooks.pytest);
    assert!(!cfg.hooks.ruff_format && !cfg.hooks.clippy);
    assert!(cfg.watch.exclude.is_empty() && !cfg.debug.event_trace);
    assert_eq!(cfg.hooks.timeout(), Span::from_secs(120));
}

#[test]
fn configuration_that_cannot_be_used_is_an_error() {
    let err = load_config(ConfigFile::UnknownKey("unknown field `clipy`".into())).unwrap_err();
    assert_eq!(err.message, "unknown field `clipy`");
    assert!(matches!(start_config(Err(err)), StartConfig::Fail(m) if m == "unknown field `clipy`"));
    for found in [ConfigFile::Unreadable("denied".into()), ConfigFile::Malformed("denied".into())] {
        match start_config(load_config(found)) {
            StartConfig::Warn { warning, config } => {
                assert_eq!(warning, "pulci: warning: failed to load pulci.toml (denied), using defaults");
                assert!(config.hooks.ruff && config.hooks.ty && !config.hooks.pytest);
            }
            other => panic!("expected a warning, got {other:?}"),
        }
    }
}

#[test]
fn parsed_configuration_is_used_as_it_is() {
    let mut config = Config::default();
    config.hooks = HooksConfig { timeout_secs: Some(9), ..HooksConfig::default() };
    let cfg = load_config(ConfigFile::Parsed(config)).unwrap();
    assert_eq!(cfg.hooks.timeout(), Span::from_secs(9));
}

#[test]
fn collects_results_from_multiple_hooks() {
    let results: Vec<RunResult> = ["hook-a", "hook-b"]
        .iter()
        .map(|n| {
            conclude(HookOutcome::Finished {
                tool: n.to_string(),
                dir: p("/r"),
                result: Ok(vec![diag("x.py", 1, "test")]),
            })
        })
        .collect();
    assert_eq!(results.len(), 2);
    assert!(results.iter().all(|r| r.error.is_none()));
    assert!(results.iter().all(|r| r.diagnostics.len() == 1));
    assert_eq!(results[1].tool, "hook-b");
}

#[test]
fn error_hook_does_not_panic_orchestrator() {
    let r = conclude(HookOutcome::Finished {
        tool: "broken".into(),
        dir: p("/r"),
        result: Err(HookError { message: "tool not found".into() }),
    });
    assert_eq!(r.error.as_deref(), Some("tool not found"));
    assert!(r.diagnostics.is_empty());
}

#[test]
fn broken_task_is_recorded() {
    let r = conclude(HookOutcome::Panicked { error: "task 3 panicked".into() });
    assert_eq!(r.tool, "unknown");
    assert_eq!(r.error.as_deref(), Some("hook task panicked: task 3 panicked"));
    assert!(r.diagnostics.is_empty());
}

#[test]
fn empty_hooks_returns_empty() {
    let orch: Orchestrator<u8> = Orchestrator::new(vec![]);
    assert!(orch.hooks.is_empty());
}
