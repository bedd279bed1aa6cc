//! What the daemon prints and records.

use pulci_core::event_trace::{
    content_sha256, init, next_batch_id, shutdown, shutdown_record, tracer, truncation_record, ts_ns_now,
    window_closed, window_opened, DebounceAction, EventRecord, EventTracer, InitPlan, LineAction, LogWriter,
    MetaAction, TraceSlot, SOFT_CAP_BYTES,
};
use pulci_core::hooks::{Diagnostic, Severity};
use pulci_core::paths::FilePath;
use pulci_core::report::{
    diagnostic_line, footer, foreign_tools, resolved_line, startup_error_json, stopped_line, streamed_lines,
};
use pulci_core::state::{Counters, ToolInfo};

fn diag(code: Option<&str>, severity: Severity) -> Diagnostic {
    Diagnostic {
        tool: "ruff".into(),
        file: FilePath::new("src/foo.py"),
        line: 12,
        col: 1,
        severity,
        code: code.map(String::from),
        message: "'os' imported but unused".into(),
    }
}

#[test]
fn diagnostics_read_like_compiler_output() {
    assert_eq!(
        diagnostic_line(&diag(Some("F401"), Severity::Error)),
        "src/foo.py:12:1: error[ruff/F401] 'os' imported but unused"
    );
    assert_eq!(
        diagnostic_line(&diag(None, Severity::Warning)),
        "src/foo.py:12:1: warning[ruff] 'os' imported but unused"
    );
    assert_eq!(Severity::Info.label(), "info");
}

#[test]
fn footer_counts_in_words() {
    assert_eq!(footer(1, 0, 3, "0.4"), "1 error, 0 warnings (3 files checked, 0.4s)");
    assert_eq!(footer(2, 1, 1, "10.0"), "2 errors, 1 warning (1 files checked, 10.0s)");
}

#[test]
fn lines_are_streamed_after_the_first_check() {
    let list = vec![diag(None, Severity::Error), diag(Some("X"), Severity::Error)];
    let lines = streamed_lines(&list, false);
    assert_eq!(lines.len(), 2);
    assert_eq!(lines[1], "src/foo.py:12:1: error[ruff/X] 'os' imported but unused");
    assert!(streamed_lines(&list, true).is_empty());
}

#[test]
fn stop_is_announced() {
    assert_eq!(stopped_line(true), "{\"event\":\"stopped\"}");
    assert_eq!(stopped_line(false), "Stopped (SIGTERM received).");
}

fn tool(name: &str, version: &str, source: &str, path: Option<&str>) -> ToolInfo {
    ToolInfo {
        name: name.into(),
        version: version.into(),
        source: source.into(),
        path: path.map(String::from),
    }
}

#[test]
fn resolved_tools_are_listed() {
    assert_eq!(resolved_line(&vec![]), None);
    let one = vec![tool("ruff", "0.7.4", "pinned", None)];
    assert_eq!(resolved_line(&one).unwrap(), "resolved: ruff=0.7.4 (pinned)");
    let two = vec![tool("ruff", "0.7.4", "pinned", None), tool("ty", "1", "uvx-latest", None)];
    assert_eq!(
        resolved_line(&two).unwrap(),
        "resolved: ruff=0.7.4 (pinned), ty=1 (uvx-latest)"
    );
}

#[test]
fn foreign_tools_are_warned_of() {
    let root = FilePath::new("/project");
    let tools = vec![
        tool("ruff", "1", "system-path", Some("/other/.venv/bin/ruff")),
        tool("ty", "1", "system-path", Some("/project/bin/ty")),
        tool("pytest", "1", "local-venv", Some("/elsewhere/pytest")),
        tool("cargo", "1", "uvx-latest", None),
    ];
    assert_eq!(
        foreign_tools(&tools, &root, false),
        vec![
            "pulci: warning: `ruff` resolved to /other/.venv/bin/ruff — outside the project root (/project). \
             Likely a venv-on-PATH leak from another project. \
             Install the tool in this project's .venv or pin via [tools] in pulci.toml."
        ]
    );
}

#[test]
fn foreign_tools_are_named_as_windows_writes_them() {
    let root = FilePath::from_windows("C:\\project");
    let inside = FilePath::from_windows("C:/project\\bin\\ty.exe");
    let outside = FilePath::from_windows("D:\\tools\\ruff.exe");
    let tools = vec![
        tool("ty", "1", "system-path", Some(inside.as_str())),
        tool("ruff", "1", "system-path", Some(outside.as_str())),
    ];
    let warnings = foreign_tools(&tools, &root, true);
    assert_eq!(warnings.len(), 1);
    assert!(warnings[0].contains("`ruff` resolved to D:\\tools\\ruff.exe — outside"));
    assert!(warnings[0].contains("(C:\\project)"));
}

#[test]
fn startup_errors_are_json() {
    let text = startup_error_json("kind", "line\nwith \"quotes\" \\ and \u{1}", "now");
    assert_eq!(
        text,
        "{\n  \"error_type\": \"kind\",\n  \"message\": \"line\\nwith \\\"quotes\\\" \\\\ and \\u0001\",\n  \"timestamp\": \"now\"\n}\n"
    );
    let v: serde_json::Value = serde_json::from_str(&text).unwrap();
    assert_eq!(
        v.get("message").and_then(|m| m.as_str()),
        Some("line\nwith \"quotes\" \\ and \u{1}")
    );
}

#[test]
fn every_control_character_is_escaped() {
    let all: String = (0u8..=0x7f).map(char::from).chain(['é', '—', '\u{10FFFF}']).collect();
    let text = startup_error_json("e", &all, "t");
    assert_eq!(text.lines().count(), 5);
    assert!(text.contains("\\b\\t\\n\\u000b\\f\\r\\u000e"));
    assert!(text.contains("\\u001f !\\\"#"));
    let v: serde_json::Value = serde_json::from_str(&text).unwrap();
    assert_eq!(v.get("message").and_then(|m| m.as_str()), Some(all.as_str()));
}

#[test]
fn content_is_hashed() {
    assert_eq!(
        content_sha256(Some(b"hello world")).unwrap(),
        "b94d27b9934d3e08a52e52d7da7dabfac484efe37a5380ee9088f7ace2efcde9"
    );
    assert_eq!(
        content_sha256(Some(b"")).unwrap(),
        "e3b0c44298fc1c149afbf4c8996fb92427ae41e4649b934ca495991b7852b855"
    );
    assert_eq!(content_sha256(None), None);
}

#[test]
fn batches_are_numbered() {
    let mut counters = Counters::new();
    assert_eq!(next_batch_id(&mut counters), 0);
    assert_eq!(next_batch_id(&mut counters), 1);
    match window_opened(5, 1) {
        EventRecord::Debounce { ts_ns, action, batch_id, files } => {
            assert_eq!((ts_ns, batch_id), (5, 1));
            assert_eq!(action, DebounceAction::WindowOpen);
            assert!(files.is_none());
        }
        _ => panic!("expected a batch record"),
    }
    match window_closed(6, 1, vec![FilePath::new("a.py")]) {
        EventRecord::Debounce { action, files, .. } => {
            assert_eq!(action, DebounceAction::WindowClose);
            assert_eq!(files.unwrap(), vec![FilePath::new("a.py")]);
        }
        _ => panic!("expected a batch record"),
    }
}

#[test]
fn time_moves_on() {
    let a = ts_ns_now();
    let b = ts_ns_now();
    assert!(a > 1_600_000_000_000_000_000);
    assert!(b >= a);
}

#[test]
fn tracer_is_set_up_once() {
    let dir = FilePath::new("/r/.pulci");
    let mut slot = TraceSlot::new();
    assert!(tracer(&slot).is_none());
    match init(&mut slot, &dir, true) {
        InitPlan::Start { dir: wanted, log, backup } => {
            assert_eq!(wanted.as_str(), "/r/.pulci");
            assert_eq!(log.as_str(), "/r/.pulci/events.log");
            assert_eq!(backup.as_str(), "/r/.pulci/events.log.1");
        }
        InitPlan::Nothing => panic!("expected a start"),
    }
    assert!(tracer(&slot).is_none());
    assert_eq!(slot.directory_made(Ok(())), Ok(()));
    assert!(matches!(init(&mut slot, &dir, false), InitPlan::Nothing));
    assert!(tracer(&slot).unwrap().send(shutdown_record(1)).is_some());
    shutdown(&mut slot);
    assert!(tracer(&slot).unwrap().send(shutdown_record(1)).is_none());
}

#[test]
fn tracer_without_directory_can_be_set_up_later() {
    let dir = FilePath::new("/r/.pulci");
    let mut slot = TraceSlot::new();
    assert!(matches!(init(&mut slot, &dir, true), InitPlan::Start { .. }));
    assert_eq!(slot.directory_made(Err("read-only".into())), Err("read-only".to_string()));
    assert!(tracer(&slot).is_none());
    assert!(matches!(init(&mut slot, &dir, true), InitPlan::Start { .. }));
    assert_eq!(slot.directory_made(Ok(())), Ok(()));
    assert!(tracer(&slot).unwrap().send(shutdown_record(1)).is_some());
}

#[test]
fn tracer_that_is_off_stays_off() {
    let dir = FilePath::new("/r/.pulci");
    let mut slot = TraceSlot::new();
    assert!(matches!(init(&mut slot, &dir, false), InitPlan::Nothing));
    assert!(tracer(&slot).is_none());
    assert!(matches!(init(&mut slot, &dir, true), InitPlan::Nothing));
    shutdown(&mut slot);
    assert!(tracer(&slot).is_none());
    assert!(EventTracer { open: false }.send(truncation_record(1)).is_none());
}

#[test]
fn log_stops_at_its_size() {
    assert_eq!(SOFT_CAP_BYTES, 100 * 1024 * 1024);
    let mut log = LogWriter::new();
    assert_eq!(log.accept(9), LineAction::Write);
    assert_eq!(log.bytes_written, 10);
    assert_eq!(log.accept(SOFT_CAP_BYTES - 11), LineAction::Write);
    assert_eq!(log.bytes_written, SOFT_CAP_BYTES);
    assert_eq!(log.accept(0), LineAction::Truncate);
    assert_eq!(log.accept(0), LineAction::Drop);
    assert_eq!(log.bytes_written, SOFT_CAP_BYTES);

    let mut log = LogWriter::new();
    assert_eq!(log.accept(u64::MAX), LineAction::Truncate);
    assert_eq!(log.accept(1), LineAction::Drop);
}

#[test]
fn trace_ends_with_a_record() {
    match truncation_record(3) {
        EventRecord::Meta { ts_ns, action, reason } => {
            assert_eq!(ts_ns, 3);
            assert_eq!(action, MetaAction::LogTruncated);
            assert_eq!(reason.as_deref(), Some("size_cap"));
        }
        _ => panic!("expected a meta record"),
    }
    match shutdown_record(4) {
        EventRecord::Meta { ts_ns, action, reason } => {
            assert_eq!(ts_ns, 4);
            assert_eq!(action, MetaAction::WriterShutdown);
            assert_eq!(reason, None);
        }
        _ => panic!("expected a meta record"),
    }
}
