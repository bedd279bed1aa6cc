//! What the tools print.

use pulci_core::hooks::cargo::{clippy_diagnostics, clippy_lines, CargoMessage, CompilerMessage, CompilerSpan};
use pulci_core::hooks::pytest::{find_test_files, parse_pytest_output};
use pulci_core::hooks::ruff::{ruff_diagnostics, RuffEntry};
use pulci_core::hooks::ruff_format::parse_ruff_format_output;
use pulci_core::hooks::ty::{parse_location, parse_ty_output};
use pulci_core::hooks::{Diagnostic, Severity};
use pulci_core::paths::FilePath;
use serde_json::Value;

// --- pytest ---------------------------------------------------------------

const PYTEST_SAMPLE: &[u8] = b"\
.F.

FAILED tests/test_cli.py::test_version - AssertionError: expected '1.0.0'
FAILED tests/test_watcher.py::test_watch - RuntimeError: timeout

2 failed, 1 passed in 0.45s
";

#[test]
fn parse_two_failures() {
    let diags = parse_pytest_output(PYTEST_SAMPLE);
    assert_eq!(diags.len(), 2);
    assert_eq!(diags[0].file, FilePath::new("tests/test_cli.py"));
    assert!(diags[0].message.contains("test_version"));
    assert_eq!(diags[1].file, FilePath::new("tests/test_watcher.py"));
    assert_eq!(diags[0].severity, Severity::Error);
    assert_eq!(diags[0].message, "test_version: AssertionError: expected '1.0.0'");
}

#[test]
fn parse_clean_run() {
    let diags = parse_pytest_output(b"... 3 passed in 0.12s\n");
    assert!(diags.is_empty());
}

#[test]
fn parse_failure_without_dash_msg() {
    let diags = parse_pytest_output(b"FAILED tests/test_x.py::test_y\n");
    assert_eq!(diags.len(), 1);
    assert!(diags[0].message.contains("test_y"));
    assert_eq!(diags[0].message, "test_y: test failed");
}

#[test]
fn parse_failure_of_a_whole_file() {
    let diags = parse_pytest_output(b"  FAILED tests/test_x.py - ImportError  \r\n");
    assert_eq!(diags.len(), 1);
    assert_eq!(diags[0].file, FilePath::new("tests/test_x.py"));
    assert_eq!(diags[0].message, "unknown: ImportError");
    assert_eq!(diags[0].tool, "pytest");
    assert_eq!(diags[0].code, None);
}

#[test]
fn find_test_files_default_heuristic_for_source() {
    let result = find_test_files(&FilePath::new("python/pulci/watcher.py"), &vec![]);
    assert_eq!(result, vec![FilePath::new("tests/test_watcher.py")]);
}

#[test]
fn find_test_files_returns_source_when_already_a_test_file() {
    let result = find_test_files(&FilePath::new("tests/test_foo.py"), &vec![]);
    assert_eq!(result, vec![FilePath::new("tests/test_foo.py")]);
}

#[test]
fn find_test_files_test_self_detection_ignores_patterns() {
    let patterns = vec!["different/place/{stem}.py".to_string()];
    let result = find_test_files(&FilePath::new("tests/test_foo.py"), &patterns);
    assert_eq!(result, vec![FilePath::new("tests/test_foo.py")]);
}

#[test]
fn find_test_files_ignores_rust() {
    assert!(find_test_files(&FilePath::new("src/main.rs"), &vec![]).is_empty());
}

#[test]
fn find_test_files_ignores_non_python() {
    assert!(find_test_files(&FilePath::new("Makefile"), &vec![]).is_empty());
}

#[test]
fn find_test_files_substitutes_stem_in_each_pattern() {
    let patterns = vec![
        "tests/test_{stem}.py".to_string(),
        "test/test_{stem}.py".to_string(),
        "tests/unit/test_{stem}.py".to_string(),
    ];
    let result = find_test_files(&FilePath::new("src/foo.py"), &patterns);
    assert_eq!(
        result,
        vec![
            FilePath::new("tests/test_foo.py"),
            FilePath::new("test/test_foo.py"),
            FilePath::new("tests/unit/test_foo.py"),
        ]
    );
}

#[test]
fn find_test_files_pattern_without_stem_placeholder_is_literal() {
    let patterns = vec!["tests/conftest.py".to_string()];
    let result = find_test_files(&FilePath::new("src/foo.py"), &patterns);
    assert_eq!(result, vec![FilePath::new("tests/conftest.py")]);
}

#[test]
fn find_test_files_singular_test_dir_layout() {
    let patterns = vec!["test/test_{stem}.py".to_string()];
    let result = find_test_files(&FilePath::new("src/calculator.py"), &patterns);
    assert_eq!(result, vec![FilePath::new("test/test_calculator.py")]);
}

#[test]
fn find_test_files_fills_every_placeholder() {
    let patterns = vec!["{stem}/{stem}_test.py".to_string()];
    let result = find_test_files(&FilePath::new("src/foo.bar.py"), &patterns);
    assert_eq!(result[0].as_str(), "foo.bar/foo.bar_test.py");
}

// --- ruff format ----------------------------------------------------------

const SAMPLE_WITH_REFORMATS: &str = "\
Would reformat: src/foo.py
Would reformat: src/api/handlers.py
2 files would be reformatted, 5 files already formatted
";

const SAMPLE_ALL_FORMATTED: &str = "7 files already formatted\n";

#[test]
fn parse_two_files_needing_reformat() {
    let diags = parse_ruff_format_output(SAMPLE_WITH_REFORMATS);
    assert_eq!(diags.len(), 2);
    assert_eq!(diags[0].file, FilePath::new("src/foo.py"));
    assert_eq!(diags[1].file, FilePath::new("src/api/handlers.py"));
    assert!(diags.iter().all(|d| d.severity == Severity::Error));
    assert!(diags.iter().all(|d| d.code.as_deref() == Some("format")));
    assert!(diags.iter().all(|d| d.tool == "ruff_format"));
    assert_eq!(diags[0].message, "would be reformatted by `ruff format`");
}

#[test]
fn parse_all_formatted_returns_empty() {
    let diags = parse_ruff_format_output(SAMPLE_ALL_FORMATTED);
    assert!(diags.is_empty());
}

#[test]
fn parse_empty_output_returns_empty() {
    assert!(parse_ruff_format_output("").is_empty());
}

#[test]
fn summary_line_is_not_misread_as_diagnostic() {
    let only_summary = "3 files would be reformatted, 0 files already formatted\n";
    assert!(parse_ruff_format_output(only_summary).is_empty());
}

#[test]
fn unrelated_lines_are_ignored() {
    let noisy = "\
warning: unexpected message
Would reformat: a.py
some other line
";
    let diags = parse_ruff_format_output(noisy);
    assert_eq!(diags.len(), 1);
    assert_eq!(diags[0].file, FilePath::new("a.py"));
}

// --- ty -------------------------------------------------------------------

const TY_SAMPLE: &str = "\
error[invalid-assignment]: Cannot assign to constant `PI`
  --> src/main.py:10:5
warning[possibly-unbound]: `x` may be unbound
  --> src/util.py:3:1
";

#[test]
fn parse_error_and_warning() {
    let diags = parse_ty_output(TY_SAMPLE);
    assert_eq!(diags.len(), 2);

    assert_eq!(diags[0].severity, Severity::Error);
    assert_eq!(diags[0].code.as_deref(), Some("invalid-assignment"));
    assert_eq!(diags[0].line, 10);
    assert_eq!(diags[0].col, 5);

    assert_eq!(diags[1].severity, Severity::Warning);
    assert_eq!(diags[1].code.as_deref(), Some("possibly-unbound"));
    assert_eq!(diags[1].line, 3);

    assert_eq!(diags[0].file, FilePath::new("src/main.py"));
    assert_eq!(diags[0].message, "Cannot assign to constant `PI`");
}

#[test]
fn parse_empty_output() {
    assert!(parse_ty_output("").is_empty());
}

#[test]
fn parse_unrecognised_lines_are_skipped() {
    let diags = parse_ty_output("  | some context line\n  = note: hint\n");
    assert!(diags.is_empty());
}

#[test]
fn parse_no_location() {
    let diags = parse_ty_output("error[foo]: something went wrong\n");
    assert_eq!(diags.len(), 1);
    assert_eq!(diags[0].line, 0);
    assert_eq!(diags[0].file.as_str(), "");
}

#[test]
fn parse_headline_without_code() {
    let diags = parse_ty_output("info: checking 3 files\nerror[open: never closed\n");
    assert_eq!(diags.len(), 2);
    assert_eq!(diags[0].severity, Severity::Info);
    assert_eq!(diags[0].code, None);
    assert_eq!(diags[0].message, "checking 3 files");
    assert_eq!(diags[1].code, None);
    assert_eq!(diags[1].message, "[open: never closed");
}

fn located(s: &str) -> Option<(String, u32, u32)> {
    let chars: Vec<char> = s.chars().collect();
    parse_location(&chars).map(|(f, l, c)| (f.as_str().to_string(), l, c))
}

#[test]
fn locations_are_read() {
    assert_eq!(located("a.py:10:5"), Some(("a.py".into(), 10, 5)));
    assert_eq!(located("a.py:10"), Some(("a.py".into(), 10, 0)));
    assert_eq!(located("a.py: 10 : +7 "), Some(("a.py".into(), 10, 7)));
    assert_eq!(located("a.py:10:5:6"), Some(("a.py".into(), 10, 0)));
    assert_eq!(located("a.py:4294967295:0"), Some(("a.py".into(), 4294967295, 0)));
    assert_eq!(located("a.py:4294967296:0"), None);
    assert_eq!(located("a.py:x:5"), None);
    assert_eq!(located("a.py"), None);
    assert_eq!(located(":10:5"), None);
    assert_eq!(located(""), None);
}

// --- ruff -----------------------------------------------------------------

const SAMPLE_JSON: &[u8] = br#"[
        {
            "code": "F401",
            "message": "`os` imported but unused",
            "filename": "src/main.py",
            "location": {"row": 1, "column": 0},
            "end_location": {"row": 1, "column": 9},
            "fix": null,
            "url": "https://docs.astral.sh/ruff/rules/unused-import",
            "noqa_row": 1
        }
    ]"#;

fn text(v: &Value, key: &str) -> Option<String> {
    v.get(key).and_then(|x| x.as_str()).map(String::from)
}

fn number(v: &Value, key: &str) -> Option<u32> {
    v.get(key).and_then(|x| x.as_u64()).map(|n| n as u32)
}

fn ruff_entries(stdout: &[u8]) -> Option<Vec<RuffEntry>> {
    let v: Value = serde_json::from_slice(stdout).ok()?;
    let mut out = Vec::new();
    for e in v.as_array()? {
        let location = e.get("location")?;
        out.push(RuffEntry {
            code: text(e, "code"),
            message: text(e, "message")?,
            filename: text(e, "filename")?,
            row: number(location, "row")?,
            column: number(location, "column")?,
        });
    }
    Some(out)
}

fn parse_ruff_json(stdout: &[u8]) -> Vec<Diagnostic> {
    ruff_diagnostics(&ruff_entries(stdout))
}

#[test]
fn parse_single_violation() {
    let diags = parse_ruff_json(SAMPLE_JSON);
    assert_eq!(diags.len(), 1);
    let d = &diags[0];
    assert_eq!(d.tool, "ruff");
    assert_eq!(d.code.as_deref(), Some("F401"));
    assert_eq!(d.line, 1);
    assert_eq!(d.col, 0);
    assert_eq!(d.severity, Severity::Error);
    assert!(d.message.contains("unused"));
    assert_eq!(d.file, FilePath::new("src/main.py"));
}

#[test]
fn parse_empty_array() {
    let diags = parse_ruff_json(b"[]");
    assert!(diags.is_empty());
}

#[test]
fn parse_malformed_json_returns_empty() {
    let diags = parse_ruff_json(b"not json");
    assert!(diags.is_empty());
}

// --- clippy ---------------------------------------------------------------

const SAMPLE_WARNING: &[u8] = br#"{"reason":"compiler-message","package_id":"pulci-core 0.0.1","manifest_path":"/repo/Cargo.toml","target":{"kind":["lib"],"name":"pulci_core"},"message":{"rendered":"warning: unused variable\n","children":[],"code":{"code":"unused_variables","explanation":null},"level":"warning","message":"unused variable: `x`","spans":[{"byte_end":100,"byte_start":96,"column_end":6,"column_start":5,"expansion":null,"file_name":"src/lib.rs","is_primary":true,"label":null,"line_end":5,"line_start":5,"suggested_replacement":null,"suggestion_applicability":null,"text":[]}]}}"#;

const SAMPLE_ERROR: &[u8] = br#"{"reason":"compiler-message","package_id":"pulci-core 0.0.1","manifest_path":"/repo/Cargo.toml","target":{"kind":["lib"],"name":"pulci_core"},"message":{"rendered":"error[E0308]: mismatched types\n","children":[],"code":{"code":"E0308","explanation":null},"level":"error","message":"mismatched types","spans":[{"byte_end":200,"byte_start":190,"column_end":10,"column_start":5,"expansion":null,"file_name":"src/lib.rs","is_primary":true,"label":null,"line_end":10,"line_start":10,"suggested_replacement":null,"suggestion_applicability":null,"text":[]}]}}"#;

const NON_MESSAGE_LINE: &[u8] = br#"{"reason":"build-script-executed","package_id":"libc 0.2.0"}"#;

fn compiler_message(v: &Value) -> Option<CompilerMessage> {
    let mut spans = Vec::new();
    for s in v.get("spans")?.as_array()? {
        spans.push(CompilerSpan {
            file_name: text(s, "file_name")?,
            line_start: number(s, "line_start")?,
            column_start: number(s, "column_start")?,
            is_primary: s.get("is_primary")?.as_bool()?,
        });
    }
    Some(CompilerMessage {
        level: text(v, "level")?,
        message: text(v, "message")?,
        code: v.get("code").and_then(|c| text(c, "code")),
        spans,
    })
}

fn cargo_message(line: &str) -> Option<CargoMessage> {
    let v: Value = serde_json::from_str(line).ok()?;
    Some(CargoMessage {
        reason: text(&v, "reason")?,
        message: v.get("message").and_then(compiler_message),
    })
}

fn parse_clippy_json(stdout: &[u8]) -> Vec<Diagnostic> {
    let messages = clippy_lines(stdout).iter().map(|l| cargo_message(l)).collect();
    clippy_diagnostics(&messages)
}

#[test]
fn parse_single_warning() {
    let diags = parse_clippy_json(SAMPLE_WARNING);
    assert_eq!(diags.len(), 1);
    let d = &diags[0];
    assert_eq!(d.tool, "clippy");
    assert_eq!(d.severity, Severity::Warning);
    assert_eq!(d.code.as_deref(), Some("unused_variables"));
    assert_eq!(d.line, 5);
    assert_eq!(d.col, 5);
    assert_eq!(d.file, FilePath::new("src/lib.rs"));
}

#[test]
fn parse_single_error() {
    let diags = parse_clippy_json(SAMPLE_ERROR);
    assert_eq!(diags.len(), 1);
    assert_eq!(diags[0].severity, Severity::Error);
    assert_eq!(diags[0].code.as_deref(), Some("E0308"));
}

#[test]
fn non_message_lines_are_skipped() {
    let diags = parse_clippy_json(NON_MESSAGE_LINE);
    assert!(diags.is_empty());
}

#[test]
fn empty_input_returns_empty() {
    let diags = parse_clippy_json(b"");
    assert!(diags.is_empty());
}

#[test]
fn malformed_json_line_is_skipped() {
    let diags = parse_clippy_json(b"not json at all\n");
    assert!(diags.is_empty());
}

#[test]
fn primary_span_preferred_over_secondary() {
    let json = br#"{"reason":"compiler-message","package_id":"x","manifest_path":"/","target":{"kind":["lib"],"name":"x"},"message":{"rendered":"","children":[],"code":{"code":"E0001","explanation":null},"level":"error","message":"test","spans":[{"byte_end":10,"byte_start":5,"column_end":5,"column_start":1,"expansion":null,"file_name":"secondary.rs","is_primary":false,"label":null,"line_end":2,"line_start":2,"suggested_replacement":null,"suggestion_applicability":null,"text":[]},{"byte_end":20,"byte_start":15,"column_end":8,"column_start":3,"expansion":null,"file_name":"primary.rs","is_primary":true,"label":null,"line_end":7,"line_start":7,"suggested_replacement":null,"suggestion_applicability":null,"text":[]}]}}"#;
    let diags = parse_clippy_json(json);
    assert_eq!(diags.len(), 1);
    assert_eq!(diags[0].file, FilePath::new("primary.rs"));
    assert_eq!(diags[0].line, 7);
}

#[test]
fn first_span_is_used_without_a_primary_one() {
    let json = br#"{"reason":"compiler-message","message":{"code":null,"level":"error","message":"test","spans":[{"column_start":1,"file_name":"one.rs","is_primary":false,"line_start":2},{"column_start":3,"file_name":"two.rs","is_primary":false,"line_start":7}]}}"#;
    let diags = parse_clippy_json(json);
    assert_eq!(diags.len(), 1);
    assert_eq!(diags[0].file, FilePath::new("one.rs"));
    assert_eq!(diags[0].code, None);
}

#[test]
fn empty_spans_message_is_skipped() {
    let json = br#"{"reason":"compiler-message","package_id":"x","manifest_path":"/","target":{"kind":["lib"],"name":"x"},"message":{"rendered":"","children":[],"code":null,"level":"warning","message":"no spans","spans":[]}}"#;
    let diags = parse_clippy_json(json);
    assert!(diags.is_empty());
}

#[test]
fn note_level_is_skipped() {
    let note = br#"{"reason":"compiler-message","package_id":"x","manifest_path":"/","target":{"kind":["lib"],"name":"x"},"message":{"rendered":"","children":[],"code":null,"level":"note","message":"a note","spans":[{"byte_end":5,"byte_start":1,"column_end":3,"column_start":1,"expansion":null,"file_name":"src/lib.rs","is_primary":true,"label":null,"line_end":1,"line_start":1,"suggested_replacement":null,"suggestion_applicability":null,"text":[]}]}}"#;
    let diags = parse_clippy_json(note);
    assert!(diags.is_empty());
}
