//! The published state.

use pulci_core::clock::{iso8601, nanos_now, total_nanos, whole_seconds};
use pulci_core::hooks::{Diagnostic, Severity};
use pulci_core::orchestrator::RunResult;
use pulci_core::paths::FilePath;
use pulci_core::state::{
    build_state, jdn_to_ymd, next_check_pass, next_state_version, now_iso8601, seed_check_passes, seed_state_version,
    state_at, tools_changed, Counters, ToolInfo, SCHEMA_VERSION,
};

fn make_result(errors: usize, warnings: usize) -> RunResult {
    let mut diags = Vec::new();
    for _ in 0..errors {
        diags.push(Diagnostic {
            tool: "ruff".into(),
            file: FilePath::new("x.py"),
            line: 1,
            col: 0,
            severity: Severity::Error,
            code: None,
            message: "test error".into(),
        });
    }
    for _ in 0..warnings {
        diags.push(Diagnostic {
            tool: "ty".into(),
            file: FilePath::new("y.py"),
            line: 2,
            col: 0,
            severity: Severity::Warning,
            code: None,
            message: "test warning".into(),
        });
    }
    RunResult { tool: "ruff".into(), diagnostics: diags, error: None }
}

fn at(file: &str, line: u32, col: u32, message: &str) -> Diagnostic {
    Diagnostic {
        tool: "ruff".into(),
        file: FilePath::new(file),
        line,
        col,
        severity: Severity::Error,
        code: None,
        message: message.into(),
    }
}

fn tool(name: &str, version: &str, source: &str) -> ToolInfo {
    ToolInfo { name: name.into(), version: version.into(), source: source.into(), path: None }
}

#[test]
fn build_counts_correctly() {
    let mut counters = Counters::new();
    let state = build_state(&vec![make_result(2, 1)], vec![], false, &mut counters);
    assert_eq!(state.summary.errors, 2);
    assert_eq!(state.summary.warnings, 1);
    assert!(state.summary.checks_run > 0);
    assert_eq!(state.schema_version, SCHEMA_VERSION);
    assert!(!state.summary.stale);
}

#[test]
fn build_empty_results() {
    let mut counters = Counters::new();
    let state = build_state(&vec![], vec![], false, &mut counters);
    assert_eq!(state.summary.errors, 0);
    assert!(state.summary.checks_run > 0);
}

#[test]
fn checks_run_increases_across_calls() {
    let mut counters = Counters::new();
    seed_check_passes(&mut counters, 100);
    let a = build_state(&vec![], vec![], false, &mut counters).summary.checks_run;
    let b = build_state(&vec![], vec![], false, &mut counters).summary.checks_run;
    assert_eq!(a, 101);
    assert_eq!(b, 102);
}

#[test]
fn checks_run_stops_at_its_limit() {
    let mut counters = Counters::new();
    seed_check_passes(&mut counters, u32::MAX as u64 + 5);
    let state = build_state(&vec![], vec![], false, &mut counters);
    assert_eq!(state.summary.checks_run, u32::MAX);
}

#[test]
fn timestamp_is_iso8601() {
    let ts = now_iso8601();
    assert!(ts.contains('T'), "expected T separator, got: {ts}");
    assert!(ts.ends_with('Z'), "expected UTC Z, got: {ts}");
    assert_eq!(ts.len(), 20, "expected 20-char ISO 8601, got: {ts}");
    assert!(ts.as_str() > "2024-01-01T00:00:00Z", "clock reads {ts}");
}

#[test]
fn times_before_1970_count_as_its_start() {
    assert_eq!(whole_seconds(Some((7, 999_999_999))), 7);
    assert_eq!(whole_seconds(None), 0);
    assert_eq!(total_nanos(Some((7, 5))), 7_000_000_005);
    assert_eq!(
        total_nanos(Some((u64::MAX, 999_999_999))),
        18_446_744_073_709_551_615_999_999_999
    );
    assert_eq!(total_nanos(None), 0);
    assert!(nanos_now() > 1_700_000_000_000_000_000);
}

#[test]
fn timestamps_of_known_times() {
    assert_eq!(iso8601(0), "1970-01-01T00:00:00Z");
    assert_eq!(iso8601(951_827_696), "2000-02-29T12:34:56Z");
    assert_eq!(iso8601(1_709_251_199), "2024-02-29T23:59:59Z");
    assert_eq!(iso8601(4_107_542_400), "2100-03-01T00:00:00Z");
    assert_eq!(iso8601(253_402_300_799), "9999-12-31T23:59:59Z");
}

#[test]
fn jdn_to_ymd_round_trips_known_dates_including_leap_rules() {
    fn ymd_to_jdn(year: u32, month: u32, day: u32) -> u32 {
        let a = (14 - month) / 12;
        let y = year + 4800 - a;
        let m = month + 12 * a - 3;
        day + (153 * m + 2) / 5 + 365 * y + y / 4 - y / 100 + y / 400 - 32045
    }
    let cases = [
        (1970, 1, 1),
        (2000, 2, 29),
        (2000, 3, 1),
        (2024, 2, 29),
        (2024, 12, 31),
        (2100, 2, 28),
        (2100, 3, 1),
        (2026, 5, 17),
    ];
    for (y, m, d) in cases {
        let jdn = ymd_to_jdn(y, m, d);
        let (ry, rm, rd) = jdn_to_ymd(jdn);
        assert_eq!(
            (ry, rm, rd),
            (y, m, d),
            "jdn_to_ymd round-trip failed for {y}-{m:02}-{d:02} (jdn={jdn})"
        );
    }
}

#[test]
fn day_numbers_start_in_the_year_zero() {
    assert_eq!(jdn_to_ymd(1_721_120), (0, 3, 1));
    assert_eq!(jdn_to_ymd(2_440_588), (1970, 1, 1));
}

#[test]
fn diagnostics_sorted_by_file_then_line() {
    let mut results = make_result(0, 0);
    results.diagnostics = vec![at("b.py", 5, 0, "b"), at("a.py", 10, 0, "a")];
    let mut counters = Counters::new();
    let state = build_state(&vec![results], vec![], false, &mut counters);
    assert_eq!(state.diagnostics[0].file, FilePath::new("a.py"));
    assert_eq!(state.diagnostics[1].file, FilePath::new("b.py"));
}

#[test]
fn diagnostics_at_one_place_keep_their_order() {
    let mut first = make_result(0, 0);
    first.diagnostics = vec![at("a.py", 2, 9, "1"), at("a.py", 2, 1, "2"), at("a/b.py", 1, 0, "3")];
    let mut second = make_result(0, 0);
    second.diagnostics = vec![at("a.py", 2, 9, "4"), at("a.py", 1, 0, "5")];
    let mut counters = Counters::new();
    let state = state_at(&vec![first, second], vec![], true, &mut counters, "now".into());
    let order: Vec<&str> = state.diagnostics.iter().map(|d| d.message.as_str()).collect();
    assert_eq!(order, vec!["3", "5", "2", "1", "4"]);
    assert_eq!(state.timestamp, "now");
    assert!(state.summary.stale);
    assert_eq!(state.summary.errors, 5);
}

#[test]
fn tools_changed_detects_version_bump() {
    let prev = vec![tool("ruff", "0.4.0", "local-venv")];
    let curr = vec![tool("ruff", "0.7.4", "local-venv")];
    assert!(tools_changed(&prev, &curr));
}

#[test]
fn tools_changed_same_returns_false() {
    let tools = vec![tool("ruff", "0.7.4", "local-venv")];
    assert!(!tools_changed(&tools, &tools));
}

#[test]
fn tools_changed_looks_at_name_source_and_number() {
    let a = vec![tool("ruff", "1", "local-venv")];
    assert!(tools_changed(&a, &vec![tool("ty", "1", "local-venv")]));
    assert!(tools_changed(&a, &vec![tool("ruff", "1", "system-path")]));
    assert!(tools_changed(&a, &vec![]));
    let mut moved = tool("ruff", "1", "local-venv");
    moved.path = Some("/elsewhere/ruff".into());
    assert!(!tools_changed(&a, &vec![moved]));
}

#[test]
fn tool_errors_aggregated_from_failed_results() {
    let r_ok = RunResult { tool: "ruff".into(), diagnostics: vec![], error: None };
    let r_err = RunResult {
        tool: "pytest".into(),
        diagnostics: vec![],
        error: Some("pytest timed out after 120s and was killed by pulci".into()),
    };
    let mut counters = Counters::new();
    let state = build_state(&vec![r_ok, r_err], vec![], false, &mut counters);
    assert_eq!(state.tool_errors.len(), 1);
    assert_eq!(state.tool_errors[0].tool, "pytest");
    assert!(state.tool_errors[0].message.contains("timed out"));
    assert!(state.summary.checks_run > 0);
}

#[test]
fn tool_errors_empty_when_all_results_ok() {
    let mut counters = Counters::new();
    let state = build_state(&vec![make_result(1, 0)], vec![], false, &mut counters);
    assert!(state.tool_errors.is_empty());
}

#[test]
fn tool_errors_sorted_alphabetically_for_stable_diff() {
    let results = vec![
        RunResult { tool: "ty".into(), diagnostics: vec![], error: Some("ty crashed".into()) },
        RunResult {
            tool: "clippy".into(),
            diagnostics: vec![],
            error: Some("cargo not found".into()),
        },
    ];
    let mut counters = Counters::new();
    let state = build_state(&results, vec![], false, &mut counters);
    assert_eq!(state.tool_errors[0].tool, "clippy");
    assert_eq!(state.tool_errors[1].tool, "ty");
}

#[test]
fn next_state_version_is_monotonically_increasing() {
    let mut counters = Counters::new();
    let a = next_state_version(&mut counters);
    let b = next_state_version(&mut counters);
    assert!(b > a, "expected monotonic increase: a={a} b={b}");
}

#[test]
fn seed_state_version_resets_counter_for_persistence_across_restarts() {
    let mut counters = Counters::new();
    seed_state_version(&mut counters, 100);
    let v = next_state_version(&mut counters);
    assert_eq!(v, 100, "expected seed to take effect on next call");
    let v2 = next_state_version(&mut counters);
    assert_eq!(v2, 101, "expected continued monotonic increase after seed");
}

#[test]
fn first_check_pass_is_number_one() {
    let mut counters = Counters::new();
    assert_eq!(next_check_pass(&mut counters), 1);
    assert_eq!(next_check_pass(&mut counters), 2);
}

#[test]
fn states_are_numbered_consecutively() {
    let mut counters = Counters::new();
    seed_state_version(&mut counters, 7);
    let a = build_state(&vec![], vec![tool("ruff", "1", "pinned")], false, &mut counters);
    let b = build_state(&vec![], vec![], false, &mut counters);
    assert_eq!(a.state_version, 7);
    assert_eq!(b.state_version, 8);
    assert_eq!(a.tools[0].name, "ruff");
}
