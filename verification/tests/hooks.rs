//! Mounting tools, planning their runs and waiting for them.

use pulci_core::config::{HooksConfig, ToolsConfig};
use pulci_core::hooks::process::{HookRun, RunEvent, RunStep};
use pulci_core::hooks::{
    build_hook_list, kill_all_active_hooks, mount_hooks, register_hook_pid, unregister_hook_pid, wanted_tools, Hook,
    HookRegistry, MountedHook, Plan, Severity, Span, ToolOutput, Verdict, DEFAULT_HOOK_TIMEOUT,
};
use pulci_core::paths::FilePath;
use pulci_core::resolver::{ResolveError, ResolvedTool, ToolSource};
use pulci_core::state::ToolInfo;
use std::cell::RefCell;

fn timeout() -> Span {
    Span::from_secs(60)
}

fn fake_resolve(name: &'static str, _pinned: Option<&str>) -> Result<ResolvedTool, ResolveError> {
    Ok(ResolvedTool {
        name,
        version: "0.0.0-test".to_string(),
        source: ToolSource::UvxLatest,
        invocation: vec!["uvx".into(), name.into()],
    })
}

fn names_of(tool_infos: &[ToolInfo]) -> Vec<&str> {
    tool_infos.iter().map(|t| t.name.as_str()).collect()
}

fn hook_names(hooks: &[MountedHook]) -> Vec<&'static str> {
    hooks.iter().map(|h| h.name()).collect()
}

fn root() -> FilePath {
    FilePath::new("/tmp")
}

fn all_on() -> HooksConfig {
    HooksConfig {
        ruff: true,
        ruff_format: true,
        ty: true,
        pytest: true,
        clippy: true,
        timeout_secs: None,
        pytest_test_patterns: Vec::new(),
    }
}

#[test]
fn register_unregister_pid_round_trip() {
    let mut registry = HookRegistry::new();
    let synthetic = 0xDEAD_BEEF_u32;
    register_hook_pid(&mut registry, synthetic);
    assert!(registry.pids.contains(&synthetic));
    unregister_hook_pid(&mut registry, synthetic);
    assert!(!registry.pids.contains(&synthetic));
}

#[test]
fn kill_all_active_hooks_empty_registry_is_noop() {
    let registry = HookRegistry::new();
    assert!(kill_all_active_hooks(&registry).is_empty());
}

#[test]
fn kill_all_active_hooks_names_every_process() {
    let mut registry = HookRegistry::new();
    register_hook_pid(&mut registry, 10);
    register_hook_pid(&mut registry, 11);
    register_hook_pid(&mut registry, 10);
    assert_eq!(kill_all_active_hooks(&registry), vec![10, 11, 10]);
    unregister_hook_pid(&mut registry, 10);
    assert_eq!(kill_all_active_hooks(&registry), vec![11]);
}

#[test]
fn empty_config_yields_no_hooks() {
    let cfg = HooksConfig {
        ruff: false,
        ruff_format: false,
        ty: false,
        pytest: false,
        clippy: false,
        timeout_secs: None,
        pytest_test_patterns: Vec::new(),
    };
    let tools = ToolsConfig::default();
    let (hooks, tool_infos) =
        build_hook_list(&cfg, &tools, &root(), timeout(), fake_resolve).unwrap();
    assert!(hooks.is_empty());
    assert!(tool_infos.is_empty());
}

#[test]
fn default_config_mounts_ruff_and_ty() {
    let cfg = HooksConfig::default();
    let tools = ToolsConfig::default();
    let (hooks, tool_infos) =
        build_hook_list(&cfg, &tools, &root(), timeout(), fake_resolve).unwrap();
    assert_eq!(hook_names(&hooks), vec!["ruff", "ty"]);
    assert_eq!(names_of(&tool_infos), vec!["ruff", "ty"]);
}

#[test]
fn ruff_and_ruff_format_share_a_single_resolution() {
    let mut cfg = HooksConfig::default();
    cfg.ruff = true;
    cfg.ruff_format = true;
    cfg.ty = false;
    let tools = ToolsConfig::default();

    let calls: RefCell<Vec<&'static str>> = RefCell::new(Vec::new());
    let resolver = |name: &'static str, pinned: Option<&str>| {
        calls.borrow_mut().push(name);
        fake_resolve(name, pinned)
    };
    let (hooks, tool_infos) =
        build_hook_list(&cfg, &tools, &root(), timeout(), resolver).unwrap();

    assert_eq!(hook_names(&hooks), vec!["ruff", "ruff_format"]);
    assert_eq!(names_of(&tool_infos), vec!["ruff"]);
    assert_eq!(calls.into_inner(), vec!["ruff"], "ruff resolved once for both adapters");
}

#[test]
fn ruff_format_alone_does_not_mount_ruff_check() {
    let mut cfg = HooksConfig::default();
    cfg.ruff = false;
    cfg.ruff_format = true;
    cfg.ty = false;
    let tools = ToolsConfig::default();
    let (hooks, tool_infos) =
        build_hook_list(&cfg, &tools, &root(), timeout(), fake_resolve).unwrap();
    assert_eq!(hook_names(&hooks), vec!["ruff_format"]);
    assert_eq!(names_of(&tool_infos), vec!["ruff"]);
}

#[test]
fn all_hooks_enabled_mounts_five_adapters_and_four_tool_infos() {
    let cfg = all_on();
    let tools = ToolsConfig::default();
    let (hooks, tool_infos) =
        build_hook_list(&cfg, &tools, &root(), timeout(), fake_resolve).unwrap();
    assert_eq!(hook_names(&hooks), vec!["ruff", "ruff_format", "ty", "pytest", "clippy"]);
    assert_eq!(names_of(&tool_infos), vec!["ruff", "ty", "pytest", "cargo"]);
}

#[test]
fn pinned_versions_in_config_reach_resolver() {
    let mut cfg = HooksConfig::default();
    cfg.pytest = true;
    cfg.clippy = false;
    let tools = ToolsConfig {
        ruff: Some("0.7.4".into()),
        ty: Some("0.0.3".into()),
        pytest: Some("8.3.0".into()),
    };

    let observed: RefCell<Vec<(&'static str, Option<String>)>> = RefCell::new(Vec::new());
    let resolver = |name: &'static str, pinned: Option<&str>| {
        observed.borrow_mut().push((name, pinned.map(String::from)));
        fake_resolve(name, pinned)
    };
    let _ = build_hook_list(&cfg, &tools, &root(), timeout(), resolver).unwrap();

    assert_eq!(
        observed.into_inner(),
        vec![
            ("ruff", Some("0.7.4".into())),
            ("ty", Some("0.0.3".into())),
            ("pytest", Some("8.3.0".into())),
        ]
    );
}

#[test]
fn resolver_error_propagates() {
    let cfg = HooksConfig::default();
    let tools = ToolsConfig::default();
    let resolver = |_name: &'static str, _pinned: Option<&str>| -> Result<ResolvedTool, ResolveError> {
        Err(ResolveError { message: "synthetic resolver failure".into() })
    };
    let err = match build_hook_list(&cfg, &tools, &root(), timeout(), resolver) {
        Ok(_) => panic!("resolver error should propagate"),
        Err(e) => e,
    };
    assert!(
        err.message.contains("synthetic resolver failure"),
        "unexpected error: {}",
        err.message
    );
}

#[test]
fn cargo_hook_resolves_with_no_pin_even_if_tools_has_no_cargo_field() {
    let mut cfg = HooksConfig::default();
    cfg.ruff = false;
    cfg.ty = false;
    cfg.clippy = true;
    let tools = ToolsConfig { ruff: Some("0.7.4".into()), ty: None, pytest: None };

    let observed: RefCell<Vec<(&'static str, Option<String>)>> = RefCell::new(Vec::new());
    let resolver = |name: &'static str, pinned: Option<&str>| {
        observed.borrow_mut().push((name, pinned.map(String::from)));
        fake_resolve(name, pinned)
    };
    let _ = build_hook_list(&cfg, &tools, &root(), timeout(), resolver).unwrap();

    assert_eq!(observed.into_inner(), vec![("cargo", None)]);
}

#[test]
fn later_failure_aborts_the_list() {
    let cfg = HooksConfig::default();
    let tools = ToolsConfig::default();
    let resolver = |name: &'static str, pinned: Option<&str>| {
        if name == "ty" {
            Err(ResolveError { message: "no ty".into() })
        } else {
            fake_resolve(name, pinned)
        }
    };
    let r = build_hook_list(&cfg, &tools, &root(), timeout(), resolver);
    assert_eq!(r.err().unwrap().message, "no ty");
}

#[test]
fn tools_are_wanted_once_and_mounted_in_order() {
    let cfg = all_on();
    let tools = ToolsConfig { ruff: None, ty: Some("1".into()), pytest: None };
    let wishes = wanted_tools(&cfg, &tools);
    let names: Vec<&str> = wishes.iter().map(|w| w.name).collect();
    assert_eq!(names, vec!["ruff", "ty", "pytest", "cargo"]);
    assert_eq!(wishes[1].pin.as_deref(), Some("1"));
    let resolved: Vec<ResolvedTool> =
        wishes.iter().map(|w| fake_resolve(w.name, None).unwrap()).collect();
    let (hooks, infos) = mount_hooks(&cfg, &tools, &root(), timeout(), &resolved);
    assert_eq!(hooks.len(), 5);
    assert_eq!(infos.len(), 4);
    assert_eq!(infos[3].source, "uvx-latest");
}

fn output(exit: Option<i32>, stdout: &str, stderr: &str) -> ToolOutput {
    ToolOutput {
        exit,
        status: match exit {
            Some(c) => format!("exit status: {c}"),
            None => "signal: 9 (SIGKILL)".to_string(),
        },
        stdout: stdout.as_bytes().to_vec(),
        stderr: stderr.as_bytes().to_vec(),
    }
}

fn mounted(name: &'static str, cfg: &HooksConfig) -> MountedHook {
    let (hooks, _) =
        build_hook_list(cfg, &ToolsConfig::default(), &root(), timeout(), fake_resolve).unwrap();
    hooks.into_iter().find(|h| h.name() == name).unwrap()
}

fn planned_args(hook: &MountedHook, files: &Vec<FilePath>) -> Vec<String> {
    match hook.plan(files, &vec![]) {
        Plan::Run(c) => {
            assert_eq!(c.program, "uvx");
            assert_eq!(c.timeout, timeout());
            c.args
        }
        _ => panic!("expected a run"),
    }
}

#[test]
fn commands_are_planned() {
    let cfg = all_on();
    let files = vec![FilePath::new("a.py"), FilePath::new("src/b.py")];
    assert_eq!(
        planned_args(&mounted("ruff", &cfg), &files),
        vec!["ruff", "check", "--output-format=json", "a.py", "src/b.py"]
    );
    assert_eq!(
        planned_args(&mounted("ruff_format", &cfg), &files),
        vec!["ruff", "format", "--check", "a.py", "src/b.py"]
    );
    assert_eq!(planned_args(&mounted("ty", &cfg), &files), vec!["ty", "check", "a.py", "src/b.py"]);
    assert_eq!(
        planned_args(&mounted("clippy", &cfg), &files),
        vec!["cargo", "clippy", "--workspace", "--message-format=json", "--", "-D", "warnings"]
    );
}

#[test]
fn pytest_runs_existing_tests_only() {
    let cfg = all_on();
    let hook = mounted("pytest", &cfg);
    let files = vec![
        FilePath::new("src/a.py"),
        FilePath::new("src/b.py"),
        FilePath::new("lib/a.py"),
        FilePath::new("c.rs"),
    ];
    let probes = hook.probes(&files);
    assert_eq!(probes, vec![FilePath::new("tests/test_a.py"), FilePath::new("tests/test_b.py")]);
    match hook.plan(&files, &vec![false, true]) {
        Plan::Run(c) => {
            assert_eq!(
                c.args,
                vec!["pytest", "--tb=no", "-q", "--no-header", "tests/test_b.py"]
            );
            assert_eq!(c.cwd.unwrap(), root());
        }
        _ => panic!("expected a run"),
    }
    assert!(matches!(hook.plan(&files, &vec![false, false]), Plan::Skip));
}

#[test]
fn empty_invocation_cannot_run() {
    let cfg = all_on();
    let resolve = |name: &'static str, _p: Option<&str>| -> Result<ResolvedTool, ResolveError> {
        Ok(ResolvedTool {
            name,
            version: "1".into(),
            source: ToolSource::UvxLatest,
            invocation: vec![],
        })
    };
    let (hooks, _) =
        build_hook_list(&cfg, &ToolsConfig::default(), &root(), timeout(), resolve).unwrap();
    let files = vec![FilePath::new("a.py")];
    let mut messages = Vec::new();
    for h in &hooks {
        let exist = vec![true; h.probes(&files).len()];
        match h.plan(&files, &exist) {
            Plan::Fail(e) => messages.push(e.message),
            _ => panic!("expected a failure"),
        }
    }
    assert_eq!(
        messages,
        vec![
            "ruff invocation vector is empty",
            "ruff invocation vector is empty",
            "ty invocation vector is empty",
            "pytest invocation vector is empty",
            "cargo invocation vector is empty",
        ]
    );
}

fn failure(hook: &MountedHook, out: &ToolOutput) -> String {
    match hook.judge(out) {
        Verdict::Failed(e) => e.message,
        _ => panic!("expected a failure"),
    }
}

#[test]
fn failing_tools_are_reported() {
    let cfg = all_on();
    assert_eq!(
        failure(&mounted("ruff", &cfg), &output(Some(2), "", "bad option")),
        "ruff failed (exit exit status: 2): bad option"
    );
    assert_eq!(
        failure(&mounted("ruff", &cfg), &output(None, "[]", "")),
        "ruff failed (exit signal: 9 (SIGKILL)): "
    );
    assert_eq!(
        failure(&mounted("ruff_format", &cfg), &output(Some(2), "", "oops")),
        "ruff format failed (exit exit status: 2): oops"
    );
    assert_eq!(failure(&mounted("ty", &cfg), &output(None, "", "")), "ty was killed by a signal");
    assert_eq!(
        failure(&mounted("pytest", &cfg), &output(None, "", "")),
        "pytest was killed by a signal"
    );
    assert_eq!(
        failure(&mounted("clippy", &cfg), &output(None, "", "")),
        "cargo clippy was killed by a signal"
    );
}

#[test]
fn findings_are_judged_whatever_the_exit_code() {
    let cfg = all_on();
    match mounted("ruff", &cfg).judge(&output(Some(1), "[{}]", "")) {
        Verdict::RuffJson(bytes) => assert_eq!(bytes, b"[{}]"),
        _ => panic!("expected JSON"),
    }
    match mounted("ruff_format", &cfg).judge(&output(Some(1), "Would reformat: a.py\n", "")) {
        Verdict::Diagnostics(d) => assert_eq!(d.len(), 1),
        _ => panic!("expected diagnostics"),
    }
    match mounted("ty", &cfg).judge(&output(Some(1), "error[x]: y\n --> a.py:1:2\n", "")) {
        Verdict::Diagnostics(d) => {
            assert_eq!(d[0].severity, Severity::Error);
            assert_eq!(d[0].col, 2);
        }
        _ => panic!("expected diagnostics"),
    }
    match mounted("pytest", &cfg).judge(&output(Some(1), "FAILED a.py::t - m\n", "")) {
        Verdict::Diagnostics(d) => assert_eq!(d[0].message, "t: m"),
        _ => panic!("expected diagnostics"),
    }
    match mounted("clippy", &cfg).judge(&output(Some(101), "{}\r\n{}\n", "")) {
        Verdict::CargoJson(lines) => assert_eq!(lines, vec!["{}", "{}"]),
        _ => panic!("expected JSON lines"),
    }
}

#[test]
fn undecodable_output_is_replaced() {
    let cfg = all_on();
    let mut out = output(Some(2), "", "");
    out.stderr = vec![0x6f, 0xff, 0x6b];
    assert_eq!(
        failure(&mounted("ruff", &cfg), &out),
        "ruff failed (exit exit status: 2): o\u{FFFD}k"
    );
}

#[test]
fn run_that_finishes_is_unregistered() {
    let mut registry = HookRegistry::new();
    let mut run = HookRun::new("ruff", Span::from_secs(5));
    assert!(matches!(run.step(&mut registry, RunEvent::Spawned { pid: 7 }), RunStep::Look));
    assert_eq!(registry.pids, vec![7]);
    let early = RunEvent::Running { elapsed: Span { secs: 4, nanos: 999_999_999 } };
    assert!(matches!(run.step(&mut registry, early), RunStep::Sleep));
    assert_eq!(registry.pids, vec![7]);
    match run.step(&mut registry, RunEvent::Exited { output: output(Some(0), "ok", "") }) {
        RunStep::Done(Ok(o)) => assert_eq!(o.stdout, b"ok"),
        _ => panic!("expected an output"),
    }
    assert!(registry.pids.is_empty());
}

#[test]
fn run_that_takes_too_long_is_killed() {
    let mut registry = HookRegistry::new();
    let mut run = HookRun::new("pytest", Span::from_secs(DEFAULT_HOOK_TIMEOUT));
    run.step(&mut registry, RunEvent::Spawned { pid: 8 });
    let late = RunEvent::Running { elapsed: Span::from_secs(120) };
    assert!(matches!(run.step(&mut registry, late), RunStep::Kill));
    assert_eq!(registry.pids, vec![8]);
    match run.step(&mut registry, RunEvent::Killed) {
        RunStep::Done(Err(e)) => {
            assert_eq!(e.message, "pytest timed out after 120s and was killed by pulci")
        }
        _ => panic!("expected an error"),
    }
    assert!(registry.pids.is_empty());
}

#[test]
fn run_that_cannot_be_watched_is_unregistered() {
    let mut registry = HookRegistry::new();
    let mut run = HookRun::new("ty", timeout());
    run.step(&mut registry, RunEvent::Spawned { pid: 9 });
    match run.step(&mut registry, RunEvent::WaitFailed { error: "no child".into() }) {
        RunStep::Done(Err(e)) => assert_eq!(e.message, "no child"),
        _ => panic!("expected an error"),
    }
    assert!(registry.pids.is_empty());
}

#[test]
fn run_that_cannot_start_is_never_registered() {
    let mut registry = HookRegistry::new();
    let mut run = HookRun::new("ty", timeout());
    match run.step(&mut registry, RunEvent::SpawnFailed { error: "not found".into() }) {
        RunStep::Done(Err(e)) => assert_eq!(e.message, "not found"),
        _ => panic!("expected an error"),
    }
    assert!(registry.pids.is_empty());
}
