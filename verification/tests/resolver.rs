//! Finding the binaries of tools.

use pulci_core::paths::FilePath;
use pulci_core::resolver::{
    detect_version, find_in_system_path, find_in_venv, parse_version, resolve_tool, uvx_available, Answer, Question,
    ResolveRequest, ResolveStep, ResolvedTool, ToolSource,
};

struct System {
    files: Vec<&'static str>,
    /// Commands that start, whether they succeed, and what they print.
    commands: Vec<(Vec<&'static str>, bool, &'static str, &'static str)>,
}

impl System {
    fn answer(&self, q: &Question) -> Answer {
        match q {
            Question::IsFile(p) => {
                if self.files.iter().any(|f| FilePath::new(f) == *p) {
                    Answer::Yes
                } else {
                    Answer::No
                }
            }
            Question::Version(words) => {
                for (command, success, stdout, stderr) in &self.commands {
                    if command.iter().map(|w| w.to_string()).collect::<Vec<_>>() == *words {
                        return Answer::Ran {
                            success: *success,
                            stdout: stdout.as_bytes().to_vec(),
                            stderr: stderr.as_bytes().to_vec(),
                        };
                    }
                }
                Answer::NotStarted { error: "No such file or directory".into() }
            }
        }
    }

    fn resolve(&self, request: &ResolveRequest) -> Result<ResolvedTool, String> {
        let mut answers = Vec::new();
        loop {
            match resolve_tool(request, &answers) {
                ResolveStep::Ask(q) => answers.push(self.answer(&q)),
                ResolveStep::Found(t) => return Ok(t),
                ResolveStep::Failed(e) => return Err(e.message),
            }
        }
    }
}

fn request(name: &'static str, pin: Option<&str>) -> ResolveRequest {
    ResolveRequest {
        name,
        project_root: FilePath::new("/project"),
        pin: pin.map(String::from),
        search_path: vec![FilePath::new("/usr/local/bin"), FilePath::new("/usr/bin")],
        windows: false,
    }
}

#[test]
fn find_in_venv_names_the_binary() {
    let root = FilePath::new("/project");
    assert_eq!(find_in_venv("ruff", &root, false).as_str(), "/project/.venv/bin/ruff");
    assert_eq!(find_in_venv("ruff", &root, true).as_str(), "/project/.venv/Scripts/ruff.exe");
    let dir = FilePath::new("/usr/bin/");
    assert_eq!(find_in_system_path("ty", &dir, false).as_str(), "/usr/bin/ty");
    assert_eq!(find_in_system_path("ty", &dir, true).as_str(), "/usr/bin/ty.exe");
}

#[test]
fn find_in_system_path_nonexistent_tool() {
    let system = System { files: vec![], commands: vec![] };
    let err = system.resolve(&request("__pulci_nonexistent_binary_xyz__", None)).unwrap_err();
    assert!(err.contains("not found in .venv, PATH, or via uvx"));
}

#[test]
fn detect_version_bad_command_returns_unknown() {
    let version = detect_version(&Answer::NotStarted { error: "no such file".into() });
    assert_eq!(version, "unknown");
}

#[test]
fn resolve_tool_picks_local_venv_over_system_path() {
    let system = System {
        files: vec!["/project/.venv/bin/ruff", "/usr/bin/ruff"],
        commands: vec![
            (vec!["/project/.venv/bin/ruff"], true, "ruff 0.7.4\n", ""),
            (vec!["/usr/bin/ruff"], true, "ruff 0.1.0\n", ""),
        ],
    };
    let resolved = system.resolve(&request("ruff", None)).unwrap();
    assert!(
        matches!(resolved.source, ToolSource::LocalVenv { .. }),
        "expected LocalVenv, got {:?}",
        resolved.source
    );
    assert_eq!(resolved.name, "ruff");
    assert_eq!(resolved.version, "0.7.4");
    assert_eq!(resolved.invocation, vec!["/project/.venv/bin/ruff"]);
    let info = resolved.to_tool_info();
    assert_eq!(info.source, "local-venv");
    assert_eq!(info.path.as_deref(), Some("/project/.venv/bin/ruff"));
}

#[test]
fn search_path_is_walked_in_order() {
    let system = System {
        files: vec!["/usr/bin/ty", "/usr/local/bin/ty"],
        commands: vec![(vec!["/usr/local/bin/ty"], false, "ty 0.0.3 (abc)\nmore\n", "")],
    };
    let resolved = system.resolve(&request("ty", None)).unwrap();
    match &resolved.source {
        ToolSource::SystemPath { path } => assert_eq!(path.as_str(), "/usr/local/bin/ty"),
        other => panic!("expected SystemPath, got {other:?}"),
    }
    assert_eq!(resolved.version, "(abc)");
    assert_eq!(resolved.to_tool_info().source, "system-path");
}

#[test]
fn broken_binary_is_used_with_an_unknown_version() {
    let system = System { files: vec!["/usr/bin/ty"], commands: vec![] };
    let resolved = system.resolve(&request("ty", None)).unwrap();
    assert_eq!(resolved.version, "unknown");
    assert_eq!(resolved.invocation, vec!["/usr/bin/ty"]);
}

#[test]
fn resolve_tool_no_venv_falls_back_to_system_or_uvx() {
    let system = System {
        files: vec![],
        commands: vec![
            (vec!["uvx"], true, "uvx 0.5\n", ""),
            (vec!["uvx", "pytest"], true, "pytest 8.3.0\n", ""),
        ],
    };
    let resolved = system.resolve(&request("pytest", None)).unwrap();
    assert!(matches!(resolved.source, ToolSource::UvxLatest));
    assert_eq!(resolved.invocation, vec!["uvx", "pytest"]);
    assert_eq!(resolved.version, "8.3.0");
    let info = resolved.to_tool_info();
    assert_eq!((info.source.as_str(), info.path), ("uvx-latest", None));
}

#[test]
fn tool_that_is_nowhere_is_an_error() {
    let system = System { files: vec![], commands: vec![] };
    assert_eq!(
        system.resolve(&request("ty", None)).unwrap_err(),
        "`ty` not found in .venv, PATH, or via uvx.\n\
         Install uv (pip install uv) or ty directly (pip install ty)"
    );
}

#[test]
fn pin_comes_before_everything_else() {
    let system = System {
        files: vec!["/project/.venv/bin/ruff"],
        commands: vec![
            (vec!["uvx"], true, "", ""),
            (vec!["uvx", "ruff@0.7.4"], true, "ruff 0.7.4\n", ""),
        ],
    };
    let resolved = system.resolve(&request("ruff", Some("0.7.4"))).unwrap();
    match &resolved.source {
        ToolSource::Pinned { version } => assert_eq!(version, "0.7.4"),
        other => panic!("expected Pinned, got {other:?}"),
    }
    assert_eq!(resolved.invocation, vec!["uvx", "ruff@0.7.4"]);
    assert_eq!(resolved.to_tool_info().source, "pinned");
}

#[test]
fn pin_without_uvx_is_an_error() {
    let system = System { files: vec!["/project/.venv/bin/ruff"], commands: vec![] };
    assert_eq!(
        system.resolve(&request("ruff", Some("0.7.4"))).unwrap_err(),
        "`ruff` is pinned to version 0.7.4 in pulci.toml but `uvx` is not installed.\n\
         Install uv: pip install uv"
    );
}

#[test]
fn pin_to_a_missing_version_is_an_error() {
    let system = System {
        files: vec![],
        commands: vec![
            (vec!["uvx"], true, "", ""),
            (vec!["uvx", "ruff@99.99.99"], false, "", "  no such version\n"),
        ],
    };
    assert_eq!(
        system.resolve(&request("ruff", Some("99.99.99"))).unwrap_err(),
        "`ruff` is pinned to version 99.99.99 in pulci.toml but uvx could not resolve it.\n\
         Command: uvx ruff@99.99.99 --version\n\
         Stderr: no such version\n\
         Check that the version exists on PyPI and that your `pulci.toml [tools]` section is correct."
    );
}

#[test]
fn pin_whose_probe_does_not_start_is_an_error() {
    let system = System { files: vec![], commands: vec![(vec!["uvx"], true, "", "")] };
    assert_eq!(
        system.resolve(&request("ruff", Some("1"))).unwrap_err(),
        "`ruff` is pinned to version 1 in pulci.toml but `uvx` failed to start: No such file or directory"
    );
}

#[test]
fn versions_are_read_off_the_first_line() {
    assert_eq!(parse_version("ruff 0.7.4\nother 1\n"), "0.7.4");
    assert_eq!(parse_version("0.7.4"), "0.7.4");
    assert_eq!(parse_version("  spaced   out  \n"), "out");
    assert_eq!(parse_version("\n1.0\n"), "unknown");
    assert_eq!(parse_version(""), "unknown");
}

#[test]
fn uvx_counts_as_available_when_it_starts() {
    assert!(uvx_available(&Answer::Ran { success: false, stdout: vec![], stderr: vec![] }));
    assert!(!uvx_available(&Answer::NotStarted { error: String::new() }));
    assert!(!uvx_available(&Answer::No));
}
