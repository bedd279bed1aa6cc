//! Running the mounted tools.

use vstd::prelude::*;
use crate::hooks::{all_placed, findings, place_diagnostics, Diagnostic, HookError};
use crate::paths::FilePath;
use crate::text::option_text;

verus! {

/// The result of running one tool.
#[derive(Debug)]
pub struct RunResult {
    pub tool: String,
    pub diagnostics: Vec<Diagnostic>,
    /// Why the tool did not run; finding violations is no error.
    pub error: Option<String>,
}

/// The tools that run on every check, side by side.
#[derive(Debug)]
pub struct Orchestrator<H> {
    pub hooks: Vec<H>,
}

impl<H> Orchestrator<H> {
    /// Runs the given tools.
    pub fn new(hooks: Vec<H>) -> (r: Orchestrator<H>)
        ensures
            r.hooks == hooks,
    {
        Orchestrator { hooks }
    }
}

/// How the task of one tool ended.
#[derive(Debug)]
pub enum HookOutcome {
    /// The tool, which ran in `dir`, gave diagnostics or a reason why it could not.
    Finished { tool: String, dir: FilePath, result: Result<Vec<Diagnostic>, HookError> },
    /// The task itself broke down.
    Panicked { error: String },
}

/// The result of a task, with full paths. A tool that fails costs the others
/// nothing: it is recorded with its error and without diagnostics.
pub fn conclude(outcome: HookOutcome) -> (r: RunResult)
    ensures
        match outcome {
            HookOutcome::Finished { tool, dir, result: Ok(diagnostics) } => r.tool == tool
                && findings(r.diagnostics@) == all_placed(findings(diagnostics@), dir@)
                && r.error is None && r.diagnostics@.len() == diagnostics@.len() && forall|i: int|
                0 <= i < diagnostics@.len() ==> {
                    &&& (#[trigger] r.diagnostics@[i]).tool@ == diagnostics@[i].tool@
                    &&& r.diagnostics@[i].line == diagnostics@[i].line
                    &&& r.diagnostics@[i].col == diagnostics@[i].col
                    &&& r.diagnostics@[i].severity == diagnostics@[i].severity
                    &&& option_text(r.diagnostics@[i].code) == option_text(diagnostics@[i].code)
                    &&& r.diagnostics@[i].message@ == diagnostics@[i].message@
                },
            HookOutcome::Finished { tool, dir: _, result: Err(e) } => r.tool == tool && r.diagnostics@.len()
                == 0 && (r.error matches Some(m) && m@ == e@),
            HookOutcome::Panicked { error } => r.tool@ == "unknown"@ && r.diagnostics@.len() == 0
                && (r.error matches Some(m) && m@ == "hook task panicked: "@ + error@),
        },
{
    match outcome {
        HookOutcome::Finished { tool, dir, result: Ok(diagnostics) } => RunResult {
            tool,
            diagnostics: place_diagnostics(&diagnostics, &dir),
            error: None,
        },
        HookOutcome::Finished { tool, dir: _, result: Err(e) } => RunResult {
            tool,
            diagnostics: Vec::new(),
            error: Some(e.message),
        },
        HookOutcome::Panicked { error } => {
            let mut message = "hook task panicked: ".to_owned();
            message.append(error.as_str());
            RunResult {
                tool: "unknown".to_owned(),
                diagnostics: Vec::new(),
                error: Some(message),
            }
        },
    }
}

} // verus!
