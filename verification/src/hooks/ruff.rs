//! `ruff check`: the linter.

use vstd::prelude::*;
use super::{
    exit_failure, failed, findings, plan_run, run_plan, Diagnostic, DiagnosticView, Hook, Plan, PlanView, Severity, Span,
    ToolOutput, Verdict, VerdictView,
};
use crate::paths::{path_texts, FilePath};
use crate::resolver::ResolvedTool;
use crate::text::{copy_option, copy_strings, option_text, texts};

verus! {

/// One entry of `ruff check --output-format=json`.
#[derive(Debug)]
pub struct RuffEntry {
    pub code: Option<String>,
    pub message: String,
    pub filename: String,
    pub row: u32,
    pub column: u32,
}

/// The diagnostic for an entry.
pub open spec fn ruff_finding(e: RuffEntry) -> DiagnosticView {
    DiagnosticView {
        tool: "ruff"@,
        file: e.filename@,
        line: e.row,
        col: e.column,
        severity: Severity::Error,
        code: option_text(e.code),
        message: e.message@,
    }
}

/// The diagnostics for decoded entries. Output that is no array of entries says
/// nothing.
pub open spec fn ruff_findings(entries: Option<Seq<RuffEntry>>) -> Seq<DiagnosticView> {
    match entries {
        Some(e) => e.map_values(|x: RuffEntry| ruff_finding(x)),
        None => Seq::empty(),
    }
}

/// Turns decoded entries into diagnostics.
pub fn ruff_diagnostics(entries: &Option<Vec<RuffEntry>>) -> (r: Vec<Diagnostic>)
    ensures
        findings(r@) == ruff_findings(
            match *entries {
                Some(e) => Some(e@),
                None => None,
            },
        ),
        entries is None ==> r@.len() == 0,
        entries is Some ==> r@.len() == entries->0@.len(),
        entries is Some ==> forall|i: int|
            0 <= i < r@.len() ==> {
                &&& (#[trigger] r@[i]).tool@ == "ruff"@
                &&& r@[i].severity == Severity::Error
                &&& r@[i].file@ == entries->0@[i].filename@
                &&& r@[i].line == entries->0@[i].row
                &&& r@[i].col == entries->0@[i].column
                &&& option_text(r@[i].code) == option_text(entries->0@[i].code)
                &&& r@[i].message@ == entries->0@[i].message@
            },
{
    let mut out: Vec<Diagnostic> = Vec::new();
    match entries {
        None => {
            assert(findings(out@) =~= Seq::empty());
        },
        Some(list) => {
            let ghost f = |x: RuffEntry| ruff_finding(x);
            let mut i: usize = 0;
            while i < list.len()
                invariant
                    i <= list@.len(),
                    f == |x: RuffEntry| ruff_finding(x),
                    findings(out@) == list@.take(i as int).map_values(f),
                decreases list@.len() - i,
            {
                let e = &list[i];
                let ghost before = out@;
                out.push(
                    Diagnostic {
                        tool: "ruff".to_owned(),
                        file: FilePath { text: e.filename.clone() },
                        line: e.row,
                        col: e.column,
                        severity: Severity::Error,
                        code: copy_option(&e.code),
                        message: e.message.clone(),
                    },
                );
                proof {
                    assert(findings(out@) =~= findings(before).push(out@.last()@));
                    assert(list@.take(i + 1).map_values(f) =~= list@.take(i as int).map_values(
                        f,
                    ).push(f(list@[i as int])));
                }
                i += 1;
            }
            assert(list@.take(i as int) =~= list@);
            proof {
                assert(findings(out@).len() == out@.len());
                assert forall|k: int| 0 <= k < out@.len() implies (#[trigger] out@[k])@
                    == ruff_finding(list@[k]) by {
                    assert(findings(out@)[k] == list@.map_values(f)[k]);
                }
                assert forall|k: int| 0 <= k < out@.len() implies {
                    &&& (#[trigger] out@[k]).tool@ == "ruff"@
                    &&& out@[k].severity == Severity::Error
                    &&& out@[k].file@ == list@[k].filename@
                    &&& out@[k].line == list@[k].row
                    &&& out@[k].col == list@[k].column
                    &&& option_text(out@[k].code) == option_text(list@[k].code)
                    &&& out@[k].message@ == list@[k].message@
                } by {
                    assert(out@[k]@ == ruff_finding(list@[k]));
                }
            }
        },
    }
    out
}

/// Runs `ruff check` on the changed files.
#[derive(Debug)]
pub struct RuffAdapter {
    pub invocation: Vec<String>,
    pub timeout: Span,
}

impl RuffAdapter {
    /// Uses the resolved `ruff`.
    pub fn new(resolved: &ResolvedTool, timeout: Span) -> (r: RuffAdapter)
        ensures
            r.invocation@ == resolved.invocation@,
            r.timeout == timeout,
    {
        RuffAdapter { invocation: copy_strings(&resolved.invocation), timeout }
    }
}

impl Hook for RuffAdapter {
    open spec fn label(&self) -> Seq<char> {
        "ruff"@
    }

    open spec fn probed(&self, files: Seq<FilePath>) -> Seq<Seq<char>> {
        Seq::empty()
    }

    open spec fn planned(&self, files: Seq<FilePath>, exist: Seq<bool>) -> PlanView {
        run_plan(
            "ruff"@,
            texts(self.invocation@),
            seq!["check"@, "--output-format=json"@],
            path_texts(files),
            None,
            self.timeout,
        )
    }

    /// Exit code 0 means no findings, 1 findings.
    open spec fn judged(&self, output: ToolOutput) -> VerdictView {
        if output.exit is None || output.exit->0 > 1 {
            VerdictView::Failed(exit_failure("ruff"@, output))
        } else {
            VerdictView::RuffJson(output.stdout@)
        }
    }

    fn name(&self) -> (r: &'static str) {
        "ruff"
    }

    fn probes(&self, files: &Vec<FilePath>) -> (r: Vec<FilePath>) {
        let out: Vec<FilePath> = Vec::new();
        assert(path_texts(out@) =~= Seq::empty());
        out
    }

    fn plan(&self, files: &Vec<FilePath>, exist: &Vec<bool>) -> (r: Plan) {
        let fixed = vec!["check".to_owned(), "--output-format=json".to_owned()];
        assert(texts(fixed@) =~= seq!["check"@, "--output-format=json"@]);
        plan_run("ruff", &self.invocation, fixed, files, None, self.timeout)
    }

    fn judge(&self, output: &ToolOutput) -> (r: Verdict) {
        let ran = match output.exit {
            Some(code) => code <= 1,
            None => false,
        };
        if !ran {
            return Verdict::Failed(failed("ruff", output));
        }
        Verdict::RuffJson(vstd::slice::slice_to_vec(output.stdout.as_slice()))
    }
}

// ---------------------------------------------------------------------------
// Laws
// ---------------------------------------------------------------------------

/// There is one diagnostic for each entry, in order, and it says what the entry
/// says. Without entries there is none.
pub proof fn law_each_entry_is_a_diagnostic(entries: Seq<RuffEntry>, i: int)
    requires
        0 <= i < entries.len(),
    ensures
        ruff_findings(None).len() == 0,
        ruff_findings(Some(entries)).len() == entries.len(),
        ruff_findings(Some(entries))[i].tool == "ruff"@,
        ruff_findings(Some(entries))[i].severity == Severity::Error,
        ruff_findings(Some(entries))[i].file == entries[i].filename@,
        ruff_findings(Some(entries))[i].line == entries[i].row,
        ruff_findings(Some(entries))[i].col == entries[i].column,
        ruff_findings(Some(entries))[i].message == entries[i].message@,
        ruff_findings(Some(entries))[i].code is Some == entries[i].code is Some,
        entries[i].code is Some ==> ruff_findings(Some(entries))[i].code->0 == entries[i].code->0@,
{
}

/// `ruff` has done its work exactly where it ended with 0 or 1, and then all that it
/// printed is read.
pub proof fn law_ruff_is_judged_by_its_exit(hook: RuffAdapter, output: ToolOutput)
    ensures
        hook.judged(output) is RuffJson || hook.judged(output) is Failed,
        hook.judged(output) is RuffJson == (output.exit matches Some(code) && code <= 1),
        hook.judged(output) matches VerdictView::RuffJson(bytes) ==> bytes == output.stdout@,
        hook.judged(output) matches VerdictView::Failed(m) ==> m == exit_failure("ruff"@, output),
{
}

/// `ruff` is run with its fixed arguments and then every changed file, in order.
pub proof fn law_ruff_is_given_every_file(hook: RuffAdapter, files: Seq<FilePath>, exist: Seq<bool>)
    requires
        hook.invocation@.len() > 0,
    ensures
        hook.probed(files).len() == 0,
        hook.planned(files, exist) matches PlanView::Run(c) && {
            let n = hook.invocation@.len() - 1;
            &&& c.program == hook.invocation@[0]@
            &&& c.args.len() == n + 2 + files.len()
            &&& forall|i: int| 0 <= i < n ==> #[trigger] c.args[i] == hook.invocation@[i + 1]@
            &&& c.args[n + 0] == "check"@
            &&& c.args[n + 1] == "--output-format=json"@
            &&& forall|i: int|
                0 <= i < files.len() ==> #[trigger] c.args[n + 2 + i] == files[i]@
            &&& c.cwd is None
            &&& c.timeout == hook.timeout
        },
{
    let n = hook.invocation@.len() - 1;
    let given = texts(hook.invocation@);
    assert(given[0] == hook.invocation@[0]@);
    if let PlanView::Run(c) = hook.planned(files, exist) {
        assert forall|i: int| 0 <= i < n implies #[trigger] c.args[i] == hook.invocation@[i + 1]@ by {
            assert(given.skip(1)[i] == given[i + 1]);
        }
        assert forall|i: int| 0 <= i < files.len() implies #[trigger] c.args[n + 2 + i]
            == files[i]@ by {
            assert(path_texts(files)[i] == files[i]@);
        }
    }
}

} // verus!
