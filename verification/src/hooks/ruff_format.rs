//! `ruff format --check`: files that would be reformatted.

use vstd::prelude::*;
use super::{
    exit_failure, failed, findings, plan_run, run_plan, Diagnostic, DiagnosticView, Hook, Plan, PlanView, Severity, Span,
    ToolOutput, Verdict, VerdictView,
};
use crate::paths::{path_texts, FilePath};
use crate::resolver::ResolvedTool;
use crate::text::{
    chars_of, copy_strings, decode_lossy, is_white, lines, lines_of, lossy_text, pieces, string_of, strip, stripped, texts, trim,
    trimmed,
};

verus! {

/// The diagnostic on a line `Would reformat: path`.
pub open spec fn reformat_finding(line: Seq<char>) -> Option<DiagnosticView> {
    match strip(trim(line), "Would reformat: "@) {
        Some(path) => Some(
            DiagnosticView {
                tool: "ruff_format"@,
                file: path,
                line: 0,
                col: 0,
                severity: Severity::Error,
                code: Some("format"@),
                message: "would be reformatted by `ruff format`"@,
            },
        ),
        None => None,
    }
}

/// The diagnostics in a sequence of lines. Other lines, such as the summary at
/// the end, say nothing.
pub open spec fn reformat_findings(all: Seq<Seq<char>>) -> Seq<DiagnosticView>
    decreases all.len(),
{
    if all.len() == 0 {
        Seq::empty()
    } else {
        let before = reformat_findings(all.drop_last());
        match reformat_finding(all.last()) {
            Some(d) => before.push(d),
            None => before,
        }
    }
}

/// Parses what `ruff format --check` prints.
pub fn parse_ruff_format_output(text: &str) -> (r: Vec<Diagnostic>)
    ensures
        findings(r@) == reformat_findings(lines(text@)),
{
    let chars = chars_of(text);
    let all = lines_of(chars.as_slice());
    let ghost views = pieces(all@);
    let mut out: Vec<Diagnostic> = Vec::new();
    let mut i: usize = 0;
    assert(findings(out@) =~= reformat_findings(views.take(0)));
    while i < all.len()
        invariant
            i <= all@.len(),
            views == pieces(all@),
            views == lines(text@),
            findings(out@) == reformat_findings(views.take(i as int)),
        decreases all@.len() - i,
    {
        let ghost before = out@;
        proof {
            assert(views.take(i + 1).drop_last() =~= views.take(i as int));
            assert(views.take(i + 1).last() == all@[i as int]@);
        }
        if let Some(path) = stripped(trimmed(all[i].as_slice()), "Would reformat: ") {
            out.push(
                Diagnostic {
                    tool: "ruff_format".to_owned(),
                    file: FilePath { text: string_of(path) },
                    line: 0,
                    col: 0,
                    severity: Severity::Error,
                    code: Some("format".to_owned()),
                    message: "would be reformatted by `ruff format`".to_owned(),
                },
            );
            assert(findings(out@) =~= findings(before).push(out@.last()@));
        }
        i += 1;
    }
    assert(views.take(i as int) =~= views);
    out
}

// ---------------------------------------------------------------------------
// The tool
// ---------------------------------------------------------------------------

/// Runs `ruff format --check` on the changed files.
#[derive(Debug)]
pub struct RuffFormatAdapter {
    pub invocation: Vec<String>,
    pub timeout: Span,
}

impl RuffFormatAdapter {
    /// Uses the resolved `ruff`.
    pub fn new(resolved: &ResolvedTool, timeout: Span) -> (r: RuffFormatAdapter)
        ensures
            r.invocation@ == resolved.invocation@,
            r.timeout == timeout,
    {
        RuffFormatAdapter { invocation: copy_strings(&resolved.invocation), timeout }
    }
}

impl Hook for RuffFormatAdapter {
    open spec fn label(&self) -> Seq<char> {
        "ruff_format"@
    }

    open spec fn probed(&self, files: Seq<FilePath>) -> Seq<Seq<char>> {
        Seq::empty()
    }

    open spec fn planned(&self, files: Seq<FilePath>, exist: Seq<bool>) -> PlanView {
        run_plan(
            "ruff"@,
            texts(self.invocation@),
            seq!["format"@, "--check"@],
            path_texts(files),
            None,
            self.timeout,
        )
    }

    /// Exit code 0 means that all files are formatted, 1 that some are not.
    open spec fn judged(&self, output: ToolOutput) -> VerdictView {
        if output.exit is None || output.exit->0 > 1 {
            VerdictView::Failed(exit_failure("ruff format"@, output))
        } else {
            VerdictView::Diagnostics(reformat_findings(lines(lossy_text(output.stdout@))))
        }
    }

    fn name(&self) -> (r: &'static str) {
        "ruff_format"
    }

    fn probes(&self, files: &Vec<FilePath>) -> (r: Vec<FilePath>) {
        let out: Vec<FilePath> = Vec::new();
        assert(path_texts(out@) =~= Seq::empty());
        out
    }

    fn plan(&self, files: &Vec<FilePath>, exist: &Vec<bool>) -> (r: Plan) {
        let fixed = vec!["format".to_owned(), "--check".to_owned()];
        assert(texts(fixed@) =~= seq!["format"@, "--check"@]);
        plan_run("ruff", &self.invocation, fixed, files, None, self.timeout)
    }

    fn judge(&self, output: &ToolOutput) -> (r: Verdict) {
        let ran = match output.exit {
            Some(code) => code <= 1,
            None => false,
        };
        if !ran {
            return Verdict::Failed(failed("ruff format", output));
        }
        let text = decode_lossy(output.stdout.as_slice());
        Verdict::Diagnostics(parse_ruff_format_output(text.as_str()))
    }
}

// ---------------------------------------------------------------------------
// Laws
// ---------------------------------------------------------------------------

/// A line that announces a path is a diagnostic about that path, whatever white
/// space is around it.
pub proof fn law_announced_path_is_found(a: Seq<char>, path: Seq<char>, b: Seq<char>)
    requires
        forall|i: int| 0 <= i < a.len() ==> is_white(#[trigger] a[i]),
        forall|i: int| 0 <= i < b.len() ==> is_white(#[trigger] b[i]),
        path.len() > 0,
        !is_white(path.last()),
    ensures
        reformat_finding(a + ("Would reformat: "@ + path) + b) matches Some(d) && d.tool
            == "ruff_format"@ && d.file == path && d.line == 0 && d.col == 0 && d.severity
            == Severity::Error && d.code == Some("format"@),
{
    reveal_strlit("Would reformat: ");
    let t = "Would reformat: "@ + path;
    assert(t[0] == 'W');
    assert(t.last() == path.last());
    crate::text::law_trimming_takes_white_ends(a, t, b);
    crate::text::law_stripping_undoes_prefixing(t, "Would reformat: "@, path);
}

/// A line that announces nothing is no diagnostic.
pub proof fn law_other_lines_are_not_found(line: Seq<char>)
    requires
        !"Would reformat: "@.is_prefix_of(trim(line)),
    ensures
        reformat_finding(line) is None,
{
    let t = trim(line);
    if let Some(rest) = strip(t, "Would reformat: "@) {
        crate::text::law_stripping_undoes_prefixing(t, "Would reformat: "@, rest);
        assert("Would reformat: "@ =~= t.subrange(0, "Would reformat: "@.len() as int));
    }
}

/// The test for lines that are diagnostics.
pub open spec fn is_reformat_finding() -> spec_fn(Seq<char>) -> bool {
    |l: Seq<char>| reformat_finding(l) is Some
}

/// No diagnostic among the lines is left out, none is made up, and they stay in
/// order.
pub proof fn law_every_line_is_read(all: Seq<Seq<char>>)
    ensures
        reformat_findings(all) == all.filter(is_reformat_finding()).map_values(
            |l: Seq<char>| reformat_finding(l)->0,
        ),
    decreases all.len(),
{
    let p = is_reformat_finding();
    let f = |l: Seq<char>| reformat_finding(l)->0;
    if all.len() == 0 {
        crate::sorting::lemma_choose_none(all, p, f);
    } else {
        law_every_line_is_read(all.drop_last());
        crate::sorting::lemma_choose_push(all.drop_last(), all.last(), p, f);
        assert(all.drop_last().push(all.last()) =~= all);
    }
}

/// `ruff format` has done its work exactly where it ended with 0 or 1, and then all
/// that it printed is read.
pub proof fn law_ruff_format_is_judged_by_its_exit(hook: RuffFormatAdapter, output: ToolOutput)
    ensures
        hook.judged(output) is Diagnostics || hook.judged(output) is Failed,
        hook.judged(output) is Diagnostics == (output.exit matches Some(code) && code <= 1),
        hook.judged(output) matches VerdictView::Diagnostics(d) ==> d == reformat_findings(
            lines(lossy_text(output.stdout@)),
        ),
        hook.judged(output) matches VerdictView::Failed(m) ==> m == exit_failure(
            "ruff format"@,
            output,
        ),
{
}

/// `ruff format` is run with its fixed arguments and then every changed file, in order.
pub proof fn law_ruff_format_is_given_every_file(hook: RuffFormatAdapter, files: Seq<FilePath>, exist: Seq<bool>)
    requires
        hook.invocation@.len() > 0,
    ensures
        hook.probed(files).len() == 0,
        hook.planned(files, exist) matches PlanView::Run(c) && {
            let n = hook.invocation@.len() - 1;
            &&& c.program == hook.invocation@[0]@
            &&& c.args.len() == n + 2 + files.len()
            &&& forall|i: int| 0 <= i < n ==> #[trigger] c.args[i] == hook.invocation@[i + 1]@
            &&& c.args[n + 0] == "format"@
            &&& c.args[n + 1] == "--check"@
            &&& forall|i: int|
                0 <= i < files.len() ==> #[trigger] c.args[n + 2 + i] == files[i]@
            &&& c.cwd is None
            &&& c.timeout == hook.timeout
        },
{
    let n = hook.invocation@.len() - 1;
    let given = texts(hook.invocation@);
    assert(given[0] == hook.invocation@[0]@);
    if let PlanView::Run(c) = hook.planned(files, exist) {
        assert forall|i: int| 0 <= i < n implies #[trigger] c.args[i] == hook.invocation@[i + 1]@ by {
            assert(given.skip(1)[i] == given[i + 1]);
        }
        assert forall|i: int| 0 <= i < files.len() implies #[trigger] c.args[n + 2 + i]
            == files[i]@ by {
            assert(path_texts(files)[i] == files[i]@);
        }
    }
}

} // verus!
