//! `cargo clippy`: the linter for Rust sources.

use vstd::prelude::*;
use super::{
    findings, killed, plan_run, run_plan, Diagnostic, DiagnosticView, Hook, Plan, PlanView, Severity, Span, ToolOutput,
    Verdict, VerdictView,
};
use crate::paths::{path_texts, FilePath};
use crate::resolver::ResolvedTool;
use crate::text::{
    chars_of, copy_option, copy_strings, decode_lossy, lines, lines_of, lossy_text, option_text, pieces, same_text,
    string_of, texts,
};

verus! {

/// A message of `cargo --message-format=json`.
#[derive(Debug)]
pub struct CargoMessage {
    pub reason: String,
    pub message: Option<CompilerMessage>,
}

/// What the compiler reports.
#[derive(Debug)]
pub struct CompilerMessage {
    pub level: String,
    pub message: String,
    pub code: Option<String>,
    pub spans: Vec<CompilerSpan>,
}

/// A place in a source.
#[derive(Debug)]
pub struct CompilerSpan {
    pub file_name: String,
    pub line_start: u32,
    pub column_start: u32,
    pub is_primary: bool,
}

/// The index of the first primary span, or the number of spans.
pub open spec fn first_primary(spans: Seq<CompilerSpan>) -> nat
    decreases spans.len(),
{
    if spans.len() == 0 || spans[0].is_primary {
        0
    } else {
        1 + first_primary(spans.drop_first())
    }
}

/// The span that locates a message: the first primary one, else the first.
pub open spec fn main_span(spans: Seq<CompilerSpan>) -> Option<CompilerSpan> {
    let i = first_primary(spans) as int;
    if i < spans.len() {
        Some(spans[i])
    } else if spans.len() > 0 {
        Some(spans[0])
    } else {
        None
    }
}

/// The severity of a level. Notes and helps have none.
pub open spec fn level_severity(level: Seq<char>) -> Option<Severity> {
    if level == "error"@ {
        Some(Severity::Error)
    } else if level == "warning"@ {
        Some(Severity::Warning)
    } else {
        None
    }
}

/// The diagnostic for a message, if it is a located error or warning of the
/// compiler.
pub open spec fn clippy_finding(m: Option<CargoMessage>) -> Option<DiagnosticView> {
    if m is Some && m->0.reason@ == "compiler-message"@ && m->0.message is Some {
        let cm = m->0.message->0;
        let severity = level_severity(cm.level@);
        let span = main_span(cm.spans@);
        if severity is Some && span is Some {
            Some(
                DiagnosticView {
                    tool: "clippy"@,
                    file: span->0.file_name@,
                    line: span->0.line_start,
                    col: span->0.column_start,
                    severity: severity->0,
                    code: option_text(cm.code),
                    message: cm.message@,
                },
            )
        } else {
            None
        }
    } else {
        None
    }
}

/// The diagnostics for decoded lines; a line that is no message is `None`.
pub open spec fn clippy_findings(messages: Seq<Option<CargoMessage>>) -> Seq<DiagnosticView>
    decreases messages.len(),
{
    if messages.len() == 0 {
        Seq::empty()
    } else {
        let before = clippy_findings(messages.drop_last());
        match clippy_finding(messages.last()) {
            Some(d) => before.push(d),
            None => before,
        }
    }
}

/// The span that locates a message.
fn find_main_span(spans: &Vec<CompilerSpan>) -> (r: Option<&CompilerSpan>)
    ensures
        match r {
            Some(s) => main_span(spans@) == Some(*s),
            None => main_span(spans@) is None,
        },
{
    if spans.len() == 0 {
        return None;
    }
    let mut i: usize = 0;
    assert(spans@.skip(0) =~= spans@);
    while i < spans.len()
        invariant
            i <= spans@.len(),
            first_primary(spans@) == i + first_primary(spans@.skip(i as int)),
        decreases spans@.len() - i,
    {
        if spans[i].is_primary {
            return Some(&spans[i]);
        }
        assert(spans@.skip(i as int).drop_first() =~= spans@.skip(i + 1));
        i += 1;
    }
    Some(&spans[0])
}

/// Turns one decoded line into a diagnostic.
fn diagnose(m: &Option<CargoMessage>) -> (r: Option<Diagnostic>)
    ensures
        match r {
            Some(d) => clippy_finding(*m) == Some(d@),
            None => clippy_finding(*m) is None,
        },
{
    let msg = match m {
        Some(msg) => msg,
        None => {
            return None;
        },
    };
    if !same_text(msg.reason.as_str(), "compiler-message") {
        return None;
    }
    let cm = match &msg.message {
        Some(cm) => cm,
        None => {
            return None;
        },
    };
    let severity = if same_text(cm.level.as_str(), "error") {
        Severity::Error
    } else if same_text(cm.level.as_str(), "warning") {
        Severity::Warning
    } else {
        return None;
    };
    match find_main_span(&cm.spans) {
        None => None,
        Some(span) => Some(
            Diagnostic {
                tool: "clippy".to_owned(),
                file: FilePath { text: span.file_name.clone() },
                line: span.line_start,
                col: span.column_start,
                severity,
                code: copy_option(&cm.code),
                message: cm.message.clone(),
            },
        ),
    }
}

/// Turns decoded lines into diagnostics.
pub fn clippy_diagnostics(messages: &Vec<Option<CargoMessage>>) -> (r: Vec<Diagnostic>)
    ensures
        findings(r@) == clippy_findings(messages@),
{
    let mut out: Vec<Diagnostic> = Vec::new();
    let mut i: usize = 0;
    assert(findings(out@) =~= Seq::empty());
    while i < messages.len()
        invariant
            i <= messages@.len(),
            findings(out@) == clippy_findings(messages@.take(i as int)),
        decreases messages@.len() - i,
    {
        let ghost before = out@;
        assert(messages@.take(i + 1).drop_last() =~= messages@.take(i as int));
        if let Some(d) = diagnose(&messages[i]) {
            out.push(d);
            assert(findings(out@) =~= findings(before).push(d@));
        }
        i += 1;
    }
    assert(messages@.take(i as int) =~= messages@);
    out
}

/// The lines of the output, each of which holds one message.
pub fn clippy_lines(stdout: &[u8]) -> (r: Vec<String>)
    ensures
        texts(r@) == lines(lossy_text(stdout@)),
{
    let text = decode_lossy(stdout);
    let chars = chars_of(text.as_str());
    let all = lines_of(chars.as_slice());
    let ghost views = pieces(all@);
    let mut out: Vec<String> = Vec::new();
    let mut i: usize = 0;
    while i < all.len()
        invariant
            i <= all@.len(),
            views == pieces(all@),
            texts(out@) == views.take(i as int),
        decreases all@.len() - i,
    {
        let ghost before = out@;
        out.push(string_of(all[i].as_slice()));
        proof {
            assert(texts(out@) =~= texts(before).push(views[i as int]));
            assert(views.take(i + 1) =~= views.take(i as int).push(views[i as int]));
        }
        i += 1;
    }
    assert(views.take(i as int) =~= views);
    out
}

/// Runs `cargo clippy` on the whole workspace, whatever files changed.
#[derive(Debug)]
pub struct CargoAdapter {
    pub invocation: Vec<String>,
    pub timeout: Span,
}

impl CargoAdapter {
    /// Uses the resolved `cargo`.
    pub fn new(resolved: &ResolvedTool, timeout: Span) -> (r: CargoAdapter)
        ensures
            r.invocation@ == resolved.invocation@,
            r.timeout == timeout,
    {
        CargoAdapter { invocation: copy_strings(&resolved.invocation), timeout }
    }
}

impl Hook for CargoAdapter {
    open spec fn label(&self) -> Seq<char> {
        "clippy"@
    }

    open spec fn probed(&self, files: Seq<FilePath>) -> Seq<Seq<char>> {
        Seq::empty()
    }

    open spec fn planned(&self, files: Seq<FilePath>, exist: Seq<bool>) -> PlanView {
        run_plan(
            "cargo"@,
            texts(self.invocation@),
            seq![
                "clippy"@,
                "--workspace"@,
                "--message-format=json"@,
                "--"@,
                "-D"@,
                "warnings"@,
            ],
            Seq::empty(),
            None,
            self.timeout,
        )
    }

    /// The exit code only tells whether there were findings.
    open spec fn judged(&self, output: ToolOutput) -> VerdictView {
        if output.exit is None {
            VerdictView::Failed("cargo clippy"@ + " was killed by a signal"@)
        } else {
            VerdictView::CargoJson(lines(lossy_text(output.stdout@)))
        }
    }

    fn name(&self) -> (r: &'static str) {
        "clippy"
    }

    fn probes(&self, files: &Vec<FilePath>) -> (r: Vec<FilePath>) {
        let out: Vec<FilePath> = Vec::new();
        assert(path_texts(out@) =~= Seq::empty());
        out
    }

    fn plan(&self, files: &Vec<FilePath>, exist: &Vec<bool>) -> (r: Plan) {
        let fixed = vec![
            "clippy".to_owned(),
            "--workspace".to_owned(),
            "--message-format=json".to_owned(),
            "--".to_owned(),
            "-D".to_owned(),
            "warnings".to_owned(),
        ];
        assert(texts(fixed@) =~= seq![
            "clippy"@,
            "--workspace"@,
            "--message-format=json"@,
            "--"@,
            "-D"@,
            "warnings"@,
        ]);
        let none: Vec<FilePath> = Vec::new();
        assert(path_texts(none@) =~= Seq::empty());
        plan_run("cargo", &self.invocation, fixed, &none, None, self.timeout)
    }

    fn judge(&self, output: &ToolOutput) -> (r: Verdict) {
        if output.exit.is_none() {
            return Verdict::Failed(killed("cargo clippy"));
        }
        Verdict::CargoJson(clippy_lines(output.stdout.as_slice()))
    }
}

// ---------------------------------------------------------------------------
// Laws
// ---------------------------------------------------------------------------

/// The first primary span is before all others.
proof fn lemma_first_primary(spans: Seq<CompilerSpan>)
    ensures
        first_primary(spans) <= spans.len(),
        forall|i: int| 0 <= i < first_primary(spans) ==> !(#[trigger] spans[i]).is_primary,
        first_primary(spans) < spans.len() ==> spans[first_primary(spans) as int].is_primary,
    decreases spans.len(),
{
    if spans.len() > 0 && !spans[0].is_primary {
        let rest = spans.drop_first();
        lemma_first_primary(rest);
        assert forall|i: int| 0 <= i < first_primary(spans) implies !(#[trigger] spans[i]).is_primary by {
            if i > 0 {
                assert(spans[i] == rest[i - 1]);
            }
        }
        if first_primary(rest) < rest.len() {
            assert(rest[first_primary(rest) as int] == spans[first_primary(rest) as int + 1]);
        }
    }
}

/// A message is located by its first primary span; without a primary one by its
/// first span.
pub proof fn law_primary_span_locates(spans: Seq<CompilerSpan>, i: int)
    requires
        0 <= i < spans.len(),
        spans[i].is_primary || (i == 0 && forall|j: int|
            0 <= j < spans.len() ==> !(#[trigger] spans[j]).is_primary),
        forall|j: int| 0 <= j < i ==> !(#[trigger] spans[j]).is_primary,
    ensures
        main_span(spans) == Some(spans[i]),
        main_span(Seq::empty()) is None,
{
    lemma_first_primary(spans);
}

/// A located error or warning of the compiler is a diagnostic that says what the
/// message says; no other message is one.
pub proof fn law_compiler_messages_are_diagnostics(m: CargoMessage, cm: CompilerMessage)
    requires
        m.message == Some(cm),
    ensures
        clippy_finding(None) is None,
        clippy_finding(Some(CargoMessage { message: None, ..m })) is None,
        (clippy_finding(Some(m)) is Some) == (m.reason@ == "compiler-message"@ && cm.spans@.len() > 0
            && (cm.level@ == "error"@ || cm.level@ == "warning"@)),
        clippy_finding(Some(m)) matches Some(d) ==> {
            &&& d.tool == "clippy"@
            &&& d.severity == if cm.level@ == "error"@ {
                Severity::Error
            } else {
                Severity::Warning
            }
            &&& d.message == cm.message@
            &&& (d.code is Some) == (cm.code is Some)
            &&& cm.code is Some ==> d.code->0 == cm.code->0@
            &&& main_span(cm.spans@) matches Some(span) && d.file == span.file_name@ && d.line
                == span.line_start && d.col == span.column_start
        },
{
    lemma_first_primary(cm.spans@);
}

/// The test for lines that are diagnostics.
pub open spec fn is_clippy_finding() -> spec_fn(Option<CargoMessage>) -> bool {
    |m: Option<CargoMessage>| clippy_finding(m) is Some
}

/// No diagnostic among the lines is left out, none is made up, and they stay in
/// order.
pub proof fn law_every_message_is_read(messages: Seq<Option<CargoMessage>>)
    ensures
        clippy_findings(messages) == messages.filter(is_clippy_finding()).map_values(
            |m: Option<CargoMessage>| clippy_finding(m)->0,
        ),
    decreases messages.len(),
{
    let p = is_clippy_finding();
    let f = |m: Option<CargoMessage>| clippy_finding(m)->0;
    if messages.len() == 0 {
        crate::sorting::lemma_choose_none(messages, p, f);
    } else {
        law_every_message_is_read(messages.drop_last());
        crate::sorting::lemma_choose_push(messages.drop_last(), messages.last(), p, f);
        assert(messages.drop_last().push(messages.last()) =~= messages);
    }
}

/// `cargo clippy` has done its work unless a signal ended it, and then all that it
/// printed is read.
pub proof fn law_clippy_is_judged_by_its_exit(hook: CargoAdapter, output: ToolOutput)
    ensures
        output.exit is None ==> hook.judged(output) == VerdictView::Failed(
            "cargo clippy"@ + " was killed by a signal"@,
        ),
        output.exit is Some ==> (hook.judged(output) matches VerdictView::CargoJson(l) && l == lines(
            lossy_text(output.stdout@),
        )),
{
}

/// `cargo clippy` is run with its fixed arguments and then no file: it checks the whole project.
pub proof fn law_clippy_is_given_no_file(hook: CargoAdapter, files: Seq<FilePath>, exist: Seq<bool>)
    requires
        hook.invocation@.len() > 0,
    ensures
        hook.probed(files).len() == 0,
        hook.planned(files, exist) matches PlanView::Run(c) && {
            let n = hook.invocation@.len() - 1;
            &&& c.program == hook.invocation@[0]@
            &&& c.args.len() == n + 6
            &&& forall|i: int| 0 <= i < n ==> #[trigger] c.args[i] == hook.invocation@[i + 1]@
            &&& c.args[n + 0] == "clippy"@
            &&& c.args[n + 1] == "--workspace"@
            &&& c.args[n + 2] == "--message-format=json"@
            &&& c.args[n + 3] == "--"@
            &&& c.args[n + 4] == "-D"@
            &&& c.args[n + 5] == "warnings"@
            &&& c.cwd is None
            &&& c.timeout == hook.timeout
        },
{
    let n = hook.invocation@.len() - 1;
    let given = texts(hook.invocation@);
    assert(given[0] == hook.invocation@[0]@);
    if let PlanView::Run(c) = hook.planned(files, exist) {
        assert forall|i: int| 0 <= i < n implies #[trigger] c.args[i] == hook.invocation@[i + 1]@ by {
            assert(given.skip(1)[i] == given[i + 1]);
        }
    }
}

} // verus!
