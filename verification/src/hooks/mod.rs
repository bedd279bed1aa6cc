//! Quality-gate tools and the diagnostics they produce.

use vstd::prelude::*;
use crate::paths::{
    components, components_before, join, lemma_components_order, lemma_components_transitive, path_texts, FilePath, Rank,
};
use crate::config::{HooksConfig, ToolsConfig};
use crate::resolver::{tool_info, ResolveError, ResolvedTool};
use crate::sorting::Ranked;
use crate::state::{infos, ToolInfo};
use crate::text::{chars_of, copy_option, copy_strings, lossy_text, option_text, texts};
use self::cargo::CargoAdapter;
use self::pytest::PytestAdapter;
use self::ruff::RuffAdapter;
use self::ruff_format::RuffFormatAdapter;
use self::ty::TyAdapter;

pub mod cargo;
pub mod process;
pub mod pytest;
pub mod ruff;
pub mod ruff_format;
pub mod ty;

pub use self::process::{kill_all_active_hooks, register_hook_pid, unregister_hook_pid, HookRegistry};

verus! {

// ---------------------------------------------------------------------------
// Diagnostics
// ---------------------------------------------------------------------------

/// Severity shared by all tools.
#[derive(Debug, Clone, Copy, PartialEq, Eq, Structural)]
pub enum Severity {
    Error,
    Warning,
    Info,
}

/// The text of a severity.
pub open spec fn severity_text(s: Severity) -> Seq<char> {
    match s {
        Severity::Error => "error"@,
        Severity::Warning => "warning"@,
        Severity::Info => "info"@,
    }
}

impl Severity {
    /// The severity in lower case.
    pub fn label(&self) -> (r: &'static str)
        ensures
            r@ == severity_text(*self),
    {
        match self {
            Severity::Error => "error",
            Severity::Warning => "warning",
            Severity::Info => "info",
        }
    }
}

/// A single finding of a tool.
#[derive(Debug)]
pub struct Diagnostic {
    pub tool: String,
    pub file: FilePath,
    pub line: u32,
    pub col: u32,
    pub severity: Severity,
    pub code: Option<String>,
    pub message: String,
}

/// What a diagnostic says.
pub struct DiagnosticView {
    pub tool: Seq<char>,
    pub file: Seq<char>,
    pub line: u32,
    pub col: u32,
    pub severity: Severity,
    pub code: Option<Seq<char>>,
    pub message: Seq<char>,
}

impl View for Diagnostic {
    type V = DiagnosticView;

    open spec fn view(&self) -> DiagnosticView {
        DiagnosticView {
            tool: self.tool@,
            file: self.file@,
            line: self.line,
            col: self.col,
            severity: self.severity,
            code: option_text(self.code),
            message: self.message@,
        }
    }
}

impl Clone for Diagnostic {
    fn clone(&self) -> (r: Diagnostic)
        ensures
            r == *self,
    {
        Diagnostic {
            tool: self.tool.clone(),
            file: self.file.clone(),
            line: self.line,
            col: self.col,
            severity: self.severity,
            code: copy_option(&self.code),
            message: self.message.clone(),
        }
    }
}

/// What each of several diagnostics says.
pub open spec fn findings(v: Seq<Diagnostic>) -> Seq<DiagnosticView> {
    v.map_values(|d: Diagnostic| d@)
}

/// The full path of a file that a tool names in the directory `dir`. Without a
/// name there is no path.
pub open spec fn full_path(file: Seq<char>, dir: Seq<char>) -> Seq<char> {
    if file.len() == 0 {
        file
    } else {
        join(dir, file)
    }
}

/// A diagnostic with the full path of its file.
pub open spec fn placed(d: DiagnosticView, dir: Seq<char>) -> DiagnosticView {
    DiagnosticView { file: full_path(d.file, dir), ..d }
}

/// Diagnostics with the full paths of their files.
pub open spec fn all_placed(v: Seq<DiagnosticView>, dir: Seq<char>) -> Seq<DiagnosticView> {
    v.map_values(|d: DiagnosticView| placed(d, dir))
}

/// Gives diagnostics the full paths of their files. Tools name files relative to
/// the directory they ran in, and one file must not be known under two names.
pub fn place_diagnostics(v: &Vec<Diagnostic>, dir: &FilePath) -> (r: Vec<Diagnostic>)
    ensures
        findings(r@) == all_placed(findings(v@), dir@),
        r@.len() == v@.len(),
        forall|i: int|
            0 <= i < v@.len() ==> {
                &&& (#[trigger] r@[i]).tool@ == v@[i].tool@
                &&& r@[i].line == v@[i].line
                &&& r@[i].col == v@[i].col
                &&& r@[i].severity == v@[i].severity
                &&& option_text(r@[i].code) == option_text(v@[i].code)
                &&& r@[i].message@ == v@[i].message@
                &&& r@[i].file@ == if v@[i].file@.len() == 0 {
                    v@[i].file@
                } else {
                    join(dir@, v@[i].file@)
                }
            },
{
    let ghost goal = all_placed(findings(v@), dir@);
    let mut out: Vec<Diagnostic> = Vec::new();
    let mut i: usize = 0;
    while i < v.len()
        invariant
            i <= v@.len(),
            goal == all_placed(findings(v@), dir@),
            findings(out@) == goal.take(i as int),
        decreases v@.len() - i,
    {
        let mut d = v[i].clone();
        let named = chars_of(d.file.as_str()).len() > 0;
        if named {
            d.file = dir.join(d.file.as_str());
        }
        let ghost before = out@;
        out.push(d);
        proof {
            assert(d@ == goal[i as int]);
            assert(findings(out@) =~= findings(before).push(d@));
            assert(goal.take(i + 1) =~= goal.take(i as int).push(goal[i as int]));
        }
        i += 1;
    }
    assert(goal.take(i as int) =~= goal);
    proof {
        assert(findings(out@).len() == out@.len());
        assert forall|k: int| 0 <= k < v@.len() implies (#[trigger] out@[k])@ == placed(
            v@[k]@,
            dir@,
        ) by {
            assert(findings(out@)[k] == goal[k]);
        }
        assert forall|k: int| 0 <= k < v@.len() implies {
            &&& (#[trigger] out@[k]).tool@ == v@[k].tool@
            &&& out@[k].line == v@[k].line
            &&& out@[k].col == v@[k].col
            &&& out@[k].severity == v@[k].severity
            &&& option_text(out@[k].code) == option_text(v@[k].code)
            &&& out@[k].message@ == v@[k].message@
            &&& out@[k].file@ == if v@[k].file@.len() == 0 {
                v@[k].file@
            } else {
                join(dir@, v@[k].file@)
            }
        } by {
            assert(out@[k]@ == placed(v@[k]@, dir@));
        }
    }
    out
}

/// The key that diagnostics are published by: file, line and column.
pub struct Place {
    pub file: Seq<Seq<char>>,
    pub line: u32,
    pub col: u32,
}

/// The order of places: by file, within a file by line, within a line by column.
pub open spec fn place_before(a: Place, b: Place) -> bool {
    if a.file != b.file {
        components_before(a.file, b.file)
    } else if a.line != b.line {
        a.line < b.line
    } else {
        a.col < b.col
    }
}

impl Ranked for Diagnostic {
    type Key = Place;

    open spec fn key(&self) -> Place {
        Place { file: components(self.file@), line: self.line, col: self.col }
    }

    open spec fn before(a: Place, b: Place) -> bool {
        place_before(a, b)
    }

    proof fn order(a: Place, b: Place) {
        lemma_components_order(a.file, b.file);
    }

    proof fn transitive(a: Place, b: Place, c: Place) {
        lemma_components_order(a.file, b.file);
        lemma_components_order(b.file, c.file);
        lemma_components_order(a.file, c.file);
        if a.file != b.file && b.file != c.file {
            lemma_components_transitive(a.file, b.file, c.file);
        }
    }

    fn is_before(&self, other: &Diagnostic) -> (r: bool) {
        let rank = self.file.rank(&other.file);
        proof {
            lemma_components_order(components(self.file@), components(other.file@));
        }
        match rank {
            Rank::Before => true,
            Rank::After => false,
            Rank::Same => if self.line != other.line {
                self.line < other.line
            } else {
                self.col < other.col
            },
        }
    }
}

// ---------------------------------------------------------------------------
// Running a tool
// ---------------------------------------------------------------------------

/// A span of time.
#[derive(Debug, Clone, Copy, PartialEq, Eq, Structural)]
pub struct Span {
    pub secs: u64,
    pub nanos: u32,
}

/// Whether `a` is at least as long as `b`.
pub open spec fn at_least(a: Span, b: Span) -> bool {
    a.secs > b.secs || (a.secs == b.secs && a.nanos >= b.nanos)
}

impl Span {
    /// A span of whole seconds.
    pub fn from_secs(secs: u64) -> (r: Span)
        ensures
            r == (Span { secs, nanos: 0 }),
    {
        Span { secs, nanos: 0 }
    }

    /// Whether this span is at least as long as `other`.
    pub fn reaches(&self, other: Span) -> (r: bool)
        ensures
            r == at_least(*self, other),
    {
        self.secs > other.secs || (self.secs == other.secs && self.nanos >= other.nanos)
    }
}

/// Seconds that a tool may run where nothing else is configured.
pub const DEFAULT_HOOK_TIMEOUT: u64 = 120;

/// Milliseconds between two looks at a running tool.
pub const POLL_INTERVAL_MS: u64 = 50;

/// The reason for which a tool did not do its work.
#[derive(Debug)]
pub struct HookError {
    pub message: String,
}

impl View for HookError {
    type V = Seq<char>;

    open spec fn view(&self) -> Seq<char> {
        self.message@
    }
}

/// A process to start.
#[derive(Debug)]
pub struct CommandSpec {
    pub program: String,
    pub args: Vec<String>,
    /// Where it runs; the daemon's own directory where absent.
    pub cwd: Option<FilePath>,
    pub timeout: Span,
}

/// What a command says.
pub struct CommandView {
    pub program: Seq<char>,
    pub args: Seq<Seq<char>>,
    pub cwd: Option<Seq<char>>,
    pub timeout: Span,
}

impl View for CommandSpec {
    type V = CommandView;

    open spec fn view(&self) -> CommandView {
        CommandView {
            program: self.program@,
            args: texts(self.args@),
            cwd: match self.cwd {
                Some(d) => Some(d@),
                None => None,
            },
            timeout: self.timeout,
        }
    }
}

/// What a finished process left behind. A process that a signal ended has no
/// exit code; `status` is the system's wording of how it ended.
#[derive(Debug)]
pub struct ToolOutput {
    pub exit: Option<i32>,
    pub status: String,
    pub stdout: Vec<u8>,
    pub stderr: Vec<u8>,
}

/// What a tool needs before it can judge files.
#[derive(Debug)]
pub enum Plan {
    /// There is nothing for the tool to do.
    Skip,
    /// A process has to run.
    Run(CommandSpec),
    /// The tool cannot run.
    Fail(HookError),
}

/// What a plan says.
pub enum PlanView {
    Skip,
    Run(CommandView),
    Fail(Seq<char>),
}

impl View for Plan {
    type V = PlanView;

    open spec fn view(&self) -> PlanView {
        match *self {
            Plan::Skip => PlanView::Skip,
            Plan::Run(c) => PlanView::Run(c@),
            Plan::Fail(e) => PlanView::Fail(e@),
        }
    }
}

/// What the output of a tool amounts to.
#[derive(Debug)]
pub enum Verdict {
    /// The findings.
    Diagnostics(Vec<Diagnostic>),
    /// A JSON array of `ruff` entries, still to be decoded.
    RuffJson(Vec<u8>),
    /// Lines of JSON messages of `cargo`, still to be decoded.
    CargoJson(Vec<String>),
    /// The tool did not do its work.
    Failed(HookError),
}

/// What a verdict says.
pub enum VerdictView {
    Diagnostics(Seq<DiagnosticView>),
    RuffJson(Seq<u8>),
    CargoJson(Seq<Seq<char>>),
    Failed(Seq<char>),
}

impl View for Verdict {
    type V = VerdictView;

    open spec fn view(&self) -> VerdictView {
        match *self {
            Verdict::Diagnostics(d) => VerdictView::Diagnostics(findings(d@)),
            Verdict::RuffJson(b) => VerdictView::RuffJson(b@),
            Verdict::CargoJson(l) => VerdictView::CargoJson(texts(l@)),
            Verdict::Failed(e) => VerdictView::Failed(e@),
        }
    }
}

/// A tool that judges files. Running it takes three steps: find out which paths
/// exist, run the planned process, and judge what it printed.
pub trait Hook {
    /// The tool's name.
    spec fn label(&self) -> Seq<char>;

    /// The paths whose existence the plan depends on.
    spec fn probed(&self, files: Seq<FilePath>) -> Seq<Seq<char>>;

    /// The plan for some files, given which of the probed paths exist.
    spec fn planned(&self, files: Seq<FilePath>, exist: Seq<bool>) -> PlanView;

    /// What an output means.
    spec fn judged(&self, output: ToolOutput) -> VerdictView;

    /// The tool's name.
    fn name(&self) -> (r: &'static str)
        ensures
            r@ == self.label(),
    ;

    /// The paths whose existence the plan depends on, relative to the project.
    fn probes(&self, files: &Vec<FilePath>) -> (r: Vec<FilePath>)
        ensures
            path_texts(r@) == self.probed(files@),
    ;

    /// Decides what to run for `files`.
    fn plan(&self, files: &Vec<FilePath>, exist: &Vec<bool>) -> (r: Plan)
        requires
            exist@.len() == self.probed(files@).len(),
        ensures
            r@ == self.planned(files@, exist@),
    ;

    /// Judges the output of the planned process.
    fn judge(&self, output: &ToolOutput) -> (r: Verdict)
        ensures
            r@ == self.judged(*output),
    ;
}

/// The plan that runs `invocation` with some fixed arguments and the paths
/// behind them. An empty invocation names no program.
pub open spec fn run_plan(
    tool: Seq<char>,
    invocation: Seq<Seq<char>>,
    fixed: Seq<Seq<char>>,
    files: Seq<Seq<char>>,
    cwd: Option<Seq<char>>,
    timeout: Span,
) -> PlanView {
    if invocation.len() == 0 {
        PlanView::Fail(tool + " invocation vector is empty"@)
    } else {
        PlanView::Run(
            CommandView {
                program: invocation[0],
                args: invocation.skip(1) + fixed + files,
                cwd,
                timeout,
            },
        )
    }
}

/// Plans a run of `invocation`.
fn plan_run(
    tool: &str,
    invocation: &Vec<String>,
    fixed: Vec<String>,
    files: &Vec<FilePath>,
    cwd: Option<FilePath>,
    timeout: Span,
) -> (r: Plan)
    ensures
        r@ == run_plan(
            tool@,
            texts(invocation@),
            texts(fixed@),
            path_texts(files@),
            match cwd {
                Some(d) => Some(d@),
                None => None,
            },
            timeout,
        ),
{
    if invocation.len() == 0 {
        let mut message = tool.to_owned();
        message.append(" invocation vector is empty");
        return Plan::Fail(HookError { message });
    }
    let ghost words = texts(invocation@);
    let ghost paths = path_texts(files@);
    let mut args: Vec<String> = Vec::new();
    let mut i: usize = 1;
    assert(texts(args@) =~= words.subrange(1, 1));
    while i < invocation.len()
        invariant
            1 <= i <= invocation@.len(),
            words == texts(invocation@),
            texts(args@) == words.subrange(1, i as int),
        decreases invocation@.len() - i,
    {
        let ghost before = args@;
        args.push(invocation[i].clone());
        proof {
            assert(texts(args@) =~= texts(before).push(words[i as int]));
            assert(words.subrange(1, i + 1) =~= words.subrange(1, i as int).push(words[i as int]));
        }
        i += 1;
    }
    assert(words.subrange(1, i as int) =~= words.skip(1));
    let ghost head = texts(args@);
    let ghost fixed_words = texts(fixed@);
    let mut j: usize = 0;
    assert(head + fixed_words.take(0) =~= head);
    while j < fixed.len()
        invariant
            j <= fixed@.len(),
            fixed_words == texts(fixed@),
            texts(args@) == head + fixed_words.take(j as int),
        decreases fixed@.len() - j,
    {
        let ghost before = args@;
        args.push(fixed[j].clone());
        proof {
            assert(texts(args@) =~= texts(before).push(fixed_words[j as int]));
            assert(head + fixed_words.take(j + 1) =~= (head + fixed_words.take(j as int)).push(
                fixed_words[j as int],
            ));
        }
        j += 1;
    }
    assert(fixed_words.take(j as int) =~= fixed_words);
    let ghost middle = texts(args@);
    let mut k: usize = 0;
    assert(middle + paths.take(0) =~= middle);
    while k < files.len()
        invariant
            k <= files@.len(),
            paths == path_texts(files@),
            texts(args@) == middle + paths.take(k as int),
        decreases files@.len() - k,
    {
        let ghost before = args@;
        args.push(files[k].as_str().to_owned());
        proof {
            assert(texts(args@) =~= texts(before).push(paths[k as int]));
            assert(middle + paths.take(k + 1) =~= (middle + paths.take(k as int)).push(
                paths[k as int],
            ));
        }
        k += 1;
    }
    assert(paths.take(k as int) =~= paths);
    Plan::Run(CommandSpec { program: invocation[0].clone(), args, cwd, timeout })
}

/// The failure of a tool that reports no findings but an exit status.
pub open spec fn exit_failure(what: Seq<char>, output: ToolOutput) -> Seq<char> {
    what + " failed (exit "@ + output.status@ + "): "@ + lossy_text(output.stderr@)
}

/// Words the failure of a tool by its exit status.
fn failed(what: &str, output: &ToolOutput) -> (r: HookError)
    ensures
        r@ == exit_failure(what@, *output),
{
    let mut message = what.to_owned();
    message.append(" failed (exit ");
    message.append(output.status.as_str());
    message.append("): ");
    let stderr = crate::text::decode_lossy(output.stderr.as_slice());
    message.append(stderr.as_str());
    HookError { message }
}

/// Words the failure of a tool that a signal ended.
fn killed(what: &str) -> (r: HookError)
    ensures
        r@ == what@ + " was killed by a signal"@,
{
    let mut message = what.to_owned();
    message.append(" was killed by a signal");
    HookError { message }
}

// ---------------------------------------------------------------------------
// Mounting the configured tools
// ---------------------------------------------------------------------------

/// A tool that has been mounted.
#[derive(Debug)]
pub enum MountedHook {
    Ruff(RuffAdapter),
    RuffFormat(RuffFormatAdapter),
    Ty(TyAdapter),
    Pytest(PytestAdapter),
    Clippy(CargoAdapter),
}

/// How a tool was mounted.
pub struct MountedView {
    pub name: Seq<char>,
    pub invocation: Seq<Seq<char>>,
    pub timeout: Span,
    /// Only `pytest` has a root and patterns.
    pub root: Option<Seq<char>>,
    pub patterns: Seq<Seq<char>>,
}

impl View for MountedHook {
    type V = MountedView;

    open spec fn view(&self) -> MountedView {
        match *self {
            MountedHook::Ruff(h) => plain_mount("ruff"@, texts(h.invocation@), h.timeout),
            MountedHook::RuffFormat(h) => plain_mount(
                "ruff_format"@,
                texts(h.invocation@),
                h.timeout,
            ),
            MountedHook::Ty(h) => plain_mount("ty"@, texts(h.invocation@), h.timeout),
            MountedHook::Pytest(h) => MountedView {
                name: "pytest"@,
                invocation: texts(h.invocation@),
                timeout: h.timeout,
                root: Some(h.project_root@),
                patterns: texts(h.test_patterns@),
            },
            MountedHook::Clippy(h) => plain_mount("clippy"@, texts(h.invocation@), h.timeout),
        }
    }
}

/// A mount without root and patterns.
pub open spec fn plain_mount(
    name: Seq<char>,
    invocation: Seq<Seq<char>>,
    timeout: Span,
) -> MountedView {
    MountedView { name, invocation, timeout, root: None, patterns: Seq::empty() }
}

impl Hook for MountedHook {
    open spec fn label(&self) -> Seq<char> {
        match *self {
            MountedHook::Ruff(h) => h.label(),
            MountedHook::RuffFormat(h) => h.label(),
            MountedHook::Ty(h) => h.label(),
            MountedHook::Pytest(h) => h.label(),
            MountedHook::Clippy(h) => h.label(),
        }
    }

    open spec fn probed(&self, files: Seq<FilePath>) -> Seq<Seq<char>> {
        match *self {
            MountedHook::Ruff(h) => h.probed(files),
            MountedHook::RuffFormat(h) => h.probed(files),
            MountedHook::Ty(h) => h.probed(files),
            MountedHook::Pytest(h) => h.probed(files),
            MountedHook::Clippy(h) => h.probed(files),
        }
    }

    open spec fn planned(&self, files: Seq<FilePath>, exist: Seq<bool>) -> PlanView {
        match *self {
            MountedHook::Ruff(h) => h.planned(files, exist),
            MountedHook::RuffFormat(h) => h.planned(files, exist),
            MountedHook::Ty(h) => h.planned(files, exist),
            MountedHook::Pytest(h) => h.planned(files, exist),
            MountedHook::Clippy(h) => h.planned(files, exist),
        }
    }

    open spec fn judged(&self, output: ToolOutput) -> VerdictView {
        match *self {
            MountedHook::Ruff(h) => h.judged(output),
            MountedHook::RuffFormat(h) => h.judged(output),
            MountedHook::Ty(h) => h.judged(output),
            MountedHook::Pytest(h) => h.judged(output),
            MountedHook::Clippy(h) => h.judged(output),
        }
    }

    fn name(&self) -> (r: &'static str) {
        match self {
            MountedHook::Ruff(h) => h.name(),
            MountedHook::RuffFormat(h) => h.name(),
            MountedHook::Ty(h) => h.name(),
            MountedHook::Pytest(h) => h.name(),
            MountedHook::Clippy(h) => h.name(),
        }
    }

    fn probes(&self, files: &Vec<FilePath>) -> (r: Vec<FilePath>) {
        match self {
            MountedHook::Ruff(h) => h.probes(files),
            MountedHook::RuffFormat(h) => h.probes(files),
            MountedHook::Ty(h) => h.probes(files),
            MountedHook::Pytest(h) => h.probes(files),
            MountedHook::Clippy(h) => h.probes(files),
        }
    }

    fn plan(&self, files: &Vec<FilePath>, exist: &Vec<bool>) -> (r: Plan) {
        match self {
            MountedHook::Ruff(h) => h.plan(files, exist),
            MountedHook::RuffFormat(h) => h.plan(files, exist),
            MountedHook::Ty(h) => h.plan(files, exist),
            MountedHook::Pytest(h) => h.plan(files, exist),
            MountedHook::Clippy(h) => h.plan(files, exist),
        }
    }

    fn judge(&self, output: &ToolOutput) -> (r: Verdict) {
        match self {
            MountedHook::Ruff(h) => h.judge(output),
            MountedHook::RuffFormat(h) => h.judge(output),
            MountedHook::Ty(h) => h.judge(output),
            MountedHook::Pytest(h) => h.judge(output),
            MountedHook::Clippy(h) => h.judge(output),
        }
    }
}

/// How each of several tools was mounted.
pub open spec fn mounts(v: Seq<MountedHook>) -> Seq<MountedView> {
    v.map_values(|h: MountedHook| h@)
}

/// A tool to resolve, and the version it is pinned to.
pub struct ToolRequest {
    pub name: &'static str,
    pub pin: Option<String>,
}

/// What a request asks for.
pub open spec fn request(r: ToolRequest) -> (Seq<char>, Option<Seq<char>>) {
    (r.name@, option_text(r.pin))
}

/// What each of several requests asks for.
pub open spec fn requests(v: Seq<ToolRequest>) -> Seq<(Seq<char>, Option<Seq<char>>)> {
    v.map_values(|r: ToolRequest| request(r))
}

/// Whether the `ruff` binary is needed. `ruff` and `ruff_format` share it.
pub open spec fn wants_ruff(hooks: HooksConfig) -> bool {
    hooks.ruff || hooks.ruff_format
}

/// `x` alone where `wanted` holds, else nothing.
pub open spec fn when<A>(wanted: bool, x: A) -> Seq<A> {
    if wanted {
        seq![x]
    } else {
        Seq::empty()
    }
}

/// The tools to resolve for a configuration: one for each binary that an enabled
/// tool needs. `cargo` has no pin.
pub open spec fn wanted(hooks: HooksConfig, tools: ToolsConfig) -> Seq<
    (Seq<char>, Option<Seq<char>>),
> {
    when(wants_ruff(hooks), ("ruff"@, option_text(tools.ruff))) + when(
        hooks.ty,
        ("ty"@, option_text(tools.ty)),
    ) + when(hooks.pytest, ("pytest"@, option_text(tools.pytest))) + when(
        hooks.clippy,
        ("cargo"@, None),
    )
}

/// The index of each binary among the resolved tools.
pub open spec fn ty_index(hooks: HooksConfig) -> int {
    if wants_ruff(hooks) {
        1
    } else {
        0
    }
}

pub open spec fn pytest_index(hooks: HooksConfig) -> int {
    ty_index(hooks) + if hooks.ty {
        1int
    } else {
        0
    }
}

pub open spec fn cargo_index(hooks: HooksConfig) -> int {
    pytest_index(hooks) + if hooks.pytest {
        1int
    } else {
        0
    }
}

/// How the enabled tools are mounted on the resolved binaries.
pub open spec fn mounted(
    hooks: HooksConfig,
    root: Seq<char>,
    timeout: Span,
    resolved: Seq<ResolvedTool>,
) -> Seq<MountedView> {
    when(hooks.ruff, plain_mount("ruff"@, texts(resolved[0].invocation@), timeout)) + when(
        hooks.ruff_format,
        plain_mount("ruff_format"@, texts(resolved[0].invocation@), timeout),
    ) + when(
        hooks.ty,
        plain_mount("ty"@, texts(resolved[ty_index(hooks)].invocation@), timeout),
    ) + when(
        hooks.pytest,
        MountedView {
            name: "pytest"@,
            invocation: texts(resolved[pytest_index(hooks)].invocation@),
            timeout,
            root: Some(root),
            patterns: texts(hooks.pytest_test_patterns@),
        },
    ) + when(
        hooks.clippy,
        plain_mount("clippy"@, texts(resolved[cargo_index(hooks)].invocation@), timeout),
    )
}

/// What is published of several resolved tools.
pub open spec fn published(resolved: Seq<ResolvedTool>) -> Seq<crate::state::ToolInfoView> {
    resolved.map_values(|t: ResolvedTool| tool_info(t))
}

/// Lists the tools to resolve for a configuration.
pub fn wanted_tools(hooks_cfg: &HooksConfig, tools_cfg: &ToolsConfig) -> (r: Vec<ToolRequest>)
    ensures
        requests(r@) == wanted(*hooks_cfg, *tools_cfg),
{
    let mut out: Vec<ToolRequest> = Vec::new();
    if hooks_cfg.ruff || hooks_cfg.ruff_format {
        out.push(ToolRequest { name: "ruff", pin: copy_option(&tools_cfg.ruff) });
    }
    if hooks_cfg.ty {
        out.push(ToolRequest { name: "ty", pin: copy_option(&tools_cfg.ty) });
    }
    if hooks_cfg.pytest {
        out.push(ToolRequest { name: "pytest", pin: copy_option(&tools_cfg.pytest) });
    }
    if hooks_cfg.clippy {
        out.push(ToolRequest { name: "cargo", pin: None });
    }
    assert(requests(out@) =~= wanted(*hooks_cfg, *tools_cfg));
    out
}

/// The active tools, and what is published of their binaries.
pub type BuiltHooks = (Vec<MountedHook>, Vec<ToolInfo>);

/// Mounts the enabled tools on the binaries that were resolved for them.
pub fn mount_hooks(
    hooks_cfg: &HooksConfig,
    tools_cfg: &ToolsConfig,
    project_root: &FilePath,
    hook_timeout: Span,
    resolved: &Vec<ResolvedTool>,
) -> (r: BuiltHooks)
    requires
        resolved@.len() == wanted(*hooks_cfg, *tools_cfg).len(),
    ensures
        mounts(r.0@) == mounted(*hooks_cfg, project_root@, hook_timeout, resolved@),
        infos(r.1@) == published(resolved@),
{
    let mut hooks: Vec<MountedHook> = Vec::new();
    let mut next: usize = 0;
    if hooks_cfg.ruff || hooks_cfg.ruff_format {
        if hooks_cfg.ruff {
            hooks.push(MountedHook::Ruff(RuffAdapter::new(&resolved[next], hook_timeout)));
        }
        if hooks_cfg.ruff_format {
            hooks.push(
                MountedHook::RuffFormat(RuffFormatAdapter::new(&resolved[next], hook_timeout)),
            );
        }
        next += 1;
    }
    if hooks_cfg.ty {
        hooks.push(MountedHook::Ty(TyAdapter::new(&resolved[next], hook_timeout)));
        next += 1;
    }
    if hooks_cfg.pytest {
        hooks.push(
            MountedHook::Pytest(
                PytestAdapter::new(
                    &resolved[next],
                    project_root.clone(),
                    hook_timeout,
                    copy_strings(&hooks_cfg.pytest_test_patterns),
                ),
            ),
        );
        next += 1;
    }
    if hooks_cfg.clippy {
        hooks.push(MountedHook::Clippy(CargoAdapter::new(&resolved[next], hook_timeout)));
    }
    assert(mounts(hooks@) =~= mounted(*hooks_cfg, project_root@, hook_timeout, resolved@));
    let mut out: Vec<ToolInfo> = Vec::new();
    let mut i: usize = 0;
    while i < resolved.len()
        invariant
            i <= resolved@.len(),
            infos(out@) == published(resolved@.take(i as int)),
        decreases resolved@.len() - i,
    {
        let ghost before = out@;
        out.push(resolved[i].to_tool_info());
        proof {
            assert(infos(out@) =~= infos(before).push(tool_info(resolved@[i as int])));
            assert(published(resolved@.take(i + 1)) =~= published(resolved@.take(i as int)).push(
                tool_info(resolved@[i as int]),
            ));
        }
        i += 1;
    }
    assert(resolved@.take(i as int) =~= resolved@);
    (hooks, out)
}

/// Whether `answer` may be what `resolve` says to a request.
pub open spec fn answered<F: Fn(&'static str, Option<&str>) -> Result<ResolvedTool, ResolveError>>(
    resolve: F,
    wish: (Seq<char>, Option<Seq<char>>),
    answer: Result<ResolvedTool, ResolveError>,
) -> bool {
    exists|n: &'static str, p: Option<&str>|
        #![trigger call_ensures(resolve, (n, p), answer)]
        n@ == wish.0 && (match p {
            Some(t) => Some(t@),
            None => None,
        }) == wish.1 && call_ensures(resolve, (n, p), answer)
}

/// Builds the list of active tools and what is published of them. Each needed
/// binary is resolved once, in order; the first one that cannot be resolved
/// aborts.
pub fn build_hook_list<F: Fn(&'static str, Option<&str>) -> Result<ResolvedTool, ResolveError>>(
    hooks_cfg: &HooksConfig,
    tools_cfg: &ToolsConfig,
    project_root: &FilePath,
    hook_timeout: Span,
    resolve: F,
) -> (r: Result<BuiltHooks, ResolveError>)
    requires
        forall|n: &'static str, p: Option<&str>| #[trigger] call_requires(resolve, (n, p)),
    ensures
        ({
            let wishes = wanted(*hooks_cfg, *tools_cfg);
            match r {
                Ok((hooks, tool_infos)) => exists|resolved: Seq<ResolvedTool>|
                    #![trigger published(resolved)]
                    {
                        &&& resolved.len() == wishes.len()
                        &&& forall|i: int|
                            0 <= i < wishes.len() ==> #[trigger] answered(
                                resolve,
                                wishes[i],
                                Ok(resolved[i]),
                            )
                        &&& mounts(hooks@) == mounted(
                            *hooks_cfg,
                            project_root@,
                            hook_timeout,
                            resolved,
                        )
                        &&& infos(tool_infos@) == published(resolved)
                    },
                Err(e) => exists|resolved: Seq<ResolvedTool>|
                    #![trigger published(resolved)]
                    {
                        &&& resolved.len() < wishes.len()
                        &&& forall|i: int|
                            0 <= i < resolved.len() ==> #[trigger] answered(
                                resolve,
                                wishes[i],
                                Ok(resolved[i]),
                            )
                        &&& answered(resolve, wishes[resolved.len() as int], Err(e))
                    },
            }
        }),
{
    let wishes = wanted_tools(hooks_cfg, tools_cfg);
    let ghost asked = wanted(*hooks_cfg, *tools_cfg);
    let mut resolved: Vec<ResolvedTool> = Vec::new();
    let mut i: usize = 0;
    while i < wishes.len()
        invariant
            i <= wishes@.len(),
            resolved@.len() == i,
            asked == requests(wishes@),
            asked == wanted(*hooks_cfg, *tools_cfg),
            forall|n: &'static str, p: Option<&str>| #[trigger] call_requires(resolve, (n, p)),
            forall|j: int|
                0 <= j < i ==> #[trigger] answered(resolve, asked[j], Ok(resolved@[j])),
        decreases wishes@.len() - i,
    {
        let pin: Option<&str> = match &wishes[i].pin {
            Some(p) => Some(p.as_str()),
            None => None,
        };
        let name = wishes[i].name;
        let answer = resolve(name, pin);
        assert(asked[i as int] == request(wishes@[i as int]));
        assert(answered(resolve, asked[i as int], answer));
        match answer {
            Ok(tool) => {
                let ghost before = resolved@;
                resolved.push(tool);
                proof {
                    assert forall|j: int| 0 <= j < i + 1 implies #[trigger] answered(
                        resolve,
                        asked[j],
                        Ok(resolved@[j]),
                    ) by {
                        if j < i {
                            assert(answered(resolve, asked[j], Ok(before[j])));
                        }
                    }
                }
            },
            Err(e) => {
                assert(published(resolved@).len() == i);
                return Err(e);
            },
        }
        i += 1;
    }
    assert(published(resolved@).len() == i);
    Ok(mount_hooks(hooks_cfg, tools_cfg, project_root, hook_timeout, &resolved))
}

// ---------------------------------------------------------------------------
// Laws
// ---------------------------------------------------------------------------

/// No binary is resolved twice: `ruff` and `ruff_format` share one resolution.
pub proof fn law_each_binary_is_resolved_once(hooks: HooksConfig, tools: ToolsConfig)
    ensures
        forall|i: int, j: int|
            0 <= i < j < wanted(hooks, tools).len() ==> wanted(hooks, tools)[i].0 != wanted(
                hooks,
                tools,
            )[j].0,
{
    reveal_strlit("ruff");
    reveal_strlit("ty");
    reveal_strlit("pytest");
    reveal_strlit("cargo");
    assert("ruff"@.len() == 4 && "ty"@.len() == 2 && "pytest"@.len() == 6 && "cargo"@.len() == 5);
}

/// A tool is mounted if and only if it is enabled.
pub proof fn law_only_enabled_tools_are_mounted(
    hooks: HooksConfig,
    root: Seq<char>,
    timeout: Span,
    resolved: Seq<ResolvedTool>,
)
    ensures
        ({
            let names = mounted(hooks, root, timeout, resolved).map_values(|m: MountedView| m.name);
            names == when(hooks.ruff, "ruff"@) + when(hooks.ruff_format, "ruff_format"@) + when(
                hooks.ty,
                "ty"@,
            ) + when(hooks.pytest, "pytest"@) + when(hooks.clippy, "clippy"@)
        }),
{
}

/// A mounted tool goes by its own name.
pub proof fn law_mount_goes_by_its_name(hook: MountedHook)
    ensures
        hook@.name == hook.label(),
{
}

/// What diagnostics say is what their fields hold, for each of them and in order.
pub proof fn law_findings_are_complete(v: Seq<Diagnostic>)
    ensures
        findings(v).len() == v.len(),
        forall|i: int|
            0 <= i < v.len() ==> {
                &&& (#[trigger] findings(v)[i]).tool == v[i].tool@
                &&& findings(v)[i].file == v[i].file@
                &&& findings(v)[i].line == v[i].line
                &&& findings(v)[i].col == v[i].col
                &&& findings(v)[i].severity == v[i].severity
                &&& (findings(v)[i].code is Some) == (v[i].code is Some)
                &&& v[i].code is Some ==> findings(v)[i].code->0 == v[i].code->0@
                &&& findings(v)[i].message == v[i].message@
            },
{
}

/// Giving full paths changes nothing but the path: what was absolute stays, what
/// was relative lies below the directory under its own name, and what had no name
/// has none.
pub proof fn law_placing_changes_only_the_path(v: Seq<DiagnosticView>, dir: Seq<char>, i: int)
    requires
        0 <= i < v.len(),
    ensures
        all_placed(v, dir).len() == v.len(),
        all_placed(v, dir)[i].tool == v[i].tool,
        all_placed(v, dir)[i].line == v[i].line,
        all_placed(v, dir)[i].col == v[i].col,
        all_placed(v, dir)[i].severity == v[i].severity,
        all_placed(v, dir)[i].code == v[i].code,
        all_placed(v, dir)[i].message == v[i].message,
        v[i].file.len() == 0 ==> all_placed(v, dir)[i].file.len() == 0,
        v[i].file.len() > 0 && v[i].file[0] == '/' ==> all_placed(v, dir)[i].file == v[i].file,
        v[i].file.len() > 0 && v[i].file[0] != '/' ==> {
            let full = all_placed(v, dir)[i].file;
            &&& components(dir).is_prefix_of(components(full))
            &&& full.len() >= v[i].file.len()
            &&& full.skip(full.len() - v[i].file.len()) == v[i].file
        },
{
    let file = v[i].file;
    if file.len() > 0 && file[0] != '/' {
        crate::paths::law_joined_path_is_under_base(dir, file);
        let full = join(dir, file);
        assert(full.skip(full.len() - file.len()) =~= file);
    }
}

/// A span is as long as its nanoseconds say.
pub proof fn law_spans_compare_by_length(a: Span, b: Span)
    requires
        a.nanos < 1_000_000_000,
        b.nanos < 1_000_000_000,
    ensures
        at_least(a, b) == (a.secs * 1_000_000_000 + a.nanos >= b.secs * 1_000_000_000 + b.nanos),
{
}

/// Diagnostics come by file, within a file by line, within a line by column.
pub proof fn law_places_are_ordered(a: Place, b: Place)
    ensures
        a.file == b.file && a.line < b.line ==> place_before(a, b) && !place_before(b, a),
        a.file == b.file && a.line == b.line ==> place_before(a, b) == (a.col < b.col),
        a.file != b.file ==> place_before(a, b) == components_before(a.file, b.file),
{
}

/// The place of a diagnostic is its file, line and column.
pub proof fn law_diagnostics_are_ranked_by_place(d: Diagnostic)
    ensures
        d.key().file == components(d.file@),
        d.key().line == d.line,
        d.key().col == d.col,
{
}

/// A planned process runs the invocation, with the fixed arguments behind it and
/// then every path, in order and nothing else.
pub proof fn law_plan_passes_everything_on(
    tool: Seq<char>,
    invocation: Seq<Seq<char>>,
    fixed: Seq<Seq<char>>,
    files: Seq<Seq<char>>,
    cwd: Option<Seq<char>>,
    timeout: Span,
)
    ensures
        invocation.len() == 0 ==> run_plan(tool, invocation, fixed, files, cwd, timeout) is Fail,
        invocation.len() > 0 ==> (run_plan(tool, invocation, fixed, files, cwd, timeout) matches
            PlanView::Run(c) && {
            let n = invocation.len() - 1;
            let m = n + fixed.len();
            &&& c.program == invocation[0]
            &&& c.args.len() == m + files.len()
            &&& forall|i: int| 0 <= i < n ==> #[trigger] c.args[i] == invocation[i + 1]
            &&& forall|i: int| n <= i < m ==> #[trigger] c.args[i] == fixed[i - n]
            &&& forall|i: int| m <= i < c.args.len() ==> #[trigger] c.args[i] == files[i - m]
            &&& c.cwd == cwd
            &&& c.timeout == timeout
        }),
{
}

/// Each mounted tool runs the binary that was resolved for it, with the configured
/// timeout; `ruff_format` runs that of `ruff`, `clippy` that of `cargo`. Only
/// `pytest` has a root and patterns.
pub proof fn law_mounts_run_their_binaries(
    hooks: HooksConfig,
    tools: ToolsConfig,
    root: Seq<char>,
    timeout: Span,
    resolved: Seq<ResolvedTool>,
    k: int,
)
    requires
        resolved.len() == wanted(hooks, tools).len(),
        0 <= k < mounted(hooks, root, timeout, resolved).len(),
    ensures
        ({
            let m = mounted(hooks, root, timeout, resolved)[k];
            let binary = if m.name == "ruff_format"@ {
                "ruff"@
            } else if m.name == "clippy"@ {
                "cargo"@
            } else {
                m.name
            };
            &&& m.timeout == timeout
            &&& exists|i: int|
                0 <= i < resolved.len() && (#[trigger] wanted(hooks, tools)[i]).0 == binary
                    && m.invocation == texts(resolved[i].invocation@)
            &&& m.name == "pytest"@ ==> m.root == Some(root) && m.patterns == texts(
                hooks.pytest_test_patterns@,
            )
            &&& m.name != "pytest"@ ==> m.root is None && m.patterns.len() == 0
        }),
{
    reveal_strlit("ruff");
    reveal_strlit("ruff_format");
    reveal_strlit("ty");
    reveal_strlit("pytest");
    reveal_strlit("clippy");
    reveal_strlit("cargo");
    assert("ruff"@.len() == 4 && "ty"@.len() == 2 && "pytest"@.len() == 6 && "clippy"@.len() == 6
        && "cargo"@.len() == 5 && "ruff_format"@.len() == 11);
    assert("pytest"@[0] != "clippy"@[0]);
    let w = wanted(hooks, tools);
    let m = mounted(hooks, root, timeout, resolved)[k];
    if m.name == "ruff"@ || m.name == "ruff_format"@ {
        assert(w[0].0 == "ruff"@);
    } else if m.name == "ty"@ {
        assert(w[ty_index(hooks)].0 == "ty"@);
    } else if m.name == "pytest"@ {
        assert(w[pytest_index(hooks)].0 == "pytest"@);
    } else {
        assert(w[cargo_index(hooks)].0 == "cargo"@);
    }
}

/// Each binary that an enabled tool needs is resolved with the version it is pinned
/// to; nothing else is resolved.
pub proof fn law_pins_are_passed_on(hooks: HooksConfig, tools: ToolsConfig, name: Seq<char>)
    ensures
        ({
            let w = wanted(hooks, tools);
            let asked = |pin: Option<Seq<char>>| exists|i: int|
                0 <= i < w.len() && #[trigger] w[i] == (name, pin);
            let named = exists|i: int| 0 <= i < w.len() && (#[trigger] w[i]).0 == name;
            &&& name == "ruff"@ ==> named == (hooks.ruff || hooks.ruff_format) && (named ==> asked(
                option_text(tools.ruff),
            ))
            &&& name == "ty"@ ==> named == hooks.ty && (named ==> asked(option_text(tools.ty)))
            &&& name == "pytest"@ ==> named == hooks.pytest && (named ==> asked(
                option_text(tools.pytest),
            ))
            &&& name == "cargo"@ ==> named == hooks.clippy && (named ==> asked(None))
            &&& named ==> name == "ruff"@ || name == "ty"@ || name == "pytest"@ || name == "cargo"@
        }),
{
    reveal_strlit("ruff");
    reveal_strlit("ty");
    reveal_strlit("pytest");
    reveal_strlit("cargo");
    assert("ruff"@.len() == 4 && "ty"@.len() == 2 && "pytest"@.len() == 6 && "cargo"@.len() == 5);
    let w = wanted(hooks, tools);
    if wants_ruff(hooks) {
        assert(w[0] == ("ruff"@, option_text(tools.ruff)));
    }
    if hooks.ty {
        assert(w[ty_index(hooks)] == ("ty"@, option_text(tools.ty)));
    }
    if hooks.pytest {
        assert(w[pytest_index(hooks)] == ("pytest"@, option_text(tools.pytest)));
    }
    if hooks.clippy {
        assert(w[cargo_index(hooks)] == ("cargo"@, None::<Seq<char>>));
    }
}

/// What is published of resolved tools names each of them, in order.
pub proof fn law_published_tools_are_the_resolved_ones(resolved: Seq<ResolvedTool>)
    ensures
        published(resolved).len() == resolved.len(),
        forall|i: int|
            0 <= i < resolved.len() ==> (#[trigger] published(resolved)[i]).name
                == resolved[i].name@ && published(resolved)[i].version == resolved[i].version@,
{
}

/// A tool is mounted exactly where it is enabled, and once.
pub proof fn law_every_enabled_tool_is_mounted_once(
    hooks: HooksConfig,
    root: Seq<char>,
    timeout: Span,
    resolved: Seq<ResolvedTool>,
    name: Seq<char>,
)
    ensures
        ({
            let all = mounted(hooks, root, timeout, resolved);
            &&& (exists|k: int| 0 <= k < all.len() && (#[trigger] all[k]).name == name) == ((name
                == "ruff"@ && hooks.ruff) || (name == "ruff_format"@ && hooks.ruff_format) || (name
                == "ty"@ && hooks.ty) || (name == "pytest"@ && hooks.pytest) || (name == "clippy"@
                && hooks.clippy))
            &&& forall|i: int, j: int|
                0 <= i < j < all.len() ==> (#[trigger] all[i]).name != (#[trigger] all[j]).name
        }),
{
    reveal_strlit("ruff");
    reveal_strlit("ruff_format");
    reveal_strlit("ty");
    reveal_strlit("pytest");
    reveal_strlit("clippy");
    assert("ruff"@.len() == 4 && "ty"@.len() == 2 && "pytest"@.len() == 6 && "clippy"@.len() == 6
        && "ruff_format"@.len() == 11);
    assert("pytest"@[0] != "clippy"@[0]);
    let all = mounted(hooks, root, timeout, resolved);
    let a: int = if hooks.ruff {
        1
    } else {
        0
    };
    let b: int = a + if hooks.ruff_format {
        1int
    } else {
        0
    };
    let c: int = b + if hooks.ty {
        1int
    } else {
        0
    };
    let d: int = c + if hooks.pytest {
        1int
    } else {
        0
    };
    if name == "ruff"@ && hooks.ruff {
        assert(all[0].name == name);
    }
    if name == "ruff_format"@ && hooks.ruff_format {
        assert(all[a].name == name);
    }
    if name == "ty"@ && hooks.ty {
        assert(all[b].name == name);
    }
    if name == "pytest"@ && hooks.pytest {
        assert(all[c].name == name);
    }
    if name == "clippy"@ && hooks.clippy {
        assert(all[d].name == name);
    }
}

/// A mounted tool does what the tool itself does.
pub proof fn law_mount_acts_as_its_tool(
    hook: MountedHook,
    files: Seq<FilePath>,
    exist: Seq<bool>,
    output: ToolOutput,
)
    ensures
        match hook {
            MountedHook::Ruff(h) => hook.label() == "ruff"@ && hook.probed(files) == h.probed(files)
                && hook.planned(files, exist) == h.planned(files, exist) && hook.judged(output)
                == h.judged(output),
            MountedHook::RuffFormat(h) => hook.label() == "ruff_format"@ && hook.probed(files)
                == h.probed(files) && hook.planned(files, exist) == h.planned(files, exist)
                && hook.judged(output) == h.judged(output),
            MountedHook::Ty(h) => hook.label() == "ty"@ && hook.probed(files) == h.probed(files)
                && hook.planned(files, exist) == h.planned(files, exist) && hook.judged(output)
                == h.judged(output),
            MountedHook::Pytest(h) => hook.label() == "pytest"@ && hook.probed(files) == h.probed(
                files,
            ) && hook.planned(files, exist) == h.planned(files, exist) && hook.judged(output)
                == h.judged(output),
            MountedHook::Clippy(h) => hook.label() == "clippy"@ && hook.probed(files) == h.probed(
                files,
            ) && hook.planned(files, exist) == h.planned(files, exist) && hook.judged(output)
                == h.judged(output),
        },
{
}

/// What a mount is known by is what its tool holds.
pub proof fn law_mounts_are_known_by_their_tools(v: Seq<MountedHook>, i: int)
    requires
        0 <= i < v.len(),
    ensures
        mounts(v).len() == v.len(),
        match v[i] {
            MountedHook::Ruff(h) => mounts(v)[i].invocation == texts(h.invocation@)
                && mounts(v)[i].timeout == h.timeout,
            MountedHook::RuffFormat(h) => mounts(v)[i].invocation == texts(h.invocation@)
                && mounts(v)[i].timeout == h.timeout,
            MountedHook::Ty(h) => mounts(v)[i].invocation == texts(h.invocation@)
                && mounts(v)[i].timeout == h.timeout,
            MountedHook::Pytest(h) => mounts(v)[i].invocation == texts(h.invocation@)
                && mounts(v)[i].timeout == h.timeout && mounts(v)[i].root == Some(h.project_root@)
                && mounts(v)[i].patterns == texts(h.test_patterns@),
            MountedHook::Clippy(h) => mounts(v)[i].invocation == texts(h.invocation@)
                && mounts(v)[i].timeout == h.timeout,
        },
{
}

/// A request asks for its tool and its pin, one for one.
pub proof fn law_requests_are_complete(v: Seq<ToolRequest>, i: int)
    requires
        0 <= i < v.len(),
    ensures
        requests(v).len() == v.len(),
        requests(v)[i].0 == v[i].name@,
        (requests(v)[i].1 is Some) == (v[i].pin is Some),
        v[i].pin is Some ==> requests(v)[i].1->0 == v[i].pin->0@,
{
}

/// A plan and a verdict say all that they hold.
pub proof fn law_plans_and_verdicts_are_complete(
    c: CommandSpec,
    e: HookError,
    d: Vec<Diagnostic>,
    bytes: Vec<u8>,
    l: Vec<String>,
)
    ensures
        Plan::Skip@ == PlanView::Skip,
        Plan::Fail(e)@ == PlanView::Fail(e.message@),
        Plan::Run(c)@ matches PlanView::Run(r) && {
            &&& r.program == c.program@
            &&& r.args.len() == c.args@.len()
            &&& forall|i: int| 0 <= i < c.args@.len() ==> #[trigger] r.args[i] == c.args@[i]@
            &&& (r.cwd is Some) == (c.cwd is Some)
            &&& c.cwd is Some ==> r.cwd->0 == c.cwd->0@
            &&& r.timeout == c.timeout
        },
        Verdict::Diagnostics(d)@ == VerdictView::Diagnostics(findings(d@)),
        Verdict::RuffJson(bytes)@ == VerdictView::RuffJson(bytes@),
        Verdict::CargoJson(l)@ == VerdictView::CargoJson(texts(l@)),
        Verdict::Failed(e)@ == VerdictView::Failed(e.message@),
{
}

/// The failure of a tool tells what failed, how the system words its end, and what it
/// printed as errors.
pub proof fn law_failure_tells_status_and_errors(what: Seq<char>, output: ToolOutput)
    ensures
        exit_failure(what, output) == what + (" failed (exit "@ + (output.status@ + ("): "@
            + lossy_text(output.stderr@)))),
{
    assert(exit_failure(what, output) =~= what + (" failed (exit "@ + (output.status@ + ("): "@
        + lossy_text(output.stderr@)))));
}

} // verus!
