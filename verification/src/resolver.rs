//! Finding the binary of a tool.

use vstd::prelude::*;
use crate::paths::{join, path_texts, FilePath};
use crate::state::{ToolInfo, ToolInfoView};
use crate::text::{
    chars_of, decode_lossy, is_white, last_word, law_last_word_is_last, law_text_is_read_by_lines, lines, lines_of,
    lossy_text, pieces, string_of, texts, trim, trimmed, word_at_end,
};

verus! {

/// Where a tool was found.
#[derive(Debug, Clone)]
pub enum ToolSource {
    Pinned { version: String },
    LocalVenv { path: FilePath },
    SystemPath { path: FilePath },
    UvxLatest,
}

/// A tool that can be run.
#[derive(Debug, Clone)]
pub struct ResolvedTool {
    pub name: &'static str,
    pub version: String,
    pub source: ToolSource,
    /// Program and leading arguments, such as `uvx ruff@0.7.4`.
    pub invocation: Vec<String>,
}

/// Why a tool could not be found.
#[derive(Debug)]
pub struct ResolveError {
    pub message: String,
}

impl View for ResolveError {
    type V = Seq<char>;

    open spec fn view(&self) -> Seq<char> {
        self.message@
    }
}

/// The published word for a source.
pub open spec fn source_text(s: ToolSource) -> Seq<char> {
    match s {
        ToolSource::Pinned { .. } => "pinned"@,
        ToolSource::LocalVenv { .. } => "local-venv"@,
        ToolSource::SystemPath { .. } => "system-path"@,
        ToolSource::UvxLatest => "uvx-latest"@,
    }
}

/// The published path of a source.
pub open spec fn source_path(s: ToolSource) -> Option<Seq<char>> {
    match s {
        ToolSource::LocalVenv { path } => Some(path@),
        ToolSource::SystemPath { path } => Some(path@),
        _ => None,
    }
}

/// What is published of a resolved tool.
pub open spec fn tool_info(t: ResolvedTool) -> ToolInfoView {
    ToolInfoView {
        name: t.name@,
        version: t.version@,
        source: source_text(t.source),
        path: source_path(t.source),
    }
}

impl ResolvedTool {
    /// The form in which the tool is published.
    pub fn to_tool_info(&self) -> (r: ToolInfo)
        ensures
            r@ == tool_info(*self),
    {
        let (source, path) = match &self.source {
            ToolSource::Pinned { .. } => ("pinned", None),
            ToolSource::LocalVenv { path } => ("local-venv", Some(path.as_str().to_owned())),
            ToolSource::SystemPath { path } => ("system-path", Some(path.as_str().to_owned())),
            ToolSource::UvxLatest => ("uvx-latest", None),
        };
        ToolInfo {
            name: self.name.to_owned(),
            version: self.version.clone(),
            source: source.to_owned(),
            path,
        }
    }
}

// ---------------------------------------------------------------------------
// Asking the system
// ---------------------------------------------------------------------------

/// What to resolve.
#[derive(Debug)]
pub struct ResolveRequest {
    pub name: &'static str,
    pub project_root: FilePath,
    pub pin: Option<String>,
    /// The directories on the search path, in order.
    pub search_path: Vec<FilePath>,
    /// Whether executables are laid out and named as on Windows.
    pub windows: bool,
}

/// A question to the system.
#[derive(Debug)]
pub enum Question {
    /// Is there a file at this path?
    IsFile(FilePath),
    /// What does this command say when it is run with `--version` behind it?
    Version(Vec<String>),
}

/// What a question asks.
pub enum QuestionView {
    IsFile(Seq<char>),
    Version(Seq<Seq<char>>),
}

impl View for Question {
    type V = QuestionView;

    open spec fn view(&self) -> QuestionView {
        match *self {
            Question::IsFile(p) => QuestionView::IsFile(p@),
            Question::Version(v) => QuestionView::Version(texts(v@)),
        }
    }
}

/// The answer to a question.
#[derive(Debug)]
pub enum Answer {
    /// There is such a file.
    Yes,
    /// There is no such file.
    No,
    /// The command ran.
    Ran { success: bool, stdout: Vec<u8>, stderr: Vec<u8> },
    /// The command could not be started.
    NotStarted { error: String },
}

/// What to do next in order to resolve a tool.
#[derive(Debug)]
pub enum ResolveStep {
    /// Answer a question.
    Ask(Question),
    /// The tool is resolved.
    Found(ResolvedTool),
    /// The tool cannot be resolved.
    Failed(ResolveError),
}

/// Where a tool was found.
pub enum SourceView {
    Pinned(Seq<char>),
    LocalVenv(Seq<char>),
    SystemPath(Seq<char>),
    UvxLatest,
}

/// What a step says.
pub enum StepView {
    Ask(QuestionView),
    Found {
        name: Seq<char>,
        version: Seq<char>,
        source: SourceView,
        invocation: Seq<Seq<char>>,
    },
    Failed(Seq<char>),
}

impl View for ToolSource {
    type V = SourceView;

    open spec fn view(&self) -> SourceView {
        match *self {
            ToolSource::Pinned { version } => SourceView::Pinned(version@),
            ToolSource::LocalVenv { path } => SourceView::LocalVenv(path@),
            ToolSource::SystemPath { path } => SourceView::SystemPath(path@),
            ToolSource::UvxLatest => SourceView::UvxLatest,
        }
    }
}

impl View for ResolveStep {
    type V = StepView;

    open spec fn view(&self) -> StepView {
        match *self {
            ResolveStep::Ask(q) => StepView::Ask(q@),
            ResolveStep::Found(t) => StepView::Found {
                name: t.name@,
                version: t.version@,
                source: t.source@,
                invocation: texts(t.invocation@),
            },
            ResolveStep::Failed(e) => StepView::Failed(e@),
        }
    }
}

// ---------------------------------------------------------------------------
// What resolution means
// ---------------------------------------------------------------------------

/// The version in what a tool prints: the last word of the first line.
pub open spec fn version_in(text: Seq<char>) -> Seq<char> {
    let all = lines(text);
    if all.len() == 0 {
        "unknown"@
    } else {
        match last_word(all[0]) {
            Some(w) => w,
            None => "unknown"@,
        }
    }
}

/// The version that an answer tells.
pub open spec fn detected(a: Answer) -> Seq<char> {
    match a {
        Answer::Ran { stdout, .. } => version_in(lossy_text(stdout@)),
        _ => "unknown"@,
    }
}

/// Whether the command was started.
pub open spec fn started(a: Answer) -> bool {
    a is Ran
}

/// Where the tool is in the project's own environment.
pub open spec fn venv_candidate(name: Seq<char>, root: Seq<char>, windows: bool) -> Seq<char> {
    if windows {
        join(join(join(root, ".venv"@), "Scripts"@), name + ".exe"@)
    } else {
        join(join(join(root, ".venv"@), "bin"@), name)
    }
}

/// Where the tool is in a directory on the search path.
pub open spec fn path_candidate(name: Seq<char>, dir: Seq<char>, windows: bool) -> Seq<char> {
    join(
        dir,
        if windows {
            name + ".exe"@
        } else {
            name
        },
    )
}

/// The places where a tool may be: the project's environment first, then the
/// directories on the search path.
pub open spec fn places(
    name: Seq<char>,
    root: Seq<char>,
    dirs: Seq<Seq<char>>,
    windows: bool,
) -> Seq<Seq<char>> {
    seq![venv_candidate(name, root, windows)] + dirs.map_values(
        |d: Seq<char>| path_candidate(name, d, windows),
    )
}

/// How many of the first `n` answers come before the first yes.
pub open spec fn before_yes(answers: Seq<Answer>, n: nat) -> nat
    decreases n,
{
    if n == 0 || answers.len() == 0 || answers[0] is Yes {
        0
    } else {
        1 + before_yes(answers.drop_first(), (n - 1) as nat)
    }
}

/// The failure where a pinned tool needs `uvx`.
pub open spec fn pinned_without_uvx(name: Seq<char>, version: Seq<char>) -> Seq<char> {
    "`"@ + name + "` is pinned to version "@ + version
        + " in pulci.toml but `uvx` is not installed.\nInstall uv: pip install uv"@
}

/// The failure where `uvx` does not start.
pub open spec fn pinned_not_started(
    name: Seq<char>,
    version: Seq<char>,
    error: Seq<char>,
) -> Seq<char> {
    "`"@ + name + "` is pinned to version "@ + version
        + " in pulci.toml but `uvx` failed to start: "@ + error
}

/// The failure where a pinned version does not exist.
pub open spec fn pinned_not_resolved(
    name: Seq<char>,
    version: Seq<char>,
    stderr: Seq<char>,
) -> Seq<char> {
    "`"@ + name + "` is pinned to version "@ + version
        + " in pulci.toml but uvx could not resolve it.\nCommand: uvx "@ + name + "@"@ + version
        + " --version\nStderr: "@ + stderr
        + "\nCheck that the version exists on PyPI and that your `pulci.toml [tools]` section is correct."@
}

/// The failure where a tool is nowhere to be found.
pub open spec fn found_nowhere(name: Seq<char>) -> Seq<char> {
    "`"@ + name
        + "` not found in .venv, PATH, or via uvx.\nInstall uv (pip install uv) or "@ + name
        + " directly (pip install "@ + name + ")"@
}

/// A pinned tool runs through `uvx`, if that can provide the version.
pub open spec fn resolve_pinned(
    name: Seq<char>,
    version: Seq<char>,
    a: Seq<Answer>,
) -> StepView {
    let invocation = seq!["uvx"@, name + "@"@ + version];
    if a.len() == 0 {
        StepView::Ask(QuestionView::Version(seq!["uvx"@]))
    } else if !started(a[0]) {
        StepView::Failed(pinned_without_uvx(name, version))
    } else if a.len() == 1 {
        StepView::Ask(QuestionView::Version(invocation))
    } else {
        match a[1] {
            Answer::Ran { success, stdout, stderr } => if success {
                StepView::Found {
                    name,
                    version: detected(a[1]),
                    source: SourceView::Pinned(version),
                    invocation,
                }
            } else {
                StepView::Failed(
                    pinned_not_resolved(name, version, trim(lossy_text(stderr@))),
                )
            },
            Answer::NotStarted { error } => StepView::Failed(
                pinned_not_started(name, version, error@),
            ),
            _ => StepView::Failed(pinned_not_started(name, version, ""@)),
        }
    }
}

/// Any other tool is looked for in the places where it may be, and runs through
/// `uvx` where it is in none.
pub open spec fn resolve_unpinned(
    name: Seq<char>,
    where_to_look: Seq<Seq<char>>,
    a: Seq<Answer>,
) -> StepView {
    let n = where_to_look.len();
    let k = before_yes(a, n) as int;
    if k < n {
        let path = where_to_look[k];
        if a.len() <= k {
            StepView::Ask(QuestionView::IsFile(path))
        } else if a.len() == k + 1 {
            StepView::Ask(QuestionView::Version(seq![path]))
        } else {
            StepView::Found {
                name,
                version: detected(a[k + 1]),
                source: if k == 0 {
                    SourceView::LocalVenv(path)
                } else {
                    SourceView::SystemPath(path)
                },
                invocation: seq![path],
            }
        }
    } else if a.len() == n {
        StepView::Ask(QuestionView::Version(seq!["uvx"@]))
    } else if !started(a[n as int]) {
        StepView::Failed(found_nowhere(name))
    } else if a.len() == n + 1 {
        StepView::Ask(QuestionView::Version(seq!["uvx"@, name]))
    } else {
        StepView::Found {
            name,
            version: detected(a[n as int + 1]),
            source: SourceView::UvxLatest,
            invocation: seq!["uvx"@, name],
        }
    }
}

/// The next step after some answers.
pub open spec fn resolution(r: ResolveRequest, a: Seq<Answer>) -> StepView {
    match r.pin {
        Some(version) => resolve_pinned(r.name@, version@, a),
        None => resolve_unpinned(
            r.name@,
            places(r.name@, r.project_root@, path_texts(r.search_path@), r.windows),
            a,
        ),
    }
}

// ---------------------------------------------------------------------------
// Resolving
// ---------------------------------------------------------------------------

/// Reads the version off what a tool printed.
pub fn parse_version(text: &str) -> (r: String)
    ensures
        r@ == version_in(text@),
{
    let chars = chars_of(text);
    let all = lines_of(chars.as_slice());
    let ghost views = pieces(all@);
    if all.len() == 0 {
        return "unknown".to_owned();
    }
    assert(views[0] == all@[0]@);
    match word_at_end(all[0].as_slice()) {
        Some(w) => string_of(w),
        None => "unknown".to_owned(),
    }
}

/// The version that an answer tells; `unknown` where the command did not run.
pub fn detect_version(answer: &Answer) -> (r: String)
    ensures
        r@ == detected(*answer),
{
    match answer {
        Answer::Ran { stdout, .. } => {
            let text = decode_lossy(stdout.as_slice());
            parse_version(text.as_str())
        },
        _ => "unknown".to_owned(),
    }
}

/// Whether `uvx` can be used, by the answer to whether it runs.
pub fn uvx_available(answer: &Answer) -> (r: bool)
    ensures
        r == started(*answer),
{
    match answer {
        Answer::Ran { .. } => true,
        _ => false,
    }
}

/// The name of the executable of a tool.
fn executable(name: &str, windows: bool) -> (r: String)
    ensures
        r@ == if windows {
            name@ + ".exe"@
        } else {
            name@
        },
{
    let mut out = name.to_owned();
    if windows {
        out.append(".exe");
    }
    out
}

/// Where a tool is in the project's own environment.
pub fn find_in_venv(name: &str, project_root: &FilePath, windows: bool) -> (r: FilePath)
    ensures
        r@ == venv_candidate(name@, project_root@, windows),
{
    let file = executable(name, windows);
    let env = project_root.join(".venv");
    let dir = if windows {
        env.join("Scripts")
    } else {
        env.join("bin")
    };
    dir.join(file.as_str())
}

/// Where a tool is in a directory on the search path.
pub fn find_in_system_path(name: &str, dir: &FilePath, windows: bool) -> (r: FilePath)
    ensures
        r@ == path_candidate(name@, dir@, windows),
{
    let file = executable(name, windows);
    dir.join(file.as_str())
}

/// The place with an index.
fn place_at(request: &ResolveRequest, k: usize) -> (r: FilePath)
    requires
        k <= request.search_path@.len(),
    ensures
        r@ == places(
            request.name@,
            request.project_root@,
            path_texts(request.search_path@),
            request.windows,
        )[k as int],
{
    if k == 0 {
        find_in_venv(request.name, &request.project_root, request.windows)
    } else {
        assert(path_texts(request.search_path@)[k - 1] == request.search_path@[k - 1]@);
        find_in_system_path(request.name, &request.search_path[k - 1], request.windows)
    }
}

/// How many answers come before the first yes, among those about the project's
/// environment and `dirs` directories.
fn count_before_yes(answers: &Vec<Answer>, dirs: usize) -> (r: usize)
    ensures
        r == before_yes(answers@, (dirs + 1) as nat),
        r <= dirs + 1,
        r <= answers@.len(),
{
    let mut i: usize = 0;
    assert(answers@.skip(0) =~= answers@);
    while i <= dirs && i < answers.len()
        invariant
            i <= dirs + 1,
            i <= answers@.len(),
            before_yes(answers@, (dirs + 1) as nat) == i + before_yes(
                answers@.skip(i as int),
                (dirs + 1 - i) as nat,
            ),
        decreases dirs + 1 - i,
    {
        if let Answer::Yes = &answers[i] {
            return i;
        }
        assert(answers@.skip(i as int).drop_first() =~= answers@.skip(i + 1));
        i += 1;
    }
    i
}

/// The start of each message about a pin.
fn pin_message(name: &str, version: &str) -> (r: String)
    ensures
        r@ == "`"@ + name@ + "` is pinned to version "@ + version@,
{
    let mut out = "`".to_owned();
    out.append(name);
    out.append("` is pinned to version ");
    out.append(version);
    out
}

/// Resolves a tool that is pinned to a version.
fn probe_pinned_version(name: &'static str, version: &String, answers: &Vec<Answer>) -> (r:
    ResolveStep)
    ensures
        r@ == resolve_pinned(name@, version@, answers@),
{
    let mut tagged = name.to_owned();
    tagged.append("@");
    tagged.append(version.as_str());
    if answers.len() == 0 {
        let q = vec!["uvx".to_owned()];
        assert(texts(q@) =~= seq!["uvx"@]);
        return ResolveStep::Ask(Question::Version(q));
    }
    if !uvx_available(&answers[0]) {
        let mut message = pin_message(name, version.as_str());
        message.append(
            " in pulci.toml but `uvx` is not installed.\nInstall uv: pip install uv",
        );
        return ResolveStep::Failed(ResolveError { message });
    }
    let invocation = vec!["uvx".to_owned(), tagged];
    assert(texts(invocation@) =~= seq!["uvx"@, name@ + "@"@ + version@]);
    if answers.len() == 1 {
        return ResolveStep::Ask(Question::Version(invocation));
    }
    match &answers[1] {
        Answer::Ran { success, stdout, stderr } => {
            if *success {
                ResolveStep::Found(
                    ResolvedTool {
                        name,
                        version: detect_version(&answers[1]),
                        source: ToolSource::Pinned { version: version.clone() },
                        invocation,
                    },
                )
            } else {
                let text = decode_lossy(stderr.as_slice());
                let chars = chars_of(text.as_str());
                let said = string_of(trimmed(chars.as_slice()));
                let mut message = pin_message(name, version.as_str());
                message.append(" in pulci.toml but uvx could not resolve it.\nCommand: uvx ");
                message.append(name);
                message.append("@");
                message.append(version.as_str());
                message.append(" --version\nStderr: ");
                message.append(said.as_str());
                message.append(
                    "\nCheck that the version exists on PyPI and that your `pulci.toml [tools]` section is correct.",
                );
                ResolveStep::Failed(ResolveError { message })
            }
        },
        Answer::NotStarted { error } => {
            let mut message = pin_message(name, version.as_str());
            message.append(" in pulci.toml but `uvx` failed to start: ");
            message.append(error.as_str());
            ResolveStep::Failed(ResolveError { message })
        },
        _ => {
            let mut message = pin_message(name, version.as_str());
            message.append(" in pulci.toml but `uvx` failed to start: ");
            message.append("");
            ResolveStep::Failed(ResolveError { message })
        },
    }
}

/// Resolves a tool that is not pinned.
fn look_for_tool(request: &ResolveRequest, answers: &Vec<Answer>) -> (r: ResolveStep)
    requires
        request.pin is None,
    ensures
        r@ == resolution(*request, answers@),
{
    let name = request.name;
    let total: usize = request.search_path.len();
    let ghost spots = places(
        name@,
        request.project_root@,
        path_texts(request.search_path@),
        request.windows,
    );
    assert(spots.len() == total + 1);
    let k = count_before_yes(answers, total);
    let asked: usize = answers.len();
    if k <= total {
        let path = place_at(request, k);
        if asked <= k {
            return ResolveStep::Ask(Question::IsFile(path));
        }
        let invocation = vec![path.as_str().to_owned()];
        assert(texts(invocation@) =~= seq![path@]);
        if asked == k + 1 {
            return ResolveStep::Ask(Question::Version(invocation));
        }
        let version = detect_version(&answers[k + 1]);
        let source = if k == 0 {
            ToolSource::LocalVenv { path }
        } else {
            ToolSource::SystemPath { path }
        };
        return ResolveStep::Found(ResolvedTool { name, version, source, invocation });
    }
    if asked == k {
        let q = vec!["uvx".to_owned()];
        assert(texts(q@) =~= seq!["uvx"@]);
        return ResolveStep::Ask(Question::Version(q));
    }
    if !uvx_available(&answers[k]) {
        let mut message = "`".to_owned();
        message.append(name);
        message.append(
            "` not found in .venv, PATH, or via uvx.\nInstall uv (pip install uv) or ",
        );
        message.append(name);
        message.append(" directly (pip install ");
        message.append(name);
        message.append(")");
        return ResolveStep::Failed(ResolveError { message });
    }
    let invocation = vec!["uvx".to_owned(), name.to_owned()];
    assert(texts(invocation@) =~= seq!["uvx"@, name@]);
    if asked == k + 1 {
        return ResolveStep::Ask(Question::Version(invocation));
    }
    let version = detect_version(&answers[k + 1]);
    ResolveStep::Found(ResolvedTool { name, version, source: ToolSource::UvxLatest, invocation })
}

/// Resolves a tool, given the answers to the questions so far. In order of
/// precedence: the pinned version through `uvx`, the project's own environment,
/// the search path, and whatever `uvx` provides.
pub fn resolve_tool(request: &ResolveRequest, answers: &Vec<Answer>) -> (r: ResolveStep)
    ensures
        r@ == resolution(*request, answers@),
{
    match &request.pin {
        Some(version) => probe_pinned_version(request.name, version, answers),
        None => look_for_tool(request, answers),
    }
}

// ---------------------------------------------------------------------------
// Laws
// ---------------------------------------------------------------------------

/// A pinned tool is never taken from anywhere but the pinned version.
pub proof fn law_pin_comes_first(r: ResolveRequest, a: Seq<Answer>)
    requires
        r.pin is Some,
    ensures
        match resolution(r, a) {
            StepView::Ask(q) => q is Version,
            StepView::Found { source, invocation, .. } => source == SourceView::Pinned(r.pin->0@)
                && invocation == seq!["uvx"@, r.name@ + "@"@ + r.pin->0@],
            StepView::Failed(_) => true,
        },
{
}

/// What stands before the first yes is no yes, and it is followed by one.
proof fn lemma_before_yes(a: Seq<Answer>, n: nat)
    ensures
        before_yes(a, n) <= n,
        before_yes(a, n) <= a.len(),
        forall|i: int| 0 <= i < before_yes(a, n) ==> !((#[trigger] a[i]) is Yes),
        before_yes(a, n) < n && before_yes(a, n) < a.len() ==> a[before_yes(a, n) as int] is Yes,
    decreases n,
{
    if !(n == 0 || a.len() == 0 || a[0] is Yes) {
        let rest = a.drop_first();
        lemma_before_yes(rest, (n - 1) as nat);
        assert forall|i: int| 0 <= i < before_yes(a, n) implies !((#[trigger] a[i]) is Yes) by {
            if i > 0 {
                assert(a[i] == rest[i - 1]);
            }
        }
        let k = before_yes(rest, (n - 1) as nat) as int;
        if k < n - 1 && k < rest.len() {
            assert(a[k + 1] == rest[k]);
        }
    }
}

/// Without a pin, a tool is taken from the first place where it is, the project's
/// own environment before the search path, and from `uvx` only where it is in no
/// place.
pub proof fn law_places_come_in_order(r: ResolveRequest, a: Seq<Answer>)
    requires
        r.pin is None,
    ensures
        ({
            let spots = places(r.name@, r.project_root@, path_texts(r.search_path@), r.windows);
            match resolution(r, a) {
                StepView::Found { source, .. } => match source {
                    SourceView::Pinned(_) => false,
                    SourceView::LocalVenv(p) => p == spots[0] && a[0] is Yes,
                    SourceView::SystemPath(p) => exists|k: int|
                        {
                            &&& 1 <= k < spots.len()
                            &&& p == #[trigger] spots[k]
                            &&& a[k] is Yes
                            &&& forall|i: int| 0 <= i < k ==> !((#[trigger] a[i]) is Yes)
                        },
                    SourceView::UvxLatest => forall|i: int|
                        0 <= i < spots.len() ==> !((#[trigger] a[i]) is Yes),
                },
                _ => true,
            }
        }),
{
    let spots = places(r.name@, r.project_root@, path_texts(r.search_path@), r.windows);
    lemma_before_yes(a, spots.len());
    let k = before_yes(a, spots.len()) as int;
    if k < spots.len() {
        assert(spots[k] == spots[k]);
    }
}

/// A resolved tool can be run: its invocation names a program.
pub proof fn law_resolved_tools_can_be_run(r: ResolveRequest, a: Seq<Answer>)
    ensures
        resolution(r, a) matches StepView::Found { name, invocation, .. } ==> name == r.name@
            && invocation.len() > 0,
{
}

/// Resolution ends: there are at most two questions more than there are places.
pub proof fn law_resolution_ends(r: ResolveRequest, a: Seq<Answer>)
    requires
        a.len() >= r.search_path@.len() + 3,
    ensures
        !(resolution(r, a) is Ask),
{
    if r.pin is None {
        let spots = places(r.name@, r.project_root@, path_texts(r.search_path@), r.windows);
        assert(spots.len() == r.search_path@.len() + 1);
        lemma_before_yes(a, spots.len());
    }
}

/// A pinned version that cannot be run fails with a message that names the tool,
/// the version and the file that pins it.
pub proof fn law_bad_pin_is_reported(r: ResolveRequest, a: Seq<Answer>)
    requires
        r.pin is Some,
        a.len() >= 2,
        started(a[0]),
        a[1] matches Answer::Ran { success, .. } && !success,
    ensures
        resolution(r, a) == StepView::Failed(
            pinned_not_resolved(
                r.name@,
                r.pin->0@,
                trim(lossy_text(a[1]->stderr@)),
            ),
        ),
{
}

/// The version is the last word of the first line, whatever follows that line.
pub proof fn law_version_is_the_last_word(
    before: Seq<char>,
    version: Seq<char>,
    blanks: Seq<char>,
    rest: Seq<char>,
)
    requires
        before.len() == 0 || is_white(before.last()),
        forall|i: int| 0 <= i < before.len() ==> #[trigger] before[i] != '\n',
        version.len() > 0,
        forall|i: int| 0 <= i < version.len() ==> !is_white(#[trigger] version[i]),
        forall|i: int| 0 <= i < blanks.len() ==> #[trigger] blanks[i] == ' ',
    ensures
        version_in((before + version + blanks).push('\n') + rest) == version,
        version_in(before + version + blanks) == version,
        version_in(Seq::empty()) == "unknown"@,
        version_in(blanks.push('\n') + rest) == "unknown"@,
{
    let l = before + version + blanks;
    assert forall|i: int| 0 <= i < l.len() implies #[trigger] l[i] != '\n' by {
        if i < before.len() {
            assert(l[i] == before[i]);
        } else if i < before.len() + version.len() {
            assert(l[i] == version[i - before.len()]);
        } else {
            assert(l[i] == blanks[i - before.len() - version.len()]);
        }
    }
    assert(l.last() != '\r') by {
        if blanks.len() > 0 {
            assert(l.last() == blanks[blanks.len() - 1]);
        } else {
            assert(l.last() == version[version.len() - 1]);
        }
    }
    law_text_is_read_by_lines(l, rest);
    law_last_word_is_last(before, version, blanks);
    assert((seq![l] + lines(rest))[0] == l);
    assert(seq![l][0] == l);
    law_text_is_read_by_lines(blanks, rest);
    if blanks.len() > 0 {
        assert(blanks[blanks.len() - 1] == ' ');
    }
    assert((seq![blanks] + lines(rest))[0] == blanks);
}

/// Only a command that ran tells a version, and only such a one was started.
pub proof fn law_only_runs_tell_versions(success: bool, stdout: Vec<u8>, stderr: Vec<u8>, error: String)
    ensures
        detected(Answer::Ran { success, stdout, stderr }) == version_in(lossy_text(stdout@)),
        started(Answer::Ran { success, stdout, stderr }),
        detected(Answer::NotStarted { error }) == "unknown"@,
        !started(Answer::NotStarted { error }),
        detected(Answer::Yes) == "unknown"@ && !started(Answer::Yes),
        detected(Answer::No) == "unknown"@ && !started(Answer::No),
{
}

/// A tool is looked for in the environment of the project and then in every directory
/// on the search path, under the name that the system gives to programs.
pub proof fn law_every_directory_is_a_place(
    name: Seq<char>,
    root: Seq<char>,
    dirs: Seq<Seq<char>>,
    i: int,
)
    requires
        0 <= i < dirs.len(),
    ensures
        places(name, root, dirs, false).len() == dirs.len() + 1,
        places(name, root, dirs, true).len() == dirs.len() + 1,
        places(name, root, dirs, false)[0] == join(join(join(root, ".venv"@), "bin"@), name),
        places(name, root, dirs, true)[0] == join(
            join(join(root, ".venv"@), "Scripts"@),
            name + ".exe"@,
        ),
        places(name, root, dirs, false)[i + 1] == join(dirs[i], name),
        places(name, root, dirs, true)[i + 1] == join(dirs[i], name + ".exe"@),
{
}

/// The first yes is where it was said.
proof fn lemma_first_yes(a: Seq<Answer>, n: nat, k: int)
    requires
        0 <= k < n,
        k < a.len(),
        a[k] is Yes,
        forall|i: int| 0 <= i < k ==> !((#[trigger] a[i]) is Yes),
    ensures
        before_yes(a, n) == k,
{
    lemma_before_yes(a, n);
    let b = before_yes(a, n) as int;
    if b < k {
        assert(a[b] is Yes);
    }
}

/// Without a yes among the first answers, all of them come before it.
proof fn lemma_no_yes(a: Seq<Answer>, n: nat)
    requires
        forall|i: int| 0 <= i < n && i < a.len() ==> !((#[trigger] a[i]) is Yes),
    ensures
        before_yes(a, n) == if a.len() < n {
            a.len()
        } else {
            n
        },
{
    lemma_before_yes(a, n);
    let b = before_yes(a, n) as int;
    if b < n && b < a.len() {
        assert(a[b] is Yes);
    }
}

/// Places are asked about one after the other until the tool is in one.
pub proof fn law_next_place_is_asked_about(r: ResolveRequest, a: Seq<Answer>)
    requires
        r.pin is None,
        a.len() <= r.search_path@.len(),
        forall|i: int| 0 <= i < a.len() ==> !((#[trigger] a[i]) is Yes),
    ensures
        resolution(r, a) == StepView::Ask(
            QuestionView::IsFile(
                places(
                    r.name@,
                    r.project_root@,
                    path_texts(r.search_path@),
                    r.windows,
                )[a.len() as int],
            ),
        ),
{
    let spots = places(r.name@, r.project_root@, path_texts(r.search_path@), r.windows);
    assert(spots.len() == r.search_path@.len() + 1);
    lemma_no_yes(a, spots.len());
}

/// The first place where a tool is gives the tool: its version is asked for, and then
/// it runs from there.
pub proof fn law_first_place_is_taken(r: ResolveRequest, a: Seq<Answer>, k: int)
    requires
        r.pin is None,
        0 <= k <= r.search_path@.len(),
        k < a.len(),
        a[k] is Yes,
        forall|i: int| 0 <= i < k ==> !((#[trigger] a[i]) is Yes),
    ensures
        ({
            let place = places(
                r.name@,
                r.project_root@,
                path_texts(r.search_path@),
                r.windows,
            )[k];
            if a.len() == k + 1 {
                resolution(r, a) == StepView::Ask(QuestionView::Version(seq![place]))
            } else {
                resolution(r, a) == (StepView::Found {
                    name: r.name@,
                    version: detected(a[k + 1]),
                    source: if k == 0 {
                        SourceView::LocalVenv(place)
                    } else {
                        SourceView::SystemPath(place)
                    },
                    invocation: seq![place],
                })
            }
        }),
{
    let spots = places(r.name@, r.project_root@, path_texts(r.search_path@), r.windows);
    assert(spots.len() == r.search_path@.len() + 1);
    lemma_first_yes(a, spots.len(), k);
}

/// A tool that is in no place runs through `uvx`, if that can be started.
pub proof fn law_uvx_is_the_last_resort(r: ResolveRequest, a: Seq<Answer>)
    requires
        r.pin is None,
        a.len() >= r.search_path@.len() + 1,
        forall|i: int| 0 <= i <= r.search_path@.len() ==> !((#[trigger] a[i]) is Yes),
    ensures
        ({
            let n = r.search_path@.len() as int + 1;
            if a.len() == n {
                resolution(r, a) == StepView::Ask(QuestionView::Version(seq!["uvx"@]))
            } else if !(a[n] is Ran) {
                resolution(r, a) == StepView::Failed(
                    "`"@ + r.name@
                        + "` not found in .venv, PATH, or via uvx.\nInstall uv (pip install uv) or "@
                        + r.name@ + " directly (pip install "@ + r.name@ + ")"@,
                )
            } else if a.len() == n + 1 {
                resolution(r, a) == StepView::Ask(QuestionView::Version(seq!["uvx"@, r.name@]))
            } else {
                resolution(r, a) == (StepView::Found {
                    name: r.name@,
                    version: detected(a[n + 1]),
                    source: SourceView::UvxLatest,
                    invocation: seq!["uvx"@, r.name@],
                })
            }
        }),
{
    let spots = places(r.name@, r.project_root@, path_texts(r.search_path@), r.windows);
    assert(spots.len() == r.search_path@.len() + 1);
    lemma_no_yes(a, spots.len());
}

/// A pinned tool asks for `uvx`, then for the pinned version, and runs in that version
/// exactly where both can be had.
pub proof fn law_good_pin_is_used(r: ResolveRequest, a: Seq<Answer>)
    requires
        r.pin is Some,
    ensures
        ({
            let tagged = r.name@ + "@"@ + r.pin->0@;
            let start = "`"@ + r.name@ + "` is pinned to version "@ + r.pin->0@;
            if a.len() == 0 {
                resolution(r, a) == StepView::Ask(QuestionView::Version(seq!["uvx"@]))
            } else if !(a[0] is Ran) {
                resolution(r, a) == StepView::Failed(
                    start
                        + " in pulci.toml but `uvx` is not installed.\nInstall uv: pip install uv"@,
                )
            } else if a.len() == 1 {
                resolution(r, a) == StepView::Ask(QuestionView::Version(seq!["uvx"@, tagged]))
            } else {
                match a[1] {
                    Answer::Ran { success, stdout, stderr } => if success {
                        resolution(r, a) == (StepView::Found {
                            name: r.name@,
                            version: version_in(lossy_text(stdout@)),
                            source: SourceView::Pinned(r.pin->0@),
                            invocation: seq!["uvx"@, tagged],
                        })
                    } else {
                        resolution(r, a) is Failed
                    },
                    Answer::NotStarted { error } => resolution(r, a) == StepView::Failed(
                        start + " in pulci.toml but `uvx` failed to start: "@ + error@,
                    ),
                    _ => resolution(r, a) is Failed,
                }
            }
        }),
{
}

/// What is published of a tool is its name, its version, a word for its source, and
/// its path where it has one.
pub proof fn law_published_tool_is_the_resolved_one(t: ResolvedTool)
    ensures
        tool_info(t).name == t.name@,
        tool_info(t).version == t.version@,
        match t.source {
            ToolSource::Pinned { .. } => tool_info(t).source == "pinned"@ && tool_info(t).path is None,
            ToolSource::LocalVenv { path } => tool_info(t).source == "local-venv"@
                && tool_info(t).path == Some(path@),
            ToolSource::SystemPath { path } => tool_info(t).source == "system-path"@
                && tool_info(t).path == Some(path@),
            ToolSource::UvxLatest => tool_info(t).source == "uvx-latest"@
                && tool_info(t).path is None,
        },
{
}

/// A question and a step say all that they hold.
pub proof fn law_steps_are_complete(p: FilePath, v: Vec<String>, t: ResolvedTool, e: ResolveError)
    ensures
        ResolveStep::Ask(Question::IsFile(p))@ == StepView::Ask(QuestionView::IsFile(p@)),
        ResolveStep::Ask(Question::Version(v))@ == StepView::Ask(
            QuestionView::Version(texts(v@)),
        ),
        ResolveStep::Failed(e)@ == StepView::Failed(e.message@),
        ResolveStep::Found(t)@ == (StepView::Found {
            name: t.name@,
            version: t.version@,
            source: match t.source {
                ToolSource::Pinned { version } => SourceView::Pinned(version@),
                ToolSource::LocalVenv { path } => SourceView::LocalVenv(path@),
                ToolSource::SystemPath { path } => SourceView::SystemPath(path@),
                ToolSource::UvxLatest => SourceView::UvxLatest,
            },
            invocation: texts(t.invocation@),
        }),
{
}

/// A pinned version that `uvx` cannot provide is reported with the tool, the version,
/// the command that failed and all that it printed as errors.
pub proof fn law_unknown_version_is_explained(
    name: Seq<char>,
    version: Seq<char>,
    stderr: Seq<char>,
)
    ensures
        pinned_not_resolved(name, version, stderr) == "`"@ + name + "` is pinned to version "@
            + version + " in pulci.toml but uvx could not resolve it.\nCommand: uvx "@ + (name
            + "@"@ + version) + " --version\nStderr: "@ + stderr
            + "\nCheck that the version exists on PyPI and that your `pulci.toml [tools]` section is correct."@,
{
    let whole = pinned_not_resolved(name, version, stderr);
    assert(whole =~= "`"@ + name + "` is pinned to version "@ + version
        + " in pulci.toml but uvx could not resolve it.\nCommand: uvx "@ + (name + "@"@ + version)
        + " --version\nStderr: "@ + stderr
        + "\nCheck that the version exists on PyPI and that your `pulci.toml [tools]` section is correct."@);
}

} // verus!
