//! `pytest`: tests that belong to the changed files.

use vstd::prelude::*;
use super::{
    findings, killed, plan_run, run_plan, Diagnostic, DiagnosticView, Hook, Plan, PlanView, Severity, Span, ToolOutput,
    Verdict, VerdictView,
};
use crate::paths::{components, contains_path, extension, file_stem, holds_path, path_texts, FilePath};
use crate::resolver::ResolvedTool;
use crate::text::{
    append, begins_with, chars_of, copy_strings, cut, decode_lossy, halves, is_white, lines, lines_of, lossy_text, pieces,
    replace, replaced, same_chars, string_of, strip, stripped, texts, trim, trimmed,
};

verus! {

// ---------------------------------------------------------------------------
// From sources to tests
// ---------------------------------------------------------------------------

/// The paths of the tests that belong to a source: none where it is not Python,
/// the source itself where it is a test, else each pattern with the stem filled
/// in. Without patterns the test is `tests/test_{stem}.py`.
pub open spec fn test_files(source: Seq<char>, patterns: Seq<Seq<char>>) -> Seq<Seq<char>> {
    if extension(source) != Some("py"@) {
        Seq::empty()
    } else {
        let stem = file_stem(source)->0;
        if "test_"@.is_prefix_of(stem) {
            seq![source]
        } else if patterns.len() == 0 {
            seq!["tests/test_"@ + stem + ".py"@]
        } else {
            patterns.map_values(|p: Seq<char>| replace(p, "{stem}"@, stem))
        }
    }
}

/// Maps a source file to its test files. Whether they exist is left to the
/// caller.
pub fn find_test_files(source: &FilePath, test_patterns: &Vec<String>) -> (r: Vec<FilePath>)
    ensures
        path_texts(r@) == test_files(source@, texts(test_patterns@)),
{
    let mut out: Vec<FilePath> = Vec::new();
    let py = chars_of("py");
    let is_python = match source.extension() {
        Some(e) => same_chars(e.as_slice(), py.as_slice()),
        None => false,
    };
    if !is_python {
        assert(path_texts(out@) =~= Seq::empty());
        return out;
    }
    let stem = match source.file_stem() {
        Some(s) => s,
        None => {
            return out;
        },
    };
    if begins_with(stem.as_slice(), "test_") {
        out.push(source.clone());
        assert(path_texts(out@) =~= seq![source@]);
        return out;
    }
    if test_patterns.len() == 0 {
        let mut text = chars_of("tests/test_");
        append(&mut text, stem.as_slice());
        let tail = chars_of(".py");
        append(&mut text, tail.as_slice());
        out.push(FilePath { text: string_of(text.as_slice()) });
        assert(path_texts(out@) =~= seq!["tests/test_"@ + stem@ + ".py"@]);
        return out;
    }
    let hole = chars_of("{stem}");
    proof {
        reveal_strlit("{stem}");
    }
    let ghost patterns = texts(test_patterns@);
    let ghost fill = |p: Seq<char>| replace(p, "{stem}"@, stem@);
    let mut i: usize = 0;
    while i < test_patterns.len()
        invariant
            i <= test_patterns@.len(),
            patterns == texts(test_patterns@),
            hole@ == "{stem}"@,
            hole@.len() > 0,
            fill == |p: Seq<char>| replace(p, "{stem}"@, stem@),
            path_texts(out@) == patterns.take(i as int).map_values(fill),
        decreases test_patterns@.len() - i,
    {
        let pattern = chars_of(test_patterns[i].as_str());
        let path = replaced(pattern.as_slice(), hole.as_slice(), stem.as_slice());
        let ghost before = out@;
        out.push(FilePath { text: string_of(path.as_slice()) });
        proof {
            assert(path_texts(out@) =~= path_texts(before).push(fill(patterns[i as int])));
            assert(patterns.take(i + 1) =~= patterns.take(i as int).push(patterns[i as int]));
            assert(patterns.take(i + 1).map_values(fill) =~= patterns.take(i as int).map_values(
                fill,
            ).push(fill(patterns[i as int])));
        }
        i += 1;
    }
    assert(patterns.take(i as int) =~= patterns);
    out
}

// ---------------------------------------------------------------------------
// What the output means
// ---------------------------------------------------------------------------

/// The diagnostic on a line `FAILED file::test - message`.
pub open spec fn failure_finding(line: Seq<char>) -> Option<DiagnosticView> {
    match strip(trim(line), "FAILED "@) {
        None => None,
        Some(rest) => {
            let (id, msg) = match halves(rest, " - "@) {
                Some(h) => h,
                None => (rest, "test failed"@),
            };
            let (file, test) = match halves(id, "::"@) {
                Some(h) => h,
                None => (id, "unknown"@),
            };
            Some(
                DiagnosticView {
                    tool: "pytest"@,
                    file,
                    line: 0,
                    col: 0,
                    severity: Severity::Error,
                    code: None,
                    message: test + ": "@ + msg,
                },
            )
        },
    }
}

/// The diagnostics in a sequence of lines.
pub open spec fn failure_findings(all: Seq<Seq<char>>) -> Seq<DiagnosticView>
    decreases all.len(),
{
    if all.len() == 0 {
        Seq::empty()
    } else {
        let before = failure_findings(all.drop_last());
        match failure_finding(all.last()) {
            Some(d) => before.push(d),
            None => before,
        }
    }
}

/// Parses one line of the short test summary.
fn parse_failure(line: &[char]) -> (r: Option<Diagnostic>)
    ensures
        match r {
            Some(d) => failure_finding(line@) == Some(d@),
            None => failure_finding(line@) is None,
        },
{
    let rest = match stripped(trimmed(line), "FAILED ") {
        Some(rest) => rest,
        None => {
            return None;
        },
    };
    let no_message = chars_of("test failed");
    let no_test = chars_of("unknown");
    let (id, msg) = match cut(rest, " - ") {
        Some(h) => h,
        None => (rest, no_message.as_slice()),
    };
    let (file, test) = match cut(id, "::") {
        Some(h) => h,
        None => (id, no_test.as_slice()),
    };
    let mut message: Vec<char> = Vec::new();
    append(&mut message, test);
    let colon = chars_of(": ");
    append(&mut message, colon.as_slice());
    append(&mut message, msg);
    assert(message@ =~= test@ + ": "@ + msg@);
    Some(
        Diagnostic {
            tool: "pytest".to_owned(),
            file: FilePath { text: string_of(file) },
            line: 0,
            col: 0,
            severity: Severity::Error,
            code: None,
            message: string_of(message.as_slice()),
        },
    )
}

/// Finds the failures in a decoded text.
pub fn parse_pytest_text(text: &str) -> (r: Vec<Diagnostic>)
    ensures
        findings(r@) == failure_findings(lines(text@)),
{
    let chars = chars_of(text);
    let all = lines_of(chars.as_slice());
    let ghost views = pieces(all@);
    let mut out: Vec<Diagnostic> = Vec::new();
    let mut i: usize = 0;
    assert(findings(out@) =~= failure_findings(views.take(0)));
    while i < all.len()
        invariant
            i <= all@.len(),
            views == pieces(all@),
            views == lines(text@),
            findings(out@) == failure_findings(views.take(i as int)),
        decreases all@.len() - i,
    {
        let ghost before = out@;
        proof {
            assert(views.take(i + 1).drop_last() =~= views.take(i as int));
            assert(views.take(i + 1).last() == all@[i as int]@);
        }
        if let Some(d) = parse_failure(all[i].as_slice()) {
            out.push(d);
            assert(findings(out@) =~= findings(before).push(d@));
        }
        i += 1;
    }
    assert(views.take(i as int) =~= views);
    out
}

/// Parses the output of `pytest --tb=no -q`:
///
/// ```text
/// FAILED tests/test_foo.py::test_bar - AssertionError: msg
/// ```
pub fn parse_pytest_output(stdout: &[u8]) -> (r: Vec<Diagnostic>)
    ensures
        findings(r@) == failure_findings(lines(lossy_text(stdout@))),
{
    let text = decode_lossy(stdout);
    parse_pytest_text(text.as_str())
}

// ---------------------------------------------------------------------------
// The tool
// ---------------------------------------------------------------------------

/// Whether one of the paths is the path `p`.
pub open spec fn listed(paths: Seq<Seq<char>>, p: Seq<char>) -> bool {
    exists|i: int| 0 <= i < paths.len() && components(#[trigger] paths[i]) == components(p)
}

/// The paths of `more` behind those of `paths`, each path once.
pub open spec fn merged(paths: Seq<Seq<char>>, more: Seq<Seq<char>>) -> Seq<Seq<char>>
    decreases more.len(),
{
    if more.len() == 0 {
        paths
    } else {
        let before = merged(paths, more.drop_last());
        if listed(before, more.last()) {
            before
        } else {
            before.push(more.last())
        }
    }
}

/// The tests that belong to the changed files, each path once.
pub open spec fn candidates(files: Seq<FilePath>, patterns: Seq<Seq<char>>) -> Seq<Seq<char>>
    decreases files.len(),
{
    if files.len() == 0 {
        Seq::empty()
    } else {
        merged(
            candidates(files.drop_last(), patterns),
            test_files(files.last()@, patterns),
        )
    }
}

/// The paths whose flag is set.
pub open spec fn chosen(paths: Seq<Seq<char>>, flags: Seq<bool>) -> Seq<Seq<char>>
    decreases paths.len(),
{
    if paths.len() == 0 || flags.len() == 0 {
        Seq::empty()
    } else if flags.last() {
        chosen(paths.drop_last(), flags.drop_last()).push(paths.last())
    } else {
        chosen(paths.drop_last(), flags.drop_last())
    }
}

/// A vector of paths lists the path that its texts list.
proof fn lemma_listed(v: Seq<FilePath>, p: Seq<char>)
    ensures
        listed(path_texts(v), p) == holds_path(v, components(p)),
{
    let t = path_texts(v);
    if listed(t, p) {
        let i = choose|i: int| 0 <= i < t.len() && components(#[trigger] t[i]) == components(p);
        assert(components(v[i]@) == components(p));
    }
    if holds_path(v, components(p)) {
        let i = choose|i: int|
            0 <= i < v.len() && components(#[trigger] v[i]@) == components(p);
        assert(components(t[i]) == components(p));
    }
}

/// Adds the paths of `more` that `out` does not hold yet.
fn merge_paths(out: &mut Vec<FilePath>, more: Vec<FilePath>)
    ensures
        path_texts(final(out)@) == merged(path_texts(old(out)@), path_texts(more@)),
{
    let ghost start = path_texts(out@);
    let ghost all = path_texts(more@);
    let mut i: usize = 0;
    while i < more.len()
        invariant
            i <= more@.len(),
            all == path_texts(more@),
            path_texts(out@) == merged(start, all.take(i as int)),
        decreases more@.len() - i,
    {
        proof {
            assert(all.take(i + 1).drop_last() =~= all.take(i as int));
            assert(all.take(i + 1).last() == more@[i as int]@);
            lemma_listed(out@, more@[i as int]@);
        }
        if !contains_path(&*out, &more[i]) {
            let ghost before = out@;
            out.push(more[i].clone());
            assert(path_texts(out@) =~= path_texts(before).push(more@[i as int]@));
        }
        i += 1;
    }
    assert(all.take(i as int) =~= all);
}

/// Runs the tests that belong to the changed files.
#[derive(Debug)]
pub struct PytestAdapter {
    pub invocation: Vec<String>,
    pub project_root: FilePath,
    pub timeout: Span,
    /// Templates of test paths with `{stem}` for the stem of the source.
    pub test_patterns: Vec<String>,
}

impl PytestAdapter {
    /// Uses the resolved `pytest`.
    pub fn new(
        resolved: &ResolvedTool,
        project_root: FilePath,
        timeout: Span,
        test_patterns: Vec<String>,
    ) -> (r: PytestAdapter)
        ensures
            r.invocation@ == resolved.invocation@,
            r.project_root == project_root,
            r.timeout == timeout,
            r.test_patterns == test_patterns,
    {
        PytestAdapter {
            invocation: copy_strings(&resolved.invocation),
            project_root,
            timeout,
            test_patterns,
        }
    }
}

impl Hook for PytestAdapter {
    open spec fn label(&self) -> Seq<char> {
        "pytest"@
    }

    open spec fn probed(&self, files: Seq<FilePath>) -> Seq<Seq<char>> {
        candidates(files, texts(self.test_patterns@))
    }

    /// Only tests that exist are run, in the project root. Without any there is
    /// nothing to do.
    open spec fn planned(&self, files: Seq<FilePath>, exist: Seq<bool>) -> PlanView {
        let tests = chosen(self.probed(files), exist);
        if tests.len() == 0 {
            PlanView::Skip
        } else {
            run_plan(
                "pytest"@,
                texts(self.invocation@),
                seq!["--tb=no"@, "-q"@, "--no-header"@],
                tests,
                Some(self.project_root@),
                self.timeout,
            )
        }
    }

    /// The exit code only tells whether there were failures.
    open spec fn judged(&self, output: ToolOutput) -> VerdictView {
        if output.exit is None {
            VerdictView::Failed("pytest"@ + " was killed by a signal"@)
        } else {
            VerdictView::Diagnostics(failure_findings(lines(lossy_text(output.stdout@))))
        }
    }

    fn name(&self) -> (r: &'static str) {
        "pytest"
    }

    fn probes(&self, files: &Vec<FilePath>) -> (r: Vec<FilePath>) {
        let mut out: Vec<FilePath> = Vec::new();
        let ghost patterns = texts(self.test_patterns@);
        let mut i: usize = 0;
        assert(path_texts(out@) =~= Seq::empty());
        while i < files.len()
            invariant
                i <= files@.len(),
                patterns == texts(self.test_patterns@),
                path_texts(out@) == candidates(files@.take(i as int), patterns),
            decreases files@.len() - i,
        {
            let tests = find_test_files(&files[i], &self.test_patterns);
            merge_paths(&mut out, tests);
            assert(files@.take(i + 1).drop_last() =~= files@.take(i as int));
            i += 1;
        }
        assert(files@.take(i as int) =~= files@);
        out
    }

    fn plan(&self, files: &Vec<FilePath>, exist: &Vec<bool>) -> (r: Plan) {
        let probes = self.probes(files);
        let ghost paths = path_texts(probes@);
        let mut tests: Vec<FilePath> = Vec::new();
        let mut i: usize = 0;
        assert(path_texts(tests@) =~= Seq::empty());
        while i < probes.len()
            invariant
                i <= probes@.len(),
                exist@.len() == probes@.len(),
                paths == path_texts(probes@),
                path_texts(tests@) == chosen(paths.take(i as int), exist@.take(i as int)),
            decreases probes@.len() - i,
        {
            proof {
                assert(paths.take(i + 1).drop_last() =~= paths.take(i as int));
                assert(exist@.take(i + 1).drop_last() =~= exist@.take(i as int));
            }
            if exist[i] {
                let ghost before = tests@;
                tests.push(probes[i].clone());
                assert(path_texts(tests@) =~= path_texts(before).push(paths[i as int]));
            }
            i += 1;
        }
        assert(paths.take(i as int) =~= paths);
        assert(exist@.take(i as int) =~= exist@);
        if tests.len() == 0 {
            return Plan::Skip;
        }
        let fixed = vec!["--tb=no".to_owned(), "-q".to_owned(), "--no-header".to_owned()];
        assert(texts(fixed@) =~= seq!["--tb=no"@, "-q"@, "--no-header"@]);
        plan_run(
            "pytest",
            &self.invocation,
            fixed,
            &tests,
            Some(self.project_root.clone()),
            self.timeout,
        )
    }

    fn judge(&self, output: &ToolOutput) -> (r: Verdict) {
        if output.exit.is_none() {
            return Verdict::Failed(killed("pytest"));
        }
        Verdict::Diagnostics(parse_pytest_output(output.stdout.as_slice()))
    }
}

// ---------------------------------------------------------------------------
// Laws
// ---------------------------------------------------------------------------

/// Whether no path is listed twice.
pub open spec fn distinct_paths(v: Seq<Seq<char>>) -> bool {
    forall|i: int, j: int|
        0 <= i < j < v.len() ==> components(#[trigger] v[i]) != components(#[trigger] v[j])
}

/// Merging lists no path twice.
proof fn lemma_merged_distinct(paths: Seq<Seq<char>>, more: Seq<Seq<char>>)
    requires
        distinct_paths(paths),
    ensures
        distinct_paths(merged(paths, more)),
    decreases more.len(),
{
    if more.len() > 0 {
        let before = merged(paths, more.drop_last());
        lemma_merged_distinct(paths, more.drop_last());
        if !listed(before, more.last()) {
            let all = before.push(more.last());
            assert forall|i: int, j: int| 0 <= i < j < all.len() implies components(
                #[trigger] all[i],
            ) != components(#[trigger] all[j]) by {
                assert(all[i] == before[i]);
                if j < before.len() {
                    assert(all[j] == before[j]);
                } else {
                    assert(components(before[i]) != components(more.last()));
                }
            }
        }
    }
}

/// No test is run twice, however many of the changed files it belongs to.
pub proof fn law_each_test_is_run_once(files: Seq<FilePath>, patterns: Seq<Seq<char>>)
    ensures
        distinct_paths(candidates(files, patterns)),
    decreases files.len(),
{
    if files.len() > 0 {
        law_each_test_is_run_once(files.drop_last(), patterns);
        lemma_merged_distinct(
            candidates(files.drop_last(), patterns),
            test_files(files.last()@, patterns),
        );
    }
}

/// Only tests that exist are run.
pub proof fn law_only_existing_tests_are_run(
    paths: Seq<Seq<char>>,
    exist: Seq<bool>,
    p: Seq<char>,
)
    requires
        paths.len() == exist.len(),
    ensures
        chosen(paths, exist).contains(p) == exists|i: int|
            0 <= i < paths.len() && #[trigger] paths[i] == p && exist[i],
    decreases paths.len(),
{
    if paths.len() > 0 {
        let front = paths.drop_last();
        let flags = exist.drop_last();
        let before = chosen(front, flags);
        let all = chosen(paths, exist);
        law_only_existing_tests_are_run(front, flags, p);
        if all.contains(p) {
            let k = choose|k: int| 0 <= k < all.len() && all[k] == p;
            if k < before.len() {
                assert(before[k] == p);
                let i = choose|i: int| 0 <= i < front.len() && #[trigger] front[i] == p && flags[i];
                assert(paths[i] == p && exist[i]);
            } else {
                assert(paths[paths.len() - 1] == p && exist[paths.len() - 1]);
            }
        }
        if exists|i: int| 0 <= i < paths.len() && #[trigger] paths[i] == p && exist[i] {
            let i = choose|i: int| 0 <= i < paths.len() && #[trigger] paths[i] == p && exist[i];
            if i < front.len() {
                assert(front[i] == p && flags[i]);
                let k = choose|k: int| 0 <= k < before.len() && before[k] == p;
                assert(all[k] == p);
            } else {
                assert(all[before.len() as int] == p);
            }
        }
    }
}

/// Merging keeps the paths that were there and adds those that were not.
proof fn lemma_merged_paths(paths: Seq<Seq<char>>, more: Seq<Seq<char>>, p: Seq<char>)
    ensures
        paths.is_prefix_of(merged(paths, more)),
        more.contains(p) ==> listed(merged(paths, more), p),
        merged(paths, more).contains(p) ==> paths.contains(p) || more.contains(p),
    decreases more.len(),
{
    let all = merged(paths, more);
    if more.len() > 0 {
        let rest = more.drop_last();
        let before = merged(paths, rest);
        lemma_merged_paths(paths, rest, p);
        assert(paths =~= all.subrange(0, paths.len() as int));
        if more.contains(p) {
            let k = choose|k: int| 0 <= k < more.len() && more[k] == p;
            if k < rest.len() {
                assert(rest[k] == p);
                lemma_still_listed(before, all, p);
            } else if !listed(before, p) {
                assert(components(all[before.len() as int]) == components(p));
            }
        }
        if all.contains(p) {
            let k = choose|k: int| 0 <= k < all.len() && all[k] == p;
            if k < before.len() {
                assert(before[k] == p);
                if !paths.contains(p) {
                    let j = choose|j: int| 0 <= j < rest.len() && rest[j] == p;
                    assert(more[j] == p);
                }
            } else {
                assert(more[more.len() - 1] == p);
            }
        }
    } else {
        assert(paths =~= all.subrange(0, paths.len() as int));
    }
}

/// A path that is listed in the front is listed in the whole.
proof fn lemma_still_listed(front: Seq<Seq<char>>, all: Seq<Seq<char>>, p: Seq<char>)
    requires
        front.len() <= all.len(),
        forall|i: int| 0 <= i < front.len() ==> #[trigger] all[i] == front[i],
        listed(front, p),
    ensures
        listed(all, p),
{
    let i = choose|i: int| 0 <= i < front.len() && components(#[trigger] front[i]) == components(p);
    assert(components(all[i]) == components(p));
}

/// Every test of every changed file is among the candidates.
proof fn lemma_candidates_hold(
    files: Seq<FilePath>,
    patterns: Seq<Seq<char>>,
    k: int,
    p: Seq<char>,
)
    requires
        0 <= k < files.len(),
        test_files(files[k]@, patterns).contains(p),
    ensures
        listed(candidates(files, patterns), p),
    decreases files.len(),
{
    let rest = files.drop_last();
    let before = candidates(rest, patterns);
    let more = test_files(files.last()@, patterns);
    lemma_merged_paths(before, more, p);
    if k < rest.len() {
        assert(rest[k] == files[k]);
        lemma_candidates_hold(rest, patterns, k, p);
        assert(before =~= merged(before, more).subrange(0, before.len() as int));
        lemma_still_listed(before, merged(before, more), p);
    }
}

/// Every candidate is a test of a changed file.
proof fn lemma_candidates_are_tests(files: Seq<FilePath>, patterns: Seq<Seq<char>>, p: Seq<char>)
    requires
        candidates(files, patterns).contains(p),
    ensures
        exists|k: int|
            0 <= k < files.len() && test_files((#[trigger] files[k])@, patterns).contains(p),
    decreases files.len(),
{
    if files.len() > 0 {
        let rest = files.drop_last();
        let before = candidates(rest, patterns);
        lemma_merged_paths(before, test_files(files.last()@, patterns), p);
        if before.contains(p) {
            lemma_candidates_are_tests(rest, patterns, p);
            let k = choose|k: int|
                0 <= k < rest.len() && test_files((#[trigger] rest[k])@, patterns).contains(p);
            assert(test_files(files[k]@, patterns).contains(p));
        } else {
            assert(test_files(files[files.len() - 1]@, patterns).contains(p));
        }
    }
}

/// Every test of every changed file is probed.
pub proof fn law_every_test_is_probed(
    hook: PytestAdapter,
    files: Seq<FilePath>,
    k: int,
    p: Seq<char>,
)
    requires
        0 <= k < files.len(),
        test_files(files[k]@, texts(hook.test_patterns@)).contains(p),
    ensures
        exists|i: int|
            0 <= i < hook.probed(files).len() && components(#[trigger] hook.probed(files)[i])
                == components(p),
{
    let patterns = texts(hook.test_patterns@);
    let all = hook.probed(files);
    lemma_candidates_hold(files, patterns, k, p);
    assert(all == candidates(files, patterns));
    let i = choose|i: int| 0 <= i < all.len() && components(#[trigger] all[i]) == components(p);
    assert(components(hook.probed(files)[i]) == components(p));
}

/// Every path that is probed is a test of some changed file, and none is probed twice.
pub proof fn law_only_tests_are_probed(hook: PytestAdapter, files: Seq<FilePath>, i: int)
    requires
        0 <= i < hook.probed(files).len(),
    ensures
        exists|k: int|
            0 <= k < files.len() && test_files(
                (#[trigger] files[k])@,
                texts(hook.test_patterns@),
            ).contains(hook.probed(files)[i]),
        forall|j: int|
            0 <= j < hook.probed(files).len() && j != i ==> components(
                #[trigger] hook.probed(files)[j],
            ) != components(hook.probed(files)[i]),
{
    let patterns = texts(hook.test_patterns@);
    let all = hook.probed(files);
    assert(all.contains(all[i]));
    lemma_candidates_are_tests(files, patterns, all[i]);
    law_each_test_is_run_once(files, patterns);
}

/// Tests of earlier files are probed before those of later ones.
pub proof fn law_tests_are_probed_in_order(
    hook: PytestAdapter,
    files: Seq<FilePath>,
    more: FilePath,
)
    ensures
        hook.probed(files).is_prefix_of(hook.probed(files.push(more))),
        hook.probed(Seq::empty()).len() == 0,
{
    let patterns = texts(hook.test_patterns@);
    assert(files.push(more).drop_last() =~= files);
    lemma_merged_paths(
        candidates(files, patterns),
        test_files(more@, patterns),
        Seq::empty(),
    );
}

/// The tests of one source: none unless it is Python, itself if it is a test, else as
/// many as there are patterns.
pub proof fn law_sources_have_their_tests(source: Seq<char>, patterns: Seq<Seq<char>>)
    ensures
        extension(source) != Some("py"@) ==> test_files(source, patterns).len() == 0,
        extension(source) == Some("py"@) && "test_"@.is_prefix_of(file_stem(source)->0)
            ==> test_files(source, patterns) == seq![source],
        extension(source) == Some("py"@) && !"test_"@.is_prefix_of(file_stem(source)->0)
            && patterns.len() == 0 ==> test_files(source, patterns) == seq![
            "tests/test_"@ + file_stem(source)->0 + ".py"@,
        ],
        extension(source) == Some("py"@) && !"test_"@.is_prefix_of(file_stem(source)->0)
            && patterns.len() > 0 ==> test_files(source, patterns).len() == patterns.len(),
{
}

/// A pattern names the test with the stem of the source in its hole.
pub proof fn law_stem_fills_the_hole(
    source: Seq<char>,
    patterns: Seq<Seq<char>>,
    i: int,
    a: Seq<char>,
    b: Seq<char>,
)
    requires
        extension(source) == Some("py"@),
        !"test_"@.is_prefix_of(file_stem(source)->0),
        0 <= i < patterns.len(),
        patterns[i] == a + "{stem}"@ + b,
        forall|k: int| 0 <= k < a.len() ==> #[trigger] a[k] != '{',
        forall|k: int| 0 <= k < b.len() ==> #[trigger] b[k] != '{',
    ensures
        test_files(source, patterns)[i] == a + file_stem(source)->0 + b,
{
    reveal_strlit("{stem}");
    let hole = "{stem}"@;
    let stem = file_stem(source)->0;
    let s = a + hole + b;
    assert forall|k: int| 0 <= k < a.len() implies (#[trigger] s.subrange(k, k + hole.len()))
        != hole by {
        assert(s.subrange(k, k + hole.len())[0] == a[k]);
    }
    crate::text::law_every_place_is_replaced(a, hole, b, stem);
    assert forall|k: int| 0 <= k <= b.len() - hole.len() implies (#[trigger] b.subrange(
        k,
        k + hole.len(),
    )) != hole by {
        assert(b.subrange(k, k + hole.len())[0] == b[k]);
    }
    crate::text::law_text_without_separator_is_whole(b, hole, stem);
}

/// Of the first tests, those that exist are chosen.
proof fn lemma_chosen_prefix(
    paths: Seq<Seq<char>>,
    exist: Seq<bool>,
    n: nat,
    p: spec_fn(int) -> bool,
    f: spec_fn(int) -> Seq<char>,
)
    requires
        n <= paths.len(),
        paths.len() == exist.len(),
        forall|i: int| #[trigger] p(i) == exist[i],
        forall|i: int| #[trigger] f(i) == paths[i],
    ensures
        chosen(paths.take(n as int), exist.take(n as int)) == Seq::new(n, |i: int| i).filter(
            p,
        ).map_values(f),
    decreases n,
{
    let all = Seq::new(n, |i: int| i);
    if n == 0 {
        crate::sorting::lemma_choose_none(all, p, f);
    } else {
        let k = (n - 1) as nat;
        let front = Seq::new(k, |i: int| i);
        lemma_chosen_prefix(paths, exist, k, p, f);
        assert(all =~= front.push(k as int));
        crate::sorting::lemma_choose_push(front, k as int, p, f);
        assert(paths.take(n as int).drop_last() =~= paths.take(k as int));
        assert(exist.take(n as int).drop_last() =~= exist.take(k as int));
    }
}

/// The tests that are run are those that exist, all of them and in order.
pub proof fn law_every_existing_test_is_run(
    hook: PytestAdapter,
    files: Seq<FilePath>,
    exist: Seq<bool>,
)
    requires
        exist.len() == hook.probed(files).len(),
        hook.invocation@.len() > 0,
    ensures
        ({
            let tests = Seq::new(exist.len(), |i: int| i).filter(
                |i: int| exist[i],
            ).map_values(|i: int| hook.probed(files)[i]);
            let n = hook.invocation@.len() - 1;
            &&& (hook.planned(files, exist) is Skip) == (tests.len() == 0)
            &&& tests.len() > 0 ==> (hook.planned(files, exist) matches PlanView::Run(c) && {
                &&& c.program == hook.invocation@[0]@
                &&& c.args == texts(hook.invocation@).skip(1) + seq![
                    "--tb=no"@,
                    "-q"@,
                    "--no-header"@,
                ] + tests
                &&& c.cwd == Some(hook.project_root@)
                &&& c.timeout == hook.timeout
            })
        }),
{
    let paths = hook.probed(files);
    let p = |i: int| exist[i];
    let f = |i: int| hook.probed(files)[i];
    lemma_chosen_prefix(paths, exist, exist.len(), p, f);
    assert(paths.take(paths.len() as int) =~= paths);
    assert(exist.take(exist.len() as int) =~= exist);
    assert(texts(hook.invocation@)[0] == hook.invocation@[0]@);
}

/// What is printed of a failed test is read back: the file before the first `::`, the
/// test behind it, and the message behind the first ` - `.
pub proof fn law_failure_is_read_back(
    a: Seq<char>,
    file: Seq<char>,
    test: Seq<char>,
    msg: Seq<char>,
    b: Seq<char>,
)
    requires
        forall|i: int| 0 <= i < a.len() ==> is_white(#[trigger] a[i]),
        forall|i: int| 0 <= i < b.len() ==> is_white(#[trigger] b[i]),
        forall|i: int| 0 <= i < file.len() ==> #[trigger] file[i] != ':' && file[i] != ' ',
        forall|i: int| 0 <= i < test.len() ==> #[trigger] test[i] != ' ',
        msg.len() > 0,
        !is_white(msg.last()),
    ensures
        failure_finding(a + ("FAILED "@ + (file + "::"@ + test + " - "@ + msg)) + b) == Some(
            DiagnosticView {
                tool: "pytest"@,
                file,
                line: 0,
                col: 0,
                severity: Severity::Error,
                code: None,
                message: test + ": "@ + msg,
            },
        ),
{
    reveal_strlit("FAILED ");
    reveal_strlit("::");
    reveal_strlit(" - ");
    let id = file + "::"@ + test;
    let rest = id + " - "@ + msg;
    let t = "FAILED "@ + rest;
    assert(t[0] == 'F');
    assert(t.last() == msg.last());
    crate::text::law_trimming_takes_white_ends(a, t, b);
    crate::text::law_stripping_undoes_prefixing(t, "FAILED "@, rest);
    assert forall|i: int| 0 <= i < id.len() implies #[trigger] rest.subrange(i, i + " - "@.len())
        != " - "@ by {
        assert(rest.subrange(i, i + " - "@.len())[0] == id[i]);
        if i < file.len() {
            assert(id[i] == file[i]);
        } else if i >= file.len() + 2 {
            assert(id[i] == test[i - file.len() - 2]);
        }
    }
    crate::text::law_text_is_cut_at_the_first_place(id, " - "@, msg);
    assert forall|i: int| 0 <= i < file.len() implies #[trigger] id.subrange(i, i + "::"@.len())
        != "::"@ by {
        assert(id.subrange(i, i + "::"@.len())[0] == file[i]);
    }
    crate::text::law_text_is_cut_at_the_first_place(file, "::"@, test);
}

/// A failure without a message is still a failure, of the test that is named.
pub proof fn law_failure_without_message_is_kept(file: Seq<char>, test: Seq<char>)
    requires
        forall|i: int| 0 <= i < file.len() ==> #[trigger] file[i] != ':' && file[i] != ' ',
        forall|i: int| 0 <= i < test.len() ==> #[trigger] test[i] != ' ',
        test.len() > 0,
        !is_white(test.last()),
    ensures
        failure_finding("FAILED "@ + (file + "::"@ + test)) matches Some(d) && d.tool == "pytest"@
            && d.file == file && d.line == 0 && d.col == 0 && d.severity == Severity::Error && d.code
            is None && d.message == test + ": "@ + "test failed"@,
{
    reveal_strlit("FAILED ");
    reveal_strlit("::");
    reveal_strlit(" - ");
    let nothing = Seq::<char>::empty();
    let id = file + "::"@ + test;
    let t = "FAILED "@ + id;
    assert(t[0] == 'F');
    assert(t.last() == test.last());
    assert(nothing + t + nothing =~= t);
    crate::text::law_trimming_takes_white_ends(nothing, t, nothing);
    crate::text::law_stripping_undoes_prefixing(t, "FAILED "@, id);
    assert forall|i: int| 0 <= i <= id.len() - " - "@.len() implies #[trigger] id.subrange(
        i,
        i + " - "@.len(),
    ) != " - "@ by {
        assert(id.subrange(i, i + " - "@.len())[0] == id[i]);
        if i < file.len() {
            assert(id[i] == file[i]);
        } else if i >= file.len() + 2 {
            assert(id[i] == test[i - file.len() - 2]);
        }
    }
    crate::text::law_text_without_separator_is_whole(id, " - "@, nothing);
    assert forall|i: int| 0 <= i < file.len() implies #[trigger] id.subrange(i, i + "::"@.len())
        != "::"@ by {
        assert(id.subrange(i, i + "::"@.len())[0] == file[i]);
    }
    crate::text::law_text_is_cut_at_the_first_place(file, "::"@, test);
}

/// A line that does not start with `FAILED` is no failure.
pub proof fn law_other_lines_are_no_failures(line: Seq<char>)
    requires
        !"FAILED "@.is_prefix_of(trim(line)),
    ensures
        failure_finding(line) is None,
{
    let t = trim(line);
    if let Some(rest) = strip(t, "FAILED "@) {
        crate::text::law_stripping_undoes_prefixing(t, "FAILED "@, rest);
        assert("FAILED "@ =~= t.subrange(0, "FAILED "@.len() as int));
    }
}

/// The test for lines that are failures.
pub open spec fn is_failure_finding() -> spec_fn(Seq<char>) -> bool {
    |l: Seq<char>| failure_finding(l) is Some
}

/// No failure among the lines is left out, none is made up, and they stay in order.
pub proof fn law_every_failure_is_read(all: Seq<Seq<char>>)
    ensures
        failure_findings(all) == all.filter(is_failure_finding()).map_values(
            |l: Seq<char>| failure_finding(l)->0,
        ),
    decreases all.len(),
{
    let p = is_failure_finding();
    let f = |l: Seq<char>| failure_finding(l)->0;
    if all.len() == 0 {
        crate::sorting::lemma_choose_none(all, p, f);
    } else {
        law_every_failure_is_read(all.drop_last());
        crate::sorting::lemma_choose_push(all.drop_last(), all.last(), p, f);
        assert(all.drop_last().push(all.last()) =~= all);
    }
}

/// `pytest` has done its work unless a signal ended it, and then all that it printed
/// is read.
pub proof fn law_pytest_is_judged_by_its_exit(hook: PytestAdapter, output: ToolOutput)
    ensures
        output.exit is None ==> hook.judged(output) == VerdictView::Failed(
            "pytest"@ + " was killed by a signal"@,
        ),
        output.exit is Some ==> (hook.judged(output) matches VerdictView::Diagnostics(d) && d
            == failure_findings(lines(lossy_text(output.stdout@)))),
{
}

} // verus!
