//! The published state of a project.

use vstd::prelude::*;
use crate::clock::is_timestamp;
use crate::hooks::{Diagnostic, Place, Severity};
use crate::orchestrator::RunResult;
use crate::paths::{
    components, components_before, lemma_components_order, lemma_text_order, lemma_text_transitive, rank_texts,
    text_before, Rank,
};
use crate::sorting::{
    insert_sorted, lemma_filter_none, lemma_same_contains, lemma_same_count, lemma_sorted_empty, lemma_sorted_push,
    stably_sorted, with_key, Ranked,
};
use crate::text::{chars_of, copy_option, option_text, same_text};

pub use crate::clock::{jdn_to_ymd, now_iso8601};

verus! {

/// The version of the published schema.
pub const SCHEMA_VERSION: u32 = 1;

// ---------------------------------------------------------------------------
// Counters
// ---------------------------------------------------------------------------

/// The running counters of a daemon.
#[derive(Debug)]
pub struct Counters {
    /// The version that the next state gets.
    pub state_version: u64,
    /// The number of finished check passes.
    pub check_passes: u64,
    /// The number of batches so far.
    pub batches: u64,
}

impl Counters {
    /// Counters that have counted nothing.
    pub fn new() -> (r: Counters)
        ensures
            r == (Counters { state_version: 0, check_passes: 0, batches: 0 }),
    {
        Counters { state_version: 0, check_passes: 0, batches: 0 }
    }
}

/// The version for the next state. Versions count up by one.
pub fn next_state_version(counters: &mut Counters) -> (r: u64)
    ensures
        r == old(counters).state_version,
        *final(counters) == (Counters {
            state_version: old(counters).state_version.wrapping_add(1),
            ..*old(counters)
        }),
{
    let version = counters.state_version;
    counters.state_version = version.wrapping_add(1);
    version
}

/// Makes `start` the next version, so that versions go on from an earlier run.
pub fn seed_state_version(counters: &mut Counters, start: u64)
    ensures
        *final(counters) == (Counters { state_version: start, ..*old(counters) }),
{
    counters.state_version = start;
}

/// Counts a check pass. The first one is number 1.
pub fn next_check_pass(counters: &mut Counters) -> (r: u64)
    requires
        old(counters).check_passes < u64::MAX,
    ensures
        r == old(counters).check_passes + 1,
        *final(counters) == (Counters { check_passes: r, ..*old(counters) }),
{
    counters.check_passes = counters.check_passes + 1;
    counters.check_passes
}

/// Sets the number of finished check passes, so that counting goes on from an
/// earlier run.
pub fn seed_check_passes(counters: &mut Counters, start: u64)
    ensures
        *final(counters) == (Counters { check_passes: start, ..*old(counters) }),
{
    counters.check_passes = start;
}

// ---------------------------------------------------------------------------
// Tools
// ---------------------------------------------------------------------------

/// A tool as it is published.
#[derive(Debug)]
pub struct ToolInfo {
    pub name: String,
    pub version: String,
    /// One of `pinned`, `local-venv`, `system-path` and `uvx-latest`.
    pub source: String,
    pub path: Option<String>,
}

/// What is published of a tool.
pub struct ToolInfoView {
    pub name: Seq<char>,
    pub version: Seq<char>,
    pub source: Seq<char>,
    pub path: Option<Seq<char>>,
}

impl View for ToolInfo {
    type V = ToolInfoView;

    open spec fn view(&self) -> ToolInfoView {
        ToolInfoView {
            name: self.name@,
            version: self.version@,
            source: self.source@,
            path: option_text(self.path),
        }
    }
}

impl Clone for ToolInfo {
    fn clone(&self) -> (r: ToolInfo)
        ensures
            r == *self,
    {
        ToolInfo {
            name: self.name.clone(),
            version: self.version.clone(),
            source: self.source.clone(),
            path: copy_option(&self.path),
        }
    }
}

/// What is published of several tools.
pub open spec fn infos(v: Seq<ToolInfo>) -> Seq<ToolInfoView> {
    v.map_values(|t: ToolInfo| t@)
}

/// A copy of a list of tools.
pub fn copy_infos(v: &Vec<ToolInfo>) -> (r: Vec<ToolInfo>)
    ensures
        r@ == v@,
{
    let mut out: Vec<ToolInfo> = Vec::new();
    let mut i: usize = 0;
    while i < v.len()
        invariant
            i <= v@.len(),
            out@ == v@.take(i as int),
        decreases v@.len() - i,
    {
        out.push(v[i].clone());
        i += 1;
        assert(v@.take(i as int) =~= v@.take(i - 1).push(v@[i - 1]));
    }
    assert(v@.take(i as int) =~= v@);
    out
}

/// Whether two tools are the same tool: same name, version and source.
pub open spec fn same_tool(a: ToolInfoView, b: ToolInfoView) -> bool {
    a.name == b.name && a.version == b.version && a.source == b.source
}

/// Whether two lists hold the same tools in the same order.
pub open spec fn same_tools(a: Seq<ToolInfoView>, b: Seq<ToolInfoView>) -> bool {
    a.len() == b.len() && forall|i: int| 0 <= i < a.len() ==> #[trigger] same_tool(a[i], b[i])
}

/// Whether the resolved tools changed between two runs of the daemon.
pub fn tools_changed(prev: &Vec<ToolInfo>, current: &Vec<ToolInfo>) -> (r: bool)
    ensures
        r == !same_tools(infos(prev@), infos(current@)),
{
    if prev.len() != current.len() {
        return true;
    }
    let ghost a = infos(prev@);
    let ghost b = infos(current@);
    let mut i: usize = 0;
    while i < prev.len()
        invariant
            i <= prev@.len(),
            prev@.len() == current@.len(),
            a == infos(prev@),
            b == infos(current@),
            forall|j: int| 0 <= j < i ==> #[trigger] same_tool(a[j], b[j]),
        decreases prev@.len() - i,
    {
        let same = same_text(prev[i].name.as_str(), current[i].name.as_str()) && same_text(
            prev[i].version.as_str(),
            current[i].version.as_str(),
        ) && same_text(prev[i].source.as_str(), current[i].source.as_str());
        assert(same == same_tool(a[i as int], b[i as int]));
        if !same {
            return true;
        }
        i += 1;
    }
    false
}

/// A tool set does not differ from itself, and differing works both ways.
pub proof fn law_tool_change_is_symmetric(a: Seq<ToolInfoView>, b: Seq<ToolInfoView>)
    ensures
        same_tools(a, a),
        same_tools(a, b) == same_tools(b, a),
{
    if same_tools(a, b) {
        assert forall|i: int| 0 <= i < b.len() implies #[trigger] same_tool(b[i], a[i]) by {
            assert(same_tool(a[i], b[i]));
        }
    }
    if same_tools(b, a) {
        assert forall|i: int| 0 <= i < a.len() implies #[trigger] same_tool(a[i], b[i]) by {
            assert(same_tool(b[i], a[i]));
        }
    }
}

// ---------------------------------------------------------------------------
// The state
// ---------------------------------------------------------------------------

/// The failure of a tool to do its work: a timeout, a missing binary, a crash.
#[derive(Debug)]
pub struct ToolError {
    pub tool: String,
    pub message: String,
}

impl Clone for ToolError {
    fn clone(&self) -> (r: ToolError)
        ensures
            r == *self,
    {
        ToolError { tool: self.tool.clone(), message: self.message.clone() }
    }
}

impl Ranked for ToolError {
    type Key = Seq<char>;

    open spec fn key(&self) -> Seq<char> {
        self.tool@
    }

    open spec fn before(a: Seq<char>, b: Seq<char>) -> bool {
        text_before(a, b)
    }

    proof fn order(a: Seq<char>, b: Seq<char>) {
        lemma_text_order(a, b);
    }

    proof fn transitive(a: Seq<char>, b: Seq<char>, c: Seq<char>) {
        lemma_text_transitive(a, b, c);
    }

    fn is_before(&self, other: &ToolError) -> (r: bool) {
        let a = chars_of(self.tool.as_str());
        let b = chars_of(other.tool.as_str());
        proof {
            lemma_text_order(a@, b@);
        }
        match rank_texts(a.as_slice(), b.as_slice()) {
            Rank::Before => true,
            _ => false,
        }
    }
}

/// The figures of a state.
#[derive(Debug, Clone, Copy)]
pub struct Summary {
    pub errors: u32,
    pub warnings: u32,
    /// The number of check passes so far, across restarts.
    pub checks_run: u32,
    /// Whether the tools have changed since the state before.
    pub stale: bool,
}

/// The state of a project, as it is published.
#[derive(Debug, Clone)]
pub struct State {
    pub schema_version: u32,
    /// Goes up by one with every state, across restarts.
    pub state_version: u64,
    pub timestamp: String,
    pub summary: Summary,
    pub diagnostics: Vec<Diagnostic>,
    pub tools: Vec<ToolInfo>,
    pub tool_errors: Vec<ToolError>,
}

/// How many diagnostics have a severity.
pub open spec fn count_of(v: Seq<Diagnostic>, s: Severity) -> nat
    decreases v.len(),
{
    if v.len() == 0 {
        0
    } else {
        count_of(v.drop_last(), s) + if v.last().severity == s {
            1nat
        } else {
            0
        }
    }
}

/// The diagnostics of all results, in order.
pub open spec fn all_diagnostics(results: Seq<RunResult>) -> Seq<Diagnostic>
    decreases results.len(),
{
    if results.len() == 0 {
        Seq::empty()
    } else {
        all_diagnostics(results.drop_last()) + results.last().diagnostics@
    }
}

/// The failures among the results, in order.
pub open spec fn failures(results: Seq<RunResult>) -> Seq<ToolError>
    decreases results.len(),
{
    if results.len() == 0 {
        Seq::empty()
    } else {
        let before = failures(results.drop_last());
        let last = results.last();
        match last.error {
            Some(message) => before.push(ToolError { tool: last.tool, message }),
            None => before,
        }
    }
}

/// The number of passes as it is published.
pub open spec fn shown_passes(passes: int) -> u32 {
    if passes <= u32::MAX {
        passes as u32
    } else {
        u32::MAX
    }
}

/// Whether `state` publishes `diagnostics` and the failures among `results`.
pub open spec fn publishes(
    state: State,
    diagnostics: Seq<Diagnostic>,
    results: Seq<RunResult>,
    tools: Seq<ToolInfo>,
    stale: bool,
    counters: Counters,
) -> bool {
    &&& state.schema_version == SCHEMA_VERSION
    &&& state.state_version == counters.state_version
    &&& state.summary.errors == count_of(diagnostics, Severity::Error) as u32
    &&& state.summary.warnings == count_of(diagnostics, Severity::Warning) as u32
    &&& state.summary.checks_run == shown_passes(counters.check_passes + 1)
    &&& state.summary.stale == stale
    &&& state.diagnostics@ == diagnostics
    &&& state.tools@ == tools
    &&& stably_sorted(failures(results), state.tool_errors@)
}

/// The counters after a state has been made.
pub open spec fn after_state(counters: Counters) -> Counters {
    Counters {
        state_version: counters.state_version.wrapping_add(1),
        check_passes: (counters.check_passes + 1) as u64,
        ..counters
    }
}

/// Counts the diagnostics with a severity.
fn count_severity(v: &Vec<Diagnostic>, s: Severity) -> (r: usize)
    ensures
        r == count_of(v@, s),
{
    let mut n: usize = 0;
    let mut i: usize = 0;
    while i < v.len()
        invariant
            i <= v@.len(),
            n == count_of(v@.take(i as int), s),
            n <= i,
        decreases v@.len() - i,
    {
        assert(v@.take(i + 1).drop_last() =~= v@.take(i as int));
        if v[i].severity == s {
            n += 1;
        }
        i += 1;
    }
    assert(v@.take(i as int) =~= v@);
    n
}

/// Collects the failures among the results, sorted by tool.
fn sorted_failures(results: &Vec<RunResult>) -> (r: Vec<ToolError>)
    ensures
        stably_sorted(failures(results@), r@),
{
    let mut out: Vec<ToolError> = Vec::new();
    let mut i: usize = 0;
    proof {
        lemma_sorted_empty::<ToolError>();
        assert(failures(results@.take(0)) =~= Seq::empty());
    }
    while i < results.len()
        invariant
            i <= results@.len(),
            stably_sorted(failures(results@.take(i as int)), out@),
        decreases results@.len() - i,
    {
        assert(results@.take(i + 1).drop_last() =~= results@.take(i as int));
        if let Some(message) = &results[i].error {
            let error = ToolError { tool: results[i].tool.clone(), message: message.clone() };
            let ghost before = out@;
            insert_sorted(&mut out, error);
            proof {
                lemma_sorted_push(failures(results@.take(i as int)), error, before, out@);
            }
        }
        i += 1;
    }
    assert(results@.take(i as int) =~= results@);
    out
}

/// Inserts diagnostics into a sorted list, one after the other.
pub(crate) fn insert_all(out: &mut Vec<Diagnostic>, more: &Vec<Diagnostic>, input: Ghost<Seq<Diagnostic>>)
    requires
        stably_sorted(input@, old(out)@),
    ensures
        stably_sorted(input@ + more@, final(out)@),
{
    let ghost all = input@;
    let mut i: usize = 0;
    assert(all + more@.take(0) =~= all);
    while i < more.len()
        invariant
            i <= more@.len(),
            stably_sorted(all + more@.take(i as int), out@),
        decreases more@.len() - i,
    {
        let d = more[i].clone();
        let ghost before = out@;
        insert_sorted(out, d);
        proof {
            lemma_sorted_push(all + more@.take(i as int), d, before, out@);
            assert(all + more@.take(i + 1) =~= (all + more@.take(i as int)).push(d));
        }
        i += 1;
    }
    assert(more@.take(i as int) =~= more@);
}

/// Publishes diagnostics that are already sorted.
pub fn publish(
    diagnostics: Vec<Diagnostic>,
    results: &Vec<RunResult>,
    tools: Vec<ToolInfo>,
    stale: bool,
    counters: &mut Counters,
    timestamp: String,
) -> (r: State)
    requires
        old(counters).check_passes < u64::MAX,
    ensures
        publishes(r, diagnostics@, results@, tools@, stale, *old(counters)),
        r.timestamp == timestamp,
        *final(counters) == after_state(*old(counters)),
{
    let errors = count_severity(&diagnostics, Severity::Error);
    let warnings = count_severity(&diagnostics, Severity::Warning);
    let tool_errors = sorted_failures(results);
    let passes = next_check_pass(counters);
    let checks_run: u32 = if passes <= u32::MAX as u64 {
        passes as u32
    } else {
        u32::MAX
    };
    let state_version = next_state_version(counters);
    State {
        schema_version: SCHEMA_VERSION,
        state_version,
        timestamp,
        summary: Summary {
            errors: #[verifier::truncate] (errors as u32),
            warnings: #[verifier::truncate] (warnings as u32),
            checks_run,
            stale,
        },
        diagnostics,
        tools,
        tool_errors,
    }
}

/// Aggregates results into a state with a given timestamp.
pub fn state_at(
    results: &Vec<RunResult>,
    tools: Vec<ToolInfo>,
    stale: bool,
    counters: &mut Counters,
    timestamp: String,
) -> (r: State)
    requires
        old(counters).check_passes < u64::MAX,
    ensures
        publishes(r, r.diagnostics@, results@, tools@, stale, *old(counters)),
        stably_sorted(all_diagnostics(results@), r.diagnostics@),
        r.timestamp == timestamp,
        *final(counters) == after_state(*old(counters)),
{
    let mut sorted: Vec<Diagnostic> = Vec::new();
    let mut i: usize = 0;
    proof {
        lemma_sorted_empty::<Diagnostic>();
        assert(all_diagnostics(results@.take(0)) =~= Seq::empty());
    }
    while i < results.len()
        invariant
            i <= results@.len(),
            stably_sorted(all_diagnostics(results@.take(i as int)), sorted@),
        decreases results@.len() - i,
    {
        insert_all(
            &mut sorted,
            &results[i].diagnostics,
            Ghost(all_diagnostics(results@.take(i as int))),
        );
        assert(results@.take(i + 1).drop_last() =~= results@.take(i as int));
        i += 1;
    }
    assert(results@.take(i as int) =~= results@);
    publish(sorted, results, tools, stale, counters, timestamp)
}

/// Aggregates results into a state, sorted by file, line and column.
pub fn build_state(
    results: &Vec<RunResult>,
    tools: Vec<ToolInfo>,
    stale: bool,
    counters: &mut Counters,
) -> (r: State)
    requires
        old(counters).check_passes < u64::MAX,
    ensures
        publishes(r, r.diagnostics@, results@, tools@, stale, *old(counters)),
        stably_sorted(all_diagnostics(results@), r.diagnostics@),
        exists|secs: u64| #[trigger] is_timestamp(r.timestamp@, secs as int),
        *final(counters) == after_state(*old(counters)),
{
    let timestamp = now_iso8601();
    state_at(results, tools, stale, counters, timestamp)
}

// ---------------------------------------------------------------------------
// Laws
// ---------------------------------------------------------------------------

/// The test for a severity.
pub open spec fn has_severity(s: Severity) -> spec_fn(Diagnostic) -> bool {
    |d: Diagnostic| d.severity == s
}

/// Counting is filtering.
proof fn lemma_count_is_filter(v: Seq<Diagnostic>, s: Severity)
    ensures
        count_of(v, s) == v.filter(has_severity(s)).len(),
    decreases v.len(),
{
    if v.len() == 0 {
        lemma_filter_none(v, has_severity(s));
    } else {
        let t = v.drop_last();
        lemma_count_is_filter(t, s);
        assert(v =~= t.push(v.last()));
        t.lemma_filter_push(v.last(), has_severity(s));
    }
}

/// The figures count what the tools reported: sorting changes no count.
pub proof fn law_counts_do_not_depend_on_order(
    reported: Seq<Diagnostic>,
    published: Seq<Diagnostic>,
    s: Severity,
)
    requires
        stably_sorted(reported, published),
    ensures
        count_of(published, s) == count_of(reported, s),
{
    lemma_count_is_filter(reported, s);
    lemma_count_is_filter(published, s);
    lemma_same_count(reported, published, has_severity(s));
}

/// What stands in the diagnostics of all results stands in those of one.
pub proof fn lemma_reported_by_one(results: Seq<RunResult>, d: Diagnostic)
    ensures
        all_diagnostics(results).contains(d) == exists|i: int|
            0 <= i < results.len() && (#[trigger] results[i]).diagnostics@.contains(d),
    decreases results.len(),
{
    if results.len() > 0 {
        let rest = results.drop_last();
        let last = results.last().diagnostics@;
        lemma_reported_by_one(rest, d);
        let all = all_diagnostics(rest) + last;
        if all.contains(d) {
            let i = choose|i: int| 0 <= i < all.len() && all[i] == d;
            if i < all_diagnostics(rest).len() {
                assert(all_diagnostics(rest)[i] == d);
                let j = choose|j: int|
                    0 <= j < rest.len() && (#[trigger] rest[j]).diagnostics@.contains(d);
                assert(results[j] == rest[j]);
            } else {
                assert(last[i - all_diagnostics(rest).len()] == d);
                assert(results[results.len() - 1].diagnostics@.contains(d));
            }
        }
        if exists|i: int| 0 <= i < results.len() && (#[trigger] results[i]).diagnostics@.contains(
            d,
        ) {
            let i = choose|i: int|
                0 <= i < results.len() && (#[trigger] results[i]).diagnostics@.contains(d);
            if i < rest.len() {
                assert(rest[i] == results[i]);
                let n = choose|n: int|
                    0 <= n < all_diagnostics(rest).len() && all_diagnostics(rest)[n] == d;
                assert(all[n] == d);
            } else {
                let n = choose|n: int| 0 <= n < last.len() && last[n] == d;
                assert(all[all_diagnostics(rest).len() + n] == d);
            }
        }
    }
}

/// A state built from results holds exactly the diagnostics that a tool reported.
pub proof fn law_every_finding_is_published(
    results: Seq<RunResult>,
    published: Seq<Diagnostic>,
    d: Diagnostic,
)
    requires
        stably_sorted(all_diagnostics(results), published),
    ensures
        published.contains(d) == exists|i: int|
            0 <= i < results.len() && (#[trigger] results[i]).diagnostics@.contains(d),
{
    lemma_same_contains(all_diagnostics(results), published, d);
    lemma_reported_by_one(results, d);
}

/// What stands among the failures is the failure of one result.
proof fn lemma_failure_of_one(results: Seq<RunResult>, e: ToolError)
    ensures
        failures(results).contains(e) == exists|i: int|
            0 <= i < results.len() && (#[trigger] results[i]).tool == e.tool && results[i].error
                == Some(e.message),
    decreases results.len(),
{
    if results.len() > 0 {
        let rest = results.drop_last();
        let last = results.last();
        lemma_failure_of_one(rest, e);
        let all = failures(results);
        let before = failures(rest);
        if all.contains(e) {
            let n = choose|n: int| 0 <= n < all.len() && all[n] == e;
            if n < before.len() {
                assert(before[n] == e);
                let i = choose|i: int|
                    0 <= i < rest.len() && (#[trigger] rest[i]).tool == e.tool && rest[i].error
                        == Some(e.message);
                assert(results[i] == rest[i]);
            } else {
                assert(results[results.len() - 1] == last);
            }
        }
        if exists|i: int|
            0 <= i < results.len() && (#[trigger] results[i]).tool == e.tool && results[i].error
                == Some(e.message) {
            let i = choose|i: int|
                0 <= i < results.len() && (#[trigger] results[i]).tool == e.tool
                    && results[i].error == Some(e.message);
            if i < rest.len() {
                assert(rest[i] == results[i]);
                let n = choose|n: int| 0 <= n < before.len() && before[n] == e;
                assert(all[n] == e);
            } else {
                assert(all[before.len() as int] == e);
            }
        }
    }
}

/// A state holds a failure for each result with an error, and no other.
pub proof fn law_every_failure_is_published(
    results: Seq<RunResult>,
    errors: Seq<ToolError>,
    e: ToolError,
)
    requires
        stably_sorted(failures(results), errors),
    ensures
        errors.contains(e) == exists|i: int|
            0 <= i < results.len() && (#[trigger] results[i]).tool == e.tool && results[i].error
                == Some(e.message),
{
    lemma_same_contains(failures(results), errors, e);
    lemma_failure_of_one(results, e);
}

/// No tool has failed where no result holds an error.
pub proof fn law_no_failure_without_error(results: Seq<RunResult>, errors: Seq<ToolError>)
    requires
        stably_sorted(failures(results), errors),
        forall|i: int| 0 <= i < results.len() ==> (#[trigger] results[i]).error is None,
    ensures
        errors.len() == 0,
{
    lemma_no_failures(results);
    if errors.len() > 0 {
        lemma_same_contains(failures(results), errors, errors[0]);
        assert(errors.contains(errors[0]));
    }
}

/// Results without errors hold no failures.
proof fn lemma_no_failures(results: Seq<RunResult>)
    requires
        forall|i: int| 0 <= i < results.len() ==> (#[trigger] results[i]).error is None,
    ensures
        failures(results) == Seq::<ToolError>::empty(),
    decreases results.len(),
{
    if results.len() > 0 {
        let rest = results.drop_last();
        assert forall|i: int| 0 <= i < rest.len() implies (#[trigger] rest[i]).error is None by {
            assert(rest[i] == results[i]);
        }
        lemma_no_failures(rest);
        assert(results[results.len() - 1].error is None);
    }
}

/// Two states made one after the other have consecutive versions and pass counts.
pub proof fn law_versions_count_up(
    first: State,
    second: State,
    d1: Seq<Diagnostic>,
    d2: Seq<Diagnostic>,
    r1: Seq<RunResult>,
    r2: Seq<RunResult>,
    tools: Seq<ToolInfo>,
    stale1: bool,
    stale2: bool,
    counters: Counters,
)
    requires
        counters.state_version < u64::MAX,
        counters.check_passes < u32::MAX - 1,
        publishes(first, d1, r1, tools, stale1, counters),
        publishes(second, d2, r2, tools, stale2, after_state(counters)),
    ensures
        second.state_version == first.state_version + 1,
        second.summary.checks_run == first.summary.checks_run + 1,
{
}

/// A daemon that seeds its counters from the last state of an earlier run goes on
/// where that run stopped.
pub proof fn law_restart_continues_the_count(
    last: State,
    next: State,
    d: Seq<Diagnostic>,
    r: Seq<RunResult>,
    tools: Seq<ToolInfo>,
    stale: bool,
    batches: u64,
)
    requires
        last.state_version < u64::MAX,
        last.summary.checks_run < u32::MAX,
        publishes(
            next,
            d,
            r,
            tools,
            stale,
            Counters {
                state_version: (last.state_version + 1) as u64,
                check_passes: last.summary.checks_run as u64,
                batches,
            },
        ),
    ensures
        next.state_version == last.state_version + 1,
        next.summary.checks_run == last.summary.checks_run + 1,
{
}

/// The figures of a state are the numbers of its diagnostics, and everything else is
/// passed on as it was handed over.
pub proof fn law_state_says_what_it_was_given(
    state: State,
    diagnostics: Seq<Diagnostic>,
    results: Seq<RunResult>,
    tools: Seq<ToolInfo>,
    stale: bool,
    counters: Counters,
)
    requires
        publishes(state, diagnostics, results, tools, stale, counters),
        diagnostics.len() <= u32::MAX,
        counters.check_passes < u64::MAX,
    ensures
        state.schema_version == 1,
        state.state_version == counters.state_version,
        state.summary.errors == diagnostics.filter(
            |d: Diagnostic| d.severity == Severity::Error,
        ).len(),
        state.summary.warnings == diagnostics.filter(
            |d: Diagnostic| d.severity == Severity::Warning,
        ).len(),
        counters.check_passes < u32::MAX ==> state.summary.checks_run == counters.check_passes + 1,
        counters.check_passes >= u32::MAX ==> state.summary.checks_run == u32::MAX,
        state.summary.stale == stale,
        state.diagnostics@ == diagnostics,
        state.tools@ == tools,
{
    let error = |d: Diagnostic| d.severity == Severity::Error;
    let warning = |d: Diagnostic| d.severity == Severity::Warning;
    lemma_count_is_filter(diagnostics, Severity::Error);
    lemma_count_is_filter(diagnostics, Severity::Warning);
    assert(error =~= has_severity(Severity::Error));
    assert(warning =~= has_severity(Severity::Warning));
    diagnostics.lemma_filter_len(error);
    diagnostics.lemma_filter_len(warning);
}

/// The number of diagnostics of a severity is how many of them have it.
pub proof fn law_severities_are_counted(v: Seq<Diagnostic>, d: Diagnostic, s: Severity)
    ensures
        count_of(Seq::empty(), s) == 0,
        count_of(v.push(d), s) == count_of(v, s) + if d.severity == s {
            1int
        } else {
            0int
        },
        count_of(v, s) == v.filter(|x: Diagnostic| x.severity == s).len(),
{
    let test = |x: Diagnostic| x.severity == s;
    assert(v.push(d).drop_last() =~= v);
    lemma_count_is_filter(v, s);
    assert(test =~= has_severity(s));
}

/// The diagnostics of results are those of the first, then those of the others: none
/// is left out, none comes twice.
pub proof fn law_diagnostics_of_results_are_joined(a: Seq<RunResult>, r: RunResult, b: Seq<RunResult>)
    ensures
        all_diagnostics(Seq::empty()).len() == 0,
        all_diagnostics(seq![r]) == r.diagnostics@,
        all_diagnostics(a + b) == all_diagnostics(a) + all_diagnostics(b),
    decreases b.len(),
{
    let none = Seq::<RunResult>::empty();
    assert(seq![r].drop_last() =~= none);
    assert(all_diagnostics(none) =~= Seq::empty());
    assert(all_diagnostics(seq![r]) =~= r.diagnostics@);
    if b.len() == 0 {
        assert(a + b =~= a);
        assert(all_diagnostics(a) + all_diagnostics(b) =~= all_diagnostics(a));
    } else {
        law_diagnostics_of_results_are_joined(a, r, b.drop_last());
        assert((a + b).drop_last() =~= a + b.drop_last());
        assert(all_diagnostics(a + b) =~= all_diagnostics(a) + all_diagnostics(b));
    }
}

/// Each result with an error is a failure of its tool with that error, in order, and
/// no other result is one.
pub proof fn law_every_error_is_a_failure(results: Seq<RunResult>)
    ensures
        failures(results) == results.filter(|r: RunResult| r.error is Some).map_values(
            |r: RunResult| ToolError { tool: r.tool, message: r.error->0 },
        ),
    decreases results.len(),
{
    let p = |r: RunResult| r.error is Some;
    let f = |r: RunResult| ToolError { tool: r.tool, message: r.error->0 };
    if results.len() == 0 {
        crate::sorting::lemma_choose_none(results, p, f);
    } else {
        law_every_error_is_a_failure(results.drop_last());
        crate::sorting::lemma_choose_push(results.drop_last(), results.last(), p, f);
        assert(results.drop_last().push(results.last()) =~= results);
    }
}

/// Published failures come by the name of their tool.
pub proof fn law_failures_are_ordered_by_tool(
    results: Seq<RunResult>,
    errors: Seq<ToolError>,
    i: int,
    j: int,
)
    requires
        stably_sorted(failures(results), errors),
        0 <= i < j < errors.len(),
    ensures
        errors[i].tool@ == errors[j].tool@ || text_before(errors[i].tool@, errors[j].tool@),
{
    lemma_text_order(errors[i].tool@, errors[j].tool@);
    assert(!text_before(errors[j].key(), errors[i].key()));
}

/// Published diagnostics come by file, within a file by line, within a line by column.
pub proof fn law_published_diagnostics_are_ordered(
    reported: Seq<Diagnostic>,
    published: Seq<Diagnostic>,
    i: int,
    j: int,
)
    requires
        stably_sorted(reported, published),
        0 <= i < j < published.len(),
    ensures
        ({
            let a = components(published[i].file@);
            let b = components(published[j].file@);
            &&& a == b || components_before(a, b)
            &&& a == b ==> published[i].line <= published[j].line
            &&& a == b && published[i].line == published[j].line ==> published[i].col
                <= published[j].col
        }),
{
    let a = published[i].key();
    let b = published[j].key();
    lemma_components_order(a.file, b.file);
    assert(!Diagnostic::before(b, a));
}

/// Diagnostics at one place are published as often as they were reported and in the
/// order in which they were reported.
pub proof fn law_equal_places_keep_their_order(
    reported: Seq<Diagnostic>,
    published: Seq<Diagnostic>,
    c: Seq<Seq<char>>,
    line: u32,
    col: u32,
)
    requires
        stably_sorted(reported, published),
    ensures
        published.filter(
            |d: Diagnostic| components(d.file@) == c && d.line == line && d.col == col,
        ) == reported.filter(
            |d: Diagnostic| components(d.file@) == c && d.line == line && d.col == col,
        ),
{
    let k = Place { file: c, line, col };
    let test = |d: Diagnostic| components(d.file@) == c && d.line == line && d.col == col;
    assert(with_key(reported, k) == with_key(published, k));
    assert forall|x: Diagnostic| #[trigger] test(x) == (x.key() == k) by {
        assert(x.key() == k || x.key().file != c || x.key().line != line || x.key().col != col);
    }
    crate::sorting::lemma_with_key_is(reported, k, test);
    crate::sorting::lemma_with_key_is(published, k, test);
}

/// After a state the version and the passes go up by one and the batches stay; the
/// version starts over behind the last one.
pub proof fn law_counters_go_up_by_one(counters: Counters)
    requires
        counters.check_passes < u64::MAX,
    ensures
        after_state(counters).check_passes == counters.check_passes + 1,
        after_state(counters).batches == counters.batches,
        counters.state_version < u64::MAX ==> after_state(counters).state_version
            == counters.state_version + 1,
        counters.state_version == u64::MAX ==> after_state(counters).state_version == 0,
{
}

/// Tool sets are the same exactly where they have the same length and each tool has
/// the same name, version and source; paths do not count.
pub proof fn law_tools_differ_by_name_version_or_source(a: Seq<ToolInfo>, b: Seq<ToolInfo>)
    ensures
        same_tools(infos(a), infos(b)) == (a.len() == b.len() && forall|i: int|
            0 <= i < a.len() ==> (#[trigger] a[i]).name@ == b[i].name@ && a[i].version@
                == b[i].version@ && a[i].source@ == b[i].source@),
{
    let x = infos(a);
    let y = infos(b);
    if same_tools(x, y) {
        assert forall|i: int| 0 <= i < a.len() implies (#[trigger] a[i]).name@ == b[i].name@
            && a[i].version@ == b[i].version@ && a[i].source@ == b[i].source@ by {
            assert(same_tool(x[i], y[i]));
        }
    }
    if a.len() == b.len() && forall|i: int|
        0 <= i < a.len() ==> (#[trigger] a[i]).name@ == b[i].name@ && a[i].version@ == b[i].version@
            && a[i].source@ == b[i].source@ {
        assert forall|i: int| 0 <= i < x.len() implies #[trigger] same_tool(x[i], y[i]) by {
            assert(a[i].name@ == b[i].name@);
        }
    }
}

/// What is published of tools is what they are, one for one.
pub proof fn law_infos_are_complete(v: Seq<ToolInfo>, i: int)
    requires
        0 <= i < v.len(),
    ensures
        infos(v).len() == v.len(),
        infos(v)[i].name == v[i].name@,
        infos(v)[i].version == v[i].version@,
        infos(v)[i].source == v[i].source@,
        (infos(v)[i].path is Some) == (v[i].path is Some),
        v[i].path is Some ==> infos(v)[i].path->0 == v[i].path->0@,
{
}

} // verus!
