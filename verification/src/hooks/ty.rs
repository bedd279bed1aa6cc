//! `ty check`: the type checker.

use vstd::prelude::*;
use vstd::slice::slice_subrange;
use super::{
    findings, killed, plan_run, run_plan, severity_text, Diagnostic, DiagnosticView, Hook, Plan, PlanView, Severity,
    Span, ToolOutput, Verdict, VerdictView,
};
use crate::numbers::{decimal, number, read_number};
use crate::paths::{path_texts, FilePath};
use crate::resolver::ResolvedTool;
use crate::text::{
    chars_of, copy_strings, decode_lossy, find_char, is_white, lines, lines_of, lossy_text, pieces, string_of, strip, stripped,
    texts, trim, trim_colons, trimmed, until, without_colons,
};

verus! {

// ---------------------------------------------------------------------------
// What the output means
// ---------------------------------------------------------------------------

/// The severity that a line starts with, and what follows it.
pub open spec fn severity_prefix(line: Seq<char>) -> Option<(Severity, Seq<char>)> {
    if strip(line, severity_text(Severity::Error)) is Some {
        Some((Severity::Error, strip(line, severity_text(Severity::Error))->0))
    } else if strip(line, severity_text(Severity::Warning)) is Some {
        Some((Severity::Warning, strip(line, severity_text(Severity::Warning))->0))
    } else if strip(line, severity_text(Severity::Info)) is Some {
        Some((Severity::Info, strip(line, severity_text(Severity::Info))->0))
    } else {
        None
    }
}

/// Splits `[code]: message` into its parts. Without a closed bracket at the start
/// there is no code.
pub open spec fn code_and_message(s: Seq<char>) -> (Option<Seq<char>>, Seq<char>) {
    let end = until(s, ']') as int;
    if s.len() > 0 && s[0] == '[' && end < s.len() {
        (Some(s.subrange(1, end)), trim(trim_colons(s.skip(end + 1))))
    } else {
        (None, trim(trim_colons(s)))
    }
}

/// Reads `file:line:col` or `file:line`. A column that is no number counts as 0.
pub open spec fn location(s: Seq<char>) -> Option<(Seq<char>, u32, u32)> {
    let a = until(s, ':') as int;
    let rest = s.skip(a + 1);
    let b = until(rest, ':') as int;
    let line = number(trim(rest.take(b)));
    let col = if b < rest.len() {
        number(trim(rest.skip(b + 1)))
    } else {
        None
    };
    if a == 0 || a >= s.len() || line is None {
        None
    } else {
        Some(
            (
                s.take(a),
                line->0,
                match col {
                    Some(c) => c,
                    None => 0,
                },
            ),
        )
    }
}

/// The location on a line `--> location`.
pub open spec fn arrow_location(line: Seq<char>) -> Option<(Seq<char>, u32, u32)> {
    match strip(trim(line), "-->"@) {
        Some(rest) => location(trim(rest)),
        None => None,
    }
}

/// The diagnostic that a headline and a location make.
pub open spec fn ty_finding(
    severity: Severity,
    headline: Seq<char>,
    place: Option<(Seq<char>, u32, u32)>,
) -> DiagnosticView {
    DiagnosticView {
        tool: "ty"@,
        file: match place {
            Some(p) => p.0,
            None => Seq::empty(),
        },
        line: match place {
            Some(p) => p.1,
            None => 0,
        },
        col: match place {
            Some(p) => p.2,
            None => 0,
        },
        severity,
        code: code_and_message(headline).0,
        message: code_and_message(headline).1,
    }
}

/// The diagnostics in a sequence of lines: one for each headline, located by the
/// line after it where that is a location.
pub open spec fn ty_findings(all: Seq<Seq<char>>) -> Seq<DiagnosticView>
    decreases all.len(),
{
    if all.len() == 0 {
        Seq::empty()
    } else {
        match severity_prefix(trim(all[0])) {
            None => ty_findings(all.skip(1)),
            Some((severity, headline)) => {
                let place = if all.len() > 1 {
                    arrow_location(all[1])
                } else {
                    None
                };
                let rest = if place is Some {
                    ty_findings(all.skip(2))
                } else {
                    ty_findings(all.skip(1))
                };
                seq![ty_finding(severity, headline, place)] + rest
            },
        }
    }
}

// ---------------------------------------------------------------------------
// Parsing
// ---------------------------------------------------------------------------

/// Takes the severity off the start of a line.
pub fn parse_severity_prefix(line: &[char]) -> (r: Option<(Severity, &[char])>)
    ensures
        match r {
            Some((s, rest)) => severity_prefix(line@) == Some((s, rest@)),
            None => severity_prefix(line@) is None,
        },
{
    if let Some(rest) = stripped(line, "error") {
        return Some((Severity::Error, rest));
    }
    if let Some(rest) = stripped(line, "warning") {
        return Some((Severity::Warning, rest));
    }
    if let Some(rest) = stripped(line, "info") {
        return Some((Severity::Info, rest));
    }
    None
}

/// Splits a headline into code and message.
pub fn parse_code_and_message(s: &[char]) -> (r: (Option<String>, String))
    ensures
        crate::text::option_text(r.0) == code_and_message(s@).0,
        r.1@ == code_and_message(s@).1,
{
    let total: usize = s.len();
    let end = find_char(s, ']');
    if total > 0 && s[0] == '[' && end < total {
        let code = slice_subrange(s, 1, end);
        let rest = slice_subrange(s, end + 1, total);
        assert(rest@ =~= s@.skip(end + 1));
        let message = trimmed(without_colons(rest));
        return (Some(string_of(code)), string_of(message));
    }
    (None, string_of(trimmed(without_colons(s))))
}

/// Reads `file:line:col` or `file:line`.
pub fn parse_location(loc: &[char]) -> (r: Option<(FilePath, u32, u32)>)
    ensures
        match r {
            Some((file, line, col)) => location(loc@) == Some((file@, line, col)),
            None => location(loc@) is None,
        },
{
    let total: usize = loc.len();
    let a = find_char(loc, ':');
    if a == 0 || a >= total {
        return None;
    }
    let file = slice_subrange(loc, 0, a);
    assert(file@ =~= loc@.take(a as int));
    let rest = slice_subrange(loc, a + 1, total);
    assert(rest@ =~= loc@.skip(a + 1));
    let rest_total: usize = rest.len();
    let b = find_char(rest, ':');
    let line_part = slice_subrange(rest, 0, b);
    assert(line_part@ =~= rest@.take(b as int));
    match read_number(trimmed(line_part)) {
        None => None,
        Some(line) => {
            let mut col: u32 = 0;
            if b < rest_total {
                let col_part = slice_subrange(rest, b + 1, rest_total);
                assert(col_part@ =~= rest@.skip(b + 1));
                if let Some(c) = read_number(trimmed(col_part)) {
                    col = c;
                }
            }
            Some((FilePath { text: string_of(file) }, line, col))
        },
    }
}

/// Reads the location off a line `--> location`.
fn parse_arrow(line: &[char]) -> (r: Option<(FilePath, u32, u32)>)
    ensures
        match r {
            Some((file, ln, col)) => arrow_location(line@) == Some((file@, ln, col)),
            None => arrow_location(line@) is None,
        },
{
    match stripped(trimmed(line), "-->") {
        None => None,
        Some(rest) => parse_location(trimmed(rest)),
    }
}

/// Parses the text that `ty check` prints:
///
/// ```text
/// error[invalid-assignment]: Cannot assign to constant `PI`
///   --> src/main.py:1:1
/// ```
pub fn parse_ty_output(text: &str) -> (r: Vec<Diagnostic>)
    ensures
        findings(r@) == ty_findings(lines(text@)),
{
    let chars = chars_of(text);
    let all = lines_of(chars.as_slice());
    let ghost views = pieces(all@);
    let mut out: Vec<Diagnostic> = Vec::new();
    let mut i: usize = 0;
    proof {
        assert(views.skip(0) =~= views);
        assert(findings(out@) + ty_findings(views) =~= ty_findings(views));
    }
    while i < all.len()
        invariant
            i <= all@.len(),
            views == pieces(all@),
            views == lines(text@),
            findings(out@) + ty_findings(views.skip(i as int)) == ty_findings(views),
        decreases all@.len() - i,
    {
        let ghost rest = views.skip(i as int);
        let ghost before = out@;
        proof {
            assert(rest[0] == all@[i as int]@);
            assert(rest.skip(1) =~= views.skip(i + 1));
        }
        let line = trimmed(all[i].as_slice());
        if let Some((severity, headline)) = parse_severity_prefix(line) {
            let (code, message) = parse_code_and_message(headline);
            let place = if i + 1 < all.len() {
                assert(rest[1] == all@[i + 1]@);
                parse_arrow(all[i + 1].as_slice())
            } else {
                None
            };
            let located = place.is_some();
            let (file, ln, col) = match place {
                Some(p) => p,
                None => (FilePath::new(""), 0u32, 0u32),
            };
            proof {
                reveal_strlit("");
                assert(""@ =~= Seq::<char>::empty());
            }
            out.push(
                Diagnostic { tool: "ty".to_owned(), file, line: ln, col, severity, code, message },
            );
            proof {
                let pushed = out@.last()@;
                assert(findings(out@) =~= findings(before).push(pushed));
                if located {
                    assert(rest.skip(2) =~= views.skip(i + 2));
                }
                let tail = if located {
                    ty_findings(views.skip(i + 2))
                } else {
                    ty_findings(views.skip(i + 1))
                };
                assert(ty_findings(rest) == seq![pushed] + tail);
                assert(findings(before) + (seq![pushed] + tail) =~= findings(out@) + tail);
            }
            if located {
                i += 2;
                continue;
            }
        }
        i += 1;
    }
    assert(views.skip(i as int) =~= Seq::<Seq<char>>::empty());
    assert(findings(out@) + ty_findings(views.skip(i as int)) =~= findings(out@));
    out
}

// ---------------------------------------------------------------------------
// The tool
// ---------------------------------------------------------------------------

/// Runs `ty check` on the changed files.
#[derive(Debug)]
pub struct TyAdapter {
    pub invocation: Vec<String>,
    pub timeout: Span,
}

impl TyAdapter {
    /// Uses the resolved `ty`.
    pub fn new(resolved: &ResolvedTool, timeout: Span) -> (r: TyAdapter)
        ensures
            r.invocation@ == resolved.invocation@,
            r.timeout == timeout,
    {
        TyAdapter { invocation: copy_strings(&resolved.invocation), timeout }
    }
}

impl Hook for TyAdapter {
    open spec fn label(&self) -> Seq<char> {
        "ty"@
    }

    open spec fn probed(&self, files: Seq<FilePath>) -> Seq<Seq<char>> {
        Seq::empty()
    }

    open spec fn planned(&self, files: Seq<FilePath>, exist: Seq<bool>) -> PlanView {
        run_plan(
            "ty"@,
            texts(self.invocation@),
            seq!["check"@],
            path_texts(files),
            None,
            self.timeout,
        )
    }

    /// The exit code only tells whether there were findings.
    open spec fn judged(&self, output: ToolOutput) -> VerdictView {
        if output.exit is None {
            VerdictView::Failed("ty"@ + " was killed by a signal"@)
        } else {
            VerdictView::Diagnostics(ty_findings(lines(lossy_text(output.stdout@))))
        }
    }

    fn name(&self) -> (r: &'static str) {
        "ty"
    }

    fn probes(&self, files: &Vec<FilePath>) -> (r: Vec<FilePath>) {
        let out: Vec<FilePath> = Vec::new();
        assert(path_texts(out@) =~= Seq::empty());
        out
    }

    fn plan(&self, files: &Vec<FilePath>, exist: &Vec<bool>) -> (r: Plan) {
        let fixed = vec!["check".to_owned()];
        assert(texts(fixed@) =~= seq!["check"@]);
        plan_run("ty", &self.invocation, fixed, files, None, self.timeout)
    }

    fn judge(&self, output: &ToolOutput) -> (r: Verdict) {
        if output.exit.is_none() {
            return Verdict::Failed(killed("ty"));
        }
        let text = decode_lossy(output.stdout.as_slice());
        Verdict::Diagnostics(parse_ty_output(text.as_str()))
    }
}

// ---------------------------------------------------------------------------
// Laws
// ---------------------------------------------------------------------------

/// Whether a text has no white space at its ends.
pub open spec fn is_tight(s: Seq<char>) -> bool {
    s.len() > 0 ==> !is_white(s[0]) && !is_white(s.last())
}

/// A headline is split as it was put together, whatever brackets the message holds:
/// the code ends at the first closing bracket.
pub proof fn law_headline_is_read_back(c: Seq<char>, m: Seq<char>)
    requires
        forall|i: int| 0 <= i < c.len() ==> #[trigger] c[i] != ']',
        is_tight(m),
    ensures
        code_and_message("["@ + c + "]: "@ + m) == (Some(c), m),
{
    reveal_strlit("[");
    reveal_strlit("]: ");
    let s = "["@ + c + "]: "@ + m;
    let n = c.len() + 1;
    assert forall|i: int| 0 <= i < n implies s[i] != ']' by {
        if i > 0 {
            assert(s[i] == c[i - 1]);
        }
    }
    crate::text::lemma_until_is(s, ']', n);
    assert(s.subrange(1, n as int) =~= c);
    let rest = s.skip(n as int + 1);
    let blank = seq![' '];
    assert(rest =~= seq![':'] + (blank + m));
    crate::text::law_colons_are_taken_off(seq![':'], blank + m);
    assert(blank + m =~= blank + m + Seq::<char>::empty());
    crate::text::law_trimming_takes_white_ends(blank, m, Seq::empty());
}

/// Without a code, or with a bracket that is not closed, all of a headline is the
/// message.
pub proof fn law_headline_without_code_is_message(m: Seq<char>)
    requires
        is_tight(m),
        m.len() > 0 ==> m[0] != ':',
        m.len() > 0 && m[0] == '[' ==> forall|i: int| 0 <= i < m.len() ==> #[trigger] m[i] != ']',
    ensures
        code_and_message(m) == (None::<Seq<char>>, m),
        code_and_message(": "@ + m) == (None::<Seq<char>>, m),
{
    reveal_strlit(": ");
    let nothing = Seq::<char>::empty();
    if m.len() > 0 && m[0] == '[' {
        crate::text::lemma_until_is(m, ']', m.len());
    }
    assert(nothing + m =~= m);
    crate::text::law_colons_are_taken_off(nothing, m);
    assert(nothing + m + nothing =~= m);
    crate::text::law_trimming_takes_white_ends(nothing, m, nothing);
    let blank = seq![' '];
    assert(": "@ + m =~= seq![':'] + (blank + m));
    crate::text::law_colons_are_taken_off(seq![':'], blank + m);
    assert(blank + m =~= blank + m + nothing);
    crate::text::law_trimming_takes_white_ends(blank, m, nothing);
}

/// Decimal digits are neither white nor colons.
proof fn lemma_decimal_is_plain(n: u32)
    ensures
        trim(decimal(n as nat)) == decimal(n as nat),
        forall|i: int| 0 <= i < decimal(n as nat).len() ==> #[trigger] decimal(n as nat)[i] != ':',
{
    let d = decimal(n as nat);
    crate::numbers::lemma_decimal_value(n as nat);
    assert forall|i: int| 0 <= i < d.len() implies #[trigger] d[i] != ':' by {
        assert(crate::numbers::is_digit(d[i]));
    }
    assert(crate::numbers::is_digit(d[0]));
    assert(crate::numbers::is_digit(d[d.len() - 1]));
    let nothing = Seq::<char>::empty();
    assert(nothing + d + nothing =~= d);
    crate::text::law_trimming_takes_white_ends(nothing, d, nothing);
}

/// A location is read back as it was put together, with or without a column.
pub proof fn law_location_is_read_back(file: Seq<char>, line: u32, col: u32)
    requires
        file.len() > 0,
        forall|i: int| 0 <= i < file.len() ==> #[trigger] file[i] != ':',
    ensures
        location(file + ":"@ + decimal(line as nat) + ":"@ + decimal(col as nat)) == Some(
            (file, line, col),
        ),
        location(file + ":"@ + decimal(line as nat)) == Some((file, line, 0u32)),
        location(file) is None,
{
    reveal_strlit(":");
    let l = decimal(line as nat);
    let c = decimal(col as nat);
    lemma_decimal_is_plain(line);
    lemma_decimal_is_plain(col);
    crate::numbers::law_number_of_decimal(line);
    crate::numbers::law_number_of_decimal(col);
    crate::text::lemma_until_is(file, ':', file.len());
    let s = file + ":"@ + l + ":"@ + c;
    assert forall|i: int| 0 <= i < file.len() implies s[i] != ':' by {
        assert(s[i] == file[i]);
    }
    crate::text::lemma_until_is(s, ':', file.len());
    assert(s.take(file.len() as int) =~= file);
    let rest = s.skip(file.len() as int + 1);
    assert(rest =~= l + ":"@ + c);
    assert forall|i: int| 0 <= i < l.len() implies rest[i] != ':' by {
        assert(rest[i] == l[i]);
    }
    crate::text::lemma_until_is(rest, ':', l.len());
    assert(rest.take(l.len() as int) =~= l);
    assert(rest.skip(l.len() as int + 1) =~= c);
    let t = file + ":"@ + l;
    assert forall|i: int| 0 <= i < file.len() implies t[i] != ':' by {
        assert(t[i] == file[i]);
    }
    crate::text::lemma_until_is(t, ':', file.len());
    assert(t.take(file.len() as int) =~= file);
    assert(t.skip(file.len() as int + 1) =~= l);
    crate::text::lemma_until_is(l, ':', l.len());
    assert(l.take(l.len() as int) =~= l);
}

/// A line that starts with a severity has that severity, and the rest follows it.
pub proof fn law_severity_is_read_back(severity: Severity, rest: Seq<char>)
    ensures
        severity_prefix(severity_text(severity) + rest) == Some((severity, rest)),
        severity_text(Severity::Error) == "error"@,
        severity_text(Severity::Warning) == "warning"@,
        severity_text(Severity::Info) == "info"@,
{
    reveal_strlit("error");
    reveal_strlit("warning");
    reveal_strlit("info");
    let s = severity_text(severity) + rest;
    crate::text::law_stripping_undoes_prefixing(s, severity_text(severity), rest);
    if severity != Severity::Error {
        if let Some(r) = strip(s, "error"@) {
            crate::text::law_stripping_undoes_prefixing(s, "error"@, r);
            assert(s[0] == 'e');
        }
    }
    if severity == Severity::Info {
        if let Some(r) = strip(s, "warning"@) {
            crate::text::law_stripping_undoes_prefixing(s, "warning"@, r);
            assert(s[0] == 'w');
        }
    }
}

/// A line that starts with no severity has none.
pub proof fn law_other_lines_have_no_severity(line: Seq<char>)
    requires
        !"error"@.is_prefix_of(line),
        !"warning"@.is_prefix_of(line),
        !"info"@.is_prefix_of(line),
    ensures
        severity_prefix(line) is None,
{
    let words = seq!["error"@, "warning"@, "info"@];
    assert forall|k: int| 0 <= k < 3 implies strip(line, #[trigger] words[k]) is None by {
        let w = words[k];
        if let Some(rest) = strip(line, w) {
            crate::text::law_stripping_undoes_prefixing(line, w, rest);
            assert(w =~= line.subrange(0, w.len() as int));
        }
    }
    assert(words[0] == "error"@ && words[1] == "warning"@ && words[2] == "info"@);
}

/// What `ty` prints of a finding is read back, in whatever text it stands.
pub proof fn law_printed_finding_is_read_back(
    severity: Severity,
    c: Seq<char>,
    m: Seq<char>,
    file: Seq<char>,
    line: u32,
    col: u32,
    rest: Seq<Seq<char>>,
)
    requires
        forall|i: int| 0 <= i < c.len() ==> #[trigger] c[i] != ']',
        m.len() > 0,
        is_tight(m),
        file.len() > 0,
        is_tight(file),
        forall|i: int| 0 <= i < file.len() ==> #[trigger] file[i] != ':',
    ensures
        ({
            let headline = severity_text(severity) + ("["@ + c + "]: "@ + m);
            let arrow = "  --> "@ + (file + ":"@ + decimal(line as nat) + ":"@ + decimal(
                col as nat,
            ));
            ty_findings(seq![headline, arrow] + rest) == seq![
                DiagnosticView {
                    tool: "ty"@,
                    file,
                    line,
                    col,
                    severity,
                    code: Some(c),
                    message: m,
                },
            ] + ty_findings(rest)
        }),
{
    reveal_strlit("error");
    reveal_strlit("warning");
    reveal_strlit("info");
    reveal_strlit("[");
    reveal_strlit("]: ");
    reveal_strlit(":");
    reveal_strlit("-->");
    reveal_strlit("  --> ");
    let nothing = Seq::<char>::empty();
    let tail = "["@ + c + "]: "@ + m;
    let headline = severity_text(severity) + tail;
    let place = file + ":"@ + decimal(line as nat) + ":"@ + decimal(col as nat);
    let arrow = "  --> "@ + place;
    let all = seq![headline, arrow] + rest;
    assert(headline.last() == m.last());
    assert(nothing + headline + nothing =~= headline);
    crate::text::law_trimming_takes_white_ends(nothing, headline, nothing);
    law_severity_is_read_back(severity, tail);
    law_headline_is_read_back(c, m);
    let d = decimal(col as nat);
    crate::numbers::lemma_decimal_value(col as nat);
    assert(crate::numbers::is_digit(d[d.len() - 1]));
    assert(place.last() == d[d.len() - 1]);
    assert(place[0] == file[0]);
    let two = seq![' ', ' '];
    let one = seq![' '];
    assert(arrow =~= two + ("-->"@ + (one + place)) + nothing);
    crate::text::law_trimming_takes_white_ends(two, "-->"@ + (one + place), nothing);
    crate::text::law_stripping_undoes_prefixing("-->"@ + (one + place), "-->"@, one + place);
    assert(one + place =~= one + place + nothing);
    crate::text::law_trimming_takes_white_ends(one, place, nothing);
    law_location_is_read_back(file, line, col);
    assert(all[0] == headline && all[1] == arrow);
    assert(all.skip(2) =~= rest);
}

/// Lines that start with no severity are passed over.
pub proof fn law_other_lines_are_passed_over(l: Seq<char>, rest: Seq<Seq<char>>)
    requires
        severity_prefix(trim(l)) is None,
    ensures
        ty_findings(seq![l] + rest) == ty_findings(rest),
        ty_findings(Seq::empty()).len() == 0,
{
    assert((seq![l] + rest)[0] == l);
    assert((seq![l] + rest).skip(1) =~= rest);
}

/// A headline without a location behind it is a finding without a place, and the
/// line behind it is read for itself.
pub proof fn law_finding_without_location_is_kept(
    l: Seq<char>,
    severity: Severity,
    headline: Seq<char>,
    rest: Seq<Seq<char>>,
)
    requires
        severity_prefix(trim(l)) == Some((severity, headline)),
        rest.len() > 0 ==> arrow_location(rest[0]) is None,
    ensures
        ty_findings(seq![l] + rest) == seq![
            DiagnosticView {
                tool: "ty"@,
                file: Seq::empty(),
                line: 0,
                col: 0,
                severity,
                code: code_and_message(headline).0,
                message: code_and_message(headline).1,
            },
        ] + ty_findings(rest),
{
    let all = seq![l] + rest;
    assert(all[0] == l);
    assert(all.skip(1) =~= rest);
    if rest.len() > 0 {
        assert(all[1] == rest[0]);
    }
}

/// `ty` has done its work unless a signal ended it, and then all that it printed is
/// read.
pub proof fn law_ty_is_judged_by_its_exit(hook: TyAdapter, output: ToolOutput)
    ensures
        output.exit is None ==> hook.judged(output) == VerdictView::Failed(
            "ty"@ + " was killed by a signal"@,
        ),
        output.exit is Some ==> (hook.judged(output) matches VerdictView::Diagnostics(d) && d
            == ty_findings(lines(lossy_text(output.stdout@)))),
{
}

/// `ty` is run with its fixed arguments and then every changed file, in order.
pub proof fn law_ty_is_given_every_file(hook: TyAdapter, files: Seq<FilePath>, exist: Seq<bool>)
    requires
        hook.invocation@.len() > 0,
    ensures
        hook.probed(files).len() == 0,
        hook.planned(files, exist) matches PlanView::Run(c) && {
            let n = hook.invocation@.len() - 1;
            &&& c.program == hook.invocation@[0]@
            &&& c.args.len() == n + 1 + files.len()
            &&& forall|i: int| 0 <= i < n ==> #[trigger] c.args[i] == hook.invocation@[i + 1]@
            &&& c.args[n + 0] == "check"@
            &&& forall|i: int|
                0 <= i < files.len() ==> #[trigger] c.args[n + 1 + i] == files[i]@
            &&& c.cwd is None
            &&& c.timeout == hook.timeout
        },
{
    let n = hook.invocation@.len() - 1;
    let given = texts(hook.invocation@);
    assert(given[0] == hook.invocation@[0]@);
    if let PlanView::Run(c) = hook.planned(files, exist) {
        assert forall|i: int| 0 <= i < n implies #[trigger] c.args[i] == hook.invocation@[i + 1]@ by {
            assert(given.skip(1)[i] == given[i + 1]);
        }
        assert forall|i: int| 0 <= i < files.len() implies #[trigger] c.args[n + 1 + i]
            == files[i]@ by {
            assert(path_texts(files)[i] == files[i]@);
        }
    }
}

/// A line tells a location exactly where it starts with an arrow, and then it is the one
/// behind the arrow, whatever white space stands around it.
pub proof fn law_arrow_tells_the_location(
    a: Seq<char>,
    blanks: Seq<char>,
    place: Seq<char>,
    b: Seq<char>,
    other: Seq<char>,
)
    requires
        forall|i: int| 0 <= i < a.len() ==> is_white(#[trigger] a[i]),
        forall|i: int| 0 <= i < blanks.len() ==> is_white(#[trigger] blanks[i]),
        forall|i: int| 0 <= i < b.len() ==> is_white(#[trigger] b[i]),
        place.len() > 0,
        is_tight(place),
        !"-->"@.is_prefix_of(trim(other)),
    ensures
        arrow_location(a + ("-->"@ + (blanks + place)) + b) == location(place),
        arrow_location(other) is None,
{
    reveal_strlit("-->");
    let nothing = Seq::<char>::empty();
    let t = "-->"@ + (blanks + place);
    assert(t.last() == place.last());
    crate::text::law_trimming_takes_white_ends(a, t, b);
    crate::text::law_stripping_undoes_prefixing(t, "-->"@, blanks + place);
    assert(blanks + place =~= blanks + place + nothing);
    crate::text::law_trimming_takes_white_ends(blanks, place, nothing);
    let o = trim(other);
    if let Some(rest) = strip(o, "-->"@) {
        crate::text::law_stripping_undoes_prefixing(o, "-->"@, rest);
        assert("-->"@ =~= o.subrange(0, "-->"@.len() as int));
    }
}

} // verus!
