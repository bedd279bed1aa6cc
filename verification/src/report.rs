//! What the daemon prints and leaves behind for people and programs.

use vstd::prelude::*;
use crate::hooks::{findings, severity_text, Diagnostic, DiagnosticView, Severity};
use crate::numbers::{decimal, hex_digit, push_decimal};
use crate::paths::{components, is_under, windows_text, FilePath};
use crate::state::{infos, ToolInfo, ToolInfoView};
use crate::text::{same_text, texts};

verus! {

// ---------------------------------------------------------------------------
// Diagnostics
// ---------------------------------------------------------------------------

/// A diagnostic as one line: `file:line:col: severity[tool/code] message`.
pub open spec fn line_text(d: DiagnosticView) -> Seq<char> {
    d.file + ":"@ + decimal(d.line as nat) + ":"@ + decimal(d.col as nat) + ": "@ + severity_text(
        d.severity,
    ) + "["@ + d.tool + (match d.code {
        Some(c) => "/"@ + c,
        None => Seq::empty(),
    }) + "] "@ + d.message
}

/// A diagnostic in the style of compilers.
pub fn diagnostic_line(d: &Diagnostic) -> (r: String)
    ensures
        r@ == line_text(d@),
{
    let mut out = d.file.as_str().to_owned();
    out.append(":");
    push_decimal(&mut out, d.line as u64);
    out.append(":");
    push_decimal(&mut out, d.col as u64);
    out.append(": ");
    out.append(d.severity.label());
    out.append("[");
    out.append(d.tool.as_str());
    let ghost head = out@;
    match &d.code {
        Some(c) => {
            out.append("/");
            out.append(c.as_str());
            assert(out@ =~= head + ("/"@ + c@));
        },
        None => {
            assert(head =~= head + Seq::<char>::empty());
        },
    }
    out.append("] ");
    out.append(d.message.as_str());
    out
}

/// The lines for the diagnostics of a check. For the first check of a project,
/// which would be a flood, there are none.
pub fn streamed_lines(diagnostics: &Vec<Diagnostic>, first: bool) -> (r: Vec<String>)
    ensures
        texts(r@) == if first {
            Seq::empty()
        } else {
            findings(diagnostics@).map_values(|d: DiagnosticView| line_text(d))
        },
{
    let mut out: Vec<String> = Vec::new();
    if first {
        assert(texts(out@) =~= Seq::empty());
        return out;
    }
    let ghost f = |d: DiagnosticView| line_text(d);
    let ghost all = findings(diagnostics@);
    let mut i: usize = 0;
    while i < diagnostics.len()
        invariant
            i <= diagnostics@.len(),
            all == findings(diagnostics@),
            f == |d: DiagnosticView| line_text(d),
            texts(out@) == all.take(i as int).map_values(f),
        decreases diagnostics@.len() - i,
    {
        let ghost before = out@;
        out.push(diagnostic_line(&diagnostics[i]));
        proof {
            assert(texts(out@) =~= texts(before).push(f(all[i as int])));
            assert(all.take(i + 1).map_values(f) =~= all.take(i as int).map_values(f).push(
                f(all[i as int]),
            ));
        }
        i += 1;
    }
    assert(all.take(i as int) =~= all);
    out
}

/// What the daemon says when it has been told to stop.
pub fn stopped_line(agent: bool) -> (r: &'static str)
    ensures
        r@ == if agent {
            "{\"event\":\"stopped\"}"@
        } else {
            "Stopped (SIGTERM received)."@
        },
{
    if agent {
        "{\"event\":\"stopped\"}"
    } else {
        "Stopped (SIGTERM received)."
    }
}

/// A count with its noun, which takes an `s` unless there is one.
pub open spec fn counted(n: nat, noun: Seq<char>) -> Seq<char> {
    decimal(n) + " "@ + noun + if n == 1 {
        Seq::empty()
    } else {
        "s"@
    }
}

/// Appends a count with its noun.
fn push_counted(out: &mut String, n: u64, noun: &str)
    ensures
        final(out)@ == old(out)@ + counted(n as nat, noun@),
{
    let ghost start = out@;
    push_decimal(out, n);
    out.append(" ");
    out.append(noun);
    if n != 1 {
        out.append("s");
    }
    assert(out@ =~= start + counted(n as nat, noun@));
}

/// The line that ends a check.
pub open spec fn footer_text(
    errors: nat,
    warnings: nat,
    files: nat,
    seconds: Seq<char>,
) -> Seq<char> {
    counted(errors, "error"@) + ", "@ + counted(warnings, "warning"@) + " ("@ + decimal(files)
        + " files checked, "@ + seconds + "s)"@
}

/// The line that ends a check. `seconds` is how long it took.
pub fn footer(errors: u32, warnings: u32, files: usize, seconds: &str) -> (r: String)
    ensures
        r@ == footer_text(errors as nat, warnings as nat, files as nat, seconds@),
{
    let mut out = String::new();
    push_counted(&mut out, errors as u64, "error");
    out.append(", ");
    push_counted(&mut out, warnings as u64, "warning");
    out.append(" (");
    push_decimal(&mut out, files as u64);
    out.append(" files checked, ");
    out.append(seconds);
    out.append("s)");
    assert(out@ =~= footer_text(errors as nat, warnings as nat, files as nat, seconds@));
    out
}

// ---------------------------------------------------------------------------
// Tools
// ---------------------------------------------------------------------------

/// A tool in the list of resolved tools.
pub open spec fn tool_text(t: ToolInfoView) -> Seq<char> {
    t.name + "="@ + t.version + " ("@ + t.source + ")"@
}

/// The resolved tools with commas between them.
pub open spec fn tools_text(v: Seq<ToolInfoView>) -> Seq<char>
    decreases v.len(),
{
    if v.len() == 0 {
        Seq::empty()
    } else if v.len() == 1 {
        tool_text(v[0])
    } else {
        tools_text(v.drop_last()) + ", "@ + tool_text(v.last())
    }
}

/// The line that lists the resolved tools, where there are any.
pub fn resolved_line(tools: &Vec<ToolInfo>) -> (r: Option<String>)
    ensures
        match r {
            Some(line) => tools@.len() > 0 && line@ == "resolved: "@ + tools_text(infos(tools@)),
            None => tools@.len() == 0,
        },
{
    if tools.len() == 0 {
        return None;
    }
    let ghost all = infos(tools@);
    let mut out = "resolved: ".to_owned();
    let ghost start = out@;
    let mut i: usize = 0;
    assert(start + tools_text(all.take(0)) =~= start);
    while i < tools.len()
        invariant
            i <= tools@.len(),
            all == infos(tools@),
            start == "resolved: "@,
            out@ == start + tools_text(all.take(i as int)),
        decreases tools@.len() - i,
    {
        let ghost before = out@;
        if i > 0 {
            out.append(", ");
        }
        out.append(tools[i].name.as_str());
        out.append("=");
        out.append(tools[i].version.as_str());
        out.append(" (");
        out.append(tools[i].source.as_str());
        out.append(")");
        proof {
            let last = tool_text(all[i as int]);
            assert(all.take(i + 1).drop_last() =~= all.take(i as int));
            assert(all.take(i + 1).last() == all[i as int]);
            if i == 0 {
                assert(out@ =~= before + last);
                assert(tools_text(all.take(0)) =~= Seq::empty());
                assert(out@ =~= start + tools_text(all.take(1)));
            } else {
                assert(out@ =~= start + (tools_text(all.take(i as int)) + ", "@ + last));
            }
        }
        i += 1;
    }
    assert(all.take(i as int) =~= all);
    Some(out)
}

/// Whether a tool was found on the search path, but outside the project.
pub open spec fn is_foreign(t: ToolInfoView, root: Seq<char>) -> bool {
    t.source == "system-path"@ && (t.path matches Some(p) && !is_under(p, root))
}

/// A path as the system writes it.
pub open spec fn system_text(p: Seq<char>, windows: bool) -> Seq<char> {
    if windows {
        windows_text(p)
    } else {
        p
    }
}

/// A path as the system writes it.
pub fn to_system(p: &FilePath, windows: bool) -> (r: String)
    ensures
        r@ == system_text(p@, windows),
{
    if windows {
        p.to_windows()
    } else {
        p.as_str().to_owned()
    }
}

/// The warning about a tool from outside the project.
pub open spec fn foreign_text(t: ToolInfoView, root: Seq<char>, windows: bool) -> Seq<char> {
    "pulci: warning: `"@ + t.name + "` resolved to "@ + system_text(t.path->0, windows)
        + " — outside the project root ("@ + system_text(root, windows)
        + "). Likely a venv-on-PATH leak from another project. Install the tool in this project's .venv or pin via [tools] in pulci.toml."@
}

/// The warnings about tools from outside the project.
pub open spec fn foreign_texts(v: Seq<ToolInfoView>, root: Seq<char>, windows: bool) -> Seq<Seq<char>>
    decreases v.len(),
{
    if v.len() == 0 {
        Seq::empty()
    } else {
        let before = foreign_texts(v.drop_last(), root, windows);
        if is_foreign(v.last(), root) {
            before.push(foreign_text(v.last(), root, windows))
        } else {
            before
        }
    }
}

/// Warns of tools that were found on the search path outside the project, which
/// mostly means that another project's environment is active.
pub fn foreign_tools(tools: &Vec<ToolInfo>, project_root: &FilePath, windows: bool) -> (r: Vec<
    String,
>)
    ensures
        texts(r@) == foreign_texts(infos(tools@), project_root@, windows),
{
    let ghost all = infos(tools@);
    let mut out: Vec<String> = Vec::new();
    let mut i: usize = 0;
    assert(texts(out@) =~= Seq::empty());
    while i < tools.len()
        invariant
            i <= tools@.len(),
            all == infos(tools@),
            texts(out@) == foreign_texts(all.take(i as int), project_root@, windows),
        decreases tools@.len() - i,
    {
        proof {
            assert(all.take(i + 1).drop_last() =~= all.take(i as int));
            assert(all.take(i + 1).last() == tools@[i as int]@);
        }
        let on_path = same_text(tools[i].source.as_str(), "system-path");
        if let Some(p) = &tools[i].path {
            let bin = FilePath { text: p.clone() };
            if on_path && !bin.starts_with(project_root) {
                let mut text = "pulci: warning: `".to_owned();
                text.append(tools[i].name.as_str());
                text.append("` resolved to ");
                text.append(to_system(&bin, windows).as_str());
                text.append(" — outside the project root (");
                text.append(to_system(project_root, windows).as_str());
                text.append(
                    "). Likely a venv-on-PATH leak from another project. Install the tool in this project's .venv or pin via [tools] in pulci.toml.",
                );
                let ghost before = out@;
                out.push(text);
                assert(texts(out@) =~= texts(before).push(text@));
            }
        }
        i += 1;
    }
    assert(all.take(i as int) =~= all);
    out
}

// ---------------------------------------------------------------------------
// Startup errors
// ---------------------------------------------------------------------------

/// A character inside a JSON string.
pub open spec fn json_char(c: char) -> Seq<char> {
    if c == '"' {
        seq!['\\', '"']
    } else if c == '\\' {
        seq!['\\', '\\']
    } else if c == '\n' {
        seq!['\\', 'n']
    } else if c == '\r' {
        seq!['\\', 'r']
    } else if c == '\t' {
        seq!['\\', 't']
    } else if c as u32 == 8 {
        seq!['\\', 'b']
    } else if c as u32 == 12 {
        seq!['\\', 'f']
    } else if (c as u32) < 32 {
        seq!['\\', 'u', '0', '0', hex_digit(c as nat / 16), hex_digit(c as nat % 16)]
    } else {
        seq![c]
    }
}

/// The characters of a text inside a JSON string.
pub open spec fn json_chars(s: Seq<char>) -> Seq<char>
    decreases s.len(),
{
    if s.len() == 0 {
        Seq::empty()
    } else {
        json_chars(s.drop_last()) + json_char(s.last())
    }
}

/// A text as a JSON string.
pub open spec fn json_text(s: Seq<char>) -> Seq<char> {
    seq!['"'] + json_chars(s) + seq!['"']
}

/// `serde_json::Value::to_string` on a string gives the JSON string literal:
/// quotes around the text, with escapes for quotes, backslashes and control
/// characters.
#[verifier::external_body]
fn json_string(s: &str) -> (r: String)
    ensures
        r@ == json_text(s@),
{
    serde_json::Value::String(s.to_owned()).to_string()
}

/// The file that describes why the daemon did not start.
pub open spec fn startup_error_text(
    error_type: Seq<char>,
    message: Seq<char>,
    timestamp: Seq<char>,
) -> Seq<char> {
    "{\n  \"error_type\": "@ + json_text(error_type) + ",\n  \"message\": "@ + json_text(message)
        + ",\n  \"timestamp\": "@ + json_text(timestamp) + "\n}\n"@
}

/// Describes why the daemon did not start, so that others can tell.
pub fn startup_error_json(error_type: &str, message: &str, timestamp: &str) -> (r: String)
    ensures
        r@ == startup_error_text(error_type@, message@, timestamp@),
{
    let mut out = "{\n  \"error_type\": ".to_owned();
    let a = json_string(error_type);
    out.append(a.as_str());
    out.append(",\n  \"message\": ");
    let b = json_string(message);
    out.append(b.as_str());
    out.append(",\n  \"timestamp\": ");
    let c = json_string(timestamp);
    out.append(c.as_str());
    out.append("\n}\n");
    out
}

/// A JSON string never breaks a line.
pub proof fn law_json_text_is_one_line(s: Seq<char>)
    ensures
        !json_text(s).contains('\n'),
{
    lemma_json_chars_hold_no_newline(s);
    let inner = json_chars(s);
    let t = json_text(s);
    if t.contains('\n') {
        let i = choose|i: int| 0 <= i < t.len() && t[i] == '\n';
        if 0 < i < t.len() - 1 {
            assert(inner[i - 1] == '\n');
        }
    }
}

/// One character is not written as a line break.
proof fn lemma_json_char_holds_no_newline(c: char)
    ensures
        forall|i: int| 0 <= i < json_char(c).len() ==> #[trigger] json_char(c)[i] != '\n',
{
    if (c as u32) < 32 {
        assert(c as nat / 16 < 16);
        assert(hex_digit(c as nat / 16) != '\n');
        assert(hex_digit(c as nat % 16) != '\n');
    }
}

/// No character is written as a line break.
proof fn lemma_json_chars_hold_no_newline(s: Seq<char>)
    ensures
        forall|i: int| 0 <= i < json_chars(s).len() ==> #[trigger] json_chars(s)[i] != '\n',
    decreases s.len(),
{
    if s.len() > 0 {
        lemma_json_chars_hold_no_newline(s.drop_last());
        let c = s.last();
        let last = json_char(c);
        lemma_json_char_holds_no_newline(c);
        assert forall|i: int| 0 <= i < json_chars(s).len() implies #[trigger] json_chars(s)[i]
            != '\n' by {
            let before = json_chars(s.drop_last());
            if i < before.len() {
                assert(json_chars(s)[i] == before[i]);
            } else {
                assert(json_chars(s)[i] == last[i - before.len()]);
            }
        }
    }
}

// ---------------------------------------------------------------------------
// Laws
// ---------------------------------------------------------------------------

/// A line starts with the place of the diagnostic and its severity and ends with its
/// message; the tool, and the code where there is one, stand in brackets between them.
pub proof fn law_line_tells_the_whole_diagnostic(d: DiagnosticView)
    ensures
        ({
            let severity = match d.severity {
                Severity::Error => "error"@,
                Severity::Warning => "warning"@,
                Severity::Info => "info"@,
            };
            let place = d.file + ":"@ + decimal(d.line as nat) + ":"@ + decimal(d.col as nat);
            let start = place + ": "@ + severity;
            &&& start.is_prefix_of(line_text(d))
            &&& d.code is None ==> line_text(d) == start + ("["@ + d.tool + "] "@ + d.message)
            &&& d.code is Some ==> line_text(d) == start + ("["@ + d.tool + "/"@ + d.code->0 + "] "@
                + d.message)
        }),
{
    let severity = match d.severity {
        Severity::Error => "error"@,
        Severity::Warning => "warning"@,
        Severity::Info => "info"@,
    };
    let place = d.file + ":"@ + decimal(d.line as nat) + ":"@ + decimal(d.col as nat);
    let start = place + ": "@ + severity;
    match d.code {
        None => {
            assert(line_text(d) =~= start + ("["@ + d.tool + "] "@ + d.message));
        },
        Some(c) => {
            assert(line_text(d) =~= start + ("["@ + d.tool + "/"@ + c + "] "@ + d.message));
        },
    }
    assert(start =~= line_text(d).subrange(0, start.len() as int));
}

/// One thing has its noun as it is, any other number of things has it with an `s`.
pub proof fn law_counts_take_the_plural(n: nat, noun: Seq<char>)
    ensures
        counted(1, noun) == decimal(1) + " "@ + noun,
        n != 1 ==> counted(n, noun) == decimal(n) + " "@ + noun + "s"@,
{
    assert(counted(1, noun) =~= decimal(1) + " "@ + noun);
}

/// The line that ends a check tells its errors, then its warnings, then its files and
/// how long it took.
pub proof fn law_footer_tells_the_figures(
    errors: nat,
    warnings: nat,
    files: nat,
    seconds: Seq<char>,
)
    ensures
        footer_text(errors, warnings, files, seconds) == counted(errors, "error"@) + ", "@ + counted(
            warnings,
            "warning"@,
        ) + " ("@ + decimal(files) + " files checked, "@ + seconds + "s)"@,
{
}

/// Every tool is listed with its version and source, a comma before each but the
/// first.
pub proof fn law_every_tool_is_listed(v: Seq<ToolInfoView>, t: ToolInfoView)
    ensures
        tools_text(Seq::empty()).len() == 0,
        tools_text(seq![t]) == t.name + "="@ + t.version + " ("@ + t.source + ")"@,
        v.len() > 0 ==> tools_text(v.push(t)) == tools_text(v) + ", "@ + (t.name + "="@ + t.version
            + " ("@ + t.source + ")"@),
{
    assert(v.push(t).drop_last() =~= v);
}

/// A tool is foreign exactly where it was found on the search path under a path that
/// does not start with the components of the project root.
pub proof fn law_foreign_tools_are_outside(t: ToolInfoView, root: Seq<char>)
    ensures
        is_foreign(t, root) == (t.source == "system-path"@ && t.path is Some && !components(
            root,
        ).is_prefix_of(components(t.path->0))),
{
}

/// The test for tools from outside the project.
pub open spec fn foreign_to(root: Seq<char>) -> spec_fn(ToolInfoView) -> bool {
    |t: ToolInfoView| is_foreign(t, root)
}

/// Each foreign tool is warned of, in order, and no other tool is.
pub proof fn law_every_foreign_tool_is_warned_of(
    v: Seq<ToolInfoView>,
    root: Seq<char>,
    windows: bool,
)
    ensures
        foreign_texts(v, root, windows) == v.filter(foreign_to(root)).map_values(
            |t: ToolInfoView| foreign_text(t, root, windows),
        ),
    decreases v.len(),
{
    let p = foreign_to(root);
    let f = |t: ToolInfoView| foreign_text(t, root, windows);
    if v.len() == 0 {
        crate::sorting::lemma_choose_none(v, p, f);
    } else {
        law_every_foreign_tool_is_warned_of(v.drop_last(), root, windows);
        crate::sorting::lemma_choose_push(v.drop_last(), v.last(), p, f);
        assert(v.drop_last().push(v.last()) =~= v);
    }
}

/// A warning starts with the name and the path of the tool, and names the root behind
/// them, all as the system writes them.
pub proof fn law_warning_names_tool_and_root(t: ToolInfoView, root: Seq<char>, windows: bool)
    ensures
        ({
            let shown = if windows {
                windows_text(t.path->0)
            } else {
                t.path->0
            };
            let base = if windows {
                windows_text(root)
            } else {
                root
            };
            ("pulci: warning: `"@ + t.name + "` resolved to "@ + shown
                + " — outside the project root ("@ + base).is_prefix_of(
                foreign_text(t, root, windows),
            )
        }),
{
    let head = "pulci: warning: `"@ + t.name + "` resolved to "@ + system_text(t.path->0, windows)
        + " — outside the project root ("@ + system_text(root, windows);
    let whole = foreign_text(t, root, windows);
    assert(head =~= whole.subrange(0, head.len() as int));
}

/// A text is written as JSON character by character, and characters that need no
/// escape are written as they are.
pub proof fn law_json_is_written_by_character(a: Seq<char>, b: Seq<char>, c: char)
    ensures
        json_chars(Seq::empty()).len() == 0,
        json_chars(a + b) == json_chars(a) + json_chars(b),
        c as u32 >= 32 && c != '"' && c != '\\' ==> json_chars(seq![c]) == seq![c],
        json_chars(seq!['"']) == seq!['\\', '"'],
        json_chars(seq!['\\']) == seq!['\\', '\\'],
        json_chars(seq!['\n']) == seq!['\\', 'n'],
    decreases b.len(),
{
    let none = Seq::<char>::empty();
    assert(json_chars(none) =~= none);
    assert forall|x: char| json_chars(#[trigger] seq![x]) == json_char(x) by {
        assert(seq![x].drop_last() =~= none);
        assert(json_chars(seq![x]) =~= json_char(x));
    }
    if b.len() == 0 {
        assert(a + b =~= a);
        assert(json_chars(a) + json_chars(b) =~= json_chars(a));
    } else {
        law_json_is_written_by_character(a, b.drop_last(), c);
        assert((a + b).drop_last() =~= a + b.drop_last());
        assert(json_chars(a + b) =~= json_chars(a) + json_chars(b));
    }
}

/// What is left behind of a failed start holds the type, the message and the time,
/// each as a JSON string under its key.
pub proof fn law_startup_error_tells_all(
    error_type: Seq<char>,
    message: Seq<char>,
    timestamp: Seq<char>,
)
    ensures
        startup_error_text(error_type, message, timestamp) == "{\n  \"error_type\": "@ + json_text(
            error_type,
        ) + ",\n  \"message\": "@ + json_text(message) + ",\n  \"timestamp\": "@ + json_text(
            timestamp,
        ) + "\n}\n"@,
{
}

/// A JSON string is all of its text between two quotes.
pub proof fn law_json_text_stands_in_quotes(s: Seq<char>)
    ensures
        json_text(s).len() == json_chars(s).len() + 2,
        json_text(s)[0] == '"',
        json_text(s).last() == '"',
        json_text(s).subrange(1, json_text(s).len() - 1) == json_chars(s),
{
    assert(json_text(s).subrange(1, json_text(s).len() - 1) =~= json_chars(s));
}

} // verus!
