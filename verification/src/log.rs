//! Reading diagnostics out of a LaTeX compiler's log.
//!
//! Each line of the log is matched against four patterns (errors, the line
//! reference `l.<n>` that follows an error, LaTeX/package warnings, and
//! over/underfull boxes); the diagnostics are then derived from those matches.

use vstd::prelude::*;
use crate::bridge::{regex_captures, regex_captures_of};
use crate::compiler::{Diagnostic, DiagnosticLevel};
use crate::text::{parse_u32, parse_u32_spec, split_lines, lines_spec, trim_str, trim_spec};

verus! {

/// An error line: `!`, whitespace, then the message.
pub const ERROR_PATTERN: &'static str = r"^!\s+(.+)";

/// The input line an error refers to.
pub const LINE_REF_PATTERN: &'static str = r"l\.(\d+)";

/// LaTeX and package warnings; the message is group 2.
pub const WARNING_PATTERN: &'static str = r"(?i)(LaTeX Warning|Package \w+ Warning):\s*(.+)";

/// Over- and underfull box reports.
pub const BOX_PATTERN: &'static str = r"(Overfull|Underfull) \\[hv]box";

/// What the four patterns found on one line of the log.
#[derive(Debug, Clone)]
pub struct LogLineMatch {
    /// The line itself.
    pub text: String,
    /// Group 1 of the error pattern.
    pub error_message: Option<String>,
    /// Group 1 of the line-reference pattern.
    pub line_ref: Option<String>,
    /// Group 2 of the warning pattern.
    pub warning_message: Option<String>,
    /// The box pattern matched.
    pub box_report: bool,
}

pub struct LogLineMatchView {
    pub text: Seq<char>,
    pub error_message: Option<Seq<char>>,
    pub line_ref: Option<Seq<char>>,
    pub warning_message: Option<Seq<char>>,
    pub box_report: bool,
}

pub open spec fn opt_view(o: Option<String>) -> Option<Seq<char>> {
    match o {
        Some(s) => Some(s@),
        None => None,
    }
}

impl DeepView for LogLineMatch {
    type V = LogLineMatchView;

    open spec fn deep_view(&self) -> LogLineMatchView {
        LogLineMatchView {
            text: self.text@,
            error_message: opt_view(self.error_message),
            line_ref: opt_view(self.line_ref),
            warning_message: opt_view(self.warning_message),
            box_report: self.box_report,
        }
    }
}

pub struct DiagnosticView {
    pub level: DiagnosticLevel,
    pub file: Option<Seq<char>>,
    pub line: Option<u32>,
    pub message: Seq<char>,
}

impl DeepView for Diagnostic {
    type V = DiagnosticView;

    open spec fn deep_view(&self) -> DiagnosticView {
        DiagnosticView {
            level: self.level,
            file: opt_view(self.file),
            line: self.line,
            message: self.message@,
        }
    }
}

/// Group `k` of a capture result, if the pattern matched and the group took part.
pub open spec fn group(c: Option<Seq<Option<Seq<char>>>>, k: int) -> Option<Seq<char>> {
    match c {
        Some(g) => if 0 <= k < g.len() {
            g[k]
        } else {
            None
        },
        None => None,
    }
}

/// What the patterns find on `line`.
pub open spec fn line_match_spec(line: Seq<char>) -> LogLineMatchView {
    LogLineMatchView {
        text: line,
        error_message: group(regex_captures_of(ERROR_PATTERN@, line), 1),
        line_ref: group(regex_captures_of(LINE_REF_PATTERN@, line), 1),
        warning_message: group(regex_captures_of(WARNING_PATTERN@, line), 2),
        box_report: regex_captures_of(BOX_PATTERN@, line) is Some,
    }
}

/// The first line reference among `ms[j..end]`.
pub open spec fn first_line_ref(ms: Seq<LogLineMatchView>, j: int, end: int) -> Option<Seq<char>>
    decreases end - j,
{
    if j >= end || j < 0 {
        None
    } else if ms[j].line_ref is Some {
        ms[j].line_ref
    } else {
        first_line_ref(ms, j + 1, end)
    }
}

/// The source line of an error on log line `i`: the first line reference
/// among that line and the four after it, read as a number.
pub open spec fn error_line_spec(ms: Seq<LogLineMatchView>, i: int) -> Option<u32> {
    let end = if i + 5 <= ms.len() { i + 5 } else { ms.len() as int };
    match first_line_ref(ms, i, end) {
        Some(t) => parse_u32_spec(t),
        None => None,
    }
}

/// The diagnostics of log line `i`: its error, its warning, its box report.
pub open spec fn line_diagnostics(ms: Seq<LogLineMatchView>, i: int) -> Seq<DiagnosticView> {
    let m = ms[i];
    (match m.error_message {
        Some(e) => seq![
            DiagnosticView {
                level: DiagnosticLevel::Error,
                file: None,
                line: error_line_spec(ms, i),
                message: trim_spec(e),
            },
        ],
        None => seq![],
    }) + (match m.warning_message {
        Some(w) => seq![
            DiagnosticView {
                level: DiagnosticLevel::Warning,
                file: None,
                line: None,
                message: trim_spec(w),
            },
        ],
        None => seq![],
    }) + (if m.box_report {
        seq![
            DiagnosticView {
                level: DiagnosticLevel::Info,
                file: None,
                line: None,
                message: trim_spec(m.text),
            },
        ]
    } else {
        seq![]
    })
}

/// The diagnostics of log lines `0..k`, in order.
pub open spec fn diagnostics_upto(ms: Seq<LogLineMatchView>, k: int) -> Seq<DiagnosticView>
    decreases k,
{
    if k <= 0 {
        seq![]
    } else {
        diagnostics_upto(ms, k - 1) + line_diagnostics(ms, k - 1)
    }
}

/// The diagnostics of a whole log.
pub open spec fn log_diagnostics(log: Seq<char>) -> Seq<DiagnosticView> {
    let ms = lines_spec(log).map_values(|l: Seq<char>| line_match_spec(l));
    diagnostics_upto(ms, ms.len() as int)
}

fn group_of(c: &Option<Vec<Option<String>>>, k: usize) -> (r: Option<String>)
    ensures
        opt_view(r) == group(crate::bridge::captures_view(*c), k as int),
{
    match c {
        Some(v) => {
            if k < v.len() {
                match &v[k] {
                    Some(s) => Some(s.clone()),
                    None => None,
                }
            } else {
                None
            }
        },
        None => None,
    }
}

/// Runs the four patterns over one log line.
pub fn match_log_line(line: &String) -> (r: LogLineMatch)
    ensures
        r.deep_view() == line_match_spec(line@),
{
    let e = regex_captures(ERROR_PATTERN, line.as_str());
    let l = regex_captures(LINE_REF_PATTERN, line.as_str());
    let w = regex_captures(WARNING_PATTERN, line.as_str());
    let b = regex_captures(BOX_PATTERN, line.as_str());
    LogLineMatch {
        text: line.clone(),
        error_message: group_of(&e, 1),
        line_ref: group_of(&l, 1),
        warning_message: group_of(&w, 2),
        box_report: b.is_some(),
    }
}

fn error_line(ms: &Vec<LogLineMatch>, i: usize) -> (r: Option<u32>)
    requires
        i < ms@.len(),
    ensures
        r == error_line_spec(ms.deep_view(), i as int),
{
    let n = ms.len();
    let end = if n >= 5 && i <= n - 5 { i + 5 } else { n };
    let ghost dv = ms.deep_view();
    assert(end == (if i + 5 <= dv.len() { i + 5 } else { dv.len() as int }));
    let mut j = i;
    while j < end
        invariant
            i <= j <= end <= n == ms@.len(),
            dv == ms.deep_view(),
            end == (if i + 5 <= dv.len() { i + 5 } else { dv.len() as int }),
            first_line_ref(dv, i as int, end as int) == first_line_ref(dv, j as int, end as int),
        decreases end - j,
    {
        match &ms[j].line_ref {
            Some(t) => {
                assert(dv[j as int] == ms@[j as int].deep_view());
                assert(first_line_ref(dv, j as int, end as int) == Some(t@));
                return parse_u32(t.as_str());
            },
            None => {
                assert(dv[j as int] == ms@[j as int].deep_view());
            },
        }
        j = j + 1;
    }
    None
}

fn diagnostics_of_line(ms: &Vec<LogLineMatch>, i: usize, out: &mut Vec<Diagnostic>)
    requires
        i < ms@.len(),
    ensures
        final(out).deep_view() == old(out).deep_view() + line_diagnostics(ms.deep_view(), i as int),
{
    let ghost dv = ms.deep_view();
    let ghost start = out.deep_view();
    let m = &ms[i];
    assert(dv[i as int] == m.deep_view());
    let ghost e_part: Seq<DiagnosticView> = seq![];
    match &m.error_message {
        Some(e) => {
            let line = error_line(ms, i);
            let msg = trim_str(e.as_str());
            out.push(Diagnostic { level: DiagnosticLevel::Error, file: None, line, message: msg });
        },
        None => {},
    }
    let ghost after_e = out.deep_view();
    match &m.warning_message {
        Some(w) => {
            let msg = trim_str(w.as_str());
            out.push(Diagnostic { level: DiagnosticLevel::Warning, file: None, line: None, message: msg });
        },
        None => {},
    }
    let ghost after_w = out.deep_view();
    if m.box_report {
        let msg = trim_str(m.text.as_str());
        out.push(Diagnostic { level: DiagnosticLevel::Info, file: None, line: None, message: msg });
    }
    proof {
        let ld = line_diagnostics(dv, i as int);
        assert(out.deep_view() =~= start + ld);
    }
}

/// The diagnostics of a sequence of matched log lines, in line order.
pub fn diagnostics_from_matches(ms: &Vec<LogLineMatch>) -> (r: Vec<Diagnostic>)
    ensures
        r.deep_view() == diagnostics_upto(ms.deep_view(), ms@.len() as int),
{
    let mut out: Vec<Diagnostic> = Vec::new();
    let n = ms.len();
    let mut i: usize = 0;
    assert(out.deep_view() =~= diagnostics_upto(ms.deep_view(), 0));
    while i < n
        invariant
            0 <= i <= n == ms@.len(),
            out.deep_view() == diagnostics_upto(ms.deep_view(), i as int),
        decreases n - i,
    {
        diagnostics_of_line(ms, i, &mut out);
        i = i + 1;
    }
    out
}

/// The diagnostics found in a compiler log.
pub fn parse_log(log: &str) -> (r: Vec<Diagnostic>)
    ensures
        r.deep_view() == log_diagnostics(log@),
{
    let lines = split_lines(log);
    let n = lines.len();
    let mut ms: Vec<LogLineMatch> = Vec::new();
    let ghost want = lines_spec(log@).map_values(|l: Seq<char>| line_match_spec(l));
    let mut i: usize = 0;
    while i < n
        invariant
            0 <= i <= n == lines@.len(),
            lines.deep_view() == lines_spec(log@),
            want == lines_spec(log@).map_values(|l: Seq<char>| line_match_spec(l)),
            ms.deep_view() == want.take(i as int),
        decreases n - i,
    {
        let m = match_log_line(&lines[i]);
        assert(lines.deep_view()[i as int] == lines@[i as int]@);
        let ghost before = ms.deep_view();
        ms.push(m);
        assert(ms.deep_view() =~= before.push(m.deep_view()));
        assert(ms.deep_view() =~= want.take(i + 1));
        i = i + 1;
    }
    assert(want.take(n as int) =~= want);
    diagnostics_from_matches(&ms)
}

/// Lines without a reference before `j` are passed over.
proof fn lemma_first_line_ref_skips(ms: Seq<LogLineMatchView>, k: int, j: int, end: int)
    requires
        0 <= k <= j < end <= ms.len(),
        forall|x: int| k <= x < j ==> (#[trigger] ms[x]).line_ref is None,
    ensures
        first_line_ref(ms, k, end) == ms[j].line_ref || (ms[j].line_ref is None && first_line_ref(ms, k, end)
            == first_line_ref(ms, j + 1, end)),
    decreases j - k,
{
    if k < j {
        lemma_first_line_ref_skips(ms, k + 1, j, end);
    }
}

/// Nothing is found among lines without a reference.
proof fn lemma_first_line_ref_none(ms: Seq<LogLineMatchView>, k: int, end: int)
    requires
        0 <= k <= end <= ms.len(),
        forall|x: int| k <= x < end ==> (#[trigger] ms[x]).line_ref is None,
    ensures
        first_line_ref(ms, k, end) is None,
    decreases end - k,
{
    if k < end {
        lemma_first_line_ref_none(ms, k + 1, end);
    }
}

/// An error on log line `i` is reported, first among that line's
/// diagnostics, with its trimmed message and the source line of the first
/// `l.<n>` reference among the error line and the four lines after it.
pub proof fn law_error_source_line(ms: Seq<LogLineMatchView>, i: int, j: int)
    requires
        0 <= i <= j < ms.len(),
        j <= i + 4,
        ms[i].error_message is Some,
        ms[j].line_ref is Some,
        forall|x: int| i <= x < j ==> (#[trigger] ms[x]).line_ref is None,
    ensures
        line_diagnostics(ms, i).len() >= 1,
        line_diagnostics(ms, i)[0] == (DiagnosticView {
            level: DiagnosticLevel::Error,
            file: None,
            line: parse_u32_spec(ms[j].line_ref->0),
            message: trim_spec(ms[i].error_message->0),
        }),
{
    let end = if i + 5 <= ms.len() { i + 5 } else { ms.len() as int };
    lemma_first_line_ref_skips(ms, i, j, end);
}

/// An error with no `l.<n>` reference on its own line or the four after it
/// is reported without a source line, whatever comes later in the log.
pub proof fn law_error_without_reference(ms: Seq<LogLineMatchView>, i: int)
    requires
        0 <= i < ms.len(),
        ms[i].error_message is Some,
        forall|x: int| i <= x < i + 5 && x < ms.len() ==> (#[trigger] ms[x]).line_ref is None,
    ensures
        line_diagnostics(ms, i).len() >= 1,
        line_diagnostics(ms, i)[0] == (DiagnosticView {
            level: DiagnosticLevel::Error,
            file: None,
            line: None,
            message: trim_spec(ms[i].error_message->0),
        }),
{
    let end = if i + 5 <= ms.len() { i + 5 } else { ms.len() as int };
    lemma_first_line_ref_none(ms, i, end);
}

/// What one log line contributes, in this order and nothing else: its error
/// (when the error pattern matched), its warning, with the trimmed message
/// of the warning pattern and no source line (when that pattern matched),
/// and a box report, with the whole trimmed line as its message (when the box
/// pattern matched).
pub proof fn law_line_diagnostic_kinds(ms: Seq<LogLineMatchView>, i: int)
    requires
        0 <= i < ms.len(),
    ensures
        ({
            let d = line_diagnostics(ms, i);
            let ne: int = if ms[i].error_message is Some { 1 } else { 0 };
            let nw: int = if ms[i].warning_message is Some { 1 } else { 0 };
            let nb: int = if ms[i].box_report { 1 } else { 0 };
            &&& d.len() == ne + nw + nb
            &&& ne == 1 ==> d[0].level == DiagnosticLevel::Error && d[0].file is None
                && d[0].message == trim_spec(ms[i].error_message->0)
            &&& nw == 1 ==> d[ne] == (DiagnosticView {
                level: DiagnosticLevel::Warning,
                file: None,
                line: None,
                message: trim_spec(ms[i].warning_message->0),
            })
            &&& nb == 1 ==> d[ne + nw] == (DiagnosticView {
                level: DiagnosticLevel::Info,
                file: None,
                line: None,
                message: trim_spec(ms[i].text),
            })
        }),
{
}

/// The diagnostics of a log come line by line, in the order of the lines:
/// those of line `i` stand together, right after those of the lines before it.
pub proof fn law_diagnostics_in_line_order(ms: Seq<LogLineMatchView>, i: int, n: int)
    requires
        0 <= i < n <= ms.len(),
    ensures
        ({
            let all = diagnostics_upto(ms, n);
            let a = diagnostics_upto(ms, i).len() as int;
            let d = line_diagnostics(ms, i);
            &&& a + d.len() <= all.len()
            &&& all.subrange(a, a + d.len()) == d
        }),
    decreases n - i,
{
    let a = diagnostics_upto(ms, i).len() as int;
    let d = line_diagnostics(ms, i);
    if n == i + 1 {
        assert(diagnostics_upto(ms, n).subrange(a, a + d.len()) =~= d);
    } else {
        law_diagnostics_in_line_order(ms, i, n - 1);
        let prev = diagnostics_upto(ms, n - 1);
        assert(diagnostics_upto(ms, n) == prev + line_diagnostics(ms, n - 1));
        assert(diagnostics_upto(ms, n).subrange(a, a + d.len()) =~= prev.subrange(a, a + d.len()));
    }
}

} // verus!
