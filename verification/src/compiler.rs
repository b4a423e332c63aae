//! LaTeX compiler selection, compile options, results and the plan of a
//! compile run (which programs run, in which order, with which arguments).

use vstd::prelude::*;
use std::time::Duration;
use crate::log::parse_log;
use crate::text::chars_of;

verus! {

/// The TeX engines the editor can drive.
#[derive(Debug, Clone, Copy, PartialEq, Eq, Structural)]
pub enum CompilerKind {
    PdfLatex,
    XeLatex,
    LuaLatex,
}

pub open spec fn binary_spec(k: CompilerKind) -> Seq<char> {
    match k {
        CompilerKind::PdfLatex => "pdflatex"@,
        CompilerKind::XeLatex => "xelatex"@,
        CompilerKind::LuaLatex => "lualatex"@,
    }
}

pub open spec fn display_spec(k: CompilerKind) -> Seq<char> {
    match k {
        CompilerKind::PdfLatex => "pdfLaTeX"@,
        CompilerKind::XeLatex => "XeLaTeX"@,
        CompilerKind::LuaLatex => "LuaLaTeX"@,
    }
}

/// The engine named by a settings string; anything unknown is pdfLaTeX.
pub open spec fn from_str_spec(s: Seq<char>) -> CompilerKind {
    if s == "xelatex"@ {
        CompilerKind::XeLatex
    } else if s == "lualatex"@ {
        CompilerKind::LuaLatex
    } else {
        CompilerKind::PdfLatex
    }
}

/// Character-wise equality of two strings.
pub fn str_equal(a: &str, b: &str) -> (r: bool)
    ensures
        r == (a@ == b@),
{
    let ca = chars_of(a);
    let cb = chars_of(b);
    if ca.len() != cb.len() {
        return false;
    }
    let n = ca.len();
    let mut i: usize = 0;
    while i < n
        invariant
            n == ca@.len() == cb@.len(),
            ca@ == a@,
            cb@ == b@,
            0 <= i <= n,
            forall|k: int| 0 <= k < i ==> ca@[k] == cb@[k],
        decreases n - i,
    {
        if ca[i] != cb[i] {
            assert(ca@[i as int] != cb@[i as int]);
            return false;
        }
        i = i + 1;
    }
    assert(ca@ =~= cb@);
    true
}

impl CompilerKind {
    /// Executable name of the engine.
    pub fn binary(&self) -> (r: &'static str)
        ensures
            r@ == binary_spec(*self),
    {
        match self {
            Self::PdfLatex => "pdflatex",
            Self::XeLatex => "xelatex",
            Self::LuaLatex => "lualatex",
        }
    }

    /// Human-readable name of the engine.
    pub fn display(&self) -> (r: &'static str)
        ensures
            r@ == display_spec(*self),
    {
        match self {
            Self::PdfLatex => "pdfLaTeX",
            Self::XeLatex => "XeLaTeX",
            Self::LuaLatex => "LuaLaTeX",
        }
    }

    /// Parses a settings value: `"xelatex"`, `"lualatex"`, otherwise pdfLaTeX.
    pub fn from_str(s: &str) -> (r: Self)
        ensures
            r == from_str_spec(s@),
    {
        if str_equal(s, "xelatex") {
            Self::XeLatex
        } else if str_equal(s, "lualatex") {
            Self::LuaLatex
        } else {
            Self::PdfLatex
        }
    }
}

/// Reading back the executable name of an engine gives the engine.
pub proof fn law_from_str_binary(k: CompilerKind)
    ensures
        from_str_spec(binary_spec(k)) == k,
{
    reveal_strlit("pdflatex");
    reveal_strlit("xelatex");
    reveal_strlit("lualatex");
    assert("pdflatex"@ != "xelatex"@) by {
        assert("pdflatex"@[0] != "xelatex"@[0]);
    }
    assert("pdflatex"@ != "lualatex"@) by {
        assert("pdflatex"@[0] != "lualatex"@[0]);
    }
    assert("xelatex"@ != "lualatex"@) by {
        assert("xelatex"@[0] != "lualatex"@[0]);
    }
}

/// How a compile run is configured.
#[derive(Debug, Clone)]
pub struct CompileOptions {
    pub compiler: CompilerKind,
    pub shell_escape: bool,
    pub bibtex: bool,
    pub synctex: bool,
    pub extra_args: Vec<String>,
    pub passes: u8,
}

impl Default for CompileOptions {
    fn default() -> (r: Self)
        ensures
            r.compiler == CompilerKind::PdfLatex,
            !r.shell_escape,
            !r.bibtex,
            r.synctex,
            r.extra_args@.len() == 0,
            r.passes == 1,
    {
        CompileOptions {
            compiler: CompilerKind::PdfLatex,
            shell_escape: false,
            bibtex: false,
            synctex: true,
            extra_args: Vec::new(),
            passes: 1,
        }
    }
}

#[derive(Debug, Clone, Copy, PartialEq, Eq, Structural)]
pub enum DiagnosticLevel {
    Error,
    Warning,
    Info,
}

/// One message found in the compiler's output.
#[derive(Debug, Clone)]
pub struct Diagnostic {
    pub level: DiagnosticLevel,
    pub file: Option<String>,
    pub line: Option<u32>,
    pub message: String,
}

/// Outcome of one compile run.
#[derive(Debug, Clone)]
pub struct CompileResult {
    pub success: bool,
    pub pdf_path: Option<String>,
    pub diagnostics: Vec<Diagnostic>,
    pub raw_log: String,
    pub duration: Duration,
}

/// The diagnostics of `s` that have level `lvl`, in order.
pub open spec fn with_level(s: Seq<Diagnostic>, lvl: DiagnosticLevel) -> Seq<Diagnostic>
    decreases s.len(),
{
    if s.len() == 0 {
        seq![]
    } else if s.last().level == lvl {
        with_level(s.drop_last(), lvl).push(s.last())
    } else {
        with_level(s.drop_last(), lvl)
    }
}

fn select_level(diags: &Vec<Diagnostic>, lvl: DiagnosticLevel) -> (r: Vec<&Diagnostic>)
    ensures
        r@.map_values(|d: &Diagnostic| *d) == with_level(diags@, lvl),
{
    let mut out: Vec<&Diagnostic> = Vec::new();
    let n = diags.len();
    let mut i: usize = 0;
    while i < n
        invariant
            0 <= i <= n == diags@.len(),
            out@.map_values(|d: &Diagnostic| *d) == with_level(diags@.take(i as int), lvl),
        decreases n - i,
    {
        let d = &diags[i];
        proof {
            assert(diags@.take(i + 1).drop_last() =~= diags@.take(i as int));
        }
        let ghost before = out@;
        if d.level == lvl {
            out.push(d);
            assert(out@.map_values(|d: &Diagnostic| *d) =~= before.map_values(
                |d: &Diagnostic| *d,
            ).push(*d));
        }
        i = i + 1;
    }
    assert(diags@.take(n as int) =~= diags@);
    out
}

impl CompileResult {
    /// The error diagnostics, in order.
    pub fn errors(&self) -> (r: Vec<&Diagnostic>)
        ensures
            r@.map_values(|d: &Diagnostic| *d) == with_level(self.diagnostics@, DiagnosticLevel::Error),
    {
        select_level(&self.diagnostics, DiagnosticLevel::Error)
    }

    /// The warning diagnostics, in order.
    pub fn warnings(&self) -> (r: Vec<&Diagnostic>)
        ensures
            r@.map_values(|d: &Diagnostic| *d) == with_level(self.diagnostics@, DiagnosticLevel::Warning),
    {
        select_level(&self.diagnostics, DiagnosticLevel::Warning)
    }
}

/// Where the compiler currently is.
#[derive(Debug, Clone)]
pub enum CompileStatus {
    Idle,
    Compiling { pass: u8, total: u8 },
    RunningBibtex,
    Success(CompileResult),
    Failed(CompileResult),
}

impl CompileStatus {
    /// A compile is under way (a LaTeX pass or BibTeX).
    pub fn is_running(&self) -> (r: bool)
        ensures
            r == (self is Compiling || self is RunningBibtex),
    {
        match self {
            Self::Compiling { .. } | Self::RunningBibtex => true,
            _ => false,
        }
    }

    /// The result of the last finished compile, if the status holds one.
    pub fn last_result(&self) -> (r: Option<&CompileResult>)
        ensures
            r == (match self {
                CompileStatus::Success(c) => Some(c),
                CompileStatus::Failed(c) => Some(c),
                _ => None,
            }),
    {
        match self {
            Self::Success(r) | Self::Failed(r) => Some(r),
            _ => None,
        }
    }
}

/// Entry point for engine discovery and compile planning.
pub struct Compiler;

pub open spec fn available_spec(pdflatex: bool, xelatex: bool, lualatex: bool) -> Seq<CompilerKind> {
    (if pdflatex { seq![CompilerKind::PdfLatex] } else { seq![] }) + (if xelatex {
        seq![CompilerKind::XeLatex]
    } else {
        seq![]
    }) + (if lualatex { seq![CompilerKind::LuaLatex] } else { seq![] })
}

/// One step of a compile run, in the order the runner performs them.  A
/// `Latex` step is pass `pass` of `total` (the numbers a progress report
/// shows as `Compiling { pass, total }`); `keeps_result` tells whether the
/// step's output replaces the result of the run so far.
#[derive(Debug, Clone, Copy, PartialEq, Eq, Structural)]
pub enum CompileStep {
    Latex { pass: u8, total: u8, keeps_result: bool },
    Bibtex,
}

pub open spec fn total_spec(opts: CompileOptions) -> int {
    if opts.bibtex { opts.passes + 1 } else { opts.passes as int }
}

/// The steps of a run: one LaTeX pass; with BibTeX, BibTeX and a second pass
/// whose output is discarded; then the remaining `passes - 1` passes.
pub open spec fn steps_spec(opts: CompileOptions) -> Seq<CompileStep> {
    let total = total_spec(opts) as u8;
    let first = seq![CompileStep::Latex { pass: 1, total, keeps_result: true }];
    let bib = if opts.bibtex {
        seq![CompileStep::Bibtex, CompileStep::Latex { pass: 2, total, keeps_result: false }]
    } else {
        seq![]
    };
    let more = if opts.passes >= 1 {
        Seq::new(
            (opts.passes - 1) as nat,
            |j: int|
                CompileStep::Latex {
                    pass: (if opts.bibtex { j + 3 } else { j + 2 }) as u8,
                    total,
                    keeps_result: true,
                },
        )
    } else {
        seq![]
    };
    first + bib + more
}

pub open spec fn latex_args_spec(opts: CompileOptions, tex: Seq<char>) -> Seq<Seq<char>> {
    seq!["-interaction=nonstopmode"@, "-halt-on-error"@] + (if opts.synctex {
        seq!["-synctex=1"@]
    } else {
        seq![]
    }) + (if opts.shell_escape { seq!["--shell-escape"@] } else { seq![] })
        + opts.extra_args.deep_view() + seq![tex]
}

/// `Duration::ZERO`.
#[verifier::external_body]
fn zero_duration() -> Duration {
    Duration::ZERO
}

impl Compiler {
    /// The engines that were found, in the order pdfLaTeX, XeLaTeX, LuaLaTeX.
    /// Each flag says whether that engine's executable is on the `PATH`.
    pub fn available_compilers(pdflatex: bool, xelatex: bool, lualatex: bool) -> (r: Vec<
        CompilerKind,
    >)
        ensures
            r@ == available_spec(pdflatex, xelatex, lualatex),
    {
        let mut v: Vec<CompilerKind> = Vec::new();
        if pdflatex {
            v.push(CompilerKind::PdfLatex);
        }
        if xelatex {
            v.push(CompilerKind::XeLatex);
        }
        if lualatex {
            v.push(CompilerKind::LuaLatex);
        }
        assert(v@ =~= available_spec(pdflatex, xelatex, lualatex));
        v
    }

    /// Some LaTeX engine is on the `PATH`.
    pub fn is_latex_available(pdflatex: bool, xelatex: bool, lualatex: bool) -> (r: bool)
        ensures
            r == (pdflatex || xelatex || lualatex),
    {
        pdflatex || xelatex || lualatex
    }

    /// Number of steps announced to the user: the passes, plus one for BibTeX.
    pub fn total_passes(opts: &CompileOptions) -> (r: u8)
        requires
            opts.bibtex ==> opts.passes < 255,
        ensures
            r == total_spec(*opts),
    {
        if opts.bibtex {
            opts.passes + 1
        } else {
            opts.passes
        }
    }

    /// The steps of a compile run, in order.
    pub fn compile_steps(opts: &CompileOptions) -> (r: Vec<CompileStep>)
        requires
            opts.bibtex ==> opts.passes < 255,
        ensures
            r@ == steps_spec(*opts),
    {
        let total = Self::total_passes(opts);
        let mut v: Vec<CompileStep> = Vec::new();
        v.push(CompileStep::Latex { pass: 1, total, keeps_result: true });
        if opts.bibtex {
            v.push(CompileStep::Bibtex);
            v.push(CompileStep::Latex { pass: 2, total, keeps_result: false });
        }
        let ghost head = v@;
        assert(head.len() == (if opts.bibtex { 3int } else { 1int }));
        let mut i: u8 = 1;
        while i < opts.passes
            invariant
                1 <= i,
                i <= opts.passes || opts.passes == 0,
                opts.passes == 0 ==> i == 1,
                opts.bibtex ==> opts.passes < 255,
                total == total_spec(*opts),
                v@.len() == head.len() + i - 1,
                v@.take(head.len() as int) == head,
                forall|j: int|
                    0 <= j < i - 1 ==> #[trigger] v@[head.len() + j] == (CompileStep::Latex {
                        pass: (if opts.bibtex { j + 3 } else { j + 2 }) as u8,
                        total,
                        keeps_result: true,
                    }),
            decreases opts.passes - i,
        {
            let pass = if opts.bibtex { i + 2 } else { i + 1 };
            v.push(CompileStep::Latex { pass, total, keeps_result: true });
            assert(v@.take(head.len() as int) =~= head);
            i = i + 1;
        }
        let ghost spec = steps_spec(*opts);
        assert(v@ =~= spec) by {
            assert(v@.len() == spec.len());
            assert forall|k: int| 0 <= k < v@.len() implies v@[k] == spec[k] by {
                if k < head.len() {
                    assert(v@[k] == v@.take(head.len() as int)[k]);
                } else {
                    let j = k - head.len();
                    assert(v@[head.len() + j] == spec[k]);
                }
            }
        }
        v
    }

    /// Command-line arguments of one LaTeX pass over `tex`.
    pub fn latex_args(opts: &CompileOptions, tex: &str) -> (r: Vec<String>)
        ensures
            r.deep_view() == latex_args_spec(*opts, tex@),
    {
        let mut v: Vec<String> = Vec::new();
        v.push("-interaction=nonstopmode".to_owned());
        v.push("-halt-on-error".to_owned());
        if opts.synctex {
            v.push("-synctex=1".to_owned());
        }
        if opts.shell_escape {
            v.push("--shell-escape".to_owned());
        }
        let ghost head = v.deep_view();
        let n = opts.extra_args.len();
        let mut i: usize = 0;
        while i < n
            invariant
                0 <= i <= n == opts.extra_args@.len(),
                v.deep_view() == head + opts.extra_args.deep_view().take(i as int),
            decreases n - i,
        {
            let ghost before = v.deep_view();
            v.push(opts.extra_args[i].clone());
            assert(v.deep_view() =~= before.push(opts.extra_args[i as int]@));
            assert(opts.extra_args.deep_view().take(i + 1) =~= opts.extra_args.deep_view().take(
                i as int,
            ).push(opts.extra_args[i as int]@));
            assert(v.deep_view() =~= head + opts.extra_args.deep_view().take(i + 1));
            i = i + 1;
        }
        assert(opts.extra_args.deep_view().take(n as int) =~= opts.extra_args.deep_view());
        let ghost mid = v.deep_view();
        v.push(tex.to_owned());
        assert(v.deep_view() =~= mid + seq![tex@]);
        assert(v.deep_view() =~= latex_args_spec(*opts, tex@));
        v
    }

    /// The result of one LaTeX pass whose process ran: the log is the
    /// standard output followed by the standard error, and the diagnostics
    /// are those found in that log.
    pub fn pass_result(stdout: String, stderr: &str, exit_success: bool) -> (r: CompileResult)
        ensures
            r.success == exit_success,
            r.pdf_path is None,
            r.raw_log@ == stdout@ + stderr@,
            r.diagnostics.deep_view() == crate::log::log_diagnostics(r.raw_log@),
    {
        let log = stdout.concat(stderr);
        let diags = parse_log(log.as_str());
        CompileResult {
            success: exit_success,
            pdf_path: None,
            diagnostics: diags,
            raw_log: log,
            duration: zero_duration(),
        }
    }

    /// The result of a LaTeX pass whose process could not be started.
    pub fn spawn_failure_result(binary: &str, error: &str) -> (r: CompileResult)
        ensures
            !r.success,
            r.pdf_path is None,
            r.raw_log@ == error@,
            r.diagnostics@.len() == 1,
            r.diagnostics@[0].level == DiagnosticLevel::Error,
            r.diagnostics@[0].file is None,
            r.diagnostics@[0].line is None,
            r.diagnostics@[0].message@ == "Failed to run "@ + binary@ + ": "@ + error@,
    {
        let msg = "Failed to run ".to_owned().concat(binary).concat(": ").concat(error);
        let mut diags: Vec<Diagnostic> = Vec::new();
        diags.push(Diagnostic { level: DiagnosticLevel::Error, file: None, line: None, message: msg });
        CompileResult {
            success: false,
            pdf_path: None,
            diagnostics: diags,
            raw_log: error.to_owned(),
            duration: zero_duration(),
        }
    }

    /// Completes a run: records its duration and, when the PDF exists, its
    /// path and success.
    pub fn finish(result: CompileResult, elapsed: Duration, pdf: String, pdf_exists: bool) -> (r:
        CompileResult)
        ensures
            r.duration == elapsed,
            r.diagnostics == result.diagnostics,
            r.raw_log == result.raw_log,
            pdf_exists ==> r.success && r.pdf_path == Some(pdf),
            !pdf_exists ==> r.success == result.success && r.pdf_path == result.pdf_path,
    {
        let mut r = result;
        r.duration = elapsed;
        if pdf_exists {
            r.pdf_path = Some(pdf);
            r.success = true;
        }
        r
    }
}

/// LaTeX counts as available exactly when at least one engine was found.
pub proof fn law_latex_available_iff_engines(pdflatex: bool, xelatex: bool, lualatex: bool)
    ensures
        (pdflatex || xelatex || lualatex) == (available_spec(pdflatex, xelatex, lualatex).len() > 0),
{
}

/// A run starts with LaTeX pass 1 and numbers its LaTeX passes 1, 2, ... up
/// to the announced total, which each of them carries; with BibTeX there is
/// one BibTeX step, second, and it is always followed by LaTeX pass 2, whose
/// output does not replace the result.  Without BibTeX there is none.
pub proof fn law_compile_plan(opts: CompileOptions)
    requires
        opts.passes >= 1,
        opts.bibtex ==> opts.passes < 255,
    ensures
        ({
            let s = steps_spec(opts);
            let t = total_spec(opts);
            &&& t == opts.passes + (if opts.bibtex { 1int } else { 0int })
            &&& s.len() == t + (if opts.bibtex { 1int } else { 0int })
            &&& s[0] == (CompileStep::Latex { pass: 1, total: t as u8, keeps_result: true })
            &&& s.last() is Latex && s.last()->pass == t
            &&& forall|j: int| 0 <= j < s.len() ==> ((#[trigger] s[j] is Bibtex) <==> (opts.bibtex && j == 1))
            &&& forall|j: int| 0 <= j < s.len() && #[trigger] s[j] is Bibtex ==> j + 1 < s.len()
                && s[j + 1] == (CompileStep::Latex { pass: 2, total: t as u8, keeps_result: false })
            &&& forall|j: int| 0 <= j < s.len() && #[trigger] s[j] is Latex ==> {
                &&& s[j]->total == t
                &&& s[j]->pass == (if opts.bibtex && j >= 2 { j } else { j + 1 })
                &&& s[j]->keeps_result == !(opts.bibtex && j == 2)
            }
        }),
{
    let s = steps_spec(opts);
    let t = total_spec(opts);
    let first = seq![CompileStep::Latex { pass: 1, total: t as u8, keeps_result: true }];
    let bib = if opts.bibtex {
        seq![CompileStep::Bibtex, CompileStep::Latex { pass: 2, total: t as u8, keeps_result: false }]
    } else {
        seq![]
    };
    let more = Seq::new(
        (opts.passes - 1) as nat,
        |j: int|
            CompileStep::Latex {
                pass: (if opts.bibtex { j + 3 } else { j + 2 }) as u8,
                total: t as u8,
                keeps_result: true,
            },
    );
    assert(s == first + bib + more);
    let h = first.len() + bib.len();
    assert forall|j: int| 0 <= j < s.len() implies (#[trigger] s[j] is Bibtex) <==> (opts.bibtex && j == 1) by {
        if j >= h {
            assert(s[j] == more[j - h]);
        }
    }
    assert forall|j: int| 0 <= j < s.len() && #[trigger] s[j] is Latex implies {
        &&& s[j]->total == t
        &&& s[j]->pass == (if opts.bibtex && j >= 2 { j } else { j + 1 })
        &&& s[j]->keeps_result == !(opts.bibtex && j == 2)
    } by {
        if j >= h {
            assert(s[j] == more[j - h]);
        }
    }
    assert(s.last() == s[s.len() - 1]);
}

/// The arguments of a LaTeX pass: non-stop mode and halt on error first,
/// then `-synctex=1` when SyncTeX is on, then `--shell-escape` when shell
/// escape is on, then the extra arguments in their order, and the file last.
pub proof fn law_latex_arguments(opts: CompileOptions, tex: Seq<char>)
    ensures
        ({
            let a = latex_args_spec(opts, tex);
            let flags: int = (if opts.synctex { 1int } else { 0int }) + (if opts.shell_escape { 1int } else { 0int });
            &&& a.len() == 3 + flags + opts.extra_args@.len()
            &&& a[0] == "-interaction=nonstopmode"@
            &&& a[1] == "-halt-on-error"@
            &&& opts.synctex ==> a[2] == "-synctex=1"@
            &&& opts.shell_escape ==> a[1 + flags] == "--shell-escape"@
            &&& forall|j: int| 0 <= j < opts.extra_args@.len() ==> a[2 + flags + j] == (#[trigger] opts.extra_args@[j])@
            &&& a[a.len() - 1] == tex
        }),
{
    let a = latex_args_spec(opts, tex);
    let head = seq!["-interaction=nonstopmode"@, "-halt-on-error"@] + (if opts.synctex {
        seq!["-synctex=1"@]
    } else {
        seq![]
    }) + (if opts.shell_escape { seq!["--shell-escape"@] } else { seq![] });
    assert(a == head + opts.extra_args.deep_view() + seq![tex]);
    assert forall|j: int| 0 <= j < opts.extra_args@.len() implies a[2 + head.len() - 2 + j] == (#[trigger] opts.extra_args@[j])@ by {
        assert(a[head.len() + j] == opts.extra_args.deep_view()[j]);
    }
}

} // verus!
