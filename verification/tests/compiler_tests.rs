use ferroleaf::compiler::{
    CompileOptions, CompileResult, CompileStatus, CompileStep, Compiler, CompilerKind, Diagnostic,
    DiagnosticLevel,
};
use std::time::Duration;

fn diag(level: DiagnosticLevel, msg: &str) -> Diagnostic {
    Diagnostic { level, file: None, line: None, message: msg.to_string() }
}

fn result_with(diags: Vec<Diagnostic>) -> CompileResult {
    CompileResult {
        success: true,
        pdf_path: None,
        diagnostics: diags,
        raw_log: String::new(),
        duration: Duration::ZERO,
    }
}

#[test]
fn compiler_names_and_binaries() {
    assert_eq!(CompilerKind::PdfLatex.binary(), "pdflatex");
    assert_eq!(CompilerKind::XeLatex.binary(), "xelatex");
    assert_eq!(CompilerKind::LuaLatex.binary(), "lualatex");
    assert_eq!(CompilerKind::PdfLatex.display(), "pdfLaTeX");
    assert_eq!(CompilerKind::XeLatex.display(), "XeLaTeX");
    assert_eq!(CompilerKind::LuaLatex.display(), "LuaLaTeX");
}

#[test]
fn from_str_reads_binary_names_back() {
    for k in [CompilerKind::PdfLatex, CompilerKind::XeLatex, CompilerKind::LuaLatex] {
        assert_eq!(CompilerKind::from_str(k.binary()), k);
    }
}

#[test]
fn from_str_defaults_to_pdflatex() {
    assert_eq!(CompilerKind::from_str("tectonic"), CompilerKind::PdfLatex);
    assert_eq!(CompilerKind::from_str(""), CompilerKind::PdfLatex);
    assert_eq!(CompilerKind::from_str("XeLaTeX"), CompilerKind::PdfLatex);
}

#[test]
fn default_options() {
    let o = CompileOptions::default();
    assert_eq!(o.compiler, CompilerKind::PdfLatex);
    assert!(!o.shell_escape);
    assert!(!o.bibtex);
    assert!(o.synctex);
    assert!(o.extra_args.is_empty());
    assert_eq!(o.passes, 1);
}

#[test]
fn errors_and_warnings_are_filtered_in_order() {
    let r = result_with(vec![
        diag(DiagnosticLevel::Warning, "w1"),
        diag(DiagnosticLevel::Error, "e1"),
        diag(DiagnosticLevel::Info, "i1"),
        diag(DiagnosticLevel::Error, "e2"),
    ]);
    let e: Vec<&str> = r.errors().iter().map(|d| d.message.as_str()).collect();
    let w: Vec<&str> = r.warnings().iter().map(|d| d.message.as_str()).collect();
    assert_eq!(e, vec!["e1", "e2"]);
    assert_eq!(w, vec!["w1"]);
}

#[test]
fn status_running_and_last_result() {
    assert!(!CompileStatus::Idle.is_running());
    assert!(CompileStatus::Compiling { pass: 1, total: 2 }.is_running());
    assert!(CompileStatus::RunningBibtex.is_running());
    let ok = CompileStatus::Success(result_with(vec![]));
    assert!(!ok.is_running());
    assert!(ok.last_result().is_some());
    let failed = CompileStatus::Failed(result_with(vec![diag(DiagnosticLevel::Error, "x")]));
    assert_eq!(failed.last_result().unwrap().diagnostics.len(), 1);
    assert!(CompileStatus::Idle.last_result().is_none());
}

#[test]
fn available_compilers_keep_order() {
    assert_eq!(
        Compiler::available_compilers(true, false, true),
        vec![CompilerKind::PdfLatex, CompilerKind::LuaLatex]
    );
    assert!(Compiler::available_compilers(false, false, false).is_empty());
}

#[test]
fn latex_available_iff_some_engine() {
    for a in [false, true] {
        for b in [false, true] {
            for c in [false, true] {
                assert_eq!(
                    Compiler::is_latex_available(a, b, c),
                    !Compiler::available_compilers(a, b, c).is_empty()
                );
            }
        }
    }
}

#[test]
fn steps_without_bibtex() {
    let mut o = CompileOptions::default();
    o.passes = 3;
    assert_eq!(Compiler::total_passes(&o), 3);
    assert_eq!(
        Compiler::compile_steps(&o),
        vec![
            CompileStep::Latex { pass: 1, total: 3, keeps_result: true },
            CompileStep::Latex { pass: 2, total: 3, keeps_result: true },
            CompileStep::Latex { pass: 3, total: 3, keeps_result: true },
        ]
    );
}

#[test]
fn steps_with_bibtex() {
    let mut o = CompileOptions::default();
    o.bibtex = true;
    o.passes = 2;
    assert_eq!(Compiler::total_passes(&o), 3);
    assert_eq!(
        Compiler::compile_steps(&o),
        vec![
            CompileStep::Latex { pass: 1, total: 3, keeps_result: true },
            CompileStep::Bibtex,
            CompileStep::Latex { pass: 2, total: 3, keeps_result: false },
            CompileStep::Latex { pass: 3, total: 3, keeps_result: true },
        ]
    );
}

#[test]
fn latex_arguments() {
    let mut o = CompileOptions::default();
    assert_eq!(
        Compiler::latex_args(&o, "/p/main.tex"),
        vec!["-interaction=nonstopmode", "-halt-on-error", "-synctex=1", "/p/main.tex"]
    );
    o.synctex = false;
    o.shell_escape = true;
    o.extra_args = vec!["-8bit".to_string()];
    assert_eq!(
        Compiler::latex_args(&o, "a.tex"),
        vec!["-interaction=nonstopmode", "-halt-on-error", "--shell-escape", "-8bit", "a.tex"]
    );
}

#[test]
fn pass_result_joins_output_and_parses() {
    let r = Compiler::pass_result("! Missing $ inserted.\nl.7 x\n".to_string(), "err", false);
    assert!(!r.success);
    assert!(r.pdf_path.is_none());
    assert_eq!(r.raw_log, "! Missing $ inserted.\nl.7 x\nerr");
    assert_eq!(r.diagnostics.len(), 1);
    assert_eq!(r.diagnostics[0].level, DiagnosticLevel::Error);
    assert_eq!(r.diagnostics[0].line, Some(7));
    assert_eq!(r.diagnostics[0].message, "Missing $ inserted.");
}

#[test]
fn spawn_failure_message() {
    let r = Compiler::spawn_failure_result("xelatex", "No such file or directory");
    assert!(!r.success);
    assert_eq!(r.raw_log, "No such file or directory");
    assert_eq!(r.diagnostics.len(), 1);
    assert_eq!(r.diagnostics[0].message, "Failed to run xelatex: No such file or directory");
    assert_eq!(r.diagnostics[0].level, DiagnosticLevel::Error);
}

#[test]
fn finish_with_and_without_pdf() {
    let base = || CompileResult {
        success: false,
        pdf_path: None,
        diagnostics: vec![],
        raw_log: "log".to_string(),
        duration: Duration::ZERO,
    };
    let d = Duration::from_millis(1500);
    let with = Compiler::finish(base(), d, "/p/main.pdf".to_string(), true);
    assert!(with.success);
    assert_eq!(with.pdf_path.as_deref(), Some("/p/main.pdf"));
    assert_eq!(with.duration, d);
    let without = Compiler::finish(base(), d, "/p/main.pdf".to_string(), false);
    assert!(!without.success);
    assert!(without.pdf_path.is_none());
    assert_eq!(without.raw_log, "log");
}
