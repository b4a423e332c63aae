use ferroleaf::compiler::DiagnosticLevel;
use ferroleaf::log::{match_log_line, parse_log};

#[test]
fn error_with_line_reference() {
    let log = "This is pdfTeX\n! Undefined control sequence.\n<recently read> \\foo\nl.12 \\foo\n";
    let d = parse_log(log);
    assert_eq!(d.len(), 1);
    assert_eq!(d[0].level, DiagnosticLevel::Error);
    assert_eq!(d[0].line, Some(12));
    assert_eq!(d[0].file, None);
    assert_eq!(d[0].message, "Undefined control sequence.");
}

#[test]
fn line_reference_too_far_is_ignored() {
    let log = "! Emergency stop.\na\nb\nc\nd\nl.3 x\n";
    let d = parse_log(log);
    assert_eq!(d.len(), 1);
    assert_eq!(d[0].line, None);
}

#[test]
fn warnings_and_boxes() {
    let log = "LaTeX Warning: Reference `fig:a' on page 1 undefined.\n\
               Package hyperref Warning:   Token not allowed.\n\
               Overfull \\hbox (12.0pt too wide) in paragraph\n";
    let d = parse_log(log);
    assert_eq!(d.len(), 3);
    assert_eq!(d[0].level, DiagnosticLevel::Warning);
    assert_eq!(d[0].message, "Reference `fig:a' on page 1 undefined.");
    assert_eq!(d[1].level, DiagnosticLevel::Warning);
    assert_eq!(d[1].message, "Token not allowed.");
    assert_eq!(d[2].level, DiagnosticLevel::Info);
    assert_eq!(d[2].message, "Overfull \\hbox (12.0pt too wide) in paragraph");
}

#[test]
fn warning_pattern_ignores_case() {
    let d = parse_log("latex warning: something odd\n");
    assert_eq!(d.len(), 1);
    assert_eq!(d[0].message, "something odd");
}

#[test]
fn clean_log_has_no_diagnostics() {
    assert!(parse_log("Output written on main.pdf (1 page).\n").is_empty());
    assert!(parse_log("").is_empty());
}

#[test]
fn one_line_can_give_several_diagnostics() {
    let d = parse_log("! LaTeX Warning: odd Underfull \\vbox\n");
    assert_eq!(d.len(), 3);
    assert_eq!(d[0].level, DiagnosticLevel::Error);
    assert_eq!(d[1].level, DiagnosticLevel::Warning);
    assert_eq!(d[2].level, DiagnosticLevel::Info);
}

#[test]
fn matching_one_line() {
    let m = match_log_line(&"!  Missing } inserted.  ".to_string());
    assert_eq!(m.error_message.as_deref(), Some("Missing } inserted.  "));
    assert!(m.warning_message.is_none());
    assert!(!m.box_report);
    let m = match_log_line(&"l.42 \\end{document}".to_string());
    assert_eq!(m.line_ref.as_deref(), Some("42"));
}
