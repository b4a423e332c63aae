use ferroleaf::compiler::{
    CompileResult, CompileStatus, CompilerKind, Diagnostic, DiagnosticLevel,
};
use ferroleaf::project::ProjectSettings;
use ferroleaf::session::{
    comment_toggle, cursor_label, diagnostic_prefix, diagnostic_text, gutter_numbers, pill_text,
    shortcut_for, tab_label, CompileOptionMsg, ContextMenuKind, Effect, MenuKind, Modal, Session,
    Shortcut, StatusKind,
};
use ferroleaf::synctex::SourceLocation;
use std::time::Duration;

fn status(s: &Session) -> (String, StatusKind) {
    s.status_message.clone().unwrap()
}

fn settings(compiler: &str) -> ProjectSettings {
    ProjectSettings { main_file: None, compiler: compiler.to_string(), bibtex: true, shell_escape: false, extra_args: vec![] }
}

/// A session with the project `/p` open and `/p/main.tex` loaded.
fn opened() -> Session {
    let mut s = Session::new(true, vec![CompilerKind::PdfLatex]);
    let e = s.project_loaded("/p".to_string(), Some("/p/main.tex".to_string()), &settings("xelatex"), false);
    assert!(matches!(&e[..], [Effect::ReadAndOpen(p)] if p == "/p/main.tex"));
    let e = s.file_loaded("/p/main.tex".to_string(), Ok("\\documentclass{article}".to_string()));
    assert!(matches!(&e[..], [Effect::ShowEditor { path, content }] if path == "/p/main.tex" && content == "\\documentclass{article}"));
    s
}

fn result(diags: Vec<Diagnostic>, pdf: Option<&str>) -> CompileResult {
    CompileResult {
        success: pdf.is_some(),
        pdf_path: pdf.map(|p| p.to_string()),
        diagnostics: diags,
        raw_log: "the log".to_string(),
        duration: Duration::from_millis(1200),
    }
}

fn err(msg: &str) -> Diagnostic {
    Diagnostic { level: DiagnosticLevel::Error, file: None, line: Some(3), message: msg.to_string() }
}

#[test]
fn fresh_session() {
    let s = Session::new(false, vec![]);
    assert_eq!(status(&s), ("LaTeX not found - install texlive-full".to_string(), StatusKind::Warning));
    assert!(matches!(s.modal, Modal::WelcomeScreen));
    assert_eq!(s.font_size, 14);
    assert!(s.sidebar_visible);
    assert!(Session::new(true, vec![]).status_message.is_none());
}

#[test]
fn opening_a_project() {
    let s = opened();
    let p = s.project.as_ref().unwrap();
    assert_eq!(p.active_file.as_deref(), Some("/p/main.tex"));
    assert_eq!(s.compile_options.compiler, CompilerKind::XeLatex);
    assert!(s.compile_options.bibtex);
    assert!(s.file_tree.expanded_dirs.contains("/p"));
    assert!(matches!(s.modal, Modal::Closed));
    assert!(!s.dialog_open);
    assert_eq!(status(&s), ("Opened: /p".to_string(), StatusKind::Success));
}

#[test]
fn settings_main_file_wins() {
    let mut s = Session::new(true, vec![]);
    let mut st = settings("pdflatex");
    st.main_file = Some("sub/thesis.tex".to_string());
    let e = s.project_loaded("/p".to_string(), Some("/p/main.tex".to_string()), &st, true);
    assert!(matches!(&e[..], [Effect::ReadAndOpen(p)] if p == "/p/sub/thesis.tex"));
    let mut s = Session::new(true, vec![]);
    let e = s.project_loaded("/p".to_string(), Some("/p/main.tex".to_string()), &st, false);
    assert!(matches!(&e[..], [Effect::ReadAndOpen(p)] if p == "/p/main.tex"));
}

#[test]
fn folder_picker_guard() {
    let mut s = Session::new(true, vec![]);
    let e = s.open_project(true);
    assert!(matches!(&e[..], [Effect::PickFolder { title, new_project: true }] if title == "New Project - Choose Folder"));
    assert!(s.open_project(false).is_empty());
    s.folder_cancelled();
    assert!(!s.dialog_open);
    assert_eq!(status(&s), ("No folder selected".to_string(), StatusKind::Info));
}

#[test]
fn open_error_is_reported() {
    let mut s = opened();
    let e = s.open_file("/p/b.tex".to_string());
    assert!(matches!(&e[..], [Effect::ReadAndOpen(p)] if p == "/p/b.tex"));
    let e = s.file_loaded("/p/b.tex".to_string(), Err("permission denied".to_string()));
    assert!(e.is_empty());
    assert_eq!(status(&s), ("Open error: permission denied".to_string(), StatusKind::Error));
    assert_eq!(s.project.as_ref().unwrap().open_files, vec!["/p/main.tex".to_string()]);
}

#[test]
fn reopening_an_open_file_shows_it() {
    let mut s = opened();
    let e = s.open_file("/p/main.tex".to_string());
    assert!(matches!(&e[..], [Effect::ShowEditor { path, .. }] if path == "/p/main.tex"));
}

#[test]
fn editing_saving_and_closing() {
    let mut s = opened();
    s.content_edited("changed".to_string());
    assert!(s.project.as_ref().unwrap().is_dirty(&"/p/main.tex".to_string()));
    let e = s.save_file();
    assert!(matches!(&e[..], [Effect::WriteFile { path, content, announce: true }] if path == "/p/main.tex" && content == "changed"));
    s.file_written(&"/p/main.tex".to_string(), Ok(()), true);
    assert_eq!(status(&s), ("Saved".to_string(), StatusKind::Success));
    assert!(!s.project.as_ref().unwrap().is_dirty(&"/p/main.tex".to_string()));
    s.file_written(&"/p/main.tex".to_string(), Err("disk full".to_string()), true);
    assert_eq!(status(&s), ("Save error: disk full".to_string(), StatusKind::Error));
    s.content_edited("again".to_string());
    let e = s.close_tab("/p/main.tex".to_string());
    assert!(matches!(&e[..], [Effect::WriteFile { announce: false, .. }, Effect::DropEditor(p)] if p == "/p/main.tex"));
    assert!(s.project.as_ref().unwrap().open_files.is_empty());
}

#[test]
fn save_all_writes_open_files() {
    let mut s = opened();
    s.open_file("/p/b.tex".to_string());
    s.file_loaded("/p/b.tex".to_string(), Ok("B".to_string()));
    let e = s.save_all();
    match &e[..] {
        [Effect::WriteAll(list)] => {
            let mut paths: Vec<&str> = list.iter().map(|(p, _)| p.as_str()).collect();
            paths.sort();
            assert_eq!(paths, vec!["/p/b.tex", "/p/main.tex"]);
        }
        other => panic!("unexpected {:?}", other),
    }
    s.files_written(&vec!["/p/main.tex".to_string()], Some("read-only".to_string()));
    assert_eq!(status(&s), ("Save error: read-only".to_string(), StatusKind::Error));
    assert!(s.project.as_ref().unwrap().is_dirty(&"/p/b.tex".to_string()));
    s.files_written(&vec!["/p/b.tex".to_string()], None);
    assert_eq!(status(&s), ("All saved".to_string(), StatusKind::Success));
    assert!(s.project.as_ref().unwrap().dirty_files().is_empty());
}

#[test]
fn compile_needs_latex_and_target() {
    let mut s = Session::new(false, vec![]);
    assert!(s.compile().is_empty());
    assert_eq!(status(&s), ("LaTeX not found - install texlive-full".to_string(), StatusKind::Error));
    let mut s = Session::new(true, vec![]);
    s.project_loaded("/p".to_string(), None, &settings("pdflatex"), false);
    assert!(s.compile().is_empty());
    assert_eq!(status(&s).1, StatusKind::Warning);
    assert!(status(&s).0.starts_with("No compile target"));
}

#[test]
fn compile_saves_then_starts() {
    let mut s = opened();
    s.compile_log = "old".to_string();
    let e = s.compile();
    assert_eq!(e.len(), 2);
    assert!(matches!(&e[0], Effect::WriteAll(_)));
    assert!(matches!(&e[1], Effect::StartCompile { target, options } if target == "/p/main.tex" && options.compiler == CompilerKind::XeLatex));
    assert!(matches!(s.compile_status, CompileStatus::Compiling { pass: 1, total: 1 }));
    assert!(s.compile_log.is_empty());
    assert!(s.log_panel_visible);
}

#[test]
fn build_outcomes() {
    let mut s = opened();
    let e = s.compile_status_update(CompileStatus::Success(result(vec![], Some("/p/main.pdf"))));
    assert!(matches!(&e[..], [Effect::AnnounceBuild { errors: 0, warnings: 0, kind: StatusKind::Success }, Effect::LoadPdf(p)] if p == "/p/main.pdf"));
    assert!(s.pdf_fit_on_next_render);
    assert_eq!(s.compile_log, "the log");
    let e = s.compile_status_update(CompileStatus::Success(result(vec![err("a"), err("b")], Some("/p/main.pdf"))));
    assert!(matches!(&e[..], [Effect::AnnounceBuild { errors: 2, kind: StatusKind::Warning, .. }, _]));
    let e = s.compile_status_update(CompileStatus::Success(result(vec![err("a")], None)));
    assert!(e.is_empty());
    assert!(matches!(s.compile_status, CompileStatus::Failed(_)));
    assert_eq!(status(&s), ("Failed: 1 errors".to_string(), StatusKind::Error));
    s.compile_status_update(CompileStatus::Failed(result(vec![err("a"), err("b"), err("c")], None)));
    assert_eq!(status(&s), ("Failed: 3 errors".to_string(), StatusKind::Error));
    s.compile_status_update(CompileStatus::RunningBibtex);
    assert!(s.compile_status.is_running());
}

#[test]
fn compile_options_change() {
    let mut s = opened();
    s.compile_option(CompileOptionMsg::SetCompiler("lualatex".to_string()));
    assert_eq!(s.compile_options.compiler, CompilerKind::LuaLatex);
    s.compile_option(CompileOptionMsg::ToggleShellEscape);
    assert!(s.compile_options.shell_escape);
    s.compile_option(CompileOptionMsg::ToggleBibtex);
    assert!(!s.compile_options.bibtex);
    s.compile_option(CompileOptionMsg::SetPasses(0));
    assert_eq!(s.compile_options.passes, 1);
    s.compile_option(CompileOptionMsg::SetPasses(9));
    assert_eq!(s.compile_options.passes, 3);
    s.compile_option(CompileOptionMsg::SetPasses(2));
    assert_eq!(s.compile_options.passes, 2);
}

#[test]
fn main_file_and_settings() {
    let mut s = opened();
    let e = s.set_main_file("/p/thesis.tex".to_string());
    assert!(matches!(&e[..], [Effect::SaveSettings { root, settings }] if root == "/p" && settings.main_file.as_deref() == Some("thesis.tex") && settings.compiler == "xelatex"));
    let e2 = s.set_main_file("/p/chapters/thesis.tex".to_string());
    assert!(matches!(&e2[..], [Effect::SaveSettings { settings, .. }] if settings.main_file.as_deref() == Some("chapters/thesis.tex")));
    assert_eq!(status(&s), ("Main file set to: thesis.tex  ([M] in file tree)".to_string(), StatusKind::Success));
    s.show_settings();
    assert!(matches!(s.modal, Modal::Settings));
    let e = s.close_settings();
    assert_eq!(e.len(), 1);
    assert!(matches!(s.modal, Modal::Closed));
}

#[test]
fn new_file_dialog() {
    let mut s = opened();
    s.new_file();
    s.new_file_name_changed("chapter".to_string());
    let e = s.new_file_confirmed();
    assert!(matches!(&e[..], [Effect::CreateTexFile { file_name, text }] if file_name == "chapter.tex" && text == "% chapter.tex\n"));
    assert!(matches!(s.modal, Modal::Closed));
    let e = s.file_created(Ok("/p/chapter.tex".to_string()));
    assert!(matches!(&e[..], [Effect::ReadAndOpen(p)] if p == "/p/chapter.tex"));
    s.file_created(Err("exists".to_string()));
    assert_eq!(status(&s), ("Create failed: exists".to_string(), StatusKind::Error));
    s.new_file();
    s.new_file_cancelled();
    assert!(matches!(s.modal, Modal::Closed));
}

#[test]
fn synctex_and_lines() {
    let mut s = opened();
    let e = s.synctex_result(Some(SourceLocation { file: "/p/ch.tex".to_string(), line: 12, column: 0 }));
    assert!(matches!(&e[..], [Effect::ReadAndOpen(p), Effect::JumpToLine(12)] if p == "/p/ch.tex"));
    assert_eq!(status(&s), ("Line 12".to_string(), StatusKind::Info));
    s.synctex_result(None);
    assert_eq!(status(&s), ("SyncTeX: no match at this position".to_string(), StatusKind::Info));
}

#[test]
fn shortcuts() {
    assert_eq!(shortcut_for(true, true, "s"), Some(Shortcut::SaveAll));
    assert_eq!(shortcut_for(true, false, "s"), Some(Shortcut::Save));
    assert_eq!(shortcut_for(true, false, "b"), Some(Shortcut::Compile));
    assert_eq!(shortcut_for(true, false, "+"), Some(Shortcut::FontBigger));
    assert_eq!(shortcut_for(true, false, "="), Some(Shortcut::FontBigger));
    assert_eq!(shortcut_for(false, false, "s"), None);
    assert_eq!(shortcut_for(true, false, "q"), None);
    let mut s = opened();
    for _ in 0..30 {
        s.apply_shortcut(Shortcut::FontBigger);
    }
    assert_eq!(s.font_size, 32);
    for _ in 0..40 {
        s.apply_shortcut(Shortcut::FontSmaller);
    }
    assert_eq!(s.font_size, 8);
    s.apply_shortcut(Shortcut::ToggleSidebar);
    assert!(!s.sidebar_visible);
    assert_eq!(shortcut_for(true, false, "f"), Some(Shortcut::ToggleFindPanel));
    assert!(!s.find_panel_visible);
    s.apply_shortcut(Shortcut::ToggleFindPanel);
    assert!(s.find_panel_visible);
    s.apply_shortcut(Shortcut::ToggleFindPanel);
    assert!(!s.find_panel_visible);
}

#[test]
fn menus() {
    let mut s = opened();
    s.show_context_menu(ContextMenuKind::Editor);
    s.toggle_menu(MenuKind::File);
    assert_eq!(s.open_menu, Some(MenuKind::File));
    assert!(s.context_menu.is_none());
    s.toggle_menu(MenuKind::File);
    assert!(s.open_menu.is_none());
    s.toggle_menu(MenuKind::Build);
    s.dismiss();
    assert!(s.open_menu.is_none());
    s.about();
    assert_eq!(status(&s).0, "Ferroleaf - Native LaTeX editor for Linux (iced 0.13 + SyncTeX)");
    s.error("boom".to_string());
    assert_eq!(status(&s), ("boom".to_string(), StatusKind::Error));
}

#[test]
fn status_bar_texts() {
    let mut s = opened();
    assert_eq!(s.target_label(), "XeLaTeX -> main.tex (main)");
    s.switch_tab("/p/notes.txt".to_string());
    assert_eq!(s.target_label(), "XeLaTeX -> main.tex (main)");
    let mut t = Session::new(true, vec![]);
    t.project_loaded("/q".to_string(), None, &settings("pdflatex"), false);
    t.open_file("/q/ch.tex".to_string());
    t.file_loaded("/q/ch.tex".to_string(), Ok("x".to_string()));
    assert_eq!(t.target_label(), "pdfLaTeX -> ch.tex (active tab)");
    t.set_main_file("/q/sub/main.tex".to_string());
    assert_eq!(t.target_label(), "pdfLaTeX -> main.tex (main)");
    assert_eq!(Session::new(true, vec![]).target_label(), "pdfLaTeX");
    assert_eq!(Session::new(true, vec![]).status_line(), ("Ready".to_string(), None));
    assert_eq!(pill_text(&CompileStatus::Compiling { pass: 2, total: 3 }), "Building 2/3");
    assert_eq!(pill_text(&CompileStatus::Idle), "[ ]");
    assert_eq!(pill_text(&CompileStatus::RunningBibtex), "BibTeX...");
    assert_eq!(cursor_label(0, 9), "Ln 1, Col 10");
    assert_eq!(tab_label("/p/main.tex", true), "* main.tex");
    assert_eq!(tab_label("/", false), "?");
    assert_eq!(gutter_numbers(0), vec!["   1"]);
    assert_eq!(gutter_numbers(12)[11], "  12");
}

#[test]
fn log_panel_texts() {
    assert_eq!(diagnostic_prefix(DiagnosticLevel::Error), "[E]");
    assert_eq!(diagnostic_prefix(DiagnosticLevel::Warning), "[W]");
    assert_eq!(diagnostic_prefix(DiagnosticLevel::Info), "[i]");
    let d = Diagnostic { level: DiagnosticLevel::Error, file: Some("a.tex".to_string()), line: Some(4), message: "bad".to_string() };
    assert_eq!(diagnostic_text(&d), "a.tex:4 - bad");
    let d = Diagnostic { level: DiagnosticLevel::Error, file: Some("a.tex".to_string()), line: None, message: "bad".to_string() };
    assert_eq!(diagnostic_text(&d), "a.tex - bad");
    let d = Diagnostic { level: DiagnosticLevel::Error, file: None, line: Some(4), message: "bad".to_string() };
    assert_eq!(diagnostic_text(&d), "bad");
}

#[test]
fn commenting_lines() {
    assert_eq!(comment_toggle("a\n% b\nc", 1), Some(true));
    assert_eq!(comment_toggle("a\n% b\nc", 0), Some(false));
    assert_eq!(comment_toggle("a\n% b\nc", 3), None);
    assert_eq!(comment_toggle("", 0), None);
}

#[test]
fn closing_the_active_tab() {
    let mut s = opened();
    let e = s.close_active_tab();
    assert!(matches!(e.last(), Some(Effect::DropEditor(p)) if p == "/p/main.tex"));
    assert!(s.close_active_tab().is_empty());
    let e = s.go_to_line(5);
    assert!(matches!(&e[..], [Effect::JumpToLine(5)]));
}

#[test]
fn shortcuts_act_as_their_requests() {
    let mut a = opened();
    let mut b = opened();
    a.content_edited("edited".to_string());
    b.content_edited("edited".to_string());
    let ea = a.apply_shortcut(Shortcut::Save);
    let eb = b.save_file();
    assert_eq!(format!("{:?}", ea), format!("{:?}", eb));
    assert_eq!(a.project.as_ref().unwrap().open_files, b.project.as_ref().unwrap().open_files);
    let ea = a.apply_shortcut(Shortcut::Compile);
    let eb = b.compile();
    assert_eq!(format!("{:?}", ea), format!("{:?}", eb));
    assert_eq!(format!("{:?}", a.compile_status), format!("{:?}", b.compile_status));
    let mut c = opened();
    let mut d = opened();
    let ec = c.apply_shortcut(Shortcut::OpenProject);
    let ed = d.open_project(false);
    assert_eq!(format!("{:?}", ec), format!("{:?}", ed));
    assert_eq!(c.dialog_open, d.dialog_open);
    assert!(c.apply_shortcut(Shortcut::OpenProject).is_empty());
}
