use ferroleaf::compiler::{CompileOptions, CompilerKind};
use ferroleaf::project::{default_compiler, settings_main_path, stored_main, Project, ProjectSettings, TexCandidate};

fn project() -> Project {
    Project::new("/home/u/paper".to_string(), Some("/home/u/paper/main.tex".to_string()))
}

fn open(p: &mut Project, path: &str, text: &str) {
    p.open_file(path.to_string(), Ok(text.to_string())).unwrap();
}

#[test]
fn new_project_is_named_after_its_root() {
    let p = project();
    assert_eq!(p.name, "paper");
    assert_eq!(p.root, "/home/u/paper");
    assert!(p.open_files.is_empty());
    assert!(p.active_file.is_none());
    assert_eq!(Project::new("/".to_string(), None).name, "Untitled");
}

#[test]
fn opening_makes_active_and_reads_once() {
    let mut p = project();
    open(&mut p, "/a.tex", "A");
    open(&mut p, "/b.tex", "B");
    assert_eq!(p.open_files, vec!["/a.tex", "/b.tex"]);
    assert_eq!(p.active_file.as_deref(), Some("/b.tex"));
    // already open: the new contents are not read again
    p.open_file("/a.tex".to_string(), Ok("other".to_string())).unwrap();
    assert_eq!(p.open_files, vec!["/a.tex", "/b.tex"]);
    assert_eq!(p.active_file.as_deref(), Some("/a.tex"));
    assert_eq!(p.get_content(&"/a.tex".to_string()).map(|s| s.as_str()), Some("A"));
    assert!(!p.is_dirty(&"/a.tex".to_string()));
}

#[test]
fn failed_read_changes_nothing() {
    let mut p = project();
    open(&mut p, "/a.tex", "A");
    let r = p.open_file("/missing.tex".to_string(), Err("No such file".to_string()));
    assert_eq!(r, Err("No such file".to_string()));
    assert_eq!(p.open_files, vec!["/a.tex"]);
    assert_eq!(p.active_file.as_deref(), Some("/a.tex"));
    assert!(p.get_content(&"/missing.tex".to_string()).is_none());
}

#[test]
fn read_after_edit() {
    let mut p = project();
    open(&mut p, "/a.tex", "A");
    p.update_content(&"/a.tex".to_string(), "edited".to_string());
    assert_eq!(p.get_content(&"/a.tex".to_string()).map(|s| s.as_str()), Some("edited"));
    assert!(p.is_dirty(&"/a.tex".to_string()));
    p.mark_saved(&"/a.tex".to_string());
    assert!(!p.is_dirty(&"/a.tex".to_string()));
}

#[test]
fn closing_restores_tabs_and_picks_last() {
    let mut p = project();
    open(&mut p, "/a.tex", "A");
    open(&mut p, "/b.tex", "B");
    open(&mut p, "/c.tex", "C");
    p.close_file(&"/c.tex".to_string());
    assert_eq!(p.open_files, vec!["/a.tex", "/b.tex"]);
    assert_eq!(p.active_file.as_deref(), Some("/b.tex"));
    p.close_file(&"/a.tex".to_string());
    assert_eq!(p.active_file.as_deref(), Some("/b.tex"));
    p.close_file(&"/b.tex".to_string());
    assert!(p.active_file.is_none());
    // contents survive closing
    assert!(p.get_content(&"/a.tex".to_string()).is_some());
}

#[test]
fn dirty_files_and_save_all() {
    let mut p = project();
    open(&mut p, "/a.tex", "A");
    open(&mut p, "/b.tex", "B");
    p.update_content(&"/b.tex".to_string(), "B2".to_string());
    assert_eq!(p.dirty_files(), vec!["/b.tex".to_string()]);
    assert_eq!(p.save_all(), vec![("/b.tex".to_string(), "B2".to_string())]);
    p.mark_open_files_changed();
    let all = p.save_all();
    assert_eq!(all.len(), 2);
    let written: Vec<String> = all.iter().map(|(k, _)| k.clone()).collect();
    p.mark_all_saved(&written);
    assert!(p.dirty_files().is_empty());
}

#[test]
fn compile_target_prefers_main() {
    let mut p = project();
    open(&mut p, "/home/u/paper/ch1.tex", "x");
    assert_eq!(p.compile_target().map(|s| s.as_str()), Some("/home/u/paper/main.tex"));
    let mut q = Project::new("/r".to_string(), None);
    assert!(q.compile_target().is_none());
    open(&mut q, "/r/fig.png", "x");
    assert!(q.compile_target().is_none());
    open(&mut q, "/r/ch.tex", "x");
    assert_eq!(q.compile_target().map(|s| s.as_str()), Some("/r/ch.tex"));
    q.set_main_file("/r/main.tex".to_string());
    assert_eq!(q.compile_target().map(|s| s.as_str()), Some("/r/main.tex"));
}

#[test]
fn new_file_names() {
    assert_eq!(Project::tex_file_name("chapter"), "chapter.tex");
    assert_eq!(Project::tex_file_name("intro.tex"), "intro.tex");
    assert!(Project::tex_file_name("").ends_with(".tex"));
    assert_eq!(Project::new_file_text("chapter.tex"), "% chapter.tex\n");
}

#[test]
fn main_file_detection() {
    let names = Project::main_file_names();
    assert_eq!(names, vec!["main.tex", "paper.tex", "thesis.tex", "document.tex", "article.tex"]);
    let pref = vec![
        ("/r/main.tex".to_string(), false),
        ("/r/paper.tex".to_string(), true),
        ("/r/thesis.tex".to_string(), true),
    ];
    assert_eq!(Project::find_main(&pref, &vec![]).as_deref(), Some("/r/paper.tex"));
    let none = vec![("/r/main.tex".to_string(), false)];
    let tex = vec![
        TexCandidate { path: "/r/z.tex".to_string(), content: Some("\\documentclass{article}".to_string()) },
        TexCandidate { path: "/r/b.tex".to_string(), content: Some("\\input{x}".to_string()) },
        TexCandidate { path: "/r/c.tex".to_string(), content: Some("x \\documentclass{book}".to_string()) },
        TexCandidate { path: "/r/a.tex".to_string(), content: None },
    ];
    assert_eq!(Project::find_main(&none, &tex).as_deref(), Some("/r/c.tex"));
    assert_eq!(Project::find_main(&none, &vec![]), None);
}

#[test]
fn tex_files_are_filtered() {
    let paths = vec!["/r/a.tex".to_string(), "/r/b.bib".to_string(), "/r/c.tex".to_string(), "/r/tex".to_string()];
    assert_eq!(Project::tex_files(&paths), vec!["/r/a.tex".to_string(), "/r/c.tex".to_string()]);
}

#[test]
fn settings_resolution() {
    let missing = ProjectSettings::resolve(false, None);
    assert_eq!(missing.compiler, "pdflatex");
    assert!(missing.main_file.is_none());
    let unparsable = ProjectSettings::resolve(true, None);
    assert_eq!(unparsable.compiler, "");
    let s = ProjectSettings {
        main_file: Some("thesis.tex".to_string()),
        compiler: "xelatex".to_string(),
        bibtex: true,
        shell_escape: false,
        extra_args: vec![],
    };
    let r = ProjectSettings::resolve(true, Some(s.clone()));
    assert_eq!(r.main_file.as_deref(), Some("thesis.tex"));
    assert_eq!(r.compiler, "xelatex");
    assert_eq!(default_compiler(), "pdflatex");
}

#[test]
fn settings_capture_and_apply() {
    let mut opts = CompileOptions::default();
    opts.compiler = CompilerKind::LuaLatex;
    opts.bibtex = true;
    opts.extra_args = vec!["-8bit".to_string()];
    let s = ProjectSettings::capture("/r", &Some("/r/main.tex".to_string()), &opts);
    assert_eq!(s.main_file.as_deref(), Some("main.tex"));
    assert_eq!(s.compiler, "lualatex");
    assert!(s.bibtex);
    assert!(!s.shell_escape);
    assert_eq!(s.extra_args, vec!["-8bit".to_string()]);
    let mut fresh = CompileOptions::default();
    fresh.apply_settings(&s);
    assert_eq!(fresh.compiler, CompilerKind::LuaLatex);
    assert!(fresh.bibtex);
    assert_eq!(fresh.passes, 1);
}

#[test]
fn open_then_close_restores_tabs() {
    let mut p = project();
    open(&mut p, "/a.tex", "A");
    open(&mut p, "/b.tex", "B");
    let before = p.open_files.clone();
    open(&mut p, "/c.tex", "C");
    p.close_file(&"/c.tex".to_string());
    assert_eq!(p.open_files, before);
}

#[test]
fn main_file_in_subfolder_is_remembered() {
    let opts = CompileOptions::default();
    let s = ProjectSettings::capture("/r", &Some("/r/sub/a.tex".to_string()), &opts);
    assert_eq!(s.main_file.as_deref(), Some("sub/a.tex"));
    assert_eq!(settings_main_path("/r", "sub/a.tex"), "/r/sub/a.tex");
    assert_eq!(settings_main_path("/r/", "sub/a.tex"), "/r/sub/a.tex");
    assert_eq!(stored_main("/r/", "/r/sub/a.tex").as_deref(), Some("sub/a.tex"));
    // outside the root only the file name is kept
    assert_eq!(stored_main("/r", "/other/b.tex").as_deref(), Some("b.tex"));
    assert_eq!(stored_main("/r", "/rx/b.tex").as_deref(), Some("b.tex"));
    assert!(ProjectSettings::capture("/r", &None, &opts).main_file.is_none());
}

#[test]
fn settings_main_path_joins_like_path_join() {
    for (root, stored) in [("/r", "/abs/a.tex"), ("", "a.tex"), ("/r", "a.tex"), ("/r/", "sub/a.tex"), ("rel", "x/y.tex")] {
        let joined = std::path::Path::new(root).join(stored);
        assert_eq!(settings_main_path(root, stored), joined.to_str().unwrap());
    }
    assert_eq!(settings_main_path("/r", "/abs/a.tex"), "/abs/a.tex");
    assert_eq!(settings_main_path("", "a.tex"), "a.tex");
}

#[test]
fn reopening_an_open_file_keeps_one_tab() {
    let mut p = Project::new("/r".to_string(), None);
    open(&mut p, "/r/a.tex", "A");
    open(&mut p, "/r/a.tex", "A");
    assert_eq!(p.open_files, vec!["/r/a.tex".to_string()]);
}
