use ferroleaf::file_tree::{file_icon, hidden_extension_list, should_show, FileEntry, FileTree, FsNode};
use ferroleaf::project::Project;

fn file(path: &str) -> FsNode {
    let name = path.rsplit('/').next().unwrap().to_string();
    FsNode { path: path.to_string(), name, is_dir: false, children: vec![] }
}

fn dir(path: &str, children: Vec<FsNode>) -> FsNode {
    let name = path.rsplit('/').next().unwrap().to_string();
    FsNode { path: path.to_string(), name, is_dir: true, children }
}

#[test]
fn intermediate_files_are_hidden() {
    for p in ["/p/main.aux", "/p/main.LOG", "/p/main.synctex.gz", "/p/x.fdb_latexmk", "/p/a.bbl", "/p/b.Toc", "/p/a.run.xml", "/p/A.RUN.XML"] {
        assert!(!should_show(p), "{}", p);
    }
    for p in ["/p/main.tex", "/p/refs.bib", "/p/Makefile", "/p/fig.png", "/p/a.gz", "/p/data.xml"] {
        assert!(should_show(p), "{}", p);
    }
    assert_eq!(hidden_extension_list().len(), 29);
}

#[test]
fn listing_sorts_dirs_first_and_hides() {
    let tree = vec![
        file("/p/main.tex"),
        file("/p/main.aux"),
        dir("/p/figs", vec![file("/p/figs/b.png"), file("/p/figs/a.png")]),
        dir("/p/.git", vec![file("/p/.git/HEAD")]),
        file("/p/.latexmkrc"),
        dir("/p/target", vec![]),
        file("/p/appendix.tex"),
    ];
    let p = Project::new("/p".to_string(), Some("/p/main.tex".to_string()));
    let got: Vec<(String, usize, bool, bool)> = p
        .visible_files(tree)
        .into_iter()
        .map(|e| (e.name, e.depth, e.is_dir, e.is_main))
        .collect();
    assert_eq!(
        got,
        vec![
            ("figs".to_string(), 0, true, false),
            ("a.png".to_string(), 1, false, false),
            ("b.png".to_string(), 1, false, false),
            ("appendix.tex".to_string(), 0, false, false),
            ("main.tex".to_string(), 0, false, true),
        ]
    );
}

#[test]
fn toggling_twice_restores() {
    let mut t = FileTree::default();
    let d = "/p/figs".to_string();
    assert!(!t.expanded_dirs.contains(&d));
    t.toggle_dir(&d);
    assert!(t.expanded_dirs.contains(&d));
    t.toggle_dir(&d);
    assert!(!t.expanded_dirs.contains(&d));
}

#[test]
fn visibility_needs_expanded_ancestors_up_to_the_root() {
    let mut t = FileTree::default();
    let e = FileEntry { path: "/p/figs/a.png".to_string(), name: "a.png".to_string(), depth: 1, is_dir: false, is_main: false };
    let d = FileEntry { path: "/p/figs".to_string(), name: "figs".to_string(), depth: 0, is_dir: true, is_main: false };
    let top = FileEntry { path: "/p/main.tex".to_string(), name: "main.tex".to_string(), depth: 0, is_dir: false, is_main: true };
    assert!(t.entry_visible(&top, "", "/p"));
    assert!(t.entry_visible(&d, "", "/p"));
    assert!(!t.entry_visible(&e, "", "/p"));
    t.toggle_dir(&"/p/figs".to_string());
    assert!(!t.entry_visible(&e, "", "/p"));
    t.toggle_dir(&"/p".to_string());
    // folders above the project root need not be expanded
    assert!(t.entry_visible(&e, "", "/p"));
    t.toggle_dir(&"/p/figs".to_string());
    assert!(!t.entry_visible(&e, "", "/p"));
}

#[test]
fn search_matches_names_ignoring_case() {
    let t = FileTree::default();
    let e = FileEntry { path: "/p/figs/Plot.png".to_string(), name: "Plot.png".to_string(), depth: 2, is_dir: false, is_main: false };
    assert!(t.entry_visible(&e, "plo", "/p"));
    assert!(!t.entry_visible(&e, "tex", "/p"));
    let d = FileEntry { path: "/p/figs".to_string(), name: "figs".to_string(), depth: 1, is_dir: true, is_main: false };
    assert!(t.entry_visible(&d, "zzz", "/p"));
}

#[test]
fn icons() {
    assert_eq!(file_icon("main.tex"), "T");
    assert_eq!(file_icon("refs.BIB"), "B");
    assert_eq!(file_icon("style.sty"), "S");
    assert_eq!(file_icon("out.pdf"), "P");
    assert_eq!(file_icon("a.jpeg"), "I");
    assert_eq!(file_icon("notes.md"), "D");
    assert_eq!(file_icon("Makefile"), ".");
    assert_eq!(file_icon("tex"), "T");
}
