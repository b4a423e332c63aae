//! The editor session: what the window's state is and how each user action
//! or finished outside task changes it.
//!
//! Each handler changes the state and returns the outside work to do, as a
//! list of `Effect`s, in order.  The caller performs them (dialogs, file
//! reads and writes, compiler runs, PDF rendering) and reports what came of
//! them through the matching handler.
//!
//! The project holds the text of every open editor: the caller reports each
//! edit through `content_edited`, so saving writes what the editors show.

use vstd::prelude::*;
use crate::bridge::{path_file_name, path_file_name_of};
use crate::compiler::{
    CompileOptions, CompileStatus, CompilerKind, DiagnosticLevel, Diagnostic,
    display_spec, from_str_spec, str_equal, with_level,
};
use crate::file_tree::FileTree;
use crate::paths::{has_extension, path_extension_spec};
use crate::project::{Project, ProjectSettings, opt_view, pair_keys, with_flags};
use crate::synctex::SourceLocation;
use crate::text::{decimal_spec, decimal_string, lines_spec, split_lines};

verus! {

#[derive(Debug, Clone, Copy, PartialEq, Eq, Structural)]
pub enum MenuKind {
    File,
    Edit,
    Build,
    View,
    Help,
}

#[derive(Debug, Clone, Copy, PartialEq, Eq, Structural)]
pub enum ContextMenuKind {
    Editor,
    PdfViewer,
}

#[derive(Debug, Clone)]
pub enum CompileOptionMsg {
    SetCompiler(String),
    ToggleShellEscape,
    ToggleBibtex,
    SetPasses(u8),
}

/// The dialog shown over the window, if any.
#[derive(Debug)]
pub enum Modal {
    /// No dialog is shown.
    Closed,
    NewFile { name: String },
    Settings,
    WelcomeScreen,
}

#[derive(Clone, Copy, Debug, PartialEq, Eq, Structural)]
pub enum StatusKind {
    Info,
    Success,
    Error,
    Warning,
}

/// Keyboard shortcuts (all with the command modifier).
#[derive(Clone, Copy, Debug, PartialEq, Eq, Structural)]
pub enum Shortcut {
    SaveAll,
    Save,
    Compile,
    ToggleSidebar,
    ToggleFindPanel,
    NewFile,
    OpenProject,
    FontBigger,
    FontSmaller,
}

/// Outside work that a handler asks for, in the order given.
#[derive(Debug)]
pub enum Effect {
    /// Show a folder picker; with `new_project`, a chosen folder without
    /// `main.tex` gets the article template first.
    PickFolder { title: String, new_project: bool },
    /// Read the file and report it to `file_loaded`.
    ReadAndOpen(String),
    /// Make sure an editor exists for the file, holding `content`.
    ShowEditor { path: String, content: String },
    /// Drop the file's editor.
    DropEditor(String),
    /// Write the file and report it to `file_written`.
    WriteFile { path: String, content: String, announce: bool },
    /// Write the files in order, stopping at the first failure, and report
    /// to `files_written`.
    WriteAll(Vec<(String, String)>),
    /// Create `file_name` in the project root with `text`, and report to
    /// `file_created`.
    CreateTexFile { file_name: String, text: String },
    /// Delete the file and, on success, report to `file_removed`.
    RemoveFile(String),
    /// Store the settings in the project root.
    SaveSettings { root: String, settings: ProjectSettings },
    /// Run a compile and report each status to `compile_status_update`.
    StartCompile { target: String, options: CompileOptions },
    /// Announce a finished build with its counts and duration, in this kind.
    AnnounceBuild { errors: usize, warnings: usize, kind: StatusKind },
    /// Show this PDF, rendered to fit the panel.
    LoadPdf(String),
    /// Move the active editor's cursor to this 1-based line.
    JumpToLine(u32),
    /// Scroll the line-number gutter back to the top.
    ScrollGutterTop,
}

/// The window's state, apart from geometry, editors and rendered pages.
pub struct Session {
    pub project: Option<Project>,
    pub file_tree: FileTree,
    pub compile_status: CompileStatus,
    pub compile_options: CompileOptions,
    pub compile_log: String,
    pub sidebar_visible: bool,
    pub find_panel_visible: bool,
    pub log_panel_visible: bool,
    pub font_size: u16,
    pub search_query: String,
    pub modal: Modal,
    pub status_message: Option<(String, StatusKind)>,
    pub latex_available: bool,
    pub available_compilers: Vec<CompilerKind>,
    pub open_menu: Option<MenuKind>,
    pub context_menu: Option<ContextMenuKind>,
    pub dialog_open: bool,
    pub pdf_fit_on_next_render: bool,
}

pub open spec fn status_is(s: Option<(String, StatusKind)>, text: Seq<char>, kind: StatusKind) -> bool {
    s matches Some((m, k)) && m@ == text && k == kind
}

pub open spec fn latex_missing_text() -> Seq<char> {
    "LaTeX not found - install texlive-full"@
}

pub open spec fn no_target_text() -> Seq<char> {
    "No compile target -- open a .tex file, or click [M] next to a file to set it as main"@
}

pub open spec fn about_text() -> Seq<char> {
    "Ferroleaf - Native LaTeX editor for Linux (iced 0.13 + SyncTeX)"@
}

/// The shortcut for a key pressed with modifiers, if it is one.
pub open spec fn shortcut_spec(command: bool, shift: bool, key: Seq<char>) -> Option<Shortcut> {
    if !command {
        None
    } else if key == "s"@ && shift {
        Some(Shortcut::SaveAll)
    } else if key == "s"@ {
        Some(Shortcut::Save)
    } else if key == "b"@ {
        Some(Shortcut::Compile)
    } else if key == "\\"@ {
        Some(Shortcut::ToggleSidebar)
    } else if key == "f"@ {
        Some(Shortcut::ToggleFindPanel)
    } else if key == "n"@ {
        Some(Shortcut::NewFile)
    } else if key == "o"@ {
        Some(Shortcut::OpenProject)
    } else if key == "="@ || key == "+"@ {
        Some(Shortcut::FontBigger)
    } else if key == "-"@ {
        Some(Shortcut::FontSmaller)
    } else {
        None
    }
}

/// The shortcut for a key pressed with the given modifiers.
pub fn shortcut_for(command: bool, shift: bool, key: &str) -> (r: Option<Shortcut>)
    ensures
        r == shortcut_spec(command, shift, key@),
{
    if !command {
        None
    } else if str_equal(key, "s") && shift {
        Some(Shortcut::SaveAll)
    } else if str_equal(key, "s") {
        Some(Shortcut::Save)
    } else if str_equal(key, "b") {
        Some(Shortcut::Compile)
    } else if str_equal(key, "\\") {
        Some(Shortcut::ToggleSidebar)
    } else if str_equal(key, "f") {
        Some(Shortcut::ToggleFindPanel)
    } else if str_equal(key, "n") {
        Some(Shortcut::NewFile)
    } else if str_equal(key, "o") {
        Some(Shortcut::OpenProject)
    } else if str_equal(key, "=") || str_equal(key, "+") {
        Some(Shortcut::FontBigger)
    } else if str_equal(key, "-") {
        Some(Shortcut::FontSmaller)
    } else {
        None
    }
}

/// The font size after a bigger/smaller step: at most 32, at least 8.
pub open spec fn font_step(size: u16, bigger: bool) -> u16 {
    if bigger {
        if size + 1 <= 32 { (size + 1) as u16 } else { 32 }
    } else {
        let s = if size >= 1 { (size - 1) as u16 } else { 0u16 };
        if s >= 8 { s } else { 8 }
    }
}

/// Passes asked for, kept between 1 and 3.
pub open spec fn clamp_passes(n: u8) -> u8 {
    if n < 1 { 1 } else if n > 3 { 3 } else { n }
}

/// `q` is `p` after a save-all flagged every open file that has contents.
pub open spec fn saved_all(p: Project, q: Project) -> bool {
    &&& q.contents() == p.contents()
    &&& q.dirty_map() == with_flags(p.dirty_map(), p.open_view(), p.contents(), true)
    &&& q.open_files == p.open_files
    &&& q.active_file == p.active_file
    &&& q.main_file == p.main_file
    &&& q.root == p.root
    &&& q.name == p.name
}

/// `list` holds, once each and with its contents, every file of `p` that
/// is open or has unsaved changes, and has contents.
pub open spec fn writes_all(p: Project, list: Seq<(String, String)>) -> bool {
    &&& pair_keys(list).no_duplicates()
    &&& forall|k: Seq<char>| #[trigger] pair_keys(list).contains(k) <==> ((p.open_view().contains(k)
        || p.is_dirty_spec(k)) && p.contents().dom().contains(k))
    &&& forall|i: int| 0 <= i < list.len() ==> p.contents()[#[trigger] list[i].0@] == list[i].1@
}

/// After flagging the open files, the pending writes are what a save-all
/// must write.
proof fn lemma_save_all_writes(p0: Project, p1: Project, list: Seq<(String, String)>)
    requires
        p1.contents() == p0.contents(),
        p1.dirty_map() == with_flags(p0.dirty_map(), p0.open_view(), p0.contents(), true),
        pair_keys(list).no_duplicates(),
        forall|q: Seq<char>| pair_keys(list).contains(q) <==> (p1.is_dirty_spec(q) && p1.contents().dom().contains(q)),
        forall|i: int| 0 <= i < list.len() ==> p1.contents()[#[trigger] list[i].0@] == list[i].1@,
    ensures
        writes_all(p0, list),
{
    let m = with_flags(p0.dirty_map(), p0.open_view(), p0.contents(), true);
    assert forall|k: Seq<char>| #[trigger] pair_keys(list).contains(k) <==> ((p0.open_view().contains(k)
        || p0.is_dirty_spec(k)) && p0.contents().dom().contains(k)) by {
        assert(pair_keys(list).contains(k) <==> (p1.is_dirty_spec(k) && p1.contents().dom().contains(k)));
        if p0.open_view().contains(k) && p0.contents().dom().contains(k) {
            assert(m.dom().contains(k) && m[k]);
        }
    }
    assert(pair_keys(list).no_duplicates());
    assert(forall|i: int| 0 <= i < list.len() ==> p0.contents()[#[trigger] list[i].0@] == list[i].1@);
}

/// `s1` and `r` are what asking for a folder does to `s0`: nothing while a
/// picker is open, otherwise a picker with the right title.
pub open spec fn asked_folder(s0: Session, s1: Session, new_project: bool, r: Seq<Effect>) -> bool {
    if s0.dialog_open {
        r.len() == 0 && s1 == s0
    } else {
        &&& r.len() == 1
        &&& r[0] matches Effect::PickFolder { title, new_project: np } && np == new_project
            && title@ == (if new_project { "New Project - Choose Folder"@ } else { "Open LaTeX Project Folder"@ })
        &&& s1 == (Session { dialog_open: true, ..s0 })
    }
}

/// `s1` and `r` are what opening `path` does to `s0`: an open file becomes
/// active and its editor is shown; another file is asked to be read.
pub open spec fn opened_file(s0: Session, s1: Session, path: String, r: Seq<Effect>) -> bool {
    match s0.project {
        None => s1 == s0 && r.len() == 0,
        Some(p) => if p.open_view().contains(path@) {
            &&& s1.project == Some(Project { active_file: Some(path), ..p })
            &&& (if p.contents().dom().contains(path@) {
                r.len() == 1 && (r[0] matches Effect::ShowEditor { path: q, content: c } && q == path
                    && c@ == p.contents()[path@])
            } else {
                r.len() == 0
            })
            &&& s1 == (Session { project: s1.project, ..s0 })
        } else {
            s1 == s0 && r == seq![Effect::ReadAndOpen(path)]
        },
    }
}

/// `q` is `p` with `path` closed.
pub open spec fn closed_in(p: Project, q: Project, path: Seq<char>) -> bool {
    &&& q.open_view() == crate::project::without(p.open_view(), path)
    &&& q.contents() == p.contents()
    &&& q.dirty_map() == p.dirty_map()
    &&& q.root == p.root
    &&& q.main_file == p.main_file
    &&& opt_view(p.active_file) != Some(path) ==> q.active_file == p.active_file
    &&& opt_view(p.active_file) == Some(path) ==> opt_view(q.active_file) == (if q.open_view().len() == 0 {
        None
    } else {
        Some(q.open_view().last())
    })
}

/// `s1` and `r` are what closing the tab of `path` does to `s0`: a file with
/// unsaved changes is written first, then it is closed and its editor
/// dropped.
pub open spec fn closed_tab(s0: Session, s1: Session, path: String, r: Seq<Effect>) -> bool {
    match s0.project {
        None => s1 == s0 && r.len() == 0,
        Some(p) => {
            &&& s1.project matches Some(q) && closed_in(p, q, path@)
            &&& (if p.is_dirty_spec(path@) && p.contents().dom().contains(path@) {
                r.len() == 2 && (r[0] matches Effect::WriteFile { path: x, content: y, announce: a }
                    && x == path && y@ == p.contents()[path@] && !a)
                    && r[1] == Effect::DropEditor(path)
            } else {
                r == seq![Effect::DropEditor(path)]
            })
            &&& s1 == (Session { project: s1.project, ..s0 })
        },
    }
}

/// `s1` and `r` are what saving the active file does to `s0`.
pub open spec fn saved_file(s0: Session, s1: Session, r: Seq<Effect>) -> bool {
    match s0.project {
        Some(p) => match p.active_file {
            Some(a) => if p.contents().dom().contains(a@) {
                &&& s1.project matches Some(q) && q.contents() == p.contents()
                    && q.dirty_map() == p.dirty_map().insert(a@, true)
                    && q.open_files == p.open_files && q.active_file == p.active_file
                    && q.main_file == p.main_file && q.root == p.root && q.name == p.name
                &&& r.len() == 1
                &&& r[0] matches Effect::WriteFile { path: x, content: y, announce: b } && x == a
                    && y@ == p.contents()[a@] && b
                &&& s1 == (Session { project: s1.project, ..s0 })
            } else {
                &&& r.len() == 0
                &&& status_is(s1.status_message, "Saved"@, StatusKind::Success)
                &&& s1 == (Session { status_message: s1.status_message, ..s0 })
            },
            None => s1 == s0 && r.len() == 0,
        },
        None => s1 == s0 && r.len() == 0,
    }
}

/// `s1` and `r` are what saving every file does to `s0`.
pub open spec fn saved_everything(s0: Session, s1: Session, r: Seq<Effect>) -> bool {
    match s0.project {
        None => s1 == s0 && r.len() == 0,
        Some(p) => {
            &&& s1.project matches Some(q) && saved_all(p, q)
            &&& r.len() == 1
            &&& r[0] matches Effect::WriteAll(l) && writes_all(p, l@)
            &&& s1 == (Session { project: s1.project, ..s0 })
        },
    }
}

/// `s1` and `r` are what a compile request does to `s0`: without LaTeX or
/// a target it says why; otherwise everything is saved and the build starts.
pub open spec fn compile_started(s0: Session, s1: Session, r: Seq<Effect>) -> bool {
    if !s0.latex_available {
        &&& r.len() == 0
        &&& status_is(s1.status_message, latex_missing_text(), StatusKind::Error)
        &&& s1 == (Session { status_message: s1.status_message, ..s0 })
    } else {
        match s0.project {
            None => r.len() == 0 && s1 == s0,
            Some(p) => match p.compile_target_spec() {
                None => {
                    &&& r.len() == 0
                    &&& status_is(s1.status_message, no_target_text(), StatusKind::Warning)
                    &&& s1 == (Session { status_message: s1.status_message, ..s0 })
                },
                Some(t) => {
                    &&& s1.project matches Some(q) && saved_all(p, q)
                    &&& s1.compile_status == (CompileStatus::Compiling { pass: 1, total: 1 })
                    &&& s1.compile_log@ == Seq::<char>::empty()
                    &&& r.len() == 2
                    &&& r[0] matches Effect::WriteAll(l) && writes_all(p, l@)
                    &&& r[1] matches Effect::StartCompile { target, options } && target@ == t
                        && same_options(options, s0.compile_options)
                    &&& s1 == (Session {
                        project: s1.project,
                        compile_status: s1.compile_status,
                        compile_log: s1.compile_log,
                        log_panel_visible: true,
                        ..s0
                    })
                },
            },
        }
    }
}

/// Two option sets configure the same compile.
pub open spec fn same_options(a: CompileOptions, b: CompileOptions) -> bool {
    &&& a.compiler == b.compiler
    &&& a.shell_escape == b.shell_escape
    &&& a.bibtex == b.bibtex
    &&& a.synctex == b.synctex
    &&& a.passes == b.passes
    &&& a.extra_args.deep_view() == b.extra_args.deep_view()
}

/// The status text of a failed build with `n` errors.
pub open spec fn failed_text(n: nat) -> Seq<char> {
    "Failed: "@ + decimal_spec(n) + " errors"@
}

impl CompileOptions {
    /// A copy of these options.
    pub fn duplicate(&self) -> (r: Self)
        ensures
            same_options(r, *self),
    {
        CompileOptions {
            compiler: self.compiler,
            shell_escape: self.shell_escape,
            bibtex: self.bibtex,
            synctex: self.synctex,
            extra_args: crate::project::clone_strings(&self.extra_args),
            passes: self.passes,
        }
    }
}

impl Session {
    /// The session is consistent: project tables and expanded set are well
    /// formed and the font size lies in 8..=32.
    pub open spec fn wf(&self) -> bool {
        &&& (self.project matches Some(p) ==> p.wf())
        &&& self.file_tree.expanded_dirs.wf()
        &&& 8 <= self.font_size <= 32
    }

    /// A fresh session: no project, the welcome screen, and a warning when
    /// no LaTeX engine was found.
    pub fn new(latex_available: bool, available_compilers: Vec<CompilerKind>) -> (r: Self)
        ensures
            r.wf(),
            r.project is None,
            r.file_tree.expanded_dirs@ == Set::<Seq<char>>::empty(),
            r.compile_status is Idle,
            r.compile_options.compiler == CompilerKind::PdfLatex,
            r.compile_options.passes == 1,
            r.compile_options.synctex,
            !r.compile_options.bibtex,
            !r.compile_options.shell_escape,
            r.compile_log@ == Seq::<char>::empty(),
            r.sidebar_visible,
            !r.find_panel_visible,
            !r.log_panel_visible,
            r.font_size == 14,
            r.search_query@ == Seq::<char>::empty(),
            r.modal is WelcomeScreen,
            latex_available ==> r.status_message is None,
            !latex_available ==> status_is(r.status_message, latex_missing_text(), StatusKind::Warning),
            r.latex_available == latex_available,
            r.available_compilers == available_compilers,
            r.open_menu is None,
            r.context_menu is None,
            !r.dialog_open,
            !r.pdf_fit_on_next_render,
    {
        let warn = if !latex_available {
            Some(("LaTeX not found - install texlive-full".to_owned(), StatusKind::Warning))
        } else {
            None
        };
        Session {
            project: None,
            file_tree: FileTree::default(),
            compile_status: CompileStatus::Idle,
            compile_options: CompileOptions::default(),
            compile_log: String::new(),
            sidebar_visible: true,
            find_panel_visible: false,
            log_panel_visible: false,
            font_size: 14,
            search_query: String::new(),
            modal: Modal::WelcomeScreen,
            status_message: warn,
            latex_available,
            available_compilers,
            open_menu: None,
            context_menu: None,
            dialog_open: false,
            pdf_fit_on_next_render: false,
        }
    }

    /// Shows a message in the status bar.
    pub fn set_status(&mut self, msg: String, kind: StatusKind)
        ensures
            *final(self) == (Session { status_message: Some((msg, kind)), ..*old(self) }),
    {
        self.status_message = Some((msg, kind));
    }

    /// Asks for a folder to open (or to start a new project in), unless a
    /// folder picker is already open.
    pub fn open_project(&mut self, new_project: bool) -> (r: Vec<Effect>)
        requires
            old(self).wf(),
        ensures
            final(self).wf(),
            asked_folder(*old(self), *final(self), new_project, r@),
    {
        let mut effects: Vec<Effect> = Vec::new();
        if self.dialog_open {
            return effects;
        }
        self.dialog_open = true;
        let title = if new_project {
            "New Project - Choose Folder".to_owned()
        } else {
            "Open LaTeX Project Folder".to_owned()
        };
        effects.push(Effect::PickFolder { title, new_project });
        effects
    }

    /// The folder picker was closed without a choice.
    pub fn folder_cancelled(&mut self)
        ensures
            status_is(final(self).status_message, "No folder selected"@, StatusKind::Info),
            *final(self) == (Session {
                dialog_open: false,
                status_message: final(self).status_message,
                ..*old(self)
            }),
    {
        self.dialog_open = false;
        self.set_status("No folder selected".to_owned(), StatusKind::Info);
    }

    /// A project folder was chosen: the project is set up with the main
    /// file found there (`found_main`), or with the main file its settings
    /// remember when that file exists (`settings_main_exists`, for the path
    /// `settings_main_path` gives); the settings' compiler choices are taken
    /// over, the root is expanded, and the main file is opened.
    pub fn project_loaded(
        &mut self,
        root: String,
        found_main: Option<String>,
        settings: &ProjectSettings,
        settings_main_exists: bool,
    ) -> (r: Vec<Effect>)
        requires
            old(self).wf(),
        ensures
            final(self).wf(),
            final(self).project matches Some(p) && {
                &&& p.root == root
                &&& p.name@ == crate::project::project_name_spec(root@)
                &&& opt_view(p.main_file) == (match settings.main_file {
                    Some(st) => if settings_main_exists {
                        Some(crate::project::settings_main_spec(root@, st@))
                    } else {
                        opt_view(found_main)
                    },
                    None => opt_view(found_main),
                })
                &&& p.open_view().len() == 0
                &&& p.active_file is None
                &&& p.contents() == Map::<Seq<char>, Seq<char>>::empty()
                &&& p.dirty_map() == Map::<Seq<char>, bool>::empty()
                &&& r@ == (match p.main_file {
                    Some(m) => seq![Effect::ReadAndOpen(m)],
                    None => Seq::<Effect>::empty(),
                })
            },
            final(self).file_tree.expanded_dirs@ == old(self).file_tree.expanded_dirs@.insert(root@),
            final(self).compile_options == (CompileOptions {
                compiler: from_str_spec(settings.compiler@),
                bibtex: settings.bibtex,
                shell_escape: settings.shell_escape,
                ..old(self).compile_options
            }),
            status_is(final(self).status_message, "Opened: "@ + root@, StatusKind::Success),
            *final(self) == (Session {
                project: final(self).project,
                file_tree: final(self).file_tree,
                compile_options: final(self).compile_options,
                status_message: final(self).status_message,
                modal: Modal::Closed,
                dialog_open: false,
                ..*old(self)
            }),
    {
        self.dialog_open = false;
        let main = match &settings.main_file {
            Some(st) => if settings_main_exists {
                Some(crate::project::settings_main_path(root.as_str(), st.as_str()))
            } else {
                found_main
            },
            None => found_main,
        };
        let project = Project::new(root.clone(), main);
        self.compile_options.apply_settings(settings);
        self.file_tree.expanded_dirs.insert(root.clone());
        let mut effects: Vec<Effect> = Vec::new();
        match &project.main_file {
            Some(m) => effects.push(Effect::ReadAndOpen(m.clone())),
            None => {},
        }
        self.project = Some(project);
        self.modal = Modal::Closed;
        let msg = "Opened: ".to_owned().concat(root.as_str());
        self.set_status(msg, StatusKind::Success);
        effects
    }

    /// Opens `path`: a file already open becomes the active one and its
    /// editor is shown; any other file is read first.
    pub fn open_file(&mut self, path: String) -> (r: Vec<Effect>)
        requires
            old(self).wf(),
        ensures
            final(self).wf(),
            opened_file(*old(self), *final(self), path, r@),
    {
        let mut effects: Vec<Effect> = Vec::new();
        match &mut self.project {
            None => {},
            Some(p) => {
                if p.is_open(path.as_str()) {
                    p.active_file = Some(path.clone());
                    match p.get_content(&path) {
                        Some(c) => effects.push(Effect::ShowEditor { path: path.clone(), content: c.clone() }),
                        None => {},
                    }
                } else {
                    effects.push(Effect::ReadAndOpen(path));
                }
            },
        }
        effects
    }

    /// A file asked for by `ReadAndOpen` was read (or not): on success it is
    /// opened, made active and its editor shown; a failure is reported.
    pub fn file_loaded(&mut self, path: String, loaded: Result<String, String>) -> (r: Vec<Effect>)
        requires
            old(self).wf(),
        ensures
            final(self).wf(),
            old(self).project is None ==> *final(self) == *old(self) && r@.len() == 0,
            old(self).project matches Some(p) ==> (!p.open_view().contains(path@) ==> match loaded {
                Ok(c) => {
                    &&& final(self).project matches Some(q) && q.open_view() == p.open_view().push(path@)
                        && q.active_file == Some(path) && q.contents() == p.contents().insert(path@, c@)
                        && q.dirty_map() == p.dirty_map().insert(path@, false)
                        && q.root == p.root && q.main_file == p.main_file && q.name == p.name
                    &&& r@.len() == 1
                    &&& r@[0] matches Effect::ShowEditor { path: x, content: y } && x == path && y@ == c@
                    &&& *final(self) == (Session { project: final(self).project, ..*old(self) })
                },
                Err(e) => {
                    &&& r@.len() == 0
                    &&& status_is(final(self).status_message, "Open error: "@ + e@, StatusKind::Error)
                    &&& *final(self) == (Session { status_message: final(self).status_message, ..*old(self) })
                },
            }),
            old(self).project matches Some(p) ==> (p.open_view().contains(path@) ==> {
                &&& final(self).project matches Some(q) && q.open_view() == p.open_view()
                    && q.active_file == Some(path) && q.contents() == p.contents()
                    && q.dirty_map() == p.dirty_map()
                    && q.root == p.root && q.main_file == p.main_file && q.name == p.name
                &&& (if p.contents().dom().contains(path@) {
                    r@.len() == 1 && (r@[0] matches Effect::ShowEditor { path: x, content: y } && x == path
                        && y@ == p.contents()[path@])
                } else {
                    r@.len() == 0
                })
                &&& *final(self) == (Session { project: final(self).project, ..*old(self) })
            }),
    {
        let mut effects: Vec<Effect> = Vec::new();
        let mut failure: Option<String> = None;
        match &mut self.project {
            None => {},
            Some(p) => {
                match p.open_file(path.clone(), loaded) {
                    Err(e) => {
                        failure = Some(e);
                    },
                    Ok(()) => {
                        match p.get_content(&path) {
                            Some(c) => effects.push(Effect::ShowEditor { path: path.clone(), content: c.clone() }),
                            None => {},
                        }
                    },
                }
            },
        }
        match failure {
            Some(e) => {
                let msg = "Open error: ".to_owned().concat(e.as_str());
                self.set_status(msg, StatusKind::Error);
            },
            None => {},
        }
        effects
    }

    /// Closes the tab of `path`, writing the file first when it has unsaved
    /// changes.
    pub fn close_tab(&mut self, path: String) -> (r: Vec<Effect>)
        requires
            old(self).wf(),
        ensures
            final(self).wf(),
            closed_tab(*old(self), *final(self), path, r@),
    {
        let mut effects: Vec<Effect> = Vec::new();
        match &mut self.project {
            None => {},
            Some(p) => {
                if p.is_dirty(&path) {
                    match p.get_content(&path) {
                        Some(c) => effects.push(Effect::WriteFile { path: path.clone(), content: c.clone(), announce: false }),
                        None => {},
                    }
                }
                p.close_file(&path);
                effects.push(Effect::DropEditor(path));
            },
        }
        effects
    }

    /// Makes `path` the active tab and scrolls the gutter back to the top.
    pub fn switch_tab(&mut self, path: String) -> (r: Vec<Effect>)
        ensures
            old(self).project is None ==> *final(self) == *old(self),
            old(self).project matches Some(p) ==> final(self).project == Some(Project { active_file: Some(path), ..p })
                && *final(self) == (Session { project: final(self).project, ..*old(self) }),
            r@ == seq![Effect::ScrollGutterTop],
    {
        match &mut self.project {
            None => {},
            Some(p) => {
                p.active_file = Some(path);
            },
        }
        let mut effects: Vec<Effect> = Vec::new();
        effects.push(Effect::ScrollGutterTop);
        effects
    }

    /// Expands or collapses a directory of the file tree.
    pub fn toggle_dir(&mut self, path: &String)
        requires
            old(self).wf(),
        ensures
            final(self).wf(),
            old(self).file_tree.expanded_dirs@.contains(path@) ==> final(self).file_tree.expanded_dirs@
                == old(self).file_tree.expanded_dirs@.remove(path@),
            !old(self).file_tree.expanded_dirs@.contains(path@) ==> final(self).file_tree.expanded_dirs@
                == old(self).file_tree.expanded_dirs@.insert(path@),
            *final(self) == (Session { file_tree: final(self).file_tree, ..*old(self) }),
    {
        self.file_tree.toggle_dir(path);
    }

    /// Shows the new-file dialog with an empty name.
    pub fn new_file(&mut self)
        ensures
            final(self).modal matches Modal::NewFile { name } && name@ == Seq::<char>::empty(),
            *final(self) == (Session { modal: final(self).modal, ..*old(self) }),
    {
        self.modal = Modal::NewFile { name: String::new() };
    }

    /// The name typed in the new-file dialog changed.
    pub fn new_file_name_changed(&mut self, n: String)
        ensures
            old(self).modal is NewFile ==> final(self).modal == (Modal::NewFile { name: n }),
            !(old(self).modal is NewFile) ==> final(self).modal == old(self).modal,
            *final(self) == (Session { modal: final(self).modal, ..*old(self) }),
    {
        if let Modal::NewFile { .. } = &self.modal {
            self.modal = Modal::NewFile { name: n };
        }
    }

    /// The new-file dialog was confirmed: the dialog closes and, with a
    /// project open, the file is created in its root.
    pub fn new_file_confirmed(&mut self) -> (r: Vec<Effect>)
        ensures
            final(self).modal is Closed,
            *final(self) == (Session { modal: Modal::Closed, ..*old(self) }),
            (old(self).modal matches Modal::NewFile { name } && old(self).project is Some) ==> r@.len() == 1
                && (r@[0] matches Effect::CreateTexFile { file_name: f, text: t }
                    && f@ == crate::project::tex_file_name_spec(old(self).modal->name@)
                    && t@ == crate::project::new_file_text_spec(f@)),
            !(old(self).modal is NewFile && old(self).project is Some) ==> r@.len() == 0,
    {
        let mut effects: Vec<Effect> = Vec::new();
        if let Modal::NewFile { name } = &self.modal {
            if self.project.is_some() {
                let f = Project::tex_file_name(name.as_str());
                let t = Project::new_file_text(f.as_str());
                effects.push(Effect::CreateTexFile { file_name: f, text: t });
            }
        }
        self.modal = Modal::Closed;
        effects
    }

    /// A file asked for by `CreateTexFile` was created at the given path (or
    /// creating it failed): it is opened, or the failure reported.
    pub fn file_created(&mut self, created: Result<String, String>) -> (r: Vec<Effect>)
        requires
            old(self).wf(),
        ensures
            final(self).wf(),
            created matches Err(e) ==> r@.len() == 0 && status_is(final(self).status_message, "Create failed: "@ + e@, StatusKind::Error)
                && *final(self) == (Session { status_message: final(self).status_message, ..*old(self) }),
            created matches Ok(path) ==> opened_file(*old(self), *final(self), path, r@),
    {
        match created {
            Ok(path) => self.open_file(path),
            Err(e) => {
                let msg = "Create failed: ".to_owned().concat(e.as_str());
                self.set_status(msg, StatusKind::Error);
                Vec::new()
            },
        }
    }

    /// The new-file dialog was cancelled.
    pub fn new_file_cancelled(&mut self)
        ensures
            *final(self) == (Session { modal: Modal::Closed, ..*old(self) }),
    {
        self.modal = Modal::Closed;
    }

    /// Makes `path` the project's main file, stores the settings and says
    /// so in the status bar.
    pub fn set_main_file(&mut self, path: String) -> (r: Vec<Effect>)
        requires
            old(self).wf(),
        ensures
            final(self).wf(),
            status_is(final(self).status_message, "Main file set to: "@ + (match path_file_name_of(path@) {
                Some(n) => n,
                None => "?"@,
            }) + "  ([M] in file tree)"@, StatusKind::Success),
            old(self).project is None ==> r@.len() == 0
                && *final(self) == (Session { status_message: final(self).status_message, ..*old(self) }),
            old(self).project matches Some(p) ==> {
                &&& final(self).project == Some(Project { main_file: Some(path), ..p })
                &&& r@.len() == 1
                &&& r@[0] matches Effect::SaveSettings { root, settings } && root == p.root
                    && opt_view(settings.main_file) == crate::project::stored_main_spec(p.root@, path@)
                    && settings.compiler@ == crate::compiler::binary_spec(old(self).compile_options.compiler)
                    && settings.bibtex == old(self).compile_options.bibtex
                    && settings.shell_escape == old(self).compile_options.shell_escape
                    && settings.extra_args.deep_view() == old(self).compile_options.extra_args.deep_view()
                &&& *final(self) == (Session {
                    project: final(self).project,
                    status_message: final(self).status_message,
                    ..*old(self)
                })
            },
    {
        let name = match path_file_name(path.as_str()) {
            Some(n) => n,
            None => "?".to_owned(),
        };
        let mut effects: Vec<Effect> = Vec::new();
        match &mut self.project {
            None => {},
            Some(p) => {
                p.main_file = Some(path);
                let settings = ProjectSettings::capture(p.root.as_str(), &p.main_file, &self.compile_options);
                effects.push(Effect::SaveSettings { root: p.root.clone(), settings });
            },
        }
        let msg = "Main file set to: ".to_owned().concat(name.as_str()).concat("  ([M] in file tree)");
        self.set_status(msg, StatusKind::Success);
        effects
    }

    /// Asks for `path` to be deleted; `file_removed` follows on success.
    pub fn delete_file(&self, path: String) -> (r: Vec<Effect>)
        ensures
            r@ == seq![Effect::RemoveFile(path)],
    {
        let mut effects: Vec<Effect> = Vec::new();
        effects.push(Effect::RemoveFile(path));
        effects
    }

    /// `path` was deleted: it is closed and its editor dropped.
    pub fn file_removed(&mut self, path: String) -> (r: Vec<Effect>)
        requires
            old(self).wf(),
        ensures
            final(self).wf(),
            old(self).project is None ==> *final(self) == *old(self),
            old(self).project matches Some(p) ==> (final(self).project matches Some(q) && closed_in(p, q, path@)
                && *final(self) == (Session { project: final(self).project, ..*old(self) })),
            r@ == seq![Effect::DropEditor(path)],
    {
        match &mut self.project {
            None => {},
            Some(p) => {
                p.close_file(&path);
            },
        }
        let mut effects: Vec<Effect> = Vec::new();
        effects.push(Effect::DropEditor(path));
        effects
    }

    /// The active editor's text changed to `text`.
    pub fn content_edited(&mut self, text: String)
        requires
            old(self).wf(),
        ensures
            final(self).wf(),
            old(self).project matches Some(p) ==> (p.active_file matches Some(a) ==> {
                &&& final(self).project matches Some(q) && q.contents() == p.contents().insert(a@, text@)
                    && q.dirty_map() == p.dirty_map().insert(a@, true)
                    && q.open_files == p.open_files && q.active_file == p.active_file
                    && q.main_file == p.main_file && q.root == p.root && q.name == p.name
                &&& *final(self) == (Session { project: final(self).project, ..*old(self) })
            }),
            !(old(self).project matches Some(p) && p.active_file is Some) ==> *final(self) == *old(self),
    {
        match &mut self.project {
            None => {},
            Some(p) => {
                let active = match &p.active_file {
                    Some(a) => Some(a.clone()),
                    None => None,
                };
                match active {
                    Some(a) => p.update_content(&a, text),
                    None => {},
                }
            },
        }
    }

    /// Saves the active file: its text is written out (announced when done);
    /// an active file without contents counts as saved.
    pub fn save_file(&mut self) -> (r: Vec<Effect>)
        requires
            old(self).wf(),
        ensures
            final(self).wf(),
            saved_file(*old(self), *final(self), r@),
    {
        let mut effects: Vec<Effect> = Vec::new();
        let mut saved_nothing = false;
        match &mut self.project {
            None => {},
            Some(p) => {
                let active = match &p.active_file {
                    Some(a) => Some(a.clone()),
                    None => None,
                };
                match active {
                    Some(a) => {
                        match p.get_content(&a) {
                            Some(c) => {
                                let c2 = c.clone();
                                let c3 = c.clone();
                                p.update_content(&a, c2);
                                assert(p.contents() =~= old(self).project->0.contents());
                                effects.push(Effect::WriteFile { path: a, content: c3, announce: true });
                            },
                            None => {
                                saved_nothing = true;
                            },
                        }
                    },
                    None => {},
                }
            },
        }
        if saved_nothing {
            self.set_status("Saved".to_owned(), StatusKind::Success);
        }
        effects
    }

    /// A write asked for by `WriteFile` finished: on success the file no
    /// longer has unsaved changes; announced writes report the outcome.
    pub fn file_written(&mut self, path: &String, written: Result<(), String>, announce: bool)
        requires
            old(self).wf(),
        ensures
            final(self).wf(),
            old(self).project matches Some(p) ==> (written is Ok ==> (final(self).project matches Some(q)
                && q.contents() == p.contents() && q.open_files == p.open_files
                && q.active_file == p.active_file && q.main_file == p.main_file
                && q.root == p.root && q.name == p.name
                && (p.contents().dom().contains(path@) ==> q.dirty_map() == p.dirty_map().insert(path@, false))
                && (!p.contents().dom().contains(path@) ==> q.dirty_map() == p.dirty_map()))),
            written is Err ==> final(self).project == old(self).project,
            old(self).project is None ==> final(self).project is None,
            announce && written is Ok ==> status_is(final(self).status_message, "Saved"@, StatusKind::Success),
            announce ==> (written matches Err(e) ==> status_is(final(self).status_message, "Save error: "@ + e@, StatusKind::Error)),
            !announce ==> final(self).status_message == old(self).status_message,
            *final(self) == (Session {
                project: final(self).project,
                status_message: final(self).status_message,
                ..*old(self)
            }),
    {
        match written {
            Ok(()) => {
                match &mut self.project {
                    None => {},
                    Some(p) => p.mark_saved(path),
                }
                if announce {
                    self.set_status("Saved".to_owned(), StatusKind::Success);
                }
            },
            Err(e) => {
                if announce {
                    let msg = "Save error: ".to_owned().concat(e.as_str());
                    self.set_status(msg, StatusKind::Error);
                }
            },
        }
    }

    /// The query of the file tree's search box changed.
    pub fn search_changed(&mut self, q: String)
        ensures
            *final(self) == (Session { search_query: q, ..*old(self) }),
    {
        self.search_query = q;
    }

    /// Saves every file: all open files and all files with unsaved changes
    /// are written in one go; `files_written` reports back.
    pub fn save_all(&mut self) -> (r: Vec<Effect>)
        requires
            old(self).wf(),
        ensures
            final(self).wf(),
            saved_everything(*old(self), *final(self), r@),
    {
        let mut effects: Vec<Effect> = Vec::new();
        match &mut self.project {
            None => {},
            Some(p) => {
                let ghost p0 = *p;
                p.mark_open_files_changed();
                let list = p.save_all();
                proof {
                    lemma_save_all_writes(p0, *p, list@);
                }
                effects.push(Effect::WriteAll(list));

            },
        }
        effects
    }

    /// The writes asked for by `WriteAll` finished: `written` are the files
    /// written, `failure` the error that stopped the rest, if any.
    pub fn files_written(&mut self, written: &Vec<String>, failure: Option<String>)
        requires
            old(self).wf(),
        ensures
            final(self).wf(),
            old(self).project is None ==> final(self).project is None,
            old(self).project matches Some(p) ==> (final(self).project matches Some(q)
                && q.contents() == p.contents()
                && q.dirty_map() == with_flags(p.dirty_map(), written.deep_view(), p.contents(), false)
                && q.open_files == p.open_files && q.active_file == p.active_file
                && q.main_file == p.main_file && q.root == p.root && q.name == p.name),
            failure is None ==> status_is(final(self).status_message, "All saved"@, StatusKind::Success),
            failure matches Some(e) ==> status_is(final(self).status_message, "Save error: "@ + e@, StatusKind::Error),
            *final(self) == (Session {
                project: final(self).project,
                status_message: final(self).status_message,
                ..*old(self)
            }),
    {
        match &mut self.project {
            None => {},
            Some(p) => p.mark_all_saved(written),
        }
        match failure {
            None => self.set_status("All saved".to_owned(), StatusKind::Success),
            Some(e) => {
                let msg = "Save error: ".to_owned().concat(e.as_str());
                self.set_status(msg, StatusKind::Error);
            },
        }
    }

    /// Starts a build of the compile target, after saving everything.
    pub fn compile(&mut self) -> (r: Vec<Effect>)
        requires
            old(self).wf(),
        ensures
            final(self).wf(),
            compile_started(*old(self), *final(self), r@),
    {
        if !self.latex_available {
            self.set_status("LaTeX not found - install texlive-full".to_owned(), StatusKind::Error);
            return Vec::new();
        }
        let target = match &self.project {
            None => {
                return Vec::new();
            },
            Some(p) => match p.compile_target() {
                Some(t) => t.clone(),
                None => {
                    self.set_status(
                        "No compile target -- open a .tex file, or click [M] next to a file to set it as main".to_owned(),
                        StatusKind::Warning,
                    );
                    return Vec::new();
                },
            },
        };
        let mut effects = self.save_all();
        self.compile_status = CompileStatus::Compiling { pass: 1, total: 1 };
        self.compile_log = String::new();
        self.log_panel_visible = true;
        let options = self.compile_options.duplicate();
        effects.push(Effect::StartCompile { target, options });
        effects
    }

    /// A build reported its status.  A finished build shows its log; a
    /// successful one with a PDF is announced and its PDF shown (fitted to
    /// the panel), any other finished build counts as failed.
    pub fn compile_status_update(&mut self, status: CompileStatus) -> (r: Vec<Effect>)
        ensures
            status matches CompileStatus::Success(res) ==> (res.pdf_path matches Some(pdf) ==> {
                &&& final(self).compile_status == CompileStatus::Success(res)
                &&& final(self).compile_log@ == res.raw_log@
                &&& final(self).pdf_fit_on_next_render
                &&& r@.len() == 2
                &&& r@[0] == (Effect::AnnounceBuild {
                    errors: with_level(res.diagnostics@, DiagnosticLevel::Error).len() as usize,
                    warnings: with_level(res.diagnostics@, DiagnosticLevel::Warning).len() as usize,
                    kind: if with_level(res.diagnostics@, DiagnosticLevel::Error).len() == 0 {
                        StatusKind::Success
                    } else {
                        StatusKind::Warning
                    },
                })
                &&& r@[1] matches Effect::LoadPdf(x) && x == pdf
                &&& *final(self) == (Session {
                    compile_status: final(self).compile_status,
                    compile_log: final(self).compile_log,
                    pdf_fit_on_next_render: true,
                    ..*old(self)
                })
            }),
            status matches CompileStatus::Success(res) ==> (res.pdf_path is None ==> {
                &&& final(self).compile_status == CompileStatus::Failed(res)
                &&& final(self).compile_log@ == res.raw_log@
                &&& status_is(final(self).status_message, failed_text(with_level(res.diagnostics@, DiagnosticLevel::Error).len()), StatusKind::Error)
                &&& r@.len() == 0
                &&& *final(self) == (Session {
                    compile_status: final(self).compile_status,
                    compile_log: final(self).compile_log,
                    status_message: final(self).status_message,
                    ..*old(self)
                })
            }),
            status matches CompileStatus::Failed(res) ==> {
                &&& final(self).compile_status == CompileStatus::Failed(res)
                &&& final(self).compile_log@ == res.raw_log@
                &&& status_is(final(self).status_message, failed_text(with_level(res.diagnostics@, DiagnosticLevel::Error).len()), StatusKind::Error)
                &&& r@.len() == 0
                &&& *final(self) == (Session {
                    compile_status: final(self).compile_status,
                    compile_log: final(self).compile_log,
                    status_message: final(self).status_message,
                    ..*old(self)
                })
            },
            !(status is Success || status is Failed) ==> r@.len() == 0
                && *final(self) == (Session { compile_status: status, ..*old(self) }),
    {
        let mut effects: Vec<Effect> = Vec::new();
        match status {
            CompileStatus::Success(res) => {
                self.compile_log = res.raw_log.clone();
                let ne = res.errors().len();
                let nw = res.warnings().len();
                proof {
                    assert(ne == with_level(res.diagnostics@, DiagnosticLevel::Error).len());
                    assert(nw == with_level(res.diagnostics@, DiagnosticLevel::Warning).len());
                }
                match &res.pdf_path {
                    Some(pdf) => {
                        let kind = if ne == 0 { StatusKind::Success } else { StatusKind::Warning };
                        effects.push(Effect::AnnounceBuild { errors: ne, warnings: nw, kind });
                        effects.push(Effect::LoadPdf(pdf.clone()));
                        self.pdf_fit_on_next_render = true;
                        self.compile_status = CompileStatus::Success(res);
                    },
                    None => {
                        let msg = "Failed: ".to_owned().concat(decimal_string(ne as u64).as_str()).concat(" errors");
                        self.compile_status = CompileStatus::Failed(res);
                        self.set_status(msg, StatusKind::Error);
                    },
                }
            },
            CompileStatus::Failed(res) => {
                self.compile_log = res.raw_log.clone();
                let ne = res.errors().len();
                proof {
                    assert(ne == with_level(res.diagnostics@, DiagnosticLevel::Error).len());
                }
                let msg = "Failed: ".to_owned().concat(decimal_string(ne as u64).as_str()).concat(" errors");
                self.compile_status = CompileStatus::Failed(res);
                self.set_status(msg, StatusKind::Error);
            },
            other => {
                self.compile_status = other;
            },
        }
        effects
    }

    /// A compile option was changed in the menus or the settings dialog.
    pub fn compile_option(&mut self, m: CompileOptionMsg)
        ensures
            m matches CompileOptionMsg::SetCompiler(c) ==> final(self).compile_options == (CompileOptions {
                compiler: from_str_spec(c@),
                ..old(self).compile_options
            }),
            m is ToggleShellEscape ==> final(self).compile_options == (CompileOptions {
                shell_escape: !old(self).compile_options.shell_escape,
                ..old(self).compile_options
            }),
            m is ToggleBibtex ==> final(self).compile_options == (CompileOptions {
                bibtex: !old(self).compile_options.bibtex,
                ..old(self).compile_options
            }),
            m matches CompileOptionMsg::SetPasses(n) ==> final(self).compile_options == (CompileOptions {
                passes: clamp_passes(n),
                ..old(self).compile_options
            }),
            *final(self) == (Session { compile_options: final(self).compile_options, ..*old(self) }),
    {
        match m {
            CompileOptionMsg::SetCompiler(c) => {
                self.compile_options.compiler = CompilerKind::from_str(c.as_str());
            },
            CompileOptionMsg::ToggleShellEscape => {
                self.compile_options.shell_escape = !self.compile_options.shell_escape;
            },
            CompileOptionMsg::ToggleBibtex => {
                self.compile_options.bibtex = !self.compile_options.bibtex;
            },
            CompileOptionMsg::SetPasses(n) => {
                self.compile_options.passes = if n < 1 {
                    1
                } else if n > 3 {
                    3
                } else {
                    n
                };
            },
        }
    }

    /// Empties the compiler log.
    pub fn clear_log(&mut self)
        ensures
            final(self).compile_log@ == Seq::<char>::empty(),
            *final(self) == (Session { compile_log: final(self).compile_log, ..*old(self) }),
    {
        self.compile_log = String::new();
    }

    /// Moves the active editor to `line` and says so.
    pub fn go_to_line(&mut self, line: u32) -> (r: Vec<Effect>)
        ensures
            status_is(final(self).status_message, "Line "@ + decimal_spec(line as nat), StatusKind::Info),
            *final(self) == (Session { status_message: final(self).status_message, ..*old(self) }),
            r@ == (if old(self).project is Some { seq![Effect::JumpToLine(line)] } else { Seq::<Effect>::empty() }),
    {
        let mut effects: Vec<Effect> = Vec::new();
        if self.project.is_some() {
            effects.push(Effect::JumpToLine(line));
        }
        let msg = "Line ".to_owned().concat(decimal_string(line as u64).as_str());
        self.set_status(msg, StatusKind::Info);
        effects
    }

    /// SyncTeX answered a click in the PDF: the source file is opened at
    /// the line found, or the miss is reported.
    pub fn synctex_result(&mut self, found: Option<SourceLocation>) -> (r: Vec<Effect>)
        requires
            old(self).wf(),
        ensures
            final(self).wf(),
            found is None ==> r@.len() == 0
                && status_is(final(self).status_message, "SyncTeX: no match at this position"@, StatusKind::Info)
                && *final(self) == (Session { status_message: final(self).status_message, ..*old(self) }),
            found matches Some(loc) ==> {
                &&& status_is(final(self).status_message, "Line "@ + decimal_spec(loc.line as nat), StatusKind::Info)
                &&& old(self).project is None ==> r@.len() == 0
                    && *final(self) == (Session { status_message: final(self).status_message, ..*old(self) })
                &&& old(self).project matches Some(p) ==> (!p.open_view().contains(loc.file@) ==> {
                    &&& r@ == seq![Effect::ReadAndOpen(loc.file), Effect::JumpToLine(loc.line)]
                    &&& *final(self) == (Session { status_message: final(self).status_message, ..*old(self) })
                })
                &&& old(self).project matches Some(p) ==> (p.open_view().contains(loc.file@) ==> {
                    &&& final(self).project == Some(Project { active_file: Some(loc.file), ..p })
                    &&& r@.last() == Effect::JumpToLine(loc.line)
                    &&& (if p.contents().dom().contains(loc.file@) {
                        r@.len() == 2 && (r@[0] matches Effect::ShowEditor { path: x, content: c } && x == loc.file
                            && c@ == p.contents()[loc.file@])
                    } else {
                        r@.len() == 1
                    })
                    &&& *final(self) == (Session {
                        project: final(self).project,
                        status_message: final(self).status_message,
                        ..*old(self)
                    })
                })
            },
    {
        match found {
            None => {
                self.set_status("SyncTeX: no match at this position".to_owned(), StatusKind::Info);
                Vec::new()
            },
            Some(loc) => {
                let line = loc.line;
                let mut effects = self.open_file(loc.file);
                let mut more = self.go_to_line(line);
                effects.append(&mut more);
                effects
            },
        }
    }

    /// Shows or hides the file-tree sidebar.
    pub fn toggle_sidebar(&mut self)
        ensures
            *final(self) == (Session { sidebar_visible: !old(self).sidebar_visible, ..*old(self) }),
    {
        self.sidebar_visible = !self.sidebar_visible;
    }

    /// Shows or hides the find/replace panel.
    pub fn toggle_find_panel(&mut self)
        ensures
            *final(self) == (Session { find_panel_visible: !old(self).find_panel_visible, ..*old(self) }),
    {
        self.find_panel_visible = !self.find_panel_visible;
    }

    /// Shows or hides the compiler log.
    pub fn toggle_log_panel(&mut self)
        ensures
            *final(self) == (Session { log_panel_visible: !old(self).log_panel_visible, ..*old(self) }),
    {
        self.log_panel_visible = !self.log_panel_visible;
    }

    /// Opens the settings dialog.
    pub fn show_settings(&mut self)
        ensures
            *final(self) == (Session { modal: Modal::Settings, ..*old(self) }),
    {
        self.modal = Modal::Settings;
    }

    /// Closes the settings dialog, storing the project's settings.
    pub fn close_settings(&mut self) -> (r: Vec<Effect>)
        ensures
            *final(self) == (Session { modal: Modal::Closed, ..*old(self) }),
            old(self).project is None ==> r@.len() == 0,
            old(self).project matches Some(p) ==> {
                &&& r@.len() == 1
                &&& r@[0] matches Effect::SaveSettings { root, settings } && root == p.root
                    && opt_view(settings.main_file) == (match p.main_file {
                        Some(m) => crate::project::stored_main_spec(p.root@, m@),
                        None => None,
                    })
                    && settings.compiler@ == crate::compiler::binary_spec(old(self).compile_options.compiler)
                    && settings.bibtex == old(self).compile_options.bibtex
                    && settings.shell_escape == old(self).compile_options.shell_escape
                    && settings.extra_args.deep_view() == old(self).compile_options.extra_args.deep_view()
            },
    {
        let mut effects: Vec<Effect> = Vec::new();
        match &self.project {
            None => {},
            Some(p) => {
                let settings = ProjectSettings::capture(p.root.as_str(), &p.main_file, &self.compile_options);
                effects.push(Effect::SaveSettings { root: p.root.clone(), settings });
            },
        }
        self.modal = Modal::Closed;
        effects
    }

    /// Carries out a keyboard shortcut.
    pub fn apply_shortcut(&mut self, s: Shortcut) -> (r: Vec<Effect>)
        requires
            old(self).wf(),
        ensures
            final(self).wf(),
            shortcut_applied(*old(self), s, *final(self), r@),
    {
        match s {
            Shortcut::SaveAll => self.save_all(),
            Shortcut::Save => self.save_file(),
            Shortcut::Compile => self.compile(),
            Shortcut::ToggleSidebar => {
                self.toggle_sidebar();
                Vec::new()
            },
            Shortcut::ToggleFindPanel => {
                self.toggle_find_panel();
                Vec::new()
            },
            Shortcut::NewFile => {
                self.new_file();
                Vec::new()
            },
            Shortcut::OpenProject => self.open_project(false),
            Shortcut::FontBigger => {
                self.font_size = if self.font_size + 1 <= 32 { self.font_size + 1 } else { 32 };
                Vec::new()
            },
            Shortcut::FontSmaller => {
                let smaller = if self.font_size >= 1 { self.font_size - 1 } else { 0 };
                self.font_size = if smaller >= 8 { smaller } else { 8 };
                Vec::new()
            },
        }
    }

    /// Opens the dropdown of a menu, or closes it when it is the open one.
    pub fn toggle_menu(&mut self, kind: MenuKind)
        ensures
            old(self).open_menu == Some(kind) ==> *final(self) == (Session { open_menu: None, ..*old(self) }),
            old(self).open_menu != Some(kind) ==> *final(self) == (Session {
                open_menu: Some(kind),
                context_menu: None,
                ..*old(self)
            }),
    {
        let same = match self.open_menu {
            Some(k) => k == kind,
            None => false,
        };
        if same {
            self.open_menu = None;
        } else {
            self.open_menu = Some(kind);
            self.context_menu = None;
        }
    }

    /// Closes any open menu and context menu.
    pub fn dismiss(&mut self)
        ensures
            *final(self) == (Session { open_menu: None, context_menu: None, ..*old(self) }),
    {
        self.open_menu = None;
        self.context_menu = None;
    }

    /// Shows a context menu of the given kind, closing any open menu.
    pub fn show_context_menu(&mut self, kind: ContextMenuKind)
        ensures
            *final(self) == (Session { context_menu: Some(kind), open_menu: None, ..*old(self) }),
    {
        self.context_menu = Some(kind);
        self.open_menu = None;
    }

    /// Closes the active tab, if there is one.
    pub fn close_active_tab(&mut self) -> (r: Vec<Effect>)
        requires
            old(self).wf(),
        ensures
            final(self).wf(),
            !(old(self).project matches Some(p) && p.active_file is Some) ==> r@.len() == 0 && *final(self) == *old(self),
            old(self).project matches Some(p) ==> (p.active_file matches Some(a) ==> closed_tab(*old(self), *final(self), a, r@)),
    {
        let active = match &self.project {
            Some(p) => match &p.active_file {
                Some(a) => Some(a.clone()),
                None => None,
            },
            None => None,
        };
        match active {
            Some(a) => self.close_tab(a),
            None => Vec::new(),
        }
    }

    /// Shows what the program is.
    pub fn about(&mut self)
        ensures
            status_is(final(self).status_message, about_text(), StatusKind::Info),
            *final(self) == (Session { status_message: final(self).status_message, ..*old(self) }),
    {
        self.set_status("Ferroleaf - Native LaTeX editor for Linux (iced 0.13 + SyncTeX)".to_owned(), StatusKind::Info);
    }

    /// Shows the welcome screen, which lists the keyboard shortcuts.
    pub fn show_keyboard_shortcuts(&mut self)
        ensures
            *final(self) == (Session { modal: Modal::WelcomeScreen, ..*old(self) }),
    {
        self.modal = Modal::WelcomeScreen;
    }

    /// Reports an error in the status bar.
    pub fn error(&mut self, e: String)
        ensures
            *final(self) == (Session { status_message: Some((e, StatusKind::Error)), ..*old(self) }),
    {
        self.set_status(e, StatusKind::Error);
    }
}

/// The font size never leaves 8..=32, however often it is stepped.
pub proof fn law_font_size_stays_in_range(size: u16, bigger: bool)
    requires
        8 <= size <= 32,
    ensures
        8 <= font_step(size, bigger) <= 32,
{
}

/// What each command key does, as the menus do it: `s` saves (with shift,
/// saves all), `b` compiles, `\\` toggles the sidebar, `f` the find/replace
/// panel, `n` starts a new file, `o` opens a project; `=` or `+` makes the
/// font one step bigger (at most 32), `-` one step smaller (at least 8), so
/// the size stays in 8..=32.  Without the command modifier no key is a
/// shortcut.
pub proof fn law_shortcut_keys(size: u16, shift: bool, key: Seq<char>)
    requires
        8 <= size <= 32,
    ensures
        shortcut_spec(false, shift, key) is None,
        shortcut_spec(true, true, "s"@) == Some(Shortcut::SaveAll),
        shortcut_spec(true, false, "s"@) == Some(Shortcut::Save),
        shortcut_spec(true, shift, "b"@) == Some(Shortcut::Compile),
        shortcut_spec(true, shift, "\\"@) == Some(Shortcut::ToggleSidebar),
        shortcut_spec(true, shift, "f"@) == Some(Shortcut::ToggleFindPanel),
        shortcut_spec(true, shift, "n"@) == Some(Shortcut::NewFile),
        shortcut_spec(true, shift, "o"@) == Some(Shortcut::OpenProject),
        shortcut_spec(true, shift, "="@) == Some(Shortcut::FontBigger),
        shortcut_spec(true, shift, "+"@) == Some(Shortcut::FontBigger),
        shortcut_spec(true, shift, "-"@) == Some(Shortcut::FontSmaller),
        font_step(size, true) == (if size < 32 { (size + 1) as u16 } else { 32u16 }),
        font_step(size, false) == (if size > 8 { (size - 1) as u16 } else { 8u16 }),
        8 <= font_step(size, true) <= 32,
        8 <= font_step(size, false) <= 32,
{
    reveal_strlit("s");
    reveal_strlit("b");
    reveal_strlit("\\");
    reveal_strlit("f");
    reveal_strlit("n");
    reveal_strlit("o");
    reveal_strlit("=");
    reveal_strlit("+");
    reveal_strlit("-");
    assert("b"@[0] != "s"@[0]);
    assert("b"@[0] != "f"@[0]);
    assert("b"@[0] != "n"@[0]);
    assert("b"@[0] != "o"@[0]);
    assert("\\"@[0] != "s"@[0]);
    assert("\\"@[0] != "b"@[0]);
    assert("\\"@[0] != "f"@[0]);
    assert("\\"@[0] != "n"@[0]);
    assert("\\"@[0] != "o"@[0]);
    assert("f"@[0] != "s"@[0]);
    assert("f"@[0] != "n"@[0]);
    assert("f"@[0] != "o"@[0]);
    assert("n"@[0] != "s"@[0]);
    assert("n"@[0] != "o"@[0]);
    assert("o"@[0] != "s"@[0]);
    assert("="@[0] != "s"@[0]);
    assert("="@[0] != "b"@[0]);
    assert("="@[0] != "\\"@[0]);
    assert("="@[0] != "f"@[0]);
    assert("="@[0] != "n"@[0]);
    assert("="@[0] != "o"@[0]);
    assert("+"@[0] != "s"@[0]);
    assert("+"@[0] != "b"@[0]);
    assert("+"@[0] != "\\"@[0]);
    assert("+"@[0] != "f"@[0]);
    assert("+"@[0] != "n"@[0]);
    assert("+"@[0] != "o"@[0]);
    assert("+"@[0] != "="@[0]);
    assert("+"@[0] != "-"@[0]);
    assert("-"@[0] != "s"@[0]);
    assert("-"@[0] != "b"@[0]);
    assert("-"@[0] != "\\"@[0]);
    assert("-"@[0] != "f"@[0]);
    assert("-"@[0] != "n"@[0]);
    assert("-"@[0] != "o"@[0]);
    assert("-"@[0] != "="@[0]);
}

/// What a shortcut does to `s0`, giving `s1` and the effects `r`.
pub open spec fn shortcut_applied(s0: Session, sc: Shortcut, s1: Session, r: Seq<Effect>) -> bool {
    match sc {
        Shortcut::SaveAll => saved_everything(s0, s1, r),
        Shortcut::Save => saved_file(s0, s1, r),
        Shortcut::Compile => compile_started(s0, s1, r),
        Shortcut::OpenProject => asked_folder(s0, s1, false, r),
        Shortcut::ToggleSidebar => r.len() == 0
            && s1 == (Session { sidebar_visible: !s0.sidebar_visible, ..s0 }),
        Shortcut::ToggleFindPanel => r.len() == 0
            && s1 == (Session { find_panel_visible: !s0.find_panel_visible, ..s0 }),
        Shortcut::NewFile => r.len() == 0 && (s1.modal matches Modal::NewFile { name } && name@
            == Seq::<char>::empty()) && s1 == (Session { modal: s1.modal, ..s0 }),
        Shortcut::FontBigger => r.len() == 0
            && s1 == (Session { font_size: font_step(s0.font_size, true), ..s0 }),
        Shortcut::FontSmaller => r.len() == 0
            && s1 == (Session { font_size: font_step(s0.font_size, false), ..s0 }),
    }
}

/// What the handler of the request that a shortcut stands for does to
/// `s0`, as the handlers' own contracts state it (the font keys have no
/// request of their own: they change the size directly).
pub open spec fn message_handled(s0: Session, sc: Shortcut, s1: Session, r: Seq<Effect>) -> bool {
    match sc {
        Shortcut::SaveAll => saved_everything(s0, s1, r),
        Shortcut::Save => saved_file(s0, s1, r),
        Shortcut::Compile => compile_started(s0, s1, r),
        Shortcut::OpenProject => asked_folder(s0, s1, false, r),
        Shortcut::ToggleSidebar => r.len() == 0
            && s1 == (Session { sidebar_visible: !s0.sidebar_visible, ..s0 }),
        Shortcut::ToggleFindPanel => r.len() == 0
            && s1 == (Session { find_panel_visible: !s0.find_panel_visible, ..s0 }),
        Shortcut::NewFile => (s1.modal matches Modal::NewFile { name } && name@ == Seq::<char>::empty())
            && s1 == (Session { modal: s1.modal, ..s0 }) && r.len() == 0,
        Shortcut::FontBigger | Shortcut::FontSmaller => r.len() == 0
            && s1 == (Session { font_size: font_step(s0.font_size, sc is FontBigger), ..s0 }),
    }
}

/// Two projects hold the same files, flags, tabs, main file, root and name.
pub open spec fn projects_agree(a: Option<Project>, b: Option<Project>) -> bool {
    match (a, b) {
        (None, None) => true,
        (Some(p), Some(q)) => {
            &&& p.contents() == q.contents()
            &&& p.dirty_map() == q.dirty_map()
            &&& p.open_files == q.open_files
            &&& p.active_file == q.active_file
            &&& p.main_file == q.main_file
            &&& p.root == q.root
            &&& p.name == q.name
        },
        _ => false,
    }
}

/// Two status lines say the same text in the same kind.
pub open spec fn statuses_agree(a: Option<(String, StatusKind)>, b: Option<(String, StatusKind)>) -> bool {
    match (a, b) {
        (None, None) => true,
        (Some((m1, k1)), Some((m2, k2))) => m1@ == m2@ && k1 == k2,
        _ => false,
    }
}

/// Two dialogs are the same, with the same text typed in a new-file dialog.
pub open spec fn modals_agree(a: Modal, b: Modal) -> bool {
    match (a, b) {
        (Modal::NewFile { name: x }, Modal::NewFile { name: y }) => x@ == y@,
        _ => a == b,
    }
}

/// Two sessions show and hold the same things: equal, apart from how the
/// project's tables and the strings are represented.
pub open spec fn sessions_agree(a: Session, b: Session) -> bool {
    &&& projects_agree(a.project, b.project)
    &&& a.file_tree == b.file_tree
    &&& a.compile_status == b.compile_status
    &&& a.compile_options == b.compile_options
    &&& a.compile_log@ == b.compile_log@
    &&& a.sidebar_visible == b.sidebar_visible
    &&& a.find_panel_visible == b.find_panel_visible
    &&& a.log_panel_visible == b.log_panel_visible
    &&& a.font_size == b.font_size
    &&& a.search_query == b.search_query
    &&& modals_agree(a.modal, b.modal)
    &&& statuses_agree(a.status_message, b.status_message)
    &&& a.latex_available == b.latex_available
    &&& a.available_compilers == b.available_compilers
    &&& a.open_menu == b.open_menu
    &&& a.context_menu == b.context_menu
    &&& a.dialog_open == b.dialog_open
    &&& a.pdf_fit_on_next_render == b.pdf_fit_on_next_render
}

/// The path and contents of each write in a list.
pub open spec fn pair_set(l: Seq<(String, String)>) -> Set<(Seq<char>, Seq<char>)> {
    Set::new(|x: (Seq<char>, Seq<char>)| exists|i: int| 0 <= i < l.len() && #[trigger] l[i].0@ == x.0 && l[i].1@ == x.1)
}

/// Two effects ask for the same work; a save-all's writes may come in
/// another order.
pub open spec fn effects_agree(a: Effect, b: Effect) -> bool {
    match (a, b) {
        (Effect::PickFolder { title: t1, new_project: n1 }, Effect::PickFolder { title: t2, new_project: n2 }) =>
            t1@ == t2@ && n1 == n2,
        (Effect::WriteFile { path: p1, content: c1, announce: b1 }, Effect::WriteFile {
            path: p2,
            content: c2,
            announce: b2,
        }) => p1 == p2 && c1@ == c2@ && b1 == b2,
        (Effect::WriteAll(l1), Effect::WriteAll(l2)) => pair_keys(l1@).no_duplicates()
            && pair_keys(l2@).no_duplicates() && pair_set(l1@) == pair_set(l2@),
        (Effect::StartCompile { target: t1, options: o1 }, Effect::StartCompile { target: t2, options: o2 }) =>
            t1@ == t2@ && same_options(o1, o2),
        _ => a == b,
    }
}

/// Two lists of effects ask for the same work in the same order.
pub open spec fn effect_lists_agree(a: Seq<Effect>, b: Seq<Effect>) -> bool {
    &&& a.len() == b.len()
    &&& forall|i: int| 0 <= i < a.len() ==> effects_agree(#[trigger] a[i], b[i])
}

/// Two write lists that both write what a save-all of `p` must write hold
/// the same writes.
proof fn lemma_writes_all_agree(p: Project, l1: Seq<(String, String)>, l2: Seq<(String, String)>)
    requires
        writes_all(p, l1),
        writes_all(p, l2),
    ensures
        pair_set(l1) == pair_set(l2),
{
    assert forall|x: (Seq<char>, Seq<char>)| pair_set(l1).contains(x) implies pair_set(l2).contains(x) by {
        let i = choose|i: int| 0 <= i < l1.len() && #[trigger] l1[i].0@ == x.0 && l1[i].1@ == x.1;
        assert(pair_keys(l1)[i] == x.0);
        assert(pair_keys(l1).contains(x.0));
        assert(pair_keys(l2).contains(x.0));
        let j = choose|j: int| 0 <= j < pair_keys(l2).len() && pair_keys(l2)[j] == x.0;
        assert(l2[j].0@ == x.0);
        assert(l2[j].1@ == p.contents()[x.0]);
        assert(l1[i].1@ == p.contents()[x.0]);
    }
    assert forall|x: (Seq<char>, Seq<char>)| pair_set(l2).contains(x) implies pair_set(l1).contains(x) by {
        let i = choose|i: int| 0 <= i < l2.len() && #[trigger] l2[i].0@ == x.0 && l2[i].1@ == x.1;
        assert(pair_keys(l2)[i] == x.0);
        assert(pair_keys(l2).contains(x.0));
        assert(pair_keys(l1).contains(x.0));
        let j = choose|j: int| 0 <= j < pair_keys(l1).len() && pair_keys(l1)[j] == x.0;
        assert(l1[j].0@ == x.0);
        assert(l1[j].1@ == p.contents()[x.0]);
        assert(l2[i].1@ == p.contents()[x.0]);
    }
    assert(pair_set(l1) =~= pair_set(l2));
}

/// A keyboard shortcut acts as the request it stands for: the session ends
/// the same and the same work is asked for, save that the files of a
/// save-all may be written in another order.
pub proof fn law_shortcut_as_message(
    s0: Session,
    sc: Shortcut,
    s1: Session,
    r1: Seq<Effect>,
    s2: Session,
    r2: Seq<Effect>,
)
    requires
        s0.wf(),
        shortcut_applied(s0, sc, s1, r1),
        message_handled(s0, sc, s2, r2),
    ensures
        sessions_agree(s1, s2),
        effect_lists_agree(r1, r2),
{
    match sc {
        Shortcut::SaveAll => {
            if let Some(p) = s0.project {
                if let (Effect::WriteAll(l1), Effect::WriteAll(l2)) = (r1[0], r2[0]) {
                    lemma_writes_all_agree(p, l1@, l2@);
                }
            }
        },
        Shortcut::Compile => {
            if s0.latex_available {
                if let Some(p) = s0.project {
                    if p.compile_target_spec() is Some {
                        if let (Effect::WriteAll(l1), Effect::WriteAll(l2)) = (r1[0], r2[0]) {
                            lemma_writes_all_agree(p, l1@, l2@);
                        }
                    }
                }
            }
        },
        _ => {},
    }
}

/// With no folder picker open a request starts exactly one; while it is
/// open a second request (to open or to start a project) starts none and
/// changes nothing; cancelling it closes it again.
pub proof fn law_single_folder_dialog(
    s0: Session,
    s1: Session,
    s2: Session,
    s3: Session,
    r1: Seq<Effect>,
    r2: Seq<Effect>,
    new1: bool,
    new2: bool,
)
    requires
        !s0.dialog_open,
        asked_folder(s0, s1, new1, r1),
        asked_folder(s1, s2, new2, r2),
        s3 == (Session { dialog_open: false, status_message: s3.status_message, ..s2 }),
    ensures
        r1.len() == 1,
        s1.dialog_open,
        r2.len() == 0,
        s2 == s1,
        !s3.dialog_open,
{
}

/// A compile always runs one to three LaTeX passes, whatever was asked.
pub proof fn law_passes_in_range(n: u8)
    ensures
        1 <= clamp_passes(n) <= 3,
{
}

// ------------------------------------------------------------------
// What the status bar, the log panel and the editor commands show
// ------------------------------------------------------------------

/// The compile-status pill of the status bar.
pub open spec fn pill_spec(s: CompileStatus) -> Seq<char> {
    match s {
        CompileStatus::Idle => "[ ]"@,
        CompileStatus::Compiling { pass, total } => "Building "@ + decimal_spec(pass as nat) + "/"@
            + decimal_spec(total as nat),
        CompileStatus::RunningBibtex => "BibTeX..."@,
        CompileStatus::Success(_) => "[OK]"@,
        CompileStatus::Failed(_) => "[ERR]"@,
    }
}

/// The text of the compile-status pill.
pub fn pill_text(status: &CompileStatus) -> (r: String)
    ensures
        r@ == pill_spec(*status),
{
    match status {
        CompileStatus::Idle => "[ ]".to_owned(),
        CompileStatus::Compiling { pass, total } => "Building ".to_owned().concat(
            decimal_string(*pass as u64).as_str(),
        ).concat("/").concat(decimal_string(*total as u64).as_str()),
        CompileStatus::RunningBibtex => "BibTeX...".to_owned(),
        CompileStatus::Success(_) => "[OK]".to_owned(),
        CompileStatus::Failed(_) => "[ERR]".to_owned(),
    }
}

/// The cursor position shown in the status bar, from 0-based line and
/// column.
pub fn cursor_label(line: usize, col: usize) -> (r: String)
    requires
        line < usize::MAX,
        col < usize::MAX,
    ensures
        r@ == "Ln "@ + decimal_spec((line + 1) as nat) + ", Col "@ + decimal_spec((col + 1) as nat),
{
    let l: u64 = line as u64 + 1;
    let c: u64 = col as u64 + 1;
    "Ln ".to_owned().concat(decimal_string(l).as_str()).concat(", Col ").concat(decimal_string(c).as_str())
}

/// The active file is a `.tex` file.
pub open spec fn active_is_tex(p: Project) -> bool {
    p.active_file matches Some(a) && path_extension_spec(a@) == Some("tex"@)
}

/// What the status bar says about the compile target: its file name, and
/// whether it is the main file that is set or the active `.tex` tab.
pub open spec fn target_suffix_spec(p: Project) -> Seq<char> {
    match p.compile_target_spec() {
        None => Seq::<char>::empty(),
        Some(t) => match path_file_name_of(t) {
            None => Seq::<char>::empty(),
            Some(n) => if p.main_file is Some {
                " -> "@ + n + " (main)"@
            } else if active_is_tex(p) {
                " -> "@ + n + " (active tab)"@
            } else {
                " -> "@ + n
            },
        },
    }
}

/// The compiler and target shown in the status bar.
pub open spec fn target_label_spec(s: Session) -> Seq<char> {
    display_spec(s.compile_options.compiler) + match s.project {
        Some(p) => target_suffix_spec(p),
        None => Seq::<char>::empty(),
    }
}

/// The marker shown before a diagnostic in the log panel.
pub open spec fn diagnostic_prefix_spec(l: DiagnosticLevel) -> Seq<char> {
    match l {
        DiagnosticLevel::Error => "[E]"@,
        DiagnosticLevel::Warning => "[W]"@,
        DiagnosticLevel::Info => "[i]"@,
    }
}

/// The marker shown before a diagnostic of level `l`.
pub fn diagnostic_prefix(l: DiagnosticLevel) -> (r: &'static str)
    ensures
        r@ == diagnostic_prefix_spec(l),
{
    match l {
        DiagnosticLevel::Error => "[E]",
        DiagnosticLevel::Warning => "[W]",
        DiagnosticLevel::Info => "[i]",
    }
}

/// A diagnostic's line in the log panel: where it is, then its message.
pub open spec fn diagnostic_text_spec(d: Diagnostic) -> Seq<char> {
    match (d.file, d.line) {
        (Some(f), Some(l)) => f@ + ":"@ + decimal_spec(l as nat) + " - "@ + d.message@,
        (Some(f), None) => f@ + " - "@ + d.message@,
        _ => d.message@,
    }
}

/// The text of a diagnostic in the log panel.
pub fn diagnostic_text(d: &Diagnostic) -> (r: String)
    ensures
        r@ == diagnostic_text_spec(*d),
{
    match (&d.file, d.line) {
        (Some(f), Some(l)) => f.clone().concat(":").concat(decimal_string(l as u64).as_str()).concat(
            " - ",
        ).concat(d.message.as_str()),
        (Some(f), None) => f.clone().concat(" - ").concat(d.message.as_str()),
        _ => d.message.clone(),
    }
}

/// Whether toggling the comment of line `line_idx` of `text` removes a
/// leading `%` (`Some(true)`), adds one (`Some(false)`), or does nothing
/// because there is no such line (`None`).
pub fn comment_toggle(text: &str, line_idx: usize) -> (r: Option<bool>)
    ensures
        r == (if line_idx < lines_spec(text@).len() {
            Some(lines_spec(text@)[line_idx as int].len() > 0 && lines_spec(text@)[line_idx as int][0] == '%')
        } else {
            None
        }),
{
    let lines = split_lines(text);
    if line_idx < lines.len() {
        let l = &lines[line_idx];
        assert(l@ == lines_spec(text@)[line_idx as int]);
        let cs = crate::text::chars_of(l.as_str());
        Some(cs.len() > 0 && cs[0] == '%')
    } else {
        None
    }
}

/// The label of a file's tab: its file name ("?" without one), after a
/// `* ` when it has unsaved changes.
pub open spec fn tab_label_spec(path: Seq<char>, dirty: bool) -> Seq<char> {
    (if dirty { "* "@ } else { Seq::<char>::empty() }) + match path_file_name_of(path) {
        Some(n) => n,
        None => "?"@,
    }
}

/// The label of the tab of `path`.
pub fn tab_label(path: &str, dirty: bool) -> (r: String)
    ensures
        r@ == tab_label_spec(path@, dirty),
{
    let name = match path_file_name(path) {
        Some(n) => n,
        None => "?".to_owned(),
    };
    let dot = if dirty { "* ".to_owned() } else { String::new() };
    dot.concat(name.as_str())
}

/// `n` right-aligned in four columns, as the line-number gutter shows it.
pub open spec fn gutter_spec(n: nat) -> Seq<char> {
    let d = decimal_spec(n);
    if d.len() < 4 {
        Seq::new((4 - d.len()) as nat, |i: int| ' ') + d
    } else {
        d
    }
}

/// The gutter's numbers for a text of `line_count` lines: 1 to
/// `line_count`, and at least one.
pub fn gutter_numbers(line_count: usize) -> (r: Vec<String>)
    requires
        line_count < usize::MAX,
    ensures
        r@.len() == (if line_count == 0 { 1 } else { line_count }),
        forall|i: int| 0 <= i < r@.len() ==> (#[trigger] r@[i])@ == gutter_spec((i + 1) as nat),
{
    let n = if line_count == 0 { 1 } else { line_count };
    let mut out: Vec<String> = Vec::new();
    let mut k: usize = 0;
    while k < n
        invariant
            0 <= k <= n,
            n == (if line_count == 0 { 1 } else { line_count }),
            out@.len() == k,
            forall|i: int| 0 <= i < k ==> (#[trigger] out@[i])@ == gutter_spec((i + 1) as nat),
        decreases n - k,
    {
        let d = decimal_string((k + 1) as u64);
        let mut pad = String::new();
        let w = d.as_str().unicode_len();
        let mut j: usize = w;
        while j < 4
            invariant
                w <= j <= 4 || (w > 4 && j == w),
                w == d@.len(),
                pad@ == Seq::new((j - w) as nat, |i: int| ' '),
            decreases 4 - j,
        {
            proof {
                reveal_strlit(" ");
            }
            pad = pad.concat(" ");
            assert(pad@ =~= Seq::new((j + 1 - w) as nat, |i: int| ' '));
            j = j + 1;
        }
        let label = pad.concat(d.as_str());
        assert(label@ =~= gutter_spec((k + 1) as nat));
        out.push(label);
        k = k + 1;
    }
    out
}

impl Session {
    /// The status-bar message and its kind; "Ready" (without a kind) when
    /// there is none.
    pub fn status_line(&self) -> (r: (String, Option<StatusKind>))
        ensures
            self.status_message matches Some((m, k)) ==> r.0 == m && r.1 == Some(k),
            self.status_message is None ==> r.0@ == "Ready"@ && r.1 is None,
    {
        match &self.status_message {
            Some((m, k)) => (m.clone(), Some(*k)),
            None => ("Ready".to_owned(), None),
        }
    }

    /// The compiler and compile target shown in the status bar.
    pub fn target_label(&self) -> (r: String)
        ensures
            r@ == target_label_spec(*self),
    {
        let name = self.compile_options.compiler.display().to_owned();
        let suffix = match &self.project {
            None => String::new(),
            Some(p) => {
                let is_active_tex = match &p.active_file {
                    Some(a) => has_extension(a.as_str(), "tex"),
                    None => false,
                };
                let is_pinned = p.main_file.is_some();
                match p.compile_target() {
                    None => String::new(),
                    Some(t) => match path_file_name(t.as_str()) {
                        None => String::new(),
                        Some(n) => if is_pinned {
                            " -> ".to_owned().concat(n.as_str()).concat(" (main)")
                        } else if is_active_tex {
                            " -> ".to_owned().concat(n.as_str()).concat(" (active tab)")
                        } else {
                            " -> ".to_owned().concat(n.as_str())
                        },
                    },
                }
            },
        };
        name.concat(suffix.as_str())
    }
}

} // verus!
