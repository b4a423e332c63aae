//! Core logic of the Ferroleaf LaTeX editor: compiler log analysis,
//! LaTeX tokenizing, project bookkeeping, the file tree, SyncTeX output
//! parsing and the editor session's state machine.

pub mod bridge;
pub mod compiler;
pub mod log;
pub mod text;
pub mod editor;
pub mod table;
pub mod paths;
pub mod project;
pub mod file_tree;
pub mod synctex;
pub mod pdf;
pub mod session;
