# Ferroleaf

A LaTeX editor for Linux built on iced.  The editor's logic is a Verus
library (`src/`); the window, processes and files are ordinary Rust (`app/`).

## Library modules

- `compiler`: compiler kinds, compile options, diagnostics and results, the
  plan of a compile run (passes, BibTeX, arguments) and how a run's output
  becomes a result.
- `log`: diagnostics read out of a LaTeX log.
- `editor`: the whole-document tokenizer and the per-line highlighter.
- `project`: open files, their contents and unsaved-changes flags, the
  compile target, main-file detection and per-project settings.
- `file_tree`: which files the sidebar lists, in which order, and which
  entries are visible.
- `synctex`: reading `synctex edit` answers and `.synctex` records.
- `pdf`: the page cursor and PNG page sizes.
- `session`: the window's state machine; each handler returns the outside
  work to do as a list of effects.
- `text`, `paths`, `table`: string, path and small-collection helpers.
- `bridge`: the calls into `regex`, `flate2` and std path/case functions.

## Application

`app/` runs the iced window: it turns messages into session handler calls,
performs the effects (dialogs, file I/O, compiler processes, PDF rendering
with `pdftoppm`) and reports their outcome back.  Colors, zoom and window
geometry are floating point and live there.
