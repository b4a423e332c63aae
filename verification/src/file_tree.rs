//! The project's file tree: which entries are listed and in what order,
//! which directories are expanded, and which entries are visible.

use vstd::prelude::*;
use crate::bridge::{path_parent, path_parent_of, to_lowercase, to_lowercase_of};
use crate::compiler::str_equal;
use crate::paths::{last_dot_before, path_extension, path_extension_spec};
use crate::project::{seq_less, seq_less_exec, Project, opt_view};
use crate::table::PathSet;
use crate::text::{chars_of, contains_chars, contains_spec, occurs_at, ends_with_spec, starts_with_spec, string_of_range};

verus! {

/// One entry of a directory as read from disk, with the entries below it
/// when it is a directory.
#[derive(Debug)]
pub struct FsNode {
    pub path: String,
    pub name: String,
    pub is_dir: bool,
    pub children: Vec<FsNode>,
}

/// One line of the file tree.
#[derive(Debug, Clone)]
pub struct FileEntry {
    pub path: String,
    pub name: String,
    pub depth: usize,
    pub is_dir: bool,
    pub is_main: bool,
}

pub struct FileEntryView {
    pub path: Seq<char>,
    pub name: Seq<char>,
    pub depth: int,
    pub is_dir: bool,
    pub is_main: bool,
}

impl DeepView for FileEntry {
    type V = FileEntryView;

    open spec fn deep_view(&self) -> FileEntryView {
        FileEntryView {
            path: self.path@,
            name: self.name@,
            depth: self.depth as int,
            is_dir: self.is_dir,
            is_main: self.is_main,
        }
    }
}

pub open spec fn node_size(n: FsNode) -> nat
    decreases n,
{
    1 + nodes_size(n.children@)
}

/// Number of nodes in a forest.
pub open spec fn nodes_size(s: Seq<FsNode>) -> nat
    decreases s,
{
    if s.len() == 0 {
        0
    } else {
        nodes_size(s.subrange(0, s.len() - 1)) + node_size(s[s.len() - 1])
    }
}

pub proof fn lemma_size_remove(s: Seq<FsNode>, m: int)
    requires
        0 <= m < s.len(),
    ensures
        nodes_size(s) == nodes_size(s.remove(m)) + 1 + nodes_size(s[m].children@),
    decreases s.len(),
{
    let last = s.len() - 1;
    assert(node_size(s[m]) == 1 + nodes_size(s[m].children@));
    if m == last {
        assert(s.remove(m) =~= s.subrange(0, last));
    } else {
        let r = s.remove(m);
        assert(r.subrange(0, r.len() - 1) =~= s.subrange(0, last).remove(m));
        assert(r[r.len() - 1] == s[last]);
        lemma_size_remove(s.subrange(0, last), m);
        assert(s.subrange(0, last)[m] == s[m]);
    }
}

/// Directories come before files; within each, entries go by name.
pub open spec fn node_before(a: FsNode, b: FsNode) -> bool {
    (a.is_dir && !b.is_dir) || (a.is_dir == b.is_dir && seq_less(a.name@, b.name@))
}

/// Index of the first entry of `s[0..j]` that no entry comes before, given
/// that `best` is the first such entry of `s[0..from]`.
pub open spec fn first_least_from(s: Seq<FsNode>, best: int, j: int) -> int
    decreases s.len() - j,
{
    if j >= s.len() || j < 0 {
        best
    } else if node_before(s[j], s[best]) {
        first_least_from(s, j, j + 1)
    } else {
        first_least_from(s, best, j + 1)
    }
}

/// The entry that a stable sort by `node_before` puts first.
pub open spec fn first_least(s: Seq<FsNode>) -> int {
    first_least_from(s, 0, 1)
}

pub proof fn lemma_first_least_bound(s: Seq<FsNode>, best: int, j: int)
    requires
        0 <= best < s.len(),
        0 <= j,
    ensures
        0 <= first_least_from(s, best, j) < s.len(),
    decreases s.len() - j,
{
    if j < s.len() {
        if node_before(s[j], s[best]) {
            lemma_first_least_bound(s, j, j + 1);
        } else {
            lemma_first_least_bound(s, best, j + 1);
        }
    }
}

/// The extensions of LaTeX's intermediate files, which the tree hides.
pub open spec fn hidden_extensions() -> Seq<Seq<char>> {
    seq![
        "aux"@, "log"@, "out"@, "toc"@, "lof"@, "lot"@, "bbl"@, "blg"@, "fls"@, "fdb_latexmk"@,
        "idx"@, "ilg"@, "ind"@, "ist"@, "glo"@, "gls"@, "glg"@, "acn"@, "acr"@, "alg"@, "xdy"@,
        "run.xml"@, "bcf"@, "nav"@, "snm"@, "vrb"@, "dvi"@, "ps"@, "tdo"@,
    ]
}

/// A file is shown unless its lower-cased extension is a hidden one, the
/// path ends in `.synctex.gz`, or the lower-cased path ends in `.run.xml`;
/// files without extension are shown.
pub open spec fn should_show_spec(p: Seq<char>) -> bool {
    match path_extension_spec(p) {
        Some(ext) => !ends_with_spec(p, ".synctex.gz"@) && !ends_with_spec(to_lowercase_of(p), ".run.xml"@)
            && !hidden_extensions().contains(
            to_lowercase_of(ext),
        ),
        None => true,
    }
}

pub open spec fn skipped_name(n: Seq<char>) -> bool {
    starts_with_spec(n, "."@) || n == "target"@
}

/// The lines of the file tree for the forest `items` at `depth`: entries in
/// the order `node_before` gives (first one first on ties), each directory
/// followed by its own listing one level deeper; names starting with `.` and
/// `target` are left out with everything below them, and files that
/// `should_show_spec` rejects are left out.
pub open spec fn listing(items: Seq<FsNode>, depth: int, main: Option<Seq<char>>) -> Seq<FileEntryView>
    decreases nodes_size(items),
{
    if items.len() == 0 {
        seq![]
    } else {
        proof {
            lemma_first_least_bound(items, 0, 1);
            lemma_size_remove(items, first_least(items));
        }
        let m = first_least(items);
        let x = items[m];
        let rest = items.remove(m);
        let here: Seq<FileEntryView> = if skipped_name(x.name@) {
            seq![]
        } else if x.is_dir {
            seq![
                FileEntryView {
                    path: x.path@,
                    name: x.name@,
                    depth,
                    is_dir: true,
                    is_main: false,
                },
            ] + listing(x.children@, depth + 1, main)
        } else if should_show_spec(x.path@) {
            seq![
                FileEntryView {
                    path: x.path@,
                    name: x.name@,
                    depth,
                    is_dir: false,
                    is_main: main == Some(x.path@),
                },
            ]
        } else {
            seq![]
        };
        here + listing(rest, depth, main)
    }
}

fn node_before_exec(a: &FsNode, b: &FsNode) -> (r: bool)
    ensures
        r == node_before(*a, *b),
{
    (a.is_dir && !b.is_dir) || (a.is_dir == b.is_dir && seq_less_exec(a.name.as_str(), b.name.as_str()))
}

fn first_least_exec(s: &Vec<FsNode>) -> (r: usize)
    requires
        s@.len() > 0,
    ensures
        r == first_least(s@),
        r < s@.len(),
{
    let mut best: usize = 0;
    let mut j: usize = 1;
    while j < s.len()
        invariant
            1 <= j <= s@.len(),
            best < j,
            first_least(s@) == first_least_from(s@, best as int, j as int),
        decreases s@.len() - j,
    {
        if node_before_exec(&s[j], &s[best]) {
            best = j;
        }
        j = j + 1;
    }
    best
}

fn starts_with_dot(n: &str) -> (r: bool)
    ensures
        r == starts_with_spec(n@, "."@),
{
    let cs = chars_of(n);
    proof {
        reveal_strlit(".");
    }
    if cs.len() == 0 {
        return false;
    }
    let r = cs[0] == '.';
    assert(r ==> n@.take(1) =~= "."@);
    assert(!r ==> n@.take(1)[0] != "."@[0]);
    r
}

/// The hidden extensions, in order.
pub fn hidden_extension_list() -> (r: Vec<&'static str>)
    ensures
        r@.map_values(|s: &str| s@) == hidden_extensions(),
{
    let v = vec![
        "aux", "log", "out", "toc", "lof", "lot", "bbl", "blg", "fls", "fdb_latexmk", "idx", "ilg",
        "ind", "ist", "glo", "gls", "glg", "acn", "acr", "alg", "xdy", "run.xml", "bcf", "nav",
        "snm", "vrb", "dvi", "ps", "tdo",
    ];
    assert(v@.map_values(|s: &str| s@) =~= hidden_extensions());
    v
}

/// Whether the tree shows the file at `path`.
pub fn should_show(path: &str) -> (r: bool)
    ensures
        r == should_show_spec(path@),
{
    match path_extension(path) {
        Some(ext) => {
            let low = to_lowercase(ext.as_str());
            let pc = chars_of(path);
            let sfx = chars_of(".synctex.gz");
            if ends_with_chars(&pc, &sfx) {
                return false;
            }
            let path_low = to_lowercase(path);
            if ends_with_chars(&chars_of(path_low.as_str()), &chars_of(".run.xml")) {
                return false;
            }
            let hidden = hidden_extension_list();
            let ghost hv = hidden@.map_values(|s: &str| s@);
            let mut i: usize = 0;
            while i < hidden.len()
                invariant
                    0 <= i <= hidden@.len(),
                    hv == hidden@.map_values(|s: &str| s@),
                    hv == hidden_extensions(),
                    forall|k: int| 0 <= k < i ==> hv[k] != low@,
                    low@ == to_lowercase_of(ext@),
                    path_extension_spec(path@) == Some(ext@),
                    !ends_with_spec(path@, ".synctex.gz"@),
                    !ends_with_spec(to_lowercase_of(path@), ".run.xml"@),
                decreases hidden@.len() - i,
            {
                if str_equal(hidden[i], low.as_str()) {
                    assert(hv[i as int] == low@);
                    return false;
                }
                i = i + 1;
            }
            true
        },
        None => true,
    }
}

fn ends_with_chars(s: &Vec<char>, suffix: &Vec<char>) -> (r: bool)
    ensures
        r == ends_with_spec(s@, suffix@),
{
    if suffix.len() > s.len() {
        return false;
    }
    let off = s.len() - suffix.len();
    let mut k: usize = 0;
    while k < suffix.len()
        invariant
            off + suffix@.len() == s@.len(),
            off + suffix.len() == s.len(),
            0 <= k <= suffix@.len(),
            forall|j: int| 0 <= j < k ==> s@[off + j] == suffix@[j],
        decreases suffix@.len() - k,
    {
        if s[off + k] != suffix[k] {
            assert(s@.skip(off as int)[k as int] != suffix@[k as int]);
            return false;
        }
        k = k + 1;
    }
    assert(s@.skip(off as int) =~= suffix@);
    true
}

fn is_skipped(n: &str) -> (r: bool)
    ensures
        r == skipped_name(n@),
{
    starts_with_dot(n) || str_equal(n, "target")
}

#[verifier::loop_isolation(false)]
fn append_listing(mut items: Vec<FsNode>, depth: usize, main: &Option<String>, out: &mut Vec<FileEntry>)
    requires
        depth + nodes_size(items@) <= usize::MAX,
    ensures
        final(out).deep_view() == old(out).deep_view() + listing(items@, depth as int, opt_view(*main)),
    decreases nodes_size(items@),
{
    let ghost orig = items@;
    let ghost start = out.deep_view();
    let ghost mv = opt_view(*main);
    assert(start + listing(orig, depth as int, mv) =~= out.deep_view() + listing(items@, depth as int, mv));
    while items.len() > 0
        invariant
            depth + nodes_size(items@) <= usize::MAX,
            nodes_size(items@) <= nodes_size(orig),
            mv == opt_view(*main),
            start + listing(orig, depth as int, mv) == out.deep_view() + listing(items@, depth as int, mv),
        decreases items@.len(),
    {
        let m = first_least_exec(&items);
        let ghost before_items = items@;
        proof {
            lemma_size_remove(before_items, m as int);
        }
        let x = items.remove(m);
        assert(items@ == before_items.remove(m as int));
        assert(x == before_items[m as int]);
        assert(nodes_size(x.children@) < nodes_size(orig));
        let ghost before = out.deep_view();
        let ghost here: Seq<FileEntryView> = if skipped_name(x.name@) {
            seq![]
        } else if x.is_dir {
            seq![FileEntryView { path: x.path@, name: x.name@, depth: depth as int, is_dir: true, is_main: false }]
                + listing(x.children@, depth + 1, mv)
        } else if should_show_spec(x.path@) {
            seq![FileEntryView { path: x.path@, name: x.name@, depth: depth as int, is_dir: false, is_main: mv == Some(x.path@) }]
        } else {
            seq![]
        };
        assert(listing(before_items, depth as int, mv) == here + listing(items@, depth as int, mv));
        if is_skipped(x.name.as_str()) {
        } else if x.is_dir {
            let e = FileEntry { path: x.path, name: x.name, depth, is_dir: true, is_main: false };
            out.push(e);
            let ghost mid = out.deep_view();
            assert(mid =~= before.push(e.deep_view()));
            append_listing(x.children, depth + 1, main, out);
            assert(out.deep_view() =~= before + here);
        } else if should_show(x.path.as_str()) {
            let is_main = match main {
                Some(mf) => str_equal(mf.as_str(), x.path.as_str()),
                None => false,
            };
            let e = FileEntry { path: x.path, name: x.name, depth, is_dir: false, is_main };
            out.push(e);
            assert(out.deep_view() =~= before + here);
        } else {
        }
        assert(out.deep_view() + listing(items@, depth as int, mv) =~= before + here + listing(items@, depth as int, mv));
    }
    assert(listing(items@, depth as int, mv) =~= Seq::<FileEntryView>::empty());
    assert(out.deep_view() + Seq::<FileEntryView>::empty() =~= out.deep_view());
}

impl Project {
    /// The lines of the file tree for the root directory's entries `tree`.
    pub fn visible_files(&self, tree: Vec<FsNode>) -> (r: Vec<FileEntry>)
        requires
            nodes_size(tree@) <= usize::MAX,
        ensures
            r.deep_view() == listing(tree@, 0, opt_view(self.main_file)),
    {
        let mut out: Vec<FileEntry> = Vec::new();
        append_listing(tree, 0, &self.main_file, &mut out);
        assert(out.deep_view() =~= listing(tree@, 0, opt_view(self.main_file)));
        out
    }
}

// ------------------------------------------------------------------
// Expanded directories and visibility
// ------------------------------------------------------------------

/// The sidebar's tree state: which directories are expanded.
#[derive(Debug, Clone)]
pub struct FileTree {
    pub expanded_dirs: PathSet,
}

impl Default for FileTree {
    fn default() -> (r: Self)
        ensures
            r.expanded_dirs.wf(),
            r.expanded_dirs@ == Set::<Seq<char>>::empty(),
    {
        FileTree { expanded_dirs: PathSet::new() }
    }
}

/// Every ancestor of `path`, walking up from `p` with `Path::parent` until
/// the project root `root` (which counts too), or until there is none (or
/// the walk returns to `path`), is expanded.
pub open spec fn ancestors_expanded(set: Set<Seq<char>>, path: Seq<char>, p: Seq<char>, root: Seq<char>) -> bool
    decreases p.len(),
{
    match path_parent_of(p) {
        Some(q) => if q != path && q.len() < p.len() {
            set.contains(q) && (q == root || ancestors_expanded(set, path, q, root))
        } else {
            true
        },
        None => true,
    }
}

/// An entry of the tree of the project at `root` is listed when every
/// ancestor from its parent up to the root is expanded (entries at depth 0
/// always are), except that while searching ancestors do not matter and a
/// file is listed only if its lower-cased name contains the lower-cased query.
pub open spec fn entry_visible_spec(set: Set<Seq<char>>, e: FileEntryView, query: Seq<char>, root: Seq<char>) -> bool {
    let searching = query.len() > 0;
    &&& (e.depth > 0 && !searching ==> ancestors_expanded(set, e.path, e.path, root))
    &&& (searching && !e.is_dir ==> contains_spec(to_lowercase_of(e.name), to_lowercase_of(query)))
}

impl FileTree {
    /// Expands a collapsed directory or collapses an expanded one.
    pub fn toggle_dir(&mut self, path: &String)
        requires
            old(self).expanded_dirs.wf(),
        ensures
            final(self).expanded_dirs.wf(),
            final(self).expanded_dirs@ == (if old(self).expanded_dirs@.contains(path@) {
                old(self).expanded_dirs@.remove(path@)
            } else {
                old(self).expanded_dirs@.insert(path@)
            }),
    {
        if self.expanded_dirs.contains(path.as_str()) {
            self.expanded_dirs.remove(path.as_str());
        } else {
            self.expanded_dirs.insert(path.clone());
        }
    }

    /// Whether the tree of the project at `root` lists `entry` while the
    /// search box holds `search_query`.
    pub fn entry_visible(&self, entry: &FileEntry, search_query: &str, root: &str) -> (r: bool)
        ensures
            r == entry_visible_spec(self.expanded_dirs@, entry.deep_view(), search_query@, root@),
    {
        let searching = !search_query.is_empty();
        if entry.depth > 0 && !searching {
            let mut ancestor = path_parent(entry.path.as_str());
            let ghost target = ancestors_expanded(self.expanded_dirs@, entry.path@, entry.path@, root@);
            let ghost mut cur: Seq<char> = entry.path@;
            loop
                invariant
                    target == ancestors_expanded(self.expanded_dirs@, entry.path@, entry.path@, root@),
                    opt_view(ancestor) == path_parent_of(cur),
                    ancestor matches Some(q) ==> q@.len() < cur.len(),
                    target == ancestors_expanded(self.expanded_dirs@, entry.path@, cur, root@),
                    entry.depth > 0,
                    !searching,
                    searching == (search_query@.len() > 0),
                ensures
                    target,
                decreases cur.len(),
            {
                match ancestor {
                    Some(p) => {
                        if str_equal(p.as_str(), entry.path.as_str()) {
                            break;
                        }
                        if !self.expanded_dirs.contains(p.as_str()) {
                            return false;
                        }
                        if str_equal(p.as_str(), root) {
                            break;
                        }
                        let next = path_parent(p.as_str());
                        proof {
                            cur = p@;
                        }
                        ancestor = next;
                    },
                    None => {
                        break;
                    },
                }
            }
        }
        if searching && !entry.is_dir {
            let name_low = to_lowercase(entry.name.as_str());
            let query_low = to_lowercase(search_query);
            let a = chars_of(name_low.as_str());
            let b = chars_of(query_low.as_str());
            if !contains_chars(&a, &b) {
                return false;
            }
        }
        true
    }
}

/// The text after the last `.` of a name, or the whole name.
pub open spec fn last_segment(n: Seq<char>) -> Seq<char> {
    let k = last_dot_before(n, n.len() as int);
    if k >= 0 {
        n.subrange(k + 1, n.len() as int)
    } else {
        n
    }
}

/// The glyph of the tree icon for a file name, chosen by its lower-cased
/// last `.`-segment.
pub open spec fn file_icon_spec(name: Seq<char>) -> Seq<char> {
    let e = to_lowercase_of(last_segment(name));
    if e == "tex"@ {
        "T"@
    } else if e == "bib"@ {
        "B"@
    } else if e == "cls"@ || e == "sty"@ {
        "S"@
    } else if e == "pdf"@ {
        "P"@
    } else if e == "png"@ || e == "jpg"@ || e == "jpeg"@ || e == "svg"@ || e == "eps"@ {
        "I"@
    } else if e == "txt"@ || e == "md"@ {
        "D"@
    } else {
        "."@
    }
}

/// The glyph of the tree icon for a file.
pub fn file_icon(name: &str) -> (r: &'static str)
    ensures
        r@ == file_icon_spec(name@),
{
    let cs = chars_of(name);
    let n = cs.len();
    let mut j = n;
    while j > 0 && cs[j - 1] != '.'
        invariant
            0 <= j <= n == cs@.len(),
            cs@ == name@,
            last_dot_before(name@, n as int) == last_dot_before(name@, j as int),
        decreases j,
    {
        j = j - 1;
    }
    let seg = if j > 0 { string_of_range(&cs, j, n) } else { string_of_range(&cs, 0, n) };
    assert(j == 0 ==> cs@.subrange(0, n as int) =~= name@);
    let e = to_lowercase(seg.as_str());
    let e = e.as_str();
    if str_equal(e, "tex") {
        "T"
    } else if str_equal(e, "bib") {
        "B"
    } else if str_equal(e, "cls") || str_equal(e, "sty") {
        "S"
    } else if str_equal(e, "pdf") {
        "P"
    } else if str_equal(e, "png") || str_equal(e, "jpg") || str_equal(e, "jpeg") || str_equal(e, "svg")
        || str_equal(e, "eps") {
        "I"
    } else if str_equal(e, "txt") || str_equal(e, "md") {
        "D"
    } else {
        "."
    }
}

/// Intermediate files are never listed: every file entry of the tree is one
/// that `should_show_spec` accepts, at any depth.
pub proof fn law_hidden_never_listed(items: Seq<FsNode>, depth: int, main: Option<Seq<char>>)
    ensures
        forall|i: int| 0 <= i < listing(items, depth, main).len() && !(#[trigger] listing(items, depth, main)[i]).is_dir
            ==> should_show_spec(listing(items, depth, main)[i].path),
    decreases nodes_size(items),
{
    if items.len() > 0 {
        lemma_first_least_bound(items, 0, 1);
        lemma_size_remove(items, first_least(items));
        let m = first_least(items);
        let x = items[m];
        let rest = items.remove(m);
        law_hidden_never_listed(rest, depth, main);
        let tail = listing(rest, depth, main);
        let l = listing(items, depth, main);
        if skipped_name(x.name@) {
            assert(l =~= tail);
        } else if x.is_dir {
            law_hidden_never_listed(x.children@, depth + 1, main);
            let below = listing(x.children@, depth + 1, main);
            let head = seq![FileEntryView { path: x.path@, name: x.name@, depth, is_dir: true, is_main: false }];
            assert(l =~= head + below + tail);
            assert forall|i: int| 0 <= i < l.len() && !(#[trigger] l[i]).is_dir implies should_show_spec(l[i].path) by {
                if i == 0 {
                } else if i < 1 + below.len() {
                    assert(l[i] == below[i - 1]);
                } else {
                    assert(l[i] == tail[i - 1 - below.len()]);
                }
            }
        } else if should_show_spec(x.path@) {
            let head = seq![FileEntryView { path: x.path@, name: x.name@, depth, is_dir: false, is_main: main == Some(x.path@) }];
            assert(l =~= head + tail);
            assert forall|i: int| 0 <= i < l.len() && !(#[trigger] l[i]).is_dir implies should_show_spec(l[i].path) by {
                if i > 0 {
                    assert(l[i] == tail[i - 1]);
                }
            }
        } else {
            assert(l =~= tail);
        }
    }
}

/// Toggling a directory twice leaves the expanded set as it was.
pub proof fn law_toggle_twice(set: Set<Seq<char>>, path: Seq<char>)
    ensures
        ({
            let once = if set.contains(path) { set.remove(path) } else { set.insert(path) };
            let twice = if once.contains(path) { once.remove(path) } else { once.insert(path) };
            twice == set
        }),
{
    let once = if set.contains(path) { set.remove(path) } else { set.insert(path) };
    let twice = if once.contains(path) { once.remove(path) } else { once.insert(path) };
    assert(twice =~= set);
}

/// A file or folder directly inside the project root is listed once the
/// root is expanded, without any folder above the root being expanded.
pub proof fn law_root_children_visible(set: Set<Seq<char>>, root: Seq<char>, path: Seq<char>)
    requires
        path_parent_of(path) == Some(root),
        root.len() < path.len(),
        set.contains(root),
    ensures
        ancestors_expanded(set, path, path, root),
{
}

/// While searching, a folder is always listed, and a file is listed exactly
/// when the query, lower-cased, occurs somewhere in its lower-cased name:
/// at the start, in the middle or at the end.
pub proof fn law_search_matches_anywhere(set: Set<Seq<char>>, e: FileEntryView, query: Seq<char>, root: Seq<char>)
    requires
        query.len() > 0,
    ensures
        entry_visible_spec(set, e, query, root) == (e.is_dir || exists|k: int|
            0 <= k && k + to_lowercase_of(query).len() <= to_lowercase_of(e.name).len()
                && #[trigger] to_lowercase_of(e.name).subrange(k, k + to_lowercase_of(query).len())
                == to_lowercase_of(query)),
{
    let ln = to_lowercase_of(e.name);
    let lq = to_lowercase_of(query);
    if contains_spec(ln, lq) {
        let k = choose|k: int| occurs_at(ln, lq, k);
        assert(ln.subrange(k, k + lq.len()) == lq);
    }
    if exists|k: int| 0 <= k && k + lq.len() <= ln.len() && #[trigger] ln.subrange(k, k + lq.len()) == lq {
        let k = choose|k: int| 0 <= k && k + lq.len() <= ln.len() && #[trigger] ln.subrange(k, k + lq.len()) == lq;
        assert(occurs_at(ln, lq, k));
    }
}

} // verus!
