//! A LaTeX project: its root, main file, open files, their contents and
//! whether each has unsaved changes, and the project's settings.

use vstd::prelude::*;
use crate::bridge::{path_file_name, path_file_name_of};
use crate::compiler::{CompileOptions, CompilerKind, str_equal, binary_spec, from_str_spec};
use crate::paths::{has_extension, path_extension_spec};
use crate::table::PathTable;
use crate::text::{chars_of, contains_chars, contains_spec, ends_with_spec, occurs_at, occurs_at_exec, string_of_range};

verus! {

/// The open paths other than `p`, in order (what `retain(|q| q != p)` keeps).
pub open spec fn without(s: Seq<Seq<char>>, p: Seq<char>) -> Seq<Seq<char>>
    decreases s.len(),
{
    if s.len() == 0 {
        seq![]
    } else if s.last() == p {
        without(s.drop_last(), p)
    } else {
        without(s.drop_last(), p).push(s.last())
    }
}

pub open spec fn opt_view(o: Option<String>) -> Option<Seq<char>> {
    match o {
        Some(s) => Some(s@),
        None => None,
    }
}

/// The name shown for a project rooted at `root`.
pub open spec fn project_name_spec(root: Seq<char>) -> Seq<char> {
    match path_file_name_of(root) {
        Some(n) => n,
        None => "Untitled"@,
    }
}

/// A LaTeX project being edited.
#[derive(Debug, Clone)]
pub struct Project {
    pub root: String,
    pub name: String,
    pub main_file: Option<String>,
    pub open_files: Vec<String>,
    pub active_file: Option<String>,
    pub file_contents: PathTable<String>,
    pub dirty: PathTable<bool>,
}

impl Project {
    /// The internal tables are well formed and no path is open twice.
    pub open spec fn wf(&self) -> bool {
        &&& self.file_contents.wf()
        &&& self.dirty.wf()
        &&& self.open_view().no_duplicates()
    }

    /// Contents of the files read or edited so far.
    pub open spec fn contents(&self) -> Map<Seq<char>, Seq<char>> {
        self.file_contents@
    }

    /// Unsaved-changes flag of each file that has one.
    pub open spec fn dirty_map(&self) -> Map<Seq<char>, bool> {
        self.dirty@
    }

    /// Paths with a dirty flag, in the order they got one.
    pub open spec fn dirty_order(&self) -> Seq<Seq<char>> {
        self.dirty.key_order()
    }

    pub open spec fn open_view(&self) -> Seq<Seq<char>> {
        self.open_files.deep_view()
    }

    pub open spec fn is_dirty_spec(&self, p: Seq<char>) -> bool {
        self.dirty_map().dom().contains(p) && self.dirty_map()[p]
    }

    /// The file to compile: the main file if there is one, otherwise the
    /// active file when it is a `.tex` file.
    pub open spec fn compile_target_spec(&self) -> Option<Seq<char>> {
        match self.main_file {
            Some(m) => Some(m@),
            None => match self.active_file {
                Some(a) => if path_extension_spec(a@) == Some("tex"@) {
                    Some(a@)
                } else {
                    None
                },
                None => None,
            },
        }
    }

    /// A project rooted at `root`, named after its last component, with the
    /// main file that was found there and nothing open.
    pub fn new(root: String, main_file: Option<String>) -> (r: Self)
        ensures
            r.wf(),
            r.root == root,
            r.name@ == project_name_spec(root@),
            r.main_file == main_file,
            r.open_files@.len() == 0,
            r.active_file is None,
            r.contents() == Map::<Seq<char>, Seq<char>>::empty(),
            r.dirty_map() == Map::<Seq<char>, bool>::empty(),
    {
        let name = match path_file_name(root.as_str()) {
            Some(n) => n,
            None => "Untitled".to_owned(),
        };
        Project {
            root,
            name,
            main_file,
            open_files: Vec::new(),
            active_file: None,
            file_contents: PathTable::new(),
            dirty: PathTable::new(),
        }
    }

    /// `path` is among the open files.
    pub fn is_open(&self, path: &str) -> (r: bool)
        ensures
            r == self.open_view().contains(path@),
    {
        let n = self.open_files.len();
        let mut i: usize = 0;
        while i < n
            invariant
                0 <= i <= n == self.open_files@.len(),
                forall|j: int| 0 <= j < i ==> self.open_view()[j] != path@,
            decreases n - i,
        {
            if str_equal(self.open_files[i].as_str(), path) {
                assert(self.open_view()[i as int] == path@);
                return true;
            }
            i = i + 1;
        }
        false
    }

    /// Opens `path` and makes it active.  A file that is not open yet needs
    /// its contents, `loaded` (the result of reading it); when reading
    /// failed the error is returned and nothing changes.
    pub fn open_file(&mut self, path: String, loaded: Result<String, String>) -> (r: Result<(), String>)
        requires
            old(self).wf(),
        ensures
            final(self).wf(),
            final(self).root == old(self).root,
            final(self).name == old(self).name,
            final(self).main_file == old(self).main_file,
            old(self).open_view().contains(path@) ==> {
                &&& r is Ok
                &&& final(self).open_view() == old(self).open_view()
                &&& final(self).active_file == Some(path)
                &&& final(self).contents() == old(self).contents()
                &&& final(self).dirty_map() == old(self).dirty_map()
                &&& final(self).dirty_order() == old(self).dirty_order()
            },
            !old(self).open_view().contains(path@) ==> match loaded {
                Ok(c) => {
                    &&& r is Ok
                    &&& final(self).open_view() == old(self).open_view().push(path@)
                    &&& final(self).active_file == Some(path)
                    &&& final(self).contents() == old(self).contents().insert(path@, c@)
                    &&& final(self).dirty_map() == old(self).dirty_map().insert(path@, false)
                    &&& final(self).dirty_order() == (if old(self).dirty_map().dom().contains(path@) {
                        old(self).dirty_order()
                    } else {
                        old(self).dirty_order().push(path@)
                    })
                },
                Err(e) => {
                    &&& r == Err::<(), String>(e)
                    &&& *final(self) == *old(self)
                    &&& final(self).open_files == old(self).open_files
                    &&& final(self).active_file == old(self).active_file
                    &&& final(self).contents() == old(self).contents()
                    &&& final(self).dirty_map() == old(self).dirty_map()
                    &&& final(self).dirty_order() == old(self).dirty_order()
                },
            },
    {
        if !self.is_open(path.as_str()) {
            match loaded {
                Ok(content) => {
                    self.file_contents.insert(path.clone(), content);
                    let ghost before = self.open_view();
                    self.open_files.push(path.clone());
                    assert(self.open_view() =~= before.push(path@));
                    self.dirty.insert(path.clone(), false);
                },
                Err(e) => {
                    return Err(e);
                },
            }
        }
        self.active_file = Some(path);
        Ok(())
    }

    /// Records that `path` was written out: its unsaved-changes flag is
    /// cleared, provided the project holds contents for it.
    pub fn mark_saved(&mut self, path: &String)
        requires
            old(self).wf(),
        ensures
            final(self).wf(),
            final(self).open_files == old(self).open_files,
            final(self).active_file == old(self).active_file,
            final(self).main_file == old(self).main_file,
            final(self).root == old(self).root,
            final(self).name == old(self).name,
            final(self).contents() == old(self).contents(),
            old(self).contents().dom().contains(path@) ==> final(self).dirty_map() == old(
                self,
            ).dirty_map().insert(path@, false),
            !old(self).contents().dom().contains(path@) ==> final(self).dirty_map() == old(
                self,
            ).dirty_map() && final(self).dirty_order() == old(self).dirty_order(),
    {
        if self.file_contents.get(path.as_str()).is_some() {
            self.dirty.insert(path.clone(), false);
        }
    }

    /// The files with unsaved changes, each once.
    pub fn dirty_files(&self) -> (r: Vec<String>)
        requires
            self.wf(),
        ensures
            r.deep_view().no_duplicates(),
            forall|p: Seq<char>| r.deep_view().contains(p) <==> self.is_dirty_spec(p),
    {
        let es = self.dirty.entries_vec();
        let n = es.len();
        let ghost keys = self.dirty_order();
        proof {
            self.dirty.lemma_key_order();
        }
        let mut out: Vec<String> = Vec::new();
        let mut i: usize = 0;
        while i < n
            invariant
                0 <= i <= n == es@.len(),
                self.wf(),
                keys == self.dirty_order(),
                keys.no_duplicates(),
                keys.to_set() == self.dirty_map().dom(),
                es@.map_values(|e: (String, bool)| e.0@) == keys,
                forall|k: int| 0 <= k < es@.len() ==> self.dirty_map().dom().contains(#[trigger] es@[k].0@) && self.dirty_map()[es@[k].0@] == es@[k].1,
                forall|k: int| 0 <= k < out@.len() ==> self.is_dirty_spec(#[trigger] out@[k]@),
                forall|j: int| 0 <= j < i && es@[j].1 ==> out.deep_view().contains(#[trigger] keys[j]),
                forall|a: int, b: int| 0 <= a < b < out@.len() ==> (#[trigger] out@[a])@ != (#[trigger] out@[b])@,
                forall|k: int| 0 <= k < out@.len() ==> forall|j: int| i <= j < n ==> (#[trigger] out@[k])@ != #[trigger] keys[j],
            decreases n - i,
        {
            assert(keys[i as int] == es@[i as int].0@);
            if es[i].1 {
                let ghost before = out@;
                out.push(es[i].0.clone());
                proof {
                    assert forall|k: int| 0 <= k < out@.len() implies self.is_dirty_spec(#[trigger] out@[k]@) by {
                        if k < before.len() {
                            assert(out@[k] == before[k]);
                        } else {
                            assert(out@[k]@ == es@[i as int].0@);
                        }
                    }
                    assert forall|j: int| 0 <= j < i + 1 && es@[j].1 implies out.deep_view().contains(#[trigger] keys[j]) by {
                        if j < i {
                            let k = choose|k: int| 0 <= k < before.len() && before[k]@ == keys[j];
                            assert(out.deep_view()[k] == keys[j]);
                        } else {
                            assert(out.deep_view()[before.len() as int] == keys[j]);
                        }
                    }
                    assert forall|k: int| 0 <= k < out@.len() implies forall|j: int| i + 1 <= j < n ==> (#[trigger] out@[k])@ != #[trigger] keys[j] by {
                        if k < before.len() {
                            assert(out@[k] == before[k]);
                        } else {
                            assert forall|j: int| i + 1 <= j < n implies out@[k]@ != #[trigger] keys[j] by {
                                assert(keys[i as int] != keys[j]);
                            }
                        }
                    }
                }
            } else {
                proof {
                    assert forall|j: int| 0 <= j < i + 1 && es@[j].1 implies out.deep_view().contains(#[trigger] keys[j]) by {
                    }
                }
            }
            i = i + 1;
        }
        proof {
            assert forall|p: Seq<char>| out.deep_view().contains(p) <==> self.is_dirty_spec(p) by {
                if out.deep_view().contains(p) {
                    let k = choose|k: int| 0 <= k < out.deep_view().len() && out.deep_view()[k] == p;
                    assert(out@[k]@ == p);
                }
                if self.is_dirty_spec(p) {
                    assert(keys.to_set().contains(p));
                    let j = choose|j: int| 0 <= j < keys.len() && keys[j] == p;
                    assert(es@[j].0@ == keys[j]);
                }
            }
            assert forall|a: int, b: int| 0 <= a < b < out.deep_view().len() implies out.deep_view()[a] != out.deep_view()[b] by {
                assert(out@[a]@ != out@[b]@);
            }
        }
        out
    }

    /// Closes `path`.  When it was the active file, the last remaining open
    /// file (if any) becomes active.
    pub fn close_file(&mut self, path: &String)
        requires
            old(self).wf(),
        ensures
            final(self).wf(),
            final(self).open_view() == without(old(self).open_view(), path@),
            final(self).root == old(self).root,
            final(self).main_file == old(self).main_file,
            final(self).contents() == old(self).contents(),
            final(self).dirty_map() == old(self).dirty_map(),
            final(self).dirty_order() == old(self).dirty_order(),
            opt_view(old(self).active_file) == Some(path@) ==> opt_view(final(self).active_file) == (
            if final(self).open_view().len() == 0 {
                None
            } else {
                Some(final(self).open_view().last())
            }),
            opt_view(old(self).active_file) != Some(path@) ==> final(self).active_file == old(
                self,
            ).active_file,
    {
        let ghost old_open = self.open_view();
        let mut kept: Vec<String> = Vec::new();
        let n = self.open_files.len();
        let mut i: usize = 0;
        while i < n
            invariant
                0 <= i <= n == self.open_files@.len(),
                old_open == self.open_view(),
                kept.deep_view() == without(old_open.take(i as int), path@),
            decreases n - i,
        {
            assert(old_open.take(i + 1).drop_last() =~= old_open.take(i as int));
            assert(old_open[i as int] == self.open_files@[i as int]@);
            if !str_equal(self.open_files[i].as_str(), path.as_str()) {
                let ghost before = kept.deep_view();
                kept.push(self.open_files[i].clone());
                assert(kept.deep_view() =~= before.push(old_open[i as int]));
            }
            i = i + 1;
        }
        assert(old_open.take(n as int) =~= old_open);
        proof {
            lemma_without_no_duplicates(old_open, path@);
        }
        self.open_files = kept;
        let is_active = match &self.active_file {
            Some(a) => str_equal(a.as_str(), path.as_str()),
            None => false,
        };
        if is_active {
            let m = self.open_files.len();
            if m == 0 {
                self.active_file = None;
            } else {
                self.active_file = Some(self.open_files[m - 1].clone());
                assert(self.open_view().last() == self.open_files@[m - 1]@);
            }
        }
    }

    /// Replaces the contents of `path` and marks it as changed.
    pub fn update_content(&mut self, path: &String, content: String)
        requires
            old(self).wf(),
        ensures
            final(self).wf(),
            final(self).open_files == old(self).open_files,
            final(self).active_file == old(self).active_file,
            final(self).main_file == old(self).main_file,
            final(self).root == old(self).root,
            final(self).name == old(self).name,
            final(self).contents() == old(self).contents().insert(path@, content@),
            final(self).dirty_map() == old(self).dirty_map().insert(path@, true),
    {
        self.file_contents.insert(path.clone(), content);
        self.dirty.insert(path.clone(), true);
    }

    /// The contents held for `path`.
    pub fn get_content(&self, path: &String) -> (r: Option<&String>)
        requires
            self.wf(),
        ensures
            r matches Some(c) ==> self.contents().dom().contains(path@) && self.contents()[path@] == c@,
            r is None ==> !self.contents().dom().contains(path@),
    {
        self.file_contents.get(path.as_str())
    }

    /// `path` has unsaved changes.
    pub fn is_dirty(&self, path: &String) -> (r: bool)
        requires
            self.wf(),
        ensures
            r == self.is_dirty_spec(path@),
    {
        match self.dirty.get(path.as_str()) {
            Some(d) => *d,
            None => false,
        }
    }

    /// The file a compile should build.
    pub fn compile_target(&self) -> (r: Option<&String>)
        ensures
            (match r {
                Some(t) => Some(t@),
                None => None,
            }) == self.compile_target_spec(),
            r matches Some(t) ==> (self.main_file == Some(*t) || (self.main_file is None && self.active_file == Some(*t))),
    {
        if let Some(mf) = &self.main_file {
            return Some(mf);
        }
        if let Some(af) = &self.active_file {
            if has_extension(af.as_str(), "tex") {
                return Some(af);
            }
        }
        None
    }

    /// Makes `path` the main file.
    pub fn set_main_file(&mut self, path: String)
        ensures
            final(self).main_file == Some(path),
            final(self).open_files == old(self).open_files,
            final(self).active_file == old(self).active_file,
            final(self).root == old(self).root,
            final(self).contents() == old(self).contents(),
            final(self).dirty_map() == old(self).dirty_map(),
            final(self).wf() == old(self).wf(),
    {
        self.main_file = Some(path);
    }
}

/// What the first `i + 1` items hold: what the first `i` hold, and item `i`.
pub proof fn lemma_take_step(s: Seq<Seq<char>>, i: int)
    requires
        0 <= i < s.len(),
    ensures
        forall|k: Seq<char>| s.take(i + 1).contains(k) <==> (s.take(i).contains(k) || k == s[i]),
{
    let t1 = s.take(i + 1);
    let t0 = s.take(i);
    assert forall|k: Seq<char>| t1.contains(k) <==> (t0.contains(k) || k == s[i]) by {
        if t1.contains(k) {
            let j = choose|j: int| 0 <= j < t1.len() && t1[j] == k;
            if j < i {
                assert(t0[j] == k);
            }
        }
        if t0.contains(k) {
            let j = choose|j: int| 0 <= j < t0.len() && t0[j] == k;
            assert(t1[j] == k);
        }
        if k == s[i] {
            assert(t1[i] == k);
        }
    }
}

/// What remains after removing `p` was already there.
pub proof fn lemma_without_contains(s: Seq<Seq<char>>, p: Seq<char>, x: Seq<char>)
    ensures
        without(s, p).contains(x) ==> s.contains(x) && x != p,
    decreases s.len(),
{
    if s.len() > 0 {
        lemma_without_contains(s.drop_last(), p, x);
        let w = without(s.drop_last(), p);
        if without(s, p).contains(x) {
            if s.last() != p && x == s.last() {
                assert(s[s.len() - 1] == x);
            } else {
                if s.last() != p {
                    let j = choose|j: int| 0 <= j < w.push(s.last()).len() && w.push(s.last())[j] == x;
                    assert(w[j] == x);
                }
                let k = choose|k: int| 0 <= k < s.drop_last().len() && s.drop_last()[k] == x;
                assert(s[k] == x);
            }
        }
    }
}

/// Removing a path keeps a list without repetitions.
pub proof fn lemma_without_no_duplicates(s: Seq<Seq<char>>, p: Seq<char>)
    requires
        s.no_duplicates(),
    ensures
        without(s, p).no_duplicates(),
    decreases s.len(),
{
    if s.len() > 0 {
        let d = s.drop_last();
        assert(d.no_duplicates()) by {
            assert forall|a: int, b: int| 0 <= a < b < d.len() implies d[a] != d[b] by {
                assert(d[a] == s[a] && d[b] == s[b]);
            }
        }
        lemma_without_no_duplicates(d, p);
        if s.last() != p {
            let w = without(d, p);
            lemma_without_contains(d, p, s.last());
            assert(!d.contains(s.last())) by {
                if d.contains(s.last()) {
                    let k = choose|k: int| 0 <= k < d.len() && d[k] == s.last();
                    assert(s[k] == s[s.len() - 1]);
                }
            }
            assert forall|a: int, b: int| 0 <= a < b < w.push(s.last()).len() implies w.push(s.last())[a] != w.push(s.last())[b] by {
                if b == w.len() {
                    assert(w.push(s.last())[a] == w[a]);
                    assert(w.contains(w[a]));
                }
            }
        }
    }
}

/// The paths of a list of (path, contents) pairs.
pub open spec fn pair_keys(s: Seq<(String, String)>) -> Seq<Seq<char>> {
    s.map_values(|e: (String, String)| e.0@)
}

/// The unsaved-changes flags after each of `paths` that has contents got
/// the flag `v`.
pub open spec fn with_flags(
    d: Map<Seq<char>, bool>,
    paths: Seq<Seq<char>>,
    c: Map<Seq<char>, Seq<char>>,
    v: bool,
) -> Map<Seq<char>, bool> {
    Map::new(
        |k: Seq<char>| d.dom().contains(k) || (paths.contains(k) && c.dom().contains(k)),
        |k: Seq<char>| if paths.contains(k) && c.dom().contains(k) { v } else { d[k] },
    )
}

/// Flagging one more path of `paths`: the flags of the first `i + 1` paths
/// are those of the first `i`, with path `i` flagged when it has contents.
pub proof fn lemma_flag_step(
    d: Map<Seq<char>, bool>,
    paths: Seq<Seq<char>>,
    c: Map<Seq<char>, Seq<char>>,
    i: int,
    v: bool,
)
    requires
        0 <= i < paths.len(),
    ensures
        with_flags(d, paths.take(i + 1), c, v) == (if c.dom().contains(paths[i]) {
            with_flags(d, paths.take(i), c, v).insert(paths[i], v)
        } else {
            with_flags(d, paths.take(i), c, v)
        }),
{
    lemma_take_step(paths, i);
    let m1 = with_flags(d, paths.take(i + 1), c, v);
    let m0 = with_flags(d, paths.take(i), c, v);
    let m2 = if c.dom().contains(paths[i]) { m0.insert(paths[i], v) } else { m0 };
    assert forall|k: Seq<char>| m1.dom().contains(k) <==> m2.dom().contains(k) by {
        assert(paths.take(i + 1).contains(k) <==> (paths.take(i).contains(k) || k == paths[i]));
    }
    assert forall|k: Seq<char>| m1.dom().contains(k) implies m1[k] == m2[k] by {
        assert(paths.take(i + 1).contains(k) <==> (paths.take(i).contains(k) || k == paths[i]));
    }
    assert(m1 =~= m2);
}

impl Project {
    /// Flags every open file that has contents as changed, so that the next
    /// save writes it.
    pub fn mark_open_files_changed(&mut self)
        requires
            old(self).wf(),
        ensures
            final(self).wf(),
            final(self).contents() == old(self).contents(),
            final(self).dirty_map() == with_flags(old(self).dirty_map(), old(self).open_view(), old(self).contents(), true),
            final(self).open_files == old(self).open_files,
            final(self).active_file == old(self).active_file,
            final(self).main_file == old(self).main_file,
            final(self).root == old(self).root,
            final(self).name == old(self).name,
    {
        let ghost d0 = self.dirty_map();
        let ghost c0 = self.contents();
        let ghost o0 = self.open_view();
        let n = self.open_files.len();
        let mut i: usize = 0;
        assert(with_flags(d0, o0.take(0), c0, true) =~= d0);
        while i < n
            invariant
                0 <= i <= n == self.open_files@.len(),
                self.wf(),
                self.open_view() == o0,
                self.contents() == c0,
                self.dirty_map() == with_flags(d0, o0.take(i as int), c0, true),
                self.open_files == old(self).open_files,
                self.active_file == old(self).active_file,
                self.main_file == old(self).main_file,
                self.root == old(self).root,
                self.name == old(self).name,
            decreases n - i,
        {
            let path = self.open_files[i].clone();
            assert(path@ == o0[i as int]);
            let ghost before = self.dirty_map();
            match self.get_content(&path) {
                Some(c) => {
                    let c2 = c.clone();
                    self.update_content(&path, c2);
                    assert(self.contents() =~= c0);
                    proof {
                        lemma_flag_step(d0, o0, c0, i as int, true);
                    }
                },
                None => {
                    proof {
                        lemma_flag_step(d0, o0, c0, i as int, true);
                    }
                },
            }
            i = i + 1;
        }
        assert(o0.take(n as int) =~= o0);
    }

    /// Records that each of `paths` was written out.
    pub fn mark_all_saved(&mut self, paths: &Vec<String>)
        requires
            old(self).wf(),
        ensures
            final(self).wf(),
            final(self).contents() == old(self).contents(),
            final(self).dirty_map() == with_flags(old(self).dirty_map(), paths.deep_view(), old(self).contents(), false),
            final(self).open_files == old(self).open_files,
            final(self).active_file == old(self).active_file,
            final(self).main_file == old(self).main_file,
            final(self).root == old(self).root,
            final(self).name == old(self).name,
    {
        let ghost d0 = self.dirty_map();
        let ghost c0 = self.contents();
        let ghost w = paths.deep_view();
        let n = paths.len();
        let mut i: usize = 0;
        assert(with_flags(d0, w.take(0), c0, false) =~= d0);
        while i < n
            invariant
                0 <= i <= n == paths@.len(),
                w == paths.deep_view(),
                self.wf(),
                self.contents() == c0,
                self.dirty_map() == with_flags(d0, w.take(i as int), c0, false),
                self.open_files == old(self).open_files,
                self.active_file == old(self).active_file,
                self.main_file == old(self).main_file,
                self.root == old(self).root,
                self.name == old(self).name,
            decreases n - i,
        {
            let ghost before = self.dirty_map();
            assert(w[i as int] == paths[i as int]@);
            self.mark_saved(&paths[i]);
            proof {
                lemma_flag_step(d0, w, c0, i as int, false);
            }
            i = i + 1;
        }
        assert(w.take(n as int) =~= w);
    }

    /// What a save-all writes: each file with unsaved changes that has
    /// contents, once, with those contents.  Writing them is up to the
    /// caller, which reports the files written to `mark_all_saved`.
    pub fn save_all(&self) -> (r: Vec<(String, String)>)
        requires
            self.wf(),
        ensures
            pair_keys(r@).no_duplicates(),
            forall|q: Seq<char>| pair_keys(r@).contains(q)
                <==> (self.is_dirty_spec(q) && self.contents().dom().contains(q)),
            forall|i: int| 0 <= i < r@.len() ==> self.contents()[#[trigger] r@[i].0@] == r@[i].1@,
    {
        let dirty = self.dirty_files();
        let n = dirty.len();
        let mut out: Vec<(String, String)> = Vec::new();
        let mut i: usize = 0;
        while i < n
            invariant
                0 <= i <= n == dirty@.len(),
                self.wf(),
                dirty.deep_view().no_duplicates(),
                forall|p: Seq<char>| dirty.deep_view().contains(p) <==> self.is_dirty_spec(p),
                pair_keys(out@).no_duplicates(),
                forall|q: Seq<char>| pair_keys(out@).contains(q)
                    <==> (dirty.deep_view().take(i as int).contains(q) && self.contents().dom().contains(q)),
                forall|k: int| 0 <= k < out@.len() ==> self.contents()[#[trigger] out@[k].0@] == out@[k].1@,
            decreases n - i,
        {
            let d = &dirty[i];
            let ghost keys = pair_keys(out@);
            let ghost dv = dirty.deep_view();
            assert(dv[i as int] == d@);
            proof {
                lemma_take_step(dv, i as int);
                let t = dv.take(i as int);
                if t.contains(d@) {
                    let j = choose|j: int| 0 <= j < t.len() && t[j] == d@;
                    assert(dv[j] == dv[i as int]);
                }
            }
            match self.get_content(d) {
                Some(c) => {
                    let ghost before = out@;
                    out.push((d.clone(), c.clone()));
                    assert(pair_keys(out@) =~= keys.push(d@));
                    assert forall|q: Seq<char>| keys.push(d@).contains(q) <==> (keys.contains(q) || q == d@) by {
                        if keys.push(d@).contains(q) {
                            let j = choose|j: int| 0 <= j < keys.len() + 1 && keys.push(d@)[j] == q;
                            if j < keys.len() {
                                assert(keys[j] == q);
                            }
                        }
                        if keys.contains(q) {
                            let j = choose|j: int| 0 <= j < keys.len() && keys[j] == q;
                            assert(keys.push(d@)[j] == q);
                        }
                        if q == d@ {
                            assert(keys.push(d@)[keys.len() as int] == q);
                        }
                    }
                    assert(keys.push(d@).no_duplicates()) by {
                        assert(!keys.contains(d@));
                        assert forall|a: int, b: int| 0 <= a < b < keys.len() + 1 implies keys.push(d@)[a] != keys.push(d@)[b] by {
                            if b == keys.len() {
                                assert(keys.push(d@)[a] == keys[a]);
                            }
                        }
                    }
                    assert forall|k: int| 0 <= k < out@.len() implies self.contents()[#[trigger] out@[k].0@] == out@[k].1@ by {
                        if k < before.len() {
                            assert(out@[k] == before[k]);
                        }
                    }
                    assert forall|q: Seq<char>| pair_keys(out@).contains(q)
                        <==> (dv.take(i + 1).contains(q) && self.contents().dom().contains(q)) by {
                        assert(dv.take(i + 1).contains(q) <==> (dv.take(i as int).contains(q) || q == dv[i as int]));
                        assert(keys.push(d@).contains(q) <==> (keys.contains(q) || q == d@));
                    }
                },
                None => {
                    assert forall|q: Seq<char>| pair_keys(out@).contains(q)
                        <==> (dv.take(i + 1).contains(q) && self.contents().dom().contains(q)) by {
                        assert(dv.take(i + 1).contains(q) <==> (dv.take(i as int).contains(q) || q == dv[i as int]));
                    }
                },
            }
            i = i + 1;
        }
        assert(dirty.deep_view().take(n as int) =~= dirty.deep_view());
        assert forall|q: Seq<char>| pair_keys(out@).contains(q)
            <==> (self.is_dirty_spec(q) && self.contents().dom().contains(q)) by {
            assert(dirty.deep_view().contains(q) <==> self.is_dirty_spec(q));
        }
        out
    }
}

/// The file name a new document gets: the name as typed when it ends in
/// `.tex`, otherwise with `.tex` added.
pub open spec fn tex_file_name_spec(name: Seq<char>) -> Seq<char> {
    if ends_with_spec(name, ".tex"@) {
        name
    } else {
        name + ".tex"@
    }
}

/// The first line of a new document named `fname`.
pub open spec fn new_file_text_spec(fname: Seq<char>) -> Seq<char> {
    "% "@ + fname + "\n"@
}

fn ends_with_str(s: &str, suffix: &str) -> (r: bool)
    ensures
        r == ends_with_spec(s@, suffix@),
{
    let a = chars_of(s);
    let b = chars_of(suffix);
    if b.len() > a.len() {
        return false;
    }
    let off = a.len() - b.len();
    let mut k: usize = 0;
    while k < b.len()
        invariant
            off + b@.len() == a@.len(),
            off + b.len() == a.len(),
            a@ == s@,
            b@ == suffix@,
            0 <= k <= b@.len(),
            forall|j: int| 0 <= j < k ==> a@[off + j] == b@[j],
        decreases b@.len() - k,
    {
        if a[off + k] != b[k] {
            assert(a@.skip(off as int)[k as int] != b@[k as int]);
            return false;
        }
        k = k + 1;
    }
    assert(a@.skip(off as int) =~= b@);
    true
}

impl Project {
    /// The file name for a new document called `name`.
    pub fn tex_file_name(name: &str) -> (r: String)
        ensures
            r@ == tex_file_name_spec(name@),
    {
        if ends_with_str(name, ".tex") {
            name.to_owned()
        } else {
            name.to_owned().concat(".tex")
        }
    }

    /// The text a new document starts with: a comment naming it.
    pub fn new_file_text(fname: &str) -> (r: String)
        ensures
            r@ == new_file_text_spec(fname@),
    {
        "% ".to_owned().concat(fname).concat("\n")
    }
}

// ------------------------------------------------------------------
// Main file detection
// ------------------------------------------------------------------

/// The file names that count as a main file, in order of preference.
pub open spec fn preferred_main_names() -> Seq<Seq<char>> {
    seq!["main.tex"@, "paper.tex"@, "thesis.tex"@, "document.tex"@, "article.tex"@]
}

/// Lexicographic order of character sequences (that of `Path` and `str`
/// for names in one directory).
pub open spec fn seq_less(a: Seq<char>, b: Seq<char>) -> bool
    decreases a.len(),
{
    if b.len() == 0 {
        false
    } else if a.len() == 0 {
        true
    } else if a[0] != b[0] {
        a[0] < b[0]
    } else {
        seq_less(a.drop_first(), b.drop_first())
    }
}

pub fn seq_less_exec(a: &str, b: &str) -> (r: bool)
    ensures
        r == seq_less(a@, b@),
{
    let ca = chars_of(a);
    let cb = chars_of(b);
    let mut i: usize = 0;
    assert(a@.skip(0) =~= a@);
    assert(b@.skip(0) =~= b@);
    while i < ca.len() && i < cb.len() && ca[i] == cb[i]
        invariant
            ca@ == a@,
            cb@ == b@,
            0 <= i <= ca@.len(),
            i <= cb@.len(),
            seq_less(a@, b@) == seq_less(a@.skip(i as int), b@.skip(i as int)),
        decreases ca@.len() - i,
    {
        assert(a@.skip(i as int).drop_first() =~= a@.skip(i + 1));
        assert(b@.skip(i as int).drop_first() =~= b@.skip(i + 1));
        i = i + 1;
    }
    if i >= cb.len() {
        assert(b@.skip(i as int).len() == 0);
        false
    } else if i >= ca.len() {
        assert(a@.skip(i as int).len() == 0);
        true
    } else {
        assert(a@.skip(i as int)[0] == ca@[i as int]);
        assert(b@.skip(i as int)[0] == cb@[i as int]);
        ca[i] < cb[i]
    }
}

/// A `.tex` file of the project's root directory and what reading it gave.
#[derive(Debug, Clone)]
pub struct TexCandidate {
    pub path: String,
    pub content: Option<String>,
}

pub open spec fn declares_class(c: TexCandidate) -> bool {
    match c.content {
        Some(t) => contains_spec(t@, "\\documentclass"@),
        None => false,
    }
}

/// The main file: the first preferred name that exists, otherwise the
/// least (by name) `.tex` file that declares a document class.
pub open spec fn find_main_spec(preferred: Seq<(String, bool)>, tex: Seq<TexCandidate>) -> Option<Seq<char>> {
    if exists|i: int| 0 <= i < preferred.len() && preferred[i].1 {
        let i = choose|i: int| 0 <= i < preferred.len() && preferred[i].1 && forall|j: int| 0 <= j < i ==> !preferred[j].1;
        Some(preferred[i].0@)
    } else if exists|i: int| 0 <= i < tex.len() && declares_class(tex[i]) {
        let i = choose|i: int| 0 <= i < tex.len() && declares_class(tex[i]) && forall|j: int| 0 <= j < tex.len() && declares_class(tex[j]) ==> !seq_less(tex[j].path@, tex[i].path@);
        Some(tex[i].path@)
    } else {
        None
    }
}

/// The paths whose extension is `tex`, in order.
pub open spec fn tex_paths(s: Seq<Seq<char>>) -> Seq<Seq<char>> {
    s.filter(|p: Seq<char>| path_extension_spec(p) == Some("tex"@))
}

impl Project {
    /// The preferred main-file names, in order.
    pub fn main_file_names() -> (r: Vec<&'static str>)
        ensures
            r@.map_values(|s: &str| s@) == preferred_main_names(),
    {
        let v = vec!["main.tex", "paper.tex", "thesis.tex", "document.tex", "article.tex"];
        assert(v@.map_values(|s: &str| s@) =~= preferred_main_names());
        v
    }

    /// The `.tex` files among the entries of the root directory, in order.
    pub fn tex_files(paths: &Vec<String>) -> (r: Vec<String>)
        ensures
            r.deep_view() == tex_paths(paths.deep_view()),
    {
        let mut out: Vec<String> = Vec::new();
        let n = paths.len();
        let ghost pv = paths.deep_view();
        let mut i: usize = 0;
        proof {
            reveal(Seq::filter);
            assert(pv.take(0) =~= Seq::<Seq<char>>::empty());
        }
        while i < n
            invariant
                0 <= i <= n == paths@.len(),
                pv == paths.deep_view(),
                out.deep_view() == tex_paths(pv.take(i as int)),
            decreases n - i,
        {
            proof {
                reveal(Seq::filter);
                assert(pv.take(i + 1).drop_last() =~= pv.take(i as int));
                assert(pv.take(i + 1).last() == paths@[i as int]@);
            }
            if has_extension(paths[i].as_str(), "tex") {
                let ghost before = out.deep_view();
                out.push(paths[i].clone());
                assert(out.deep_view() =~= before.push(paths@[i as int]@));
            }
            i = i + 1;
        }
        assert(pv.take(n as int) =~= pv);
        out
    }

    /// Picks the main file: `preferred` holds, for each preferred name in
    /// order, its path under the root and whether it exists; `tex` holds the
    /// root's `.tex` files and their contents.
    pub fn find_main(preferred: &Vec<(String, bool)>, tex: &Vec<TexCandidate>) -> (r: Option<String>)
        ensures
            opt_view(r) == find_main_spec(preferred@, tex@),
    {
        let n = preferred.len();
        let mut i: usize = 0;
        while i < n
            invariant
                0 <= i <= n == preferred@.len(),
                forall|j: int| 0 <= j < i ==> !preferred@[j].1,
            decreases n - i,
        {
            if preferred[i].1 {
                proof {
                    let spec_i = choose|k: int| 0 <= k < preferred@.len() && preferred@[k].1 && forall|j: int| 0 <= j < k ==> !preferred@[j].1;
                    assert(preferred@[i as int].1 && forall|j: int| 0 <= j < i ==> !preferred@[j].1);
                    if spec_i < i {
                    } else if spec_i > i {
                        assert(!preferred@[i as int].1);
                    }
                }
                return Some(preferred[i].0.clone());
            }
            i = i + 1;
        }
        let marker = chars_of("\\documentclass");
        let m = tex.len();
        let mut best: Option<usize> = None;
        let mut k: usize = 0;
        while k < m
            invariant
                0 <= k <= m == tex@.len(),
                marker@ == "\\documentclass"@,
                best matches Some(b) ==> b < k && declares_class(tex@[b as int]) && forall|j: int| 0 <= j < k && declares_class(tex@[j]) ==> !seq_less(tex@[j].path@, tex@[b as int].path@),
                best is None ==> forall|j: int| 0 <= j < k ==> !declares_class(tex@[j]),
            decreases m - k,
        {
            let has = match &tex[k].content {
                Some(t) => {
                    let tc = chars_of(t.as_str());
                    contains_chars(&tc, &marker)
                },
                None => false,
            };
            assert(has == declares_class(tex@[k as int]));
            if has {
                match best {
                    Some(b) => {
                        if seq_less_exec(tex[k].path.as_str(), tex[b].path.as_str()) {
                            proof { lemma_seq_less_trans_total(tex@, b as int, k as int); }
                            best = Some(k);
                        }
                    },
                    None => {
                        proof { lemma_seq_less_total(tex@[k as int].path@, tex@[k as int].path@); }
                        best = Some(k);
                    },
                }
            }
            k = k + 1;
        }
        match best {
            Some(b) => {
                proof {
                    assert(!(exists|j: int| 0 <= j < preferred@.len() && preferred@[j].1));
                    let spec_i = choose|i: int| 0 <= i < tex@.len() && declares_class(tex@[i]) && forall|j: int| 0 <= j < tex@.len() && declares_class(tex@[j]) ==> !seq_less(tex@[j].path@, tex@[i].path@);
                    assert(declares_class(tex@[b as int]));
                    lemma_seq_less_antisym(tex@[spec_i].path@, tex@[b as int].path@);
                }
                Some(tex[b].path.clone())
            },
            None => None,
        }
    }
}

proof fn lemma_seq_less_total(a: Seq<char>, b: Seq<char>)
    ensures
        a != b ==> seq_less(a, b) || seq_less(b, a),
        !(seq_less(a, b) && seq_less(b, a)),
    decreases a.len(),
{
    if a.len() > 0 && b.len() > 0 && a[0] == b[0] {
        lemma_seq_less_total(a.drop_first(), b.drop_first());
        if a != b {
            assert(a.drop_first() != b.drop_first()) by {
                if a.drop_first() == b.drop_first() {
                    assert(a =~= seq![a[0]] + a.drop_first());
                    assert(b =~= seq![b[0]] + b.drop_first());
                }
            }
        }
    } else if a.len() == 0 && b.len() == 0 {
        assert(a =~= b);
    }
}

proof fn lemma_seq_less_trans(a: Seq<char>, b: Seq<char>, c: Seq<char>)
    requires
        seq_less(a, b),
        seq_less(b, c),
    ensures
        seq_less(a, c),
    decreases a.len(),
{
    if a.len() > 0 && b.len() > 0 && c.len() > 0 && a[0] == b[0] && b[0] == c[0] {
        lemma_seq_less_trans(a.drop_first(), b.drop_first(), c.drop_first());
    }
}

proof fn lemma_seq_less_antisym(a: Seq<char>, b: Seq<char>)
    requires
        !seq_less(a, b),
        !seq_less(b, a),
    ensures
        a == b,
{
    lemma_seq_less_total(a, b);
}

proof fn lemma_seq_less_trans_total(tex: Seq<TexCandidate>, b: int, k: int)
    requires
        0 <= b < k < tex.len(),
        seq_less(tex[k].path@, tex[b].path@),
        forall|j: int| 0 <= j < k && declares_class(tex[j]) ==> !seq_less(tex[j].path@, tex[b].path@),
    ensures
        forall|j: int| 0 <= j < k + 1 && declares_class(tex[j]) ==> !seq_less(tex[j].path@, tex[k].path@),
{
    assert forall|j: int| 0 <= j < k + 1 && declares_class(tex[j]) implies !seq_less(tex[j].path@, tex[k].path@) by {
        lemma_seq_less_total(tex[k].path@, tex[k].path@);
        if j < k && seq_less(tex[j].path@, tex[k].path@) {
            lemma_seq_less_trans(tex[j].path@, tex[k].path@, tex[b].path@);
        }
    }
}

// ------------------------------------------------------------------
// Settings
// ------------------------------------------------------------------

/// The root with a final `/`, as the start of the paths below it.
pub open spec fn root_prefix(root: Seq<char>) -> Seq<char> {
    if root.len() > 0 && root.last() == '/' {
        root
    } else {
        root.push('/')
    }
}

/// How the settings remember a main file: its path relative to the project
/// root when it lies below the root, otherwise its file name.
pub open spec fn stored_main_spec(root: Seq<char>, m: Seq<char>) -> Option<Seq<char>> {
    let pre = root_prefix(root);
    if pre.len() < m.len() && occurs_at(m, pre, 0) {
        Some(m.skip(pre.len() as int))
    } else {
        path_file_name_of(m)
    }
}

/// The main file `m` as the settings of the project at `root` remember it.
pub fn stored_main(root: &str, m: &str) -> (r: Option<String>)
    ensures
        opt_view(r) == stored_main_spec(root@, m@),
{
    let rc = chars_of(root);
    let mc = chars_of(m);
    let mut pre: Vec<char> = Vec::new();
    let n = rc.len();
    let mut i: usize = 0;
    while i < n
        invariant
            0 <= i <= n == rc@.len(),
            pre@ == rc@.take(i as int),
        decreases n - i,
    {
        pre.push(rc[i]);
        assert(rc@.take(i + 1) =~= rc@.take(i as int).push(rc@[i as int]));
        i = i + 1;
    }
    assert(rc@.take(n as int) =~= rc@);
    if !(n > 0 && rc[n - 1] == '/') {
        pre.push('/');
    }
    assert(pre@ == root_prefix(root@));
    if pre.len() < mc.len() && occurs_at_exec(&mc, &pre, 0) {
        let s = string_of_range(&mc, pre.len(), mc.len());
        assert(mc@.subrange(pre@.len() as int, mc@.len() as int) =~= m@.skip(pre@.len() as int));
        Some(s)
    } else {
        path_file_name(m)
    }
}

/// Where the main file remembered as `stored` lies for the project at
/// `root`, as `Path::join` puts it: an absolute `stored` replaces the root,
/// an empty root leaves `stored` as it is, and otherwise a `/` separates the
/// two unless the root already ends in one.
pub open spec fn settings_main_spec(root: Seq<char>, stored: Seq<char>) -> Seq<char> {
    if stored.len() > 0 && stored[0] == '/' {
        stored
    } else if root.len() == 0 {
        stored
    } else {
        root_prefix(root) + stored
    }
}

/// The path of the main file that the settings of the project at `root`
/// remember as `stored`.
pub fn settings_main_path(root: &str, stored: &str) -> (r: String)
    ensures
        r@ == settings_main_spec(root@, stored@),
{
    let rc = chars_of(root);
    let sc = chars_of(stored);
    let n = rc.len();
    if sc.len() > 0 && sc[0] == '/' {
        return stored.to_owned();
    }
    if n == 0 {
        return stored.to_owned();
    }
    let base = root.to_owned();
    if rc[n - 1] == '/' {
        base.concat(stored)
    } else {
        proof {
            reveal_strlit("/");
        }
        let with_slash = base.concat("/");
        assert(with_slash@ =~= root@.push('/'));
        with_slash.concat(stored)
    }
}

/// A main file below the project root is remembered exactly: storing it in
/// the settings and reading it back gives the same path.  (A path with a
/// doubled `/` right below the root, such as `/r//a.tex` for the root `/r`,
/// comes back as `/a.tex`, since the stored part is then absolute.)
pub proof fn law_main_file_remembered(root: Seq<char>, m: Seq<char>)
    requires
        root.len() > 0,
        root_prefix(root).len() < m.len(),
        occurs_at(m, root_prefix(root), 0),
        m[root_prefix(root).len() as int] != '/',
    ensures
        stored_main_spec(root, m) matches Some(s) && settings_main_spec(root, s) == m,
{
    let pre = root_prefix(root);
    assert(m.subrange(0, pre.len() as int) == pre);
    assert(pre + m.skip(pre.len() as int) =~= m);
}

/// Per-project settings, kept in `.ferroleaf.json` at the project root.
#[derive(Debug, Clone)]
pub struct ProjectSettings {
    pub main_file: Option<String>,
    pub compiler: String,
    pub bibtex: bool,
    pub shell_escape: bool,
    pub extra_args: Vec<String>,
}

impl Default for ProjectSettings {
    fn default() -> (r: Self)
        ensures
            r.main_file is None,
            r.compiler@ == Seq::<char>::empty(),
            !r.bibtex,
            !r.shell_escape,
            r.extra_args@.len() == 0,
    {
        ProjectSettings {
            main_file: None,
            compiler: String::new(),
            bibtex: false,
            shell_escape: false,
            extra_args: Vec::new(),
        }
    }
}

/// The compiler named by settings that do not name one.
pub fn default_compiler() -> (r: String)
    ensures
        r@ == "pdflatex"@,
{
    "pdflatex".to_owned()
}

impl ProjectSettings {
    /// The settings a project starts with: `file_read` says whether the
    /// settings file could be read, `parsed` what parsing it gave.  Without a
    /// file the compiler is pdfLaTeX; an unreadable file gives the defaults.
    pub fn resolve(file_read: bool, parsed: Option<ProjectSettings>) -> (r: Self)
        ensures
            file_read && parsed is Some ==> r == parsed->0,
            file_read && parsed is None ==> r.main_file is None && r.compiler@ == Seq::<char>::empty() && !r.bibtex && !r.shell_escape && r.extra_args@.len() == 0,
            !file_read ==> r.main_file is None && r.compiler@ == "pdflatex"@ && !r.bibtex && !r.shell_escape && r.extra_args@.len() == 0,
    {
        if file_read {
            match parsed {
                Some(s) => s,
                None => ProjectSettings::default(),
            }
        } else {
            ProjectSettings {
                main_file: None,
                compiler: default_compiler(),
                bibtex: false,
                shell_escape: false,
                extra_args: Vec::new(),
            }
        }
    }

    /// The settings to store for a project rooted at `root` whose main file
    /// is `main_file` and whose compile options are `opts`.  The main file is
    /// kept relative to the root (see `stored_main_spec`).
    pub fn capture(root: &str, main_file: &Option<String>, opts: &CompileOptions) -> (r: Self)
        ensures
            opt_view(r.main_file) == (match main_file {
                Some(m) => stored_main_spec(root@, m@),
                None => None,
            }),
            r.compiler@ == binary_spec(opts.compiler),
            r.bibtex == opts.bibtex,
            r.shell_escape == opts.shell_escape,
            r.extra_args.deep_view() == opts.extra_args.deep_view(),
    {
        let mf = match main_file {
            Some(m) => stored_main(root, m.as_str()),
            None => None,
        };
        ProjectSettings {
            main_file: mf,
            compiler: opts.compiler.binary().to_owned(),
            bibtex: opts.bibtex,
            shell_escape: opts.shell_escape,
            extra_args: clone_strings(&opts.extra_args),
        }
    }
}

/// A copy of a list of strings.
pub fn clone_strings(v: &Vec<String>) -> (r: Vec<String>)
    ensures
        r.deep_view() == v.deep_view(),
{
    let mut out: Vec<String> = Vec::new();
    let n = v.len();
    let mut i: usize = 0;
    while i < n
        invariant
            0 <= i <= n == v@.len(),
            out.deep_view() == v.deep_view().take(i as int),
        decreases n - i,
    {
        let ghost before = out.deep_view();
        out.push(v[i].clone());
        assert(out.deep_view() =~= before.push(v[i as int]@));
        assert(v.deep_view().take(i + 1) =~= v.deep_view().take(i as int).push(v[i as int]@));
        i = i + 1;
    }
    assert(v.deep_view().take(n as int) =~= v.deep_view());
    out
}

impl CompileOptions {
    /// Takes over the compiler, BibTeX and shell-escape choices of `s`.
    pub fn apply_settings(&mut self, s: &ProjectSettings)
        ensures
            final(self).compiler == from_str_spec(s.compiler@),
            final(self).bibtex == s.bibtex,
            final(self).shell_escape == s.shell_escape,
            final(self).synctex == old(self).synctex,
            final(self).passes == old(self).passes,
            final(self).extra_args == old(self).extra_args,
    {
        self.compiler = CompilerKind::from_str(s.compiler.as_str());
        self.bibtex = s.bibtex;
        self.shell_escape = s.shell_escape;
    }
}

// ------------------------------------------------------------------
// Laws
// ------------------------------------------------------------------

/// Reading a file after editing it gives back the edited text, and the file
/// then has unsaved changes (the effect of `update_content`, read through
/// `get_content` and `is_dirty`).
pub proof fn law_read_after_edit(p: Project, q: Project, path: Seq<char>, content: Seq<char>)
    requires
        q.contents() == p.contents().insert(path, content),
        q.dirty_map() == p.dirty_map().insert(path, true),
    ensures
        q.contents().dom().contains(path),
        q.contents()[path] == content,
        q.is_dirty_spec(path),
        forall|k: Seq<char>| k != path ==> (#[trigger] q.contents().dom().contains(k)) == p.contents().dom().contains(k),
        forall|k: Seq<char>| k != path && p.contents().dom().contains(k) ==> #[trigger] q.contents()[k] == p.contents()[k],
{
}

/// A file recorded as written (`mark_saved`) has no unsaved changes.
pub proof fn law_saved_is_clean(p: Project, q: Project, path: Seq<char>)
    requires
        p.contents().dom().contains(path),
        q.dirty_map() == p.dirty_map().insert(path, false),
    ensures
        !q.is_dirty_spec(path),
{
}

/// After a save-all whose writes all succeeded, no file with contents has
/// unsaved changes: `mark_all_saved` with the paths `save_all` gave clears
/// every flag that mattered.
pub proof fn law_save_all_cleans(d: Map<Seq<char>, bool>, written: Seq<Seq<char>>, c: Map<Seq<char>, Seq<char>>)
    requires
        forall|k: Seq<char>| d.dom().contains(k) && d[k] && c.dom().contains(k) ==> #[trigger] written.contains(k),
    ensures
        forall|k: Seq<char>| #[trigger] c.dom().contains(k) ==> !(with_flags(d, written, c, false).dom().contains(k)
            && with_flags(d, written, c, false)[k]),
{
}

/// Closing a file just opened gives back the tab list from before.
pub proof fn law_open_then_close(tabs: Seq<Seq<char>>, path: Seq<char>)
    requires
        !tabs.contains(path),
    ensures
        without(tabs.push(path), path) == tabs,
{
    assert(tabs.push(path).drop_last() =~= tabs);
    lemma_without_absent(tabs, path);
}

/// Removing a path that is not there changes nothing.
pub proof fn lemma_without_absent(s: Seq<Seq<char>>, p: Seq<char>)
    requires
        !s.contains(p),
    ensures
        without(s, p) == s,
    decreases s.len(),
{
    if s.len() > 0 {
        assert(!s.drop_last().contains(p)) by {
            if s.drop_last().contains(p) {
                let j = choose|j: int| 0 <= j < s.drop_last().len() && s.drop_last()[j] == p;
                assert(s[j] == p);
            }
        }
        assert(s.last() != p) by {
            assert(s[s.len() - 1] == s.last());
        }
        lemma_without_absent(s.drop_last(), p);
        assert(s.drop_last().push(s.last()) =~= s);
    }
}

/// A set main file is what gets compiled, whichever tab is active.
pub proof fn law_main_file_is_target(p: Project, active: Option<String>)
    requires
        p.main_file is Some,
    ensures
        (Project { active_file: active, ..p }).compile_target_spec() == Some(p.main_file->0@),
{
}

/// A new document's file name always ends in `.tex`.
pub proof fn law_new_file_is_tex(name: Seq<char>)
    ensures
        ends_with_spec(tex_file_name_spec(name), ".tex"@),
{
    reveal_strlit(".tex");
    if !ends_with_spec(name, ".tex"@) {
        let t = name + ".tex"@;
        assert(t.skip(t.len() - ".tex"@.len()) =~= ".tex"@);
    }
}

/// What happens to one file of a project, as the methods do it: `Read` is a
/// successful `open_file` with the contents read, `Edit` is
/// `update_content`, `Written` is `mark_saved` (one per file of
/// `mark_all_saved`), `Close` is `close_file`.
pub enum FileEvent {
    Read(Seq<char>, Seq<char>),
    Edit(Seq<char>, Seq<char>),
    Written(Seq<char>),
    Close(Seq<char>),
}

/// The open paths, contents and unsaved-changes flags of a project.
pub struct ProjectModel {
    pub open: Seq<Seq<char>>,
    pub contents: Map<Seq<char>, Seq<char>>,
    pub dirty: Map<Seq<char>, bool>,
}

/// The model after one event, as the method's contract gives it.
pub open spec fn model_step(m: ProjectModel, e: FileEvent) -> ProjectModel {
    match e {
        FileEvent::Read(q, c) => if m.open.contains(q) {
            m
        } else {
            ProjectModel { open: m.open.push(q), contents: m.contents.insert(q, c), dirty: m.dirty.insert(q, false) }
        },
        FileEvent::Edit(q, t) => ProjectModel {
            contents: m.contents.insert(q, t),
            dirty: m.dirty.insert(q, true),
            ..m
        },
        FileEvent::Written(q) => if m.contents.dom().contains(q) {
            ProjectModel { dirty: m.dirty.insert(q, false), ..m }
        } else {
            m
        },
        FileEvent::Close(q) => ProjectModel { open: without(m.open, q), ..m },
    }
}

/// The model of a new project after the events, in order.
pub open spec fn replay(evs: Seq<FileEvent>) -> ProjectModel
    decreases evs.len(),
{
    if evs.len() == 0 {
        ProjectModel { open: seq![], contents: Map::empty(), dirty: Map::empty() }
    } else {
        model_step(replay(evs.drop_last()), evs.last())
    }
}

/// `q` was edited after the last time it was read in while not open, or
/// written out.
pub open spec fn edited_since_saved(evs: Seq<FileEvent>, q: Seq<char>) -> bool
    decreases evs.len(),
{
    if evs.len() == 0 {
        false
    } else {
        let prev = evs.drop_last();
        match evs.last() {
            FileEvent::Edit(x, _) => if x == q { true } else { edited_since_saved(prev, q) },
            FileEvent::Written(x) => if x == q { false } else { edited_since_saved(prev, q) },
            FileEvent::Read(x, _) => if x == q && !replay(prev).open.contains(q) {
                false
            } else {
                edited_since_saved(prev, q)
            },
            FileEvent::Close(_) => edited_since_saved(prev, q),
        }
    }
}

proof fn lemma_dirty_history(evs: Seq<FileEvent>, q: Seq<char>)
    ensures
        (replay(evs).dirty.dom().contains(q) && replay(evs).dirty[q]) == edited_since_saved(evs, q),
        !replay(evs).contents.dom().contains(q) ==> !replay(evs).dirty.dom().contains(q),
    decreases evs.len(),
{
    if evs.len() > 0 {
        lemma_dirty_history(evs.drop_last(), q);
    }
}

/// A file has unsaved changes exactly when it was edited after the last
/// time it was read in (opened while not open) or written out; a file never
/// touched has none.
pub proof fn law_dirty_history(evs: Seq<FileEvent>, q: Seq<char>)
    ensures
        (replay(evs).dirty.dom().contains(q) && replay(evs).dirty[q]) == edited_since_saved(evs, q),
{
    lemma_dirty_history(evs, q);
}

} // verus!
