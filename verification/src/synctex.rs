//! Reading SyncTeX data: the answer of `synctex edit`, and the records of a
//! `.synctex` file that lie on one page.
//!
//! Choosing the record nearest to a click is done by the caller, which works
//! in floating point.

use vstd::prelude::*;
use crate::bridge::{regex_captures, regex_captures_of, gunzip_text, gunzip_text_of};
use crate::log::{group, opt_view};
use crate::text::{lines_spec, parse_u32, parse_u32_spec, split_lines, trim_spec, trim_str};

verus! {

/// A position in a LaTeX source file.
#[derive(Debug, Clone)]
pub struct SourceLocation {
    pub file: String,
    pub line: u32,
    pub column: u32,
}

pub struct SourceLocationView {
    pub file: Seq<char>,
    pub line: u32,
    pub column: u32,
}

impl DeepView for SourceLocation {
    type V = SourceLocationView;

    open spec fn deep_view(&self) -> SourceLocationView {
        SourceLocationView { file: self.file@, line: self.line, column: self.column }
    }
}

pub open spec fn opt_loc_view(o: Option<SourceLocation>) -> Option<SourceLocationView> {
    match o {
        Some(l) => Some(l.deep_view()),
        None => None,
    }
}

/// `Input:<path>` in the answer of `synctex edit`.
pub const EDIT_INPUT_PATTERN: &'static str = r"^Input:(.+)$";

/// `Line:<n>` in the answer of `synctex edit`.
pub const EDIT_LINE_PATTERN: &'static str = r"^Line:(\d+)$";

/// `Column:<n>` in the answer of `synctex edit`.
pub const EDIT_COLUMN_PATTERN: &'static str = r"^Column:(\d+)$";

/// What has been read of a `synctex edit` answer so far.
pub struct EditState {
    pub file: Option<Seq<char>>,
    pub line: Option<u32>,
    pub column: Option<u32>,
}

pub open spec fn parse_opt(g: Option<Seq<char>>) -> Option<u32> {
    match g {
        Some(t) => parse_u32_spec(t),
        None => None,
    }
}

/// One answer line updates the state: the last `Input`, `Line` and
/// `Column` lines win; a `Line` or `Column` value that does not parse
/// clears that field.
pub open spec fn edit_step(st: EditState, l: Seq<char>) -> EditState {
    let f = group(regex_captures_of(EDIT_INPUT_PATTERN@, l), 1);
    let ln = regex_captures_of(EDIT_LINE_PATTERN@, l);
    let cl = regex_captures_of(EDIT_COLUMN_PATTERN@, l);
    EditState {
        file: match f {
            Some(t) => Some(trim_spec(t)),
            None => st.file,
        },
        line: if ln is Some {
            parse_opt(group(ln, 1))
        } else {
            st.line
        },
        column: if cl is Some {
            parse_opt(group(cl, 1))
        } else {
            st.column
        },
    }
}

pub open spec fn edit_state_upto(ls: Seq<Seq<char>>, k: int) -> EditState
    decreases k,
{
    if k <= 0 {
        EditState { file: None, line: None, column: None }
    } else {
        edit_step(edit_state_upto(ls, k - 1), ls[k - 1])
    }
}

/// The location in a `synctex edit` answer: none without an `Input` line;
/// the line defaults to 1 and the column to 0.
pub open spec fn edit_output_spec(s: Seq<char>) -> Option<SourceLocationView> {
    let ls = lines_spec(s);
    let st = edit_state_upto(ls, ls.len() as int);
    match st.file {
        Some(f) => Some(
            SourceLocationView {
                file: f,
                line: match st.line {
                    Some(n) => n,
                    None => 1,
                },
                column: match st.column {
                    Some(n) => n,
                    None => 0,
                },
            },
        ),
        None => None,
    }
}

fn group_string(c: &Option<Vec<Option<String>>>, k: usize) -> (r: Option<String>)
    ensures
        opt_view(r) == group(crate::bridge::captures_view(*c), k as int),
{
    match c {
        Some(v) => {
            if k < v.len() {
                match &v[k] {
                    Some(s) => Some(s.clone()),
                    None => None,
                }
            } else {
                None
            }
        },
        None => None,
    }
}

fn parse_group(g: &Option<String>) -> (r: Option<u32>)
    ensures
        r == parse_opt(opt_view(*g)),
{
    match g {
        Some(t) => parse_u32(t.as_str()),
        None => None,
    }
}

/// Reads the source location out of what `synctex edit` printed.
pub fn parse_edit_output(s: &str) -> (r: Option<SourceLocation>)
    ensures
        opt_loc_view(r) == edit_output_spec(s@),
{
    let lines = split_lines(s);
    let n = lines.len();
    let mut file: Option<String> = None;
    let mut line: Option<u32> = None;
    let mut col: Option<u32> = None;
    let ghost ls = lines.deep_view();
    let mut i: usize = 0;
    while i < n
        invariant
            0 <= i <= n == lines@.len(),
            ls == lines.deep_view(),
            ls == lines_spec(s@),
            edit_state_upto(ls, i as int) == (EditState { file: opt_view(file), line, column: col }),
        decreases n - i,
    {
        let l = lines[i].as_str();
        assert(ls[i as int] == l@);
        let f = regex_captures(EDIT_INPUT_PATTERN, l);
        let ln = regex_captures(EDIT_LINE_PATTERN, l);
        let cl = regex_captures(EDIT_COLUMN_PATTERN, l);
        match group_string(&f, 1) {
            Some(t) => {
                file = Some(trim_str(t.as_str()));
            },
            None => {},
        }
        if ln.is_some() {
            line = parse_group(&group_string(&ln, 1));
        }
        if cl.is_some() {
            col = parse_group(&group_string(&cl, 1));
        }
        i = i + 1;
    }
    match file {
        Some(f) => Some(
            SourceLocation {
                file: f,
                line: match line {
                    Some(n) => n,
                    None => 1,
                },
                column: match col {
                    Some(n) => n,
                    None => 0,
                },
            },
        ),
        None => None,
    }
}

// ------------------------------------------------------------------
// .synctex records
// ------------------------------------------------------------------

/// `Input:<id>:<path>` declares an input file.
pub const RECORD_INPUT_PATTERN: &'static str = r"^Input:(\d+):(.+)$";

/// A box record `<kind>:<input>,<line>:<x>,<y>`.
pub const RECORD_BOX_PATTERN: &'static str = r"^[hHvV]:(\d+),(\d+):(\d+),(\d+)";

/// `{<n>` starts page `n`.
pub const RECORD_PAGE_PATTERN: &'static str = r"^\{(\d+)";

/// A box record on the wanted page; `x` and `y` are the coordinates as
/// written (scaled points).
#[derive(Debug, Clone)]
pub struct SyncRecord {
    pub input: u32,
    pub line: u32,
    pub x: String,
    pub y: String,
}

pub struct SyncRecordView {
    pub input: u32,
    pub line: u32,
    pub x: Seq<char>,
    pub y: Seq<char>,
}

impl DeepView for SyncRecord {
    type V = SyncRecordView;

    open spec fn deep_view(&self) -> SyncRecordView {
        SyncRecordView { input: self.input, line: self.line, x: self.x@, y: self.y@ }
    }
}

/// The input files declared in a `.synctex` file and its box records on
/// one page, in file order.
#[derive(Debug, Clone)]
pub struct SyncTexScan {
    pub inputs: Vec<(u32, String)>,
    pub records: Vec<SyncRecord>,
}

pub struct ScanView {
    pub inputs: Seq<(u32, Seq<char>)>,
    pub records: Seq<SyncRecordView>,
    pub page: u32,
}

pub open spec fn num_or_zero(g: Option<Seq<char>>) -> u32 {
    match parse_opt(g) {
        Some(n) => n,
        None => 0,
    }
}

/// One line of a `.synctex` file: an input declaration, a page start, or
/// (on the wanted page only) a box record; an id or number that does not
/// parse counts as 0.
pub open spec fn scan_step(st: ScanView, l: Seq<char>, target: u32) -> ScanView {
    let inp = regex_captures_of(RECORD_INPUT_PATTERN@, l);
    let pg = regex_captures_of(RECORD_PAGE_PATTERN@, l);
    let rec = regex_captures_of(RECORD_BOX_PATTERN@, l);
    if inp is Some {
        ScanView {
            inputs: st.inputs.push(
                (
                    num_or_zero(group(inp, 1)),
                    match group(inp, 2) {
                        Some(t) => t,
                        None => seq![],
                    },
                ),
            ),
            ..st
        }
    } else if pg is Some {
        ScanView { page: num_or_zero(group(pg, 1)), ..st }
    } else if st.page != target {
        st
    } else if rec is Some {
        ScanView {
            records: st.records.push(
                SyncRecordView {
                    input: num_or_zero(group(rec, 1)),
                    line: num_or_zero(group(rec, 2)),
                    x: match group(rec, 3) {
                        Some(t) => t,
                        None => seq![],
                    },
                    y: match group(rec, 4) {
                        Some(t) => t,
                        None => seq![],
                    },
                },
            ),
            ..st
        }
    } else {
        st
    }
}

pub open spec fn scan_upto(ls: Seq<Seq<char>>, k: int, target: u32) -> ScanView
    decreases k,
{
    if k <= 0 {
        ScanView { inputs: seq![], records: seq![], page: 0 }
    } else {
        scan_step(scan_upto(ls, k - 1, target), ls[k - 1], target)
    }
}

pub open spec fn scan_spec(content: Seq<char>, target: u32) -> ScanView {
    let ls = lines_spec(content);
    scan_upto(ls, ls.len() as int, target)
}

pub open spec fn inputs_view(v: Seq<(u32, String)>) -> Seq<(u32, Seq<char>)> {
    v.map_values(|e: (u32, String)| (e.0, e.1@))
}

fn number_or_zero(g: &Option<String>) -> (r: u32)
    ensures
        r == num_or_zero(opt_view(*g)),
{
    match parse_group(g) {
        Some(n) => n,
        None => 0,
    }
}

fn text_or_empty(g: Option<String>) -> (r: String)
    ensures
        r@ == (match opt_view(g) {
            Some(t) => t,
            None => seq![],
        }),
{
    match g {
        Some(t) => t,
        None => String::new(),
    }
}

impl SyncTexScan {
    /// Reads the input declarations of a `.synctex` file and its box records
    /// on page `target_page`.
    pub fn scan(content: &str, target_page: u32) -> (r: SyncTexScan)
        ensures
            inputs_view(r.inputs@) == scan_spec(content@, target_page).inputs,
            r.records.deep_view() == scan_spec(content@, target_page).records,
    {
        let lines = split_lines(content);
        let n = lines.len();
        let ghost ls = lines.deep_view();
        let mut inputs: Vec<(u32, String)> = Vec::new();
        let mut records: Vec<SyncRecord> = Vec::new();
        let mut cur_page: u32 = 0;
        let mut i: usize = 0;
        assert(inputs_view(inputs@) =~= Seq::<(u32, Seq<char>)>::empty());
        assert(records.deep_view() =~= Seq::<SyncRecordView>::empty());
        while i < n
            invariant
                0 <= i <= n == lines@.len(),
                ls == lines.deep_view(),
                ls == lines_spec(content@),
                scan_upto(ls, i as int, target_page) == (ScanView {
                    inputs: inputs_view(inputs@),
                    records: records.deep_view(),
                    page: cur_page,
                }),
            decreases n - i,
        {
            let l = lines[i].as_str();
            assert(ls[i as int] == l@);
            let inp = regex_captures(RECORD_INPUT_PATTERN, l);
            if inp.is_some() {
                let id = number_or_zero(&group_string(&inp, 1));
                let path = text_or_empty(group_string(&inp, 2));
                let ghost before = inputs@;
                inputs.push((id, path));
                assert(inputs_view(inputs@) =~= inputs_view(before).push((id, path@)));
            } else {
                let pg = regex_captures(RECORD_PAGE_PATTERN, l);
                if pg.is_some() {
                    cur_page = number_or_zero(&group_string(&pg, 1));
                } else if cur_page == target_page {
                    let rec = regex_captures(RECORD_BOX_PATTERN, l);
                    if rec.is_some() {
                        let r = SyncRecord {
                            input: number_or_zero(&group_string(&rec, 1)),
                            line: number_or_zero(&group_string(&rec, 2)),
                            x: text_or_empty(group_string(&rec, 3)),
                            y: text_or_empty(group_string(&rec, 4)),
                        };
                        let ghost before = records.deep_view();
                        records.push(r);
                        assert(records.deep_view() =~= before.push(r.deep_view()));
                    }
                }
            }
            i = i + 1;
        }
        SyncTexScan { inputs, records }
    }
}

impl SyncTexScan {
    /// Scans a gzip-compressed `.synctex.gz` file; `None` when it does not
    /// decompress to text.
    pub fn scan_compressed(bytes: &[u8], target_page: u32) -> (r: Option<SyncTexScan>)
        ensures
            match gunzip_text_of(bytes@) {
                Some(t) => r matches Some(sc) && inputs_view(sc.inputs@) == scan_spec(t, target_page).inputs
                    && sc.records.deep_view() == scan_spec(t, target_page).records,
                None => r is None,
            },
    {
        match gunzip_text(bytes) {
            Some(t) => Some(SyncTexScan::scan(t.as_str(), target_page)),
            None => None,
        }
    }
}

/// The file declared last under `id`.
pub open spec fn input_file_spec(inputs: Seq<(u32, Seq<char>)>, id: u32) -> Option<Seq<char>>
    decreases inputs.len(),
{
    if inputs.len() == 0 {
        None
    } else if inputs.last().0 == id {
        Some(inputs.last().1)
    } else {
        input_file_spec(inputs.drop_last(), id)
    }
}

impl SyncTexScan {
    /// The source location of record `index`: its input file (the last one
    /// declared under its id, `None` if none is) and line, column 0.
    pub fn location_of(&self, index: usize) -> (r: Option<SourceLocation>)
        requires
            index < self.records@.len(),
        ensures
            opt_loc_view(r) == (match input_file_spec(inputs_view(self.inputs@), self.records@[index as int].input) {
                Some(f) => Some(SourceLocationView { file: f, line: self.records@[index as int].line, column: 0 }),
                None => None,
            }),
    {
        let rec = &self.records[index];
        let ghost iv = inputs_view(self.inputs@);
        let mut j = self.inputs.len();
        assert(iv.take(j as int) =~= iv);
        while j > 0
            invariant
                0 <= j <= self.inputs@.len(),
                iv == inputs_view(self.inputs@),
                index < self.records@.len(),
                *rec == self.records@[index as int],
                input_file_spec(iv, rec.input) == input_file_spec(iv.take(j as int), rec.input),
            decreases j,
        {
            assert(iv.take(j as int).drop_last() =~= iv.take(j - 1));
            assert(iv.take(j as int).last() == iv[j - 1]);
            assert(iv[j - 1] == (self.inputs@[j - 1].0, self.inputs@[j - 1].1@));
            if self.inputs[j - 1].0 == rec.input {
                return Some(SourceLocation { file: self.inputs[j - 1].1.clone(), line: rec.line, column: 0 });
            }
            j = j - 1;
        }
        None
    }
}

} // verus!
