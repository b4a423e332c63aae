//! LaTeX syntax tokens: a whole-document tokenizer and the per-line
//! tokenizer behind the editor's highlighter.
//!
//! Both work on the UTF-8 bytes of the text and classify a byte `b` the way
//! `(b as char)` is classified, that is as the Latin-1 character with that
//! code.  Token positions are byte offsets.

use vstd::prelude::*;
use std::ops::Range;
use vstd::string::StringSliceAdditionalSpecFns;

verus! {

/// Kinds of syntax token.
#[derive(Debug, Clone, Copy, PartialEq, Eq, Structural)]
pub enum TokenKind {
    Command,
    MathInline,
    MathBlock,
    Comment,
    Brace,
    Bracket,
    Environment,
    String,
    Number,
    Normal,
}

// ------------------------------------------------------------------
// Byte classes
// ------------------------------------------------------------------

/// `(b as char).is_alphabetic()`.
pub open spec fn is_alpha_byte(b: u8) -> bool {
    ||| 65 <= b <= 90
    ||| 97 <= b <= 122
    ||| b == 0xaa
    ||| b == 0xb5
    ||| b == 0xba
    ||| 0xc0 <= b <= 0xd6
    ||| 0xd8 <= b <= 0xf6
    ||| 0xf8 <= b
}

/// `(b as char).is_alphanumeric()`: alphabetic, or numeric (the ASCII
/// digits and the Latin-1 superscripts and fractions).
pub open spec fn is_alnum_byte(b: u8) -> bool {
    ||| is_alpha_byte(b)
    ||| 48 <= b <= 57
    ||| b == 0xb2
    ||| b == 0xb3
    ||| b == 0xb9
    ||| 0xbc <= b <= 0xbe
}

pub open spec fn is_digit_byte(b: u8) -> bool {
    48 <= b <= 57
}

/// A UTF-8 continuation byte: slicing a `str` there panics.
pub open spec fn is_continuation(b: u8) -> bool {
    0x80 <= b <= 0xbf
}

fn alpha_byte(b: u8) -> (r: bool)
    ensures
        r == is_alpha_byte(b),
{
    (65 <= b && b <= 90) || (97 <= b && b <= 122) || b == 0xaa || b == 0xb5 || b == 0xba || (0xc0
        <= b && b <= 0xd6) || (0xd8 <= b && b <= 0xf6) || 0xf8 <= b
}

fn alnum_byte(b: u8) -> (r: bool)
    ensures
        r == is_alnum_byte(b),
{
    alpha_byte(b) || (48 <= b && b <= 57) || b == 0xb2 || b == 0xb3 || b == 0xb9 || (0xbc <= b
        && b <= 0xbe)
}

// ------------------------------------------------------------------
// Scans: each returns the first position at or after `j` where the scan stops
// ------------------------------------------------------------------

pub open spec fn scan_newline(b: Seq<u8>, j: int) -> int
    decreases b.len() - j,
{
    if j >= b.len() {
        b.len() as int
    } else if b[j] == 10 {
        j
    } else {
        scan_newline(b, j + 1)
    }
}

pub open spec fn scan_alnum(b: Seq<u8>, j: int) -> int
    decreases b.len() - j,
{
    if j >= b.len() {
        b.len() as int
    } else if !is_alnum_byte(b[j]) {
        j
    } else {
        scan_alnum(b, j + 1)
    }
}

pub open spec fn scan_number(b: Seq<u8>, j: int) -> int
    decreases b.len() - j,
{
    if j >= b.len() {
        b.len() as int
    } else if !(is_digit_byte(b[j]) || b[j] == 46) {
        j
    } else {
        scan_number(b, j + 1)
    }
}

/// Inline math on one line ends at the next `$` or newline.
pub open spec fn scan_inline(b: Seq<u8>, j: int) -> int
    decreases b.len() - j,
{
    if j >= b.len() {
        b.len() as int
    } else if b[j] == 36 || b[j] == 10 {
        j
    } else {
        scan_inline(b, j + 1)
    }
}

/// The first `$$` at or after `j`, or `b.len()`.
pub open spec fn find_dollars(b: Seq<u8>, j: int) -> int
    decreases b.len() - j,
{
    if j + 1 >= b.len() {
        b.len() as int
    } else if b[j] == 36 && b[j + 1] == 36 {
        j
    } else {
        find_dollars(b, j + 1)
    }
}

/// Math in the whole-document tokenizer: the end of the math starting its
/// scan at `j`, `None` when the scan reaches a position that is not a
/// character boundary.
pub open spec fn scan_math(b: Seq<u8>, j: int, block: bool) -> Option<int>
    decreases b.len() - j,
{
    if j >= b.len() {
        Some(b.len() as int)
    } else if is_continuation(b[j]) {
        None
    } else if block && b[j] == 36 && j + 1 < b.len() && b[j + 1] == 36 {
        Some(j + 2)
    } else if !block && b[j] == 36 {
        Some(j + 1)
    } else {
        scan_math(b, j + 1, block)
    }
}

pub proof fn lemma_scans(b: Seq<u8>, j: int)
    requires
        0 <= j <= b.len(),
    ensures
        j <= scan_newline(b, j) <= b.len(),
        j <= scan_alnum(b, j) <= b.len(),
        j <= scan_number(b, j) <= b.len(),
        j <= scan_inline(b, j) <= b.len(),
        j <= find_dollars(b, j) <= b.len(),
        find_dollars(b, j) < b.len() ==> find_dollars(b, j) + 1 < b.len(),
        scan_math(b, j, true) matches Some(e) ==> j <= e <= b.len(),
        scan_math(b, j, false) matches Some(e) ==> j <= e <= b.len(),
    decreases b.len() - j,
{
    if j < b.len() {
        lemma_scans(b, j + 1);
    }
}

// ------------------------------------------------------------------
// Whole-document tokenizer
// ------------------------------------------------------------------

pub type Tok = (usize, usize, TokenKind);

/// Tokens of `b` from position `i` on; `None` when tokenizing panics.
pub open spec fn doc_tokens_from(b: Seq<u8>, i: int) -> Option<Seq<Tok>>
    decreases b.len() - i,
{
    if i >= b.len() || i < 0 {
        Some(seq![])
    } else {
        proof {
            lemma_scans(b, i + 1);
            lemma_scans(b, i);
        }
        let c = b[i];
        if c == 37 {
            let e = scan_newline(b, i);
            cons_one((i as usize, e as usize, TokenKind::Comment), doc_tokens_from(b, e))
        } else if c == 92 {
            let e = if i + 1 < b.len() && is_alpha_byte(b[i + 1]) {
                scan_alnum(b, i + 1)
            } else if i + 1 < b.len() {
                i + 2
            } else {
                i + 1
            };
            cons_one((i as usize, e as usize, TokenKind::Command), doc_tokens_from(b, e))
        } else if c == 36 {
            let block = i + 1 < b.len() && b[i + 1] == 36;
            let start = if block { i + 2 } else { i + 1 };
            proof {
                lemma_scans(b, start);
            }
            match scan_math(b, start, block) {
                Some(e) => cons_one(
                    (i as usize, e as usize, if block {
                        TokenKind::MathBlock
                    } else {
                        TokenKind::MathInline
                    }),
                    doc_tokens_from(b, e),
                ),
                None => None,
            }
        } else if c == 123 || c == 125 {
            cons_one((i as usize, (i + 1) as usize, TokenKind::Brace), doc_tokens_from(b, i + 1))
        } else if c == 91 || c == 93 {
            cons_one((i as usize, (i + 1) as usize, TokenKind::Bracket), doc_tokens_from(b, i + 1))
        } else if is_digit_byte(c) {
            let e = scan_number(b, i);
            cons_one((i as usize, e as usize, TokenKind::Number), doc_tokens_from(b, e))
        } else {
            doc_tokens_from(b, i + 1)
        }
    }
}

/// The tokens of a whole document, `None` exactly when tokenizing panics
/// (math that reaches a byte inside a multi-byte character).
pub open spec fn latex_tokens_spec(b: Seq<u8>) -> Option<Seq<Tok>> {
    doc_tokens_from(b, 0)
}

/// Every token lies in `[lo, b.len()]`, is non-empty, and they follow one
/// another without overlapping.
pub open spec fn toks_ordered(t: Seq<Tok>, lo: int, hi: int) -> bool {
    &&& forall|k: int| 0 <= k < t.len() ==> lo <= #[trigger] t[k].0 < t[k].1 <= hi
    &&& forall|k: int, l: int| 0 <= k < l < t.len() ==> #[trigger] t[k].1 <= #[trigger] t[l].0
}

proof fn lemma_cons_ordered(t: Tok, r: Seq<Tok>, lo: int, hi: int)
    requires
        lo <= t.0 < t.1 <= hi,
        toks_ordered(r, t.1 as int, hi),
    ensures
        toks_ordered(seq![t] + r, lo, hi),
{
    let s = seq![t] + r;
    assert forall|k: int| 0 <= k < s.len() implies lo <= #[trigger] s[k].0 < s[k].1 <= hi by {
        if k > 0 {
            assert(s[k] == r[k - 1]);
        }
    }
    assert forall|k: int, l: int| 0 <= k < l < s.len() implies #[trigger] s[k].1 <= #[trigger] s[l].0 by {
        assert(s[l] == r[l - 1]);
        if k > 0 {
            assert(s[k] == r[k - 1]);
        }
    }
}

proof fn lemma_doc_tokens_ordered(b: Seq<u8>, i: int)
    requires
        0 <= i <= b.len(),
        b.len() <= usize::MAX,
    ensures
        doc_tokens_from(b, i) matches Some(t) ==> toks_ordered(t, i, b.len() as int),
    decreases b.len() - i,
{
    if i < b.len() {
        lemma_scans(b, i + 1);
        lemma_scans(b, i);
        let c = b[i];
        if c == 37 {
            let e = scan_newline(b, i);
            lemma_doc_tokens_ordered(b, e);
            if let Some(r) = doc_tokens_from(b, e) {
                lemma_cons_ordered((i as usize, e as usize, TokenKind::Comment), r, i, b.len() as int);
            }
        } else if c == 92 {
            let e = if i + 1 < b.len() && is_alpha_byte(b[i + 1]) {
                scan_alnum(b, i + 1)
            } else if i + 1 < b.len() {
                i + 2
            } else {
                i + 1
            };
            lemma_doc_tokens_ordered(b, e);
            if let Some(r) = doc_tokens_from(b, e) {
                lemma_cons_ordered((i as usize, e as usize, TokenKind::Command), r, i, b.len() as int);
            }
        } else if c == 36 {
            let block = i + 1 < b.len() && b[i + 1] == 36;
            let start = if block { i + 2 } else { i + 1 };
            lemma_scans(b, start);
            if let Some(e) = scan_math(b, start, block) {
                lemma_doc_tokens_ordered(b, e);
                if let Some(r) = doc_tokens_from(b, e) {
                    let k = if block { TokenKind::MathBlock } else { TokenKind::MathInline };
                    lemma_cons_ordered((i as usize, e as usize, k), r, i, b.len() as int);
                }
            }
        } else if c == 123 || c == 125 {
            lemma_doc_tokens_ordered(b, i + 1);
            if let Some(r) = doc_tokens_from(b, i + 1) {
                lemma_cons_ordered((i as usize, (i + 1) as usize, TokenKind::Brace), r, i, b.len() as int);
            }
        } else if c == 91 || c == 93 {
            lemma_doc_tokens_ordered(b, i + 1);
            if let Some(r) = doc_tokens_from(b, i + 1) {
                lemma_cons_ordered((i as usize, (i + 1) as usize, TokenKind::Bracket), r, i, b.len() as int);
            }
        } else if is_digit_byte(c) {
            let e = scan_number(b, i);
            lemma_doc_tokens_ordered(b, e);
            if let Some(r) = doc_tokens_from(b, e) {
                lemma_cons_ordered((i as usize, e as usize, TokenKind::Number), r, i, b.len() as int);
            }
        } else {
            lemma_doc_tokens_ordered(b, i + 1);
        }
    }
}

/// Law: the tokens of a document are non-empty, lie inside the document, and
/// come in order without overlapping.
pub proof fn law_document_tokens_ordered(b: Seq<u8>)
    requires
        b.len() <= usize::MAX,
    ensures
        latex_tokens_spec(b) matches Some(t) ==> toks_ordered(t, 0, b.len() as int),
{
    lemma_doc_tokens_ordered(b, 0);
}

fn scan_newline_exec(b: &[u8], j: usize) -> (r: usize)
    requires
        j <= b@.len(),
    ensures
        r == scan_newline(b@, j as int),
{
    let mut k = j;
    while k < b.len() && b[k] != 10
        invariant
            j <= k <= b@.len(),
            scan_newline(b@, j as int) == scan_newline(b@, k as int),
        decreases b@.len() - k,
    {
        k = k + 1;
    }
    k
}

fn scan_alnum_exec(b: &[u8], j: usize) -> (r: usize)
    requires
        j <= b@.len(),
    ensures
        r == scan_alnum(b@, j as int),
{
    let mut k = j;
    while k < b.len() && alnum_byte(b[k])
        invariant
            j <= k <= b@.len(),
            scan_alnum(b@, j as int) == scan_alnum(b@, k as int),
        decreases b@.len() - k,
    {
        k = k + 1;
    }
    k
}

fn scan_number_exec(b: &[u8], j: usize) -> (r: usize)
    requires
        j <= b@.len(),
    ensures
        r == scan_number(b@, j as int),
{
    let mut k = j;
    while k < b.len() && ((48 <= b[k] && b[k] <= 57) || b[k] == 46)
        invariant
            j <= k <= b@.len(),
            scan_number(b@, j as int) == scan_number(b@, k as int),
        decreases b@.len() - k,
    {
        k = k + 1;
    }
    k
}

fn scan_inline_exec(b: &[u8], j: usize) -> (r: usize)
    requires
        j <= b@.len(),
    ensures
        r == scan_inline(b@, j as int),
{
    let mut k = j;
    while k < b.len() && b[k] != 36 && b[k] != 10
        invariant
            j <= k <= b@.len(),
            scan_inline(b@, j as int) == scan_inline(b@, k as int),
        decreases b@.len() - k,
    {
        k = k + 1;
    }
    k
}

fn find_dollars_exec(b: &[u8], j: usize) -> (r: usize)
    requires
        j <= b@.len(),
    ensures
        r == find_dollars(b@, j as int),
{
    let mut k = j;
    while k < b.len() && k + 1 < b.len() && !(b[k] == 36 && b[k + 1] == 36)
        invariant
            j <= k <= b@.len(),
            find_dollars(b@, j as int) == find_dollars(b@, k as int),
        decreases b@.len() - k,
    {
        k = k + 1;
    }
    if k < b.len() && k + 1 < b.len() {
        k
    } else {
        b.len()
    }
}

fn scan_math_exec(b: &[u8], j: usize, block: bool) -> (r: Option<usize>)
    requires
        j <= b@.len(),
    ensures
        r matches Some(e) ==> scan_math(b@, j as int, block) == Some(e as int),
        r is None ==> scan_math(b@, j as int, block) is None,
{
    let mut k = j;
    while k < b.len()
        invariant
            j <= k <= b@.len(),
            scan_math(b@, j as int, block) == scan_math(b@, k as int, block),
        decreases b@.len() - k,
    {
        let c = b[k];
        if 0x80 <= c && c <= 0xbf {
            return None;
        }
        if block && c == 36 && k + 1 < b.len() && b[k + 1] == 36 {
            return Some(k + 2);
        }
        if !block && c == 36 {
            return Some(k + 1);
        }
        k = k + 1;
    }
    Some(b.len())
}

/// Tokenizes a whole document; `None` exactly where the plain tokenizer panics.
pub fn tokenize_latex_checked(src: &str) -> (r: Option<Vec<(usize, usize, TokenKind)>>)
    ensures
        r matches Some(v) ==> latex_tokens_spec(src.spec_bytes()) == Some(v@),
        r is None ==> latex_tokens_spec(src.spec_bytes()) is None,
{
    let b = src.as_bytes();
    let len = b.len();
    let ghost bs = b@;
    let mut out: Vec<(usize, usize, TokenKind)> = Vec::new();
    let mut i: usize = 0;
    assert(doc_tokens_from(bs, 0) == cons_all(out@, doc_tokens_from(bs, 0))) by {
        assert(seq![] + doc_tokens_from(bs, 0)->0 =~= doc_tokens_from(bs, 0)->0);
    }
    while i < len
        invariant
            bs == b@,
            bs == src.spec_bytes(),
            len == bs.len(),
            0 <= i <= len,
            doc_tokens_from(bs, 0) == cons_all(out@, doc_tokens_from(bs, i as int)),
        decreases len - i,
    {
        proof {
            lemma_scans(bs, i as int);
            lemma_scans(bs, i + 1);
        }
        let c = b[i];
        let ghost before = out@;
        if c == 37 {
            let e = scan_newline_exec(b, i);
            out.push((i, e, TokenKind::Comment));
            proof { lemma_cons_all_step(before, (i, e, TokenKind::Comment), doc_tokens_from(bs, e as int)); }
            i = e;
        } else if c == 92 {
            let e = if i + 1 < len && alpha_byte(b[i + 1]) {
                scan_alnum_exec(b, i + 1)
            } else if i + 1 < len {
                i + 2
            } else {
                i + 1
            };
            out.push((i, e, TokenKind::Command));
            proof { lemma_cons_all_step(before, (i, e, TokenKind::Command), doc_tokens_from(bs, e as int)); }
            i = e;
        } else if c == 36 {
            let block = i + 1 < len && b[i + 1] == 36;
            let start = if block { i + 2 } else { i + 1 };
            match scan_math_exec(b, start, block) {
                Some(e) => {
                    let k = if block { TokenKind::MathBlock } else { TokenKind::MathInline };
                    out.push((i, e, k));
                    proof {
                        lemma_scans(bs, start as int);
                        lemma_cons_all_step(before, (i, e, k), doc_tokens_from(bs, e as int));
                    }
                    i = e;
                },
                None => {
                    return None;
                },
            }
        } else if c == 123 || c == 125 {
            out.push((i, i + 1, TokenKind::Brace));
            proof { lemma_cons_all_step(before, (i, (i + 1) as usize, TokenKind::Brace), doc_tokens_from(bs, i + 1)); }
            i = i + 1;
        } else if c == 91 || c == 93 {
            out.push((i, i + 1, TokenKind::Bracket));
            proof { lemma_cons_all_step(before, (i, (i + 1) as usize, TokenKind::Bracket), doc_tokens_from(bs, i + 1)); }
            i = i + 1;
        } else if 48 <= c && c <= 57 {
            let e = scan_number_exec(b, i);
            out.push((i, e, TokenKind::Number));
            proof { lemma_cons_all_step(before, (i, e, TokenKind::Number), doc_tokens_from(bs, e as int)); }
            i = e;
        } else {
            i = i + 1;
        }
    }
    assert(out@ + seq![] =~= out@);
    Some(out)
}

/// All syntax tokens of a LaTeX document, as `(start, end, kind)` byte ranges.
pub fn tokenize_latex(src: &str) -> (r: Vec<(usize, usize, TokenKind)>)
    requires
        latex_tokens_spec(src.spec_bytes()) is Some,
    ensures
        latex_tokens_spec(src.spec_bytes()) == Some(r@),
{
    match tokenize_latex_checked(src) {
        Some(v) => v,
        None => Vec::new(),
    }
}

/// `done` followed by the outcome of the rest.
pub open spec fn cons_all<T>(done: Seq<T>, rest: Option<Seq<T>>) -> Option<Seq<T>> {
    match rest {
        Some(r) => Some(done + r),
        None => None,
    }
}

proof fn lemma_cons_all_step<T>(done: Seq<T>, t: T, rest: Option<Seq<T>>)
    ensures
        cons_all(done, cons_one(t, rest)) == cons_all(done.push(t), rest),
{
    if let Some(r) = rest {
        assert(done + (seq![t] + r) =~= done.push(t) + r);
    }
}

pub open spec fn cons_one<T>(t: T, rest: Option<Seq<T>>) -> Option<Seq<T>> {
    match rest {
        Some(r) => Some(seq![t] + r),
        None => None,
    }
}

// ------------------------------------------------------------------
// Per-line tokenizer for the highlighter
// ------------------------------------------------------------------

pub type HTok = (Range<usize>, TokenKind);

pub open spec fn rng(s: int, e: int) -> Range<usize> {
    Range { start: s as usize, end: e as usize }
}

pub open spec fn cons_line(t: HTok, rest: Option<(Seq<HTok>, bool)>) -> Option<(Seq<HTok>, bool)> {
    match rest {
        Some((r, open)) => Some((seq![t] + r, open)),
        None => None,
    }
}

pub open spec fn is_begin_or_end(w: Seq<u8>) -> bool {
    w == seq![98u8, 101u8, 103u8, 105u8, 110u8] || w == seq![101u8, 110u8, 100u8]
}

/// Tokens of one line from position `i` on, and whether a `$$` block was
/// left open at the end of the line; `None` when tokenizing panics (a
/// command name that ends inside a multi-byte character).
pub open spec fn line_tokens_from(b: Seq<u8>, i: int) -> Option<(Seq<HTok>, bool)>
    decreases b.len() - i,
{
    if i >= b.len() || i < 0 {
        Some((seq![], false))
    } else {
        proof {
            lemma_scans(b, i);
            lemma_scans(b, i + 1);
        }
        let c = b[i];
        if c == 37 {
            Some((seq![(rng(i, b.len() as int), TokenKind::Comment)], false))
        } else if c == 92 {
            if i + 1 < b.len() && is_alpha_byte(b[i + 1]) {
                let e = scan_alnum(b, i + 1);
                if is_continuation(b[i + 1]) || (e < b.len() && is_continuation(b[e])) {
                    None
                } else {
                    let k = if is_begin_or_end(b.subrange(i + 1, e)) {
                        TokenKind::Environment
                    } else {
                        TokenKind::Command
                    };
                    cons_line((rng(i, e), k), line_tokens_from(b, e))
                }
            } else if i + 1 < b.len() {
                cons_line((rng(i, i + 2), TokenKind::Command), line_tokens_from(b, i + 2))
            } else {
                line_tokens_from(b, i + 1)
            }
        } else if c == 36 {
            if i + 1 < b.len() && b[i + 1] == 36 {
                proof {
                    lemma_scans(b, i + 2);
                }
                let k = find_dollars(b, i + 2);
                if k < b.len() {
                    cons_line((rng(i, k + 2), TokenKind::MathBlock), line_tokens_from(b, k + 2))
                } else {
                    Some((seq![(rng(i, b.len() as int), TokenKind::MathBlock)], true))
                }
            } else {
                let e = scan_inline(b, i + 1);
                let e2 = if e < b.len() && b[e] == 36 { e + 1 } else { e };
                cons_line((rng(i, e2), TokenKind::MathInline), line_tokens_from(b, e2))
            }
        } else if c == 123 || c == 125 {
            cons_line((rng(i, i + 1), TokenKind::Brace), line_tokens_from(b, i + 1))
        } else if c == 91 || c == 93 {
            cons_line((rng(i, i + 1), TokenKind::Bracket), line_tokens_from(b, i + 1))
        } else if is_digit_byte(c) {
            let e = scan_number(b, i);
            cons_line((rng(i, e), TokenKind::Number), line_tokens_from(b, e))
        } else {
            line_tokens_from(b, i + 1)
        }
    }
}

/// Where the body of a line starts: after the `$$` that closes a block
/// carried over from the previous line (or at the end, if none does).
pub open spec fn carried_block_end(b: Seq<u8>, in_math: bool) -> int {
    if in_math {
        let k = find_dollars(b, 0);
        if k < b.len() { k + 2 } else { b.len() as int }
    } else {
        0
    }
}

pub open spec fn finish_line(done: Seq<HTok>, rest: Option<(Seq<HTok>, bool)>, still: bool) -> Option<(Seq<HTok>, bool)> {
    match rest {
        Some((t, open)) => Some((done + t, still || open)),
        None => None,
    }
}

/// Tokens of one line given whether a `$$` block is open from the previous
/// line, and whether a block is open after it; `None` when tokenizing panics.
pub open spec fn line_tokens_spec(b: Seq<u8>, in_math: bool) -> Option<(Seq<HTok>, bool)> {
    let lead: Seq<HTok> = if in_math {
        seq![(rng(0, carried_block_end(b, in_math)), TokenKind::MathBlock)]
    } else {
        seq![]
    };
    let still = in_math && find_dollars(b, 0) >= b.len();
    finish_line(lead, line_tokens_from(b, carried_block_end(b, in_math)), still)
}

proof fn lemma_finish_step(done: Seq<HTok>, t: HTok, rest: Option<(Seq<HTok>, bool)>, still: bool)
    ensures
        finish_line(done, cons_line(t, rest), still) == finish_line(done.push(t), rest, still),
{
    if let Some((r, open)) = rest {
        assert(done + (seq![t] + r) =~= done.push(t) + r);
    }
}

/// Every highlighted range lies in `[lo, hi]` and the ranges follow one
/// another without overlapping.
pub open spec fn htoks_ordered(t: Seq<HTok>, lo: int, hi: int) -> bool {
    &&& forall|k: int| 0 <= k < t.len() ==> lo <= #[trigger] t[k].0.start <= t[k].0.end <= hi
    &&& forall|k: int, l: int| 0 <= k < l < t.len() ==> #[trigger] t[k].0.end <= #[trigger] t[l].0.start
}

proof fn lemma_hcons_ordered(t: HTok, r: Seq<HTok>, lo: int, hi: int)
    requires
        lo <= t.0.start <= t.0.end <= hi,
        htoks_ordered(r, t.0.end as int, hi),
    ensures
        htoks_ordered(seq![t] + r, lo, hi),
{
    let s = seq![t] + r;
    assert forall|k: int| 0 <= k < s.len() implies lo <= #[trigger] s[k].0.start <= s[k].0.end <= hi by {
        if k > 0 {
            assert(s[k] == r[k - 1]);
        }
    }
    assert forall|k: int, l: int| 0 <= k < l < s.len() implies #[trigger] s[k].0.end <= #[trigger] s[l].0.start by {
        assert(s[l] == r[l - 1]);
        if k > 0 {
            assert(s[k] == r[k - 1]);
        }
    }
}

proof fn lemma_line_tokens_ordered(b: Seq<u8>, i: int)
    requires
        0 <= i <= b.len(),
        b.len() <= usize::MAX,
    ensures
        line_tokens_from(b, i) matches Some((t, _)) ==> htoks_ordered(t, i, b.len() as int),
    decreases b.len() - i,
{
    if i < b.len() {
        lemma_scans(b, i);
        lemma_scans(b, i + 1);
        let c = b[i];
        if c == 37 {
        } else if c == 92 {
            if i + 1 < b.len() && is_alpha_byte(b[i + 1]) {
                let e = scan_alnum(b, i + 1);
                if !(is_continuation(b[i + 1]) || (e < b.len() && is_continuation(b[e]))) {
                    lemma_line_tokens_ordered(b, e);
                    let k = if is_begin_or_end(b.subrange(i + 1, e)) {
                        TokenKind::Environment
                    } else {
                        TokenKind::Command
                    };
                    if let Some((r, _)) = line_tokens_from(b, e) {
                        lemma_hcons_ordered((rng(i, e), k), r, i, b.len() as int);
                    }
                }
            } else if i + 1 < b.len() {
                lemma_line_tokens_ordered(b, i + 2);
                if let Some((r, _)) = line_tokens_from(b, i + 2) {
                    lemma_hcons_ordered((rng(i, i + 2), TokenKind::Command), r, i, b.len() as int);
                }
            } else {
                lemma_line_tokens_ordered(b, i + 1);
            }
        } else if c == 36 {
            if i + 1 < b.len() && b[i + 1] == 36 {
                lemma_scans(b, i + 2);
                let k = find_dollars(b, i + 2);
                if k < b.len() {
                    lemma_line_tokens_ordered(b, k + 2);
                    if let Some((r, _)) = line_tokens_from(b, k + 2) {
                        lemma_hcons_ordered((rng(i, k + 2), TokenKind::MathBlock), r, i, b.len() as int);
                    }
                }
            } else {
                let e = scan_inline(b, i + 1);
                let e2 = if e < b.len() && b[e] == 36 { e + 1 } else { e };
                lemma_line_tokens_ordered(b, e2);
                if let Some((r, _)) = line_tokens_from(b, e2) {
                    lemma_hcons_ordered((rng(i, e2), TokenKind::MathInline), r, i, b.len() as int);
                }
            }
        } else if c == 123 || c == 125 {
            lemma_line_tokens_ordered(b, i + 1);
            if let Some((r, _)) = line_tokens_from(b, i + 1) {
                lemma_hcons_ordered((rng(i, i + 1), TokenKind::Brace), r, i, b.len() as int);
            }
        } else if c == 91 || c == 93 {
            lemma_line_tokens_ordered(b, i + 1);
            if let Some((r, _)) = line_tokens_from(b, i + 1) {
                lemma_hcons_ordered((rng(i, i + 1), TokenKind::Bracket), r, i, b.len() as int);
            }
        } else if is_digit_byte(c) {
            let e = scan_number(b, i);
            lemma_line_tokens_ordered(b, e);
            if let Some((r, _)) = line_tokens_from(b, e) {
                lemma_hcons_ordered((rng(i, e), TokenKind::Number), r, i, b.len() as int);
            }
        } else {
            lemma_line_tokens_ordered(b, i + 1);
        }
    }
}

/// The highlighted ranges of a line lie inside the line and come in order
/// without overlapping, whether or not a `$$` block runs on into it.
pub proof fn law_line_tokens_ordered(b: Seq<u8>, in_math: bool)
    requires
        b.len() <= usize::MAX,
    ensures
        line_tokens_spec(b, in_math) matches Some((t, _)) ==> htoks_ordered(t, 0, b.len() as int),
{
    lemma_scans(b, 0);
    let ce = carried_block_end(b, in_math);
    assert(0 <= ce <= b.len());
    lemma_line_tokens_ordered(b, ce);
    if let Some((r, _)) = line_tokens_from(b, ce) {
        if in_math {
            lemma_hcons_ordered((rng(0, ce), TokenKind::MathBlock), r, 0, b.len() as int);
        } else {
            assert(Seq::<HTok>::empty() + r =~= r);
        }
    }
}

fn bytes_are(b: &[u8], lo: usize, hi: usize, w: &Vec<u8>) -> (r: bool)
    requires
        lo <= hi <= b@.len(),
    ensures
        r == (b@.subrange(lo as int, hi as int) == w@),
{
    if hi - lo != w.len() {
        return false;
    }
    let mut k: usize = 0;
    while k < w.len()
        invariant
            lo <= hi <= b@.len(),
            hi - lo == w@.len(),
            0 <= k <= w@.len(),
            forall|j: int| 0 <= j < k ==> b@[lo + j] == w@[j],
        decreases w@.len() - k,
    {
        if b[lo + k] != w[k] {
            assert(b@.subrange(lo as int, hi as int)[k as int] != w@[k as int]);
            return false;
        }
        k = k + 1;
    }
    assert(b@.subrange(lo as int, hi as int) =~= w@);
    true
}

/// Outcome of tokenizing at one position of a line.
enum LineStep {
    /// Continue at `next`, after emitting the token if there is one.
    Go(Option<(Range<usize>, TokenKind)>, usize),
    /// Tokenizing panics here.
    Panic,
    /// The line ends with this token; `true` when it opens a `$$` block.
    Last((Range<usize>, TokenKind), bool),
}

spec fn step_ok(b: Seq<u8>, i: int, s: LineStep) -> bool {
    match s {
        LineStep::Go(t, next) => i < next <= b.len() && line_tokens_from(b, i) == (match t {
            Some(tok) => cons_line(tok, line_tokens_from(b, next as int)),
            None => line_tokens_from(b, next as int),
        }),
        LineStep::Panic => line_tokens_from(b, i) is None,
        LineStep::Last(t, open) => line_tokens_from(b, i) == Some((seq![t], open)),
    }
}

fn line_step(b: &[u8], i: usize) -> (r: LineStep)
    requires
        i < b@.len(),
    ensures
        step_ok(b@, i as int, r),
{
    let len = b.len();
    let ghost bs = b@;
    proof {
        lemma_scans(bs, i as int);
        lemma_scans(bs, i + 1);
    }
    let c = b[i];
    if c == 37 {
        let t = (i..len, TokenKind::Comment);
        assert(line_tokens_from(bs, i as int) == Some((seq![t], false)));
        LineStep::Last(t, false)
    } else if c == 92 {
        if i + 1 < len && alpha_byte(b[i + 1]) {
            let e = scan_alnum_exec(b, i + 1);
            let c1 = b[i + 1];
            if (0x80 <= c1 && c1 <= 0xbf) || (e < len && 0x80 <= b[e] && b[e] <= 0xbf) {
                LineStep::Panic
            } else {
                let w_begin: Vec<u8> = vec![98u8, 101u8, 103u8, 105u8, 110u8];
                let w_end: Vec<u8> = vec![101u8, 110u8, 100u8];
                let is_env = bytes_are(b, i + 1, e, &w_begin) || bytes_are(b, i + 1, e, &w_end);
                let k = if is_env { TokenKind::Environment } else { TokenKind::Command };
                LineStep::Go(Some((i..e, k)), e)
            }
        } else if i + 1 < len {
            LineStep::Go(Some((i..i + 2, TokenKind::Command)), i + 2)
        } else {
            LineStep::Go(None, i + 1)
        }
    } else if c == 36 {
        if i + 1 < len && b[i + 1] == 36 {
            let k = find_dollars_exec(b, i + 2);
            proof { lemma_scans(bs, i + 2); }
            if k < len {
                LineStep::Go(Some((i..k + 2, TokenKind::MathBlock)), k + 2)
            } else {
                let t = (i..len, TokenKind::MathBlock);
                assert(line_tokens_from(bs, i as int) == Some((seq![t], true)));
                LineStep::Last(t, true)
            }
        } else {
            let e = scan_inline_exec(b, i + 1);
            let e2 = if e < len && b[e] == 36 { e + 1 } else { e };
            LineStep::Go(Some((i..e2, TokenKind::MathInline)), e2)
        }
    } else if c == 123 || c == 125 {
        LineStep::Go(Some((i..i + 1, TokenKind::Brace)), i + 1)
    } else if c == 91 || c == 93 {
        LineStep::Go(Some((i..i + 1, TokenKind::Bracket)), i + 1)
    } else if 48 <= c && c <= 57 {
        let e = scan_number_exec(b, i);
        LineStep::Go(Some((i..e, TokenKind::Number)), e)
    } else {
        LineStep::Go(None, i + 1)
    }
}

/// Tokenizes one line for highlighting, `None` exactly where the plain
/// per-line tokenizer panics (then `in_math_block` is left unchanged).
pub fn tokenize_line_checked(line: &str, in_math_block: &mut bool) -> (r: Option<Vec<(Range<usize>, TokenKind)>>)
    ensures
        r matches Some(v) ==> line_tokens_spec(line.spec_bytes(), *old(in_math_block)) == Some((v@, *final(in_math_block))),
        r is None ==> line_tokens_spec(line.spec_bytes(), *old(in_math_block)) is None && *final(in_math_block) == *old(in_math_block),
{
    let b = line.as_bytes();
    let len = b.len();
    let ghost bs = b@;
    let ghost init = *in_math_block;
    let mut out: Vec<(Range<usize>, TokenKind)> = Vec::new();
    let mut i: usize = 0;
    let mut still = false;
    if *in_math_block {
        let k = find_dollars_exec(b, 0);
        proof { lemma_scans(bs, 0); }
        if k < len {
            i = k + 2;
        } else {
            i = len;
            still = true;
        }
        out.push((0..i, TokenKind::MathBlock));
    }
    assert(out@ == (if init { seq![(rng(0, carried_block_end(bs, init)), TokenKind::MathBlock)] } else { seq![] }));
    let mut open = false;
    let mut failed = false;
    while i < len
        invariant
            bs == b@,
            bs == line.spec_bytes(),
            len == bs.len(),
            0 <= i <= len,
            still == (init && find_dollars(bs, 0) >= bs.len()),
            !failed && !open ==> line_tokens_spec(bs, init) == finish_line(out@, line_tokens_from(bs, i as int), still),
            failed ==> line_tokens_spec(bs, init) is None,
            open ==> line_tokens_spec(bs, init) == Some((out@, true)),
            !(failed && open),
            failed || open ==> i == len,
        decreases len - i,
    {
        let ghost before = out@;
        match line_step(b, i) {
            LineStep::Go(t, next) => {
                match t {
                    Some(tok) => {
                        proof { lemma_finish_step(before, tok, line_tokens_from(bs, next as int), still); }
                        out.push(tok);
                    },
                    None => {},
                }
                i = next;
            },
            LineStep::Panic => {
                failed = true;
                i = len;
            },
            LineStep::Last(tok, o) => {
                proof {
                    assert(seq![tok] + Seq::<HTok>::empty() =~= seq![tok]);
                    lemma_finish_step(before, tok, Some((seq![], o)), still);
                }
                out.push(tok);
                assert(out@ + Seq::<HTok>::empty() =~= out@);
                if o {
                    open = true;
                } else {
                    assert(line_tokens_from(bs, len as int) == Some((Seq::<HTok>::empty(), false)));
                }
                i = len;
            },
        }
    }
    if failed {
        return None;
    }
    *in_math_block = still || open;
    assert(out@ + Seq::<HTok>::empty() =~= out@);
    Some(out)
}

/// The highlighter's tokenizer for one line.  `in_math_block` says whether a
/// `$$` block is open from the previous line; on return it says whether one
/// is open after this line.
pub fn tokenize_line_hl(line: &str, in_math_block: &mut bool) -> (r: Vec<(Range<usize>, TokenKind)>)
    requires
        line_tokens_spec(line.spec_bytes(), *old(in_math_block)) is Some,
    ensures
        line_tokens_spec(line.spec_bytes(), *old(in_math_block)) == Some((r@, *final(in_math_block))),
{
    match tokenize_line_checked(line, in_math_block) {
        Some(v) => v,
        None => Vec::new(),
    }
}

/// Settings of the LaTeX highlighter; there are none.
#[derive(Debug, Clone, Copy, PartialEq, Eq, Structural)]
pub struct LatexHighlightSettings;

/// Per-document highlighter state: the line being highlighted and whether a
/// `$$` block runs on from the previous line.
pub struct LatexHighlighter {
    current_line: usize,
    in_math_block: bool,
}

impl LatexHighlighter {
    pub closed spec fn line_spec(&self) -> usize {
        self.current_line
    }

    pub closed spec fn in_math_spec(&self) -> bool {
        self.in_math_block
    }

    /// A highlighter at line 0, outside any math block.
    pub fn new(_settings: &LatexHighlightSettings) -> (r: Self)
        ensures
            r.line_spec() == 0,
            !r.in_math_spec(),
    {
        LatexHighlighter { current_line: 0, in_math_block: false }
    }

    /// Settings changes have no effect.
    pub fn update(&mut self, _new: &LatexHighlightSettings)
        ensures
            *final(self) == *old(self),
    {
    }

    /// Moves to `line`; going back to the first line forgets any open block.
    pub fn change_line(&mut self, line: usize)
        ensures
            final(self).line_spec() == line,
            final(self).in_math_spec() == (if line == 0 { false } else { old(self).in_math_spec() }),
    {
        self.current_line = line;
        if line == 0 {
            self.in_math_block = false;
        }
    }

    /// Whether highlighting `line` next would panic.
    pub fn can_highlight(&self, line: &str) -> (r: bool)
        ensures
            r == (line_tokens_spec(line.spec_bytes(), self.in_math_spec()) is Some),
    {
        let mut m = self.in_math_block;
        tokenize_line_checked(line, &mut m).is_some()
    }

    /// Highlights the next line and carries the math-block state over.
    pub fn highlight_line(&mut self, line: &str) -> (r: Vec<(Range<usize>, TokenKind)>)
        requires
            line_tokens_spec(line.spec_bytes(), old(self).in_math_spec()) is Some,
        ensures
            line_tokens_spec(line.spec_bytes(), old(self).in_math_spec()) == Some((r@, final(self).in_math_spec())),
            final(self).line_spec() == old(self).line_spec(),
    {
        tokenize_line_hl(line, &mut self.in_math_block)
    }

    pub fn current_line(&self) -> (r: usize)
        ensures
            r == self.line_spec(),
    {
        self.current_line
    }
}

// ------------------------------------------------------------------
// What the tokens of each kind look like
// ------------------------------------------------------------------

/// A byte that begins no token: not `%`, `\`, `$`, a brace, a bracket or a digit.
pub open spec fn is_plain_byte(c: u8) -> bool {
    c != 37 && c != 92 && c != 36 && c != 123 && c != 125 && c != 91 && c != 93 && !is_digit_byte(c)
}

/// No byte of `b[lo..hi]` is `c`.
pub open spec fn lacks(b: Seq<u8>, lo: int, hi: int, c: u8) -> bool {
    forall|p: int| lo <= p < hi ==> #[trigger] b[p] != c
}

/// No `$$` starts in `b[lo..hi]`.
pub open spec fn lacks_dollars(b: Seq<u8>, lo: int, hi: int) -> bool {
    forall|p: int| lo <= p < hi ==> !(#[trigger] b[p] == 36 && p + 1 < b.len() && b[p + 1] == 36)
}

/// `b[lo..hi]` is a longest run of letters and digits.
pub open spec fn alnum_run(b: Seq<u8>, lo: int, hi: int) -> bool {
    &&& forall|p: int| lo <= p < hi ==> is_alnum_byte(#[trigger] b[p])
    &&& (hi == b.len() || !is_alnum_byte(b[hi]))
}

/// `b[lo..hi]` is a longest run of digits and dots.
pub open spec fn number_run(b: Seq<u8>, lo: int, hi: int) -> bool {
    &&& forall|p: int| lo <= p < hi ==> is_digit_byte(#[trigger] b[p]) || b[p] == 46
    &&& (hi == b.len() || !(is_digit_byte(b[hi]) || b[hi] == 46))
}

/// The command that a `\` at `s` starts ends at `e`: a name of letters and
/// digits when a letter follows, else the one byte after it.
pub open spec fn command_end(b: Seq<u8>, s: int, e: int) -> bool {
    if s + 1 < b.len() && is_alpha_byte(b[s + 1]) {
        s + 1 < e && alnum_run(b, s + 1, e)
    } else if s + 1 < b.len() {
        e == s + 2
    } else {
        e == s + 1
    }
}

proof fn lemma_scan_newline_shape(b: Seq<u8>, j: int)
    requires
        0 <= j <= b.len(),
    ensures
        lacks(b, j, scan_newline(b, j), 10),
        scan_newline(b, j) == b.len() || b[scan_newline(b, j)] == 10,
    decreases b.len() - j,
{
    if j < b.len() && b[j] != 10 {
        lemma_scan_newline_shape(b, j + 1);
    }
}

proof fn lemma_scan_alnum_shape(b: Seq<u8>, j: int)
    requires
        0 <= j <= b.len(),
    ensures
        alnum_run(b, j, scan_alnum(b, j)),
    decreases b.len() - j,
{
    if j < b.len() && is_alnum_byte(b[j]) {
        lemma_scan_alnum_shape(b, j + 1);
    }
}

proof fn lemma_scan_number_shape(b: Seq<u8>, j: int)
    requires
        0 <= j <= b.len(),
    ensures
        number_run(b, j, scan_number(b, j)),
    decreases b.len() - j,
{
    if j < b.len() && (is_digit_byte(b[j]) || b[j] == 46) {
        lemma_scan_number_shape(b, j + 1);
    }
}

proof fn lemma_scan_inline_shape(b: Seq<u8>, j: int)
    requires
        0 <= j <= b.len(),
    ensures
        lacks(b, j, scan_inline(b, j), 36),
        lacks(b, j, scan_inline(b, j), 10),
        scan_inline(b, j) == b.len() || b[scan_inline(b, j)] == 36 || b[scan_inline(b, j)] == 10,
    decreases b.len() - j,
{
    if j < b.len() && b[j] != 36 && b[j] != 10 {
        lemma_scan_inline_shape(b, j + 1);
    }
}

proof fn lemma_find_dollars_shape(b: Seq<u8>, j: int)
    requires
        0 <= j <= b.len(),
    ensures
        lacks_dollars(b, j, find_dollars(b, j)),
        find_dollars(b, j) < b.len() ==> b[find_dollars(b, j)] == 36 && b[find_dollars(b, j) + 1] == 36,
    decreases b.len() - j,
{
    if j + 1 < b.len() && !(b[j] == 36 && b[j + 1] == 36) {
        lemma_find_dollars_shape(b, j + 1);
    }
}

proof fn lemma_scan_math_shape(b: Seq<u8>, j: int, block: bool)
    requires
        0 <= j <= b.len(),
    ensures
        scan_math(b, j, block) matches Some(e) ==> if block {
            (e == b.len() && lacks_dollars(b, j, e)) || (j + 2 <= e && b[e - 2] == 36 && b[e - 1] == 36
                && lacks_dollars(b, j, e - 2))
        } else {
            (e == b.len() && lacks(b, j, e, 36)) || (j + 1 <= e && b[e - 1] == 36 && lacks(b, j, e - 1, 36))
        },
    decreases b.len() - j,
{
    if j < b.len() {
        lemma_scan_math_shape(b, j + 1, block);
    }
}

/// A token of the whole-document tokenizer, seen against the text `b`:
/// a comment runs from `%` to the end of its line; a command is `\` and
/// its name (or the one byte after it); a brace or bracket is that byte;
/// a number is a longest run of digits and dots; inline math runs from `$`
/// through the next `$`, and block math from `$$` through the next `$$`
/// (either to the end, when none closes it).
pub open spec fn doc_token_shaped(b: Seq<u8>, t: Tok) -> bool {
    let s = t.0 as int;
    let e = t.1 as int;
    &&& 0 <= s < e <= b.len()
    &&& match t.2 {
        TokenKind::Comment => b[s] == 37 && lacks(b, s, e, 10) && (e == b.len() || b[e] == 10),
        TokenKind::Command => b[s] == 92 && command_end(b, s, e),
        TokenKind::Brace => e == s + 1 && (b[s] == 123 || b[s] == 125),
        TokenKind::Bracket => e == s + 1 && (b[s] == 91 || b[s] == 93),
        TokenKind::Number => is_digit_byte(b[s]) && number_run(b, s, e),
        TokenKind::MathInline => b[s] == 36 && !(s + 1 < b.len() && b[s + 1] == 36) && ((e == b.len()
            && lacks(b, s + 1, e, 36)) || (s + 2 <= e && b[e - 1] == 36 && lacks(b, s + 1, e - 1, 36))),
        TokenKind::MathBlock => b[s] == 36 && s + 1 < b.len() && b[s + 1] == 36 && ((e == b.len()
            && lacks_dollars(b, s + 2, e)) || (s + 4 <= e && b[e - 2] == 36 && b[e - 1] == 36
            && lacks_dollars(b, s + 2, e - 2))),
        _ => false,
    }
}

/// Some token of `t` covers byte `p`.
pub open spec fn tok_covers(t: Seq<Tok>, p: int) -> bool {
    exists|k: int| 0 <= k < t.len() && #[trigger] t[k].0 <= p < t[k].1
}

/// The first token that a non-plain byte at `i` starts, and the rest.
#[verifier::spinoff_prover]
#[verifier::rlimit(40)]
proof fn lemma_doc_first_token(b: Seq<u8>, i: int)
    requires
        0 <= i < b.len(),
        b.len() <= usize::MAX,
        !is_plain_byte(b[i]),
        doc_tokens_from(b, i) is Some,
    ensures
        ({
            let t = doc_tokens_from(b, i)->0;
            &&& t.len() >= 1
            &&& t[0].0 == i
            &&& i < t[0].1 <= b.len()
            &&& doc_token_shaped(b, t[0])
            &&& doc_tokens_from(b, t[0].1 as int) == Some(t.skip(1))
        }),
{
    lemma_scans(b, i + 1);
    lemma_scans(b, i);
    let c = b[i];
    let t = doc_tokens_from(b, i)->0;
    if c == 37 {
        lemma_scan_newline_shape(b, i);
        let e = scan_newline(b, i);
        assert(t.skip(1) =~= doc_tokens_from(b, e)->0);
    } else if c == 92 {
        let e = if i + 1 < b.len() && is_alpha_byte(b[i + 1]) {
            lemma_scan_alnum_shape(b, i + 1);
            scan_alnum(b, i + 1)
        } else if i + 1 < b.len() {
            i + 2
        } else {
            i + 1
        };
        assert(t.skip(1) =~= doc_tokens_from(b, e)->0);
    } else if c == 36 {
        let block = i + 1 < b.len() && b[i + 1] == 36;
        let start = if block { i + 2 } else { i + 1 };
        lemma_scans(b, start);
        lemma_scan_math_shape(b, start, block);
        let e = scan_math(b, start, block)->0;
        assert(t.skip(1) =~= doc_tokens_from(b, e)->0);
    } else if c == 123 || c == 125 || c == 91 || c == 93 {
        assert(t.skip(1) =~= doc_tokens_from(b, i + 1)->0);
    } else {
        lemma_scan_number_shape(b, i);
        let e = scan_number(b, i);
        assert(t.skip(1) =~= doc_tokens_from(b, e)->0);
    }
}

/// A plain byte starts no token.
proof fn lemma_doc_plain_step(b: Seq<u8>, i: int)
    requires
        0 <= i < b.len(),
        is_plain_byte(b[i]),
    ensures
        doc_tokens_from(b, i) == doc_tokens_from(b, i + 1),
{
}

/// Every token of `t` has the shape of its kind.
pub open spec fn doc_tokens_shaped(b: Seq<u8>, t: Seq<Tok>) -> bool {
    forall|k: int| 0 <= k < t.len() ==> doc_token_shaped(b, #[trigger] t[k])
}

/// Every byte of `b[lo..]` that no token of `t` covers begins no token.
pub open spec fn gaps_plain(b: Seq<u8>, t: Seq<Tok>, lo: int) -> bool {
    forall|p: int| lo <= p < b.len() && !tok_covers(t, p) ==> is_plain_byte(#[trigger] b[p])
}

proof fn lemma_shapes_cons(b: Seq<u8>, i: int, t: Seq<Tok>)
    requires
        t.len() >= 1,
        t[0].0 == i,
        i < t[0].1,
        doc_token_shaped(b, t[0]),
        doc_tokens_shaped(b, t.skip(1)),
        gaps_plain(b, t.skip(1), t[0].1 as int),
    ensures
        doc_tokens_shaped(b, t),
        gaps_plain(b, t, i),
{
    let r = t.skip(1);
    assert forall|k: int| 0 <= k < t.len() implies doc_token_shaped(b, #[trigger] t[k]) by {
        if k > 0 {
            assert(t[k] == r[k - 1]);
        }
    }
    assert forall|p: int| i <= p < b.len() && !tok_covers(t, p) implies is_plain_byte(#[trigger] b[p]) by {
        assert(t[0].0 <= p < t[0].1 ==> tok_covers(t, p));
        if tok_covers(r, p) {
            let k = choose|k: int| 0 <= k < r.len() && #[trigger] r[k].0 <= p < r[k].1;
            assert(t[k + 1] == r[k]);
            assert(tok_covers(t, p));
        }
    }
}

proof fn lemma_gaps_step(b: Seq<u8>, i: int, t: Seq<Tok>)
    requires
        0 <= i < b.len(),
        is_plain_byte(b[i]),
        gaps_plain(b, t, i + 1),
    ensures
        gaps_plain(b, t, i),
{
}

proof fn lemma_doc_tokens_shaped(b: Seq<u8>, i: int)
    requires
        0 <= i <= b.len(),
        b.len() <= usize::MAX,
    ensures
        doc_tokens_from(b, i) matches Some(t) ==> doc_tokens_shaped(b, t) && gaps_plain(b, t, i),
    decreases b.len() - i,
{
    if i < b.len() && doc_tokens_from(b, i) is Some {
        let t = doc_tokens_from(b, i)->0;
        if is_plain_byte(b[i]) {
            lemma_doc_plain_step(b, i);
            lemma_doc_tokens_shaped(b, i + 1);
            lemma_gaps_step(b, i, t);
        } else {
            lemma_doc_first_token(b, i);
            lemma_doc_tokens_shaped(b, t[0].1 as int);
            lemma_shapes_cons(b, i, t);
        }
    }
}

/// Law: each token of a document has the shape of its kind (so an escaped
/// `\%`, `\$` or `\{` is a two-byte command and starts no comment, math or
/// brace), and every byte outside the tokens is one that begins none.
pub proof fn law_document_token_shapes(b: Seq<u8>)
    requires
        b.len() <= usize::MAX,
    ensures
        latex_tokens_spec(b) matches Some(t) ==> {
            &&& forall|k: int| 0 <= k < t.len() ==> doc_token_shaped(b, #[trigger] t[k])
            &&& forall|p: int| 0 <= p < b.len() && !tok_covers(t, p) ==> is_plain_byte(#[trigger] b[p])
        },
{
    lemma_doc_tokens_shaped(b, 0);
}

/// A highlighted range of a line, seen against the line `b`: a comment runs
/// from `%` to the end of the line; `\begin` and `\end` are environments and
/// every other `\` with a name of letters and digits is a command, as is `\`
/// with the one byte after it; braces, brackets and numbers are as in a
/// document; inline math runs from `$` through the next `$` (or up to the
/// end of the line), and block math from `$$` through the next `$$` (or to
/// the end of the line, when none closes it there).
pub open spec fn line_token_shaped(b: Seq<u8>, t: HTok) -> bool {
    let s = t.0.start as int;
    let e = t.0.end as int;
    let named = s + 1 < b.len() && is_alpha_byte(b[s + 1]) && s + 1 < e && alnum_run(b, s + 1, e);
    let env_name = b.subrange(s + 1, e) =~= seq![98u8, 101u8, 103u8, 105u8, 110u8] || b.subrange(s + 1, e)
        =~= seq![101u8, 110u8, 100u8];
    &&& 0 <= s < e <= b.len()
    &&& match t.1 {
        TokenKind::Comment => b[s] == 37 && e == b.len(),
        TokenKind::Environment => b[s] == 92 && named && env_name,
        TokenKind::Command => b[s] == 92 && s + 1 < b.len() && if is_alpha_byte(b[s + 1]) {
            named && !env_name
        } else {
            e == s + 2
        },
        TokenKind::Brace => e == s + 1 && (b[s] == 123 || b[s] == 125),
        TokenKind::Bracket => e == s + 1 && (b[s] == 91 || b[s] == 93),
        TokenKind::Number => is_digit_byte(b[s]) && number_run(b, s, e),
        TokenKind::MathInline => b[s] == 36 && !(s + 1 < b.len() && b[s + 1] == 36) && ((s + 2 <= e && b[e
            - 1] == 36 && lacks(b, s + 1, e - 1, 36) && lacks(b, s + 1, e - 1, 10)) || ((e == b.len()
            || b[e] == 10) && lacks(b, s + 1, e, 36) && lacks(b, s + 1, e, 10))),
        TokenKind::MathBlock => b[s] == 36 && s + 1 < b.len() && b[s + 1] == 36 && ((e == b.len()
            && lacks_dollars(b, s + 2, e)) || (s + 4 <= e && b[e - 2] == 36 && b[e - 1] == 36
            && lacks_dollars(b, s + 2, e - 2))),
        _ => false,
    }
}

/// A byte of a line that begins no highlighted range: a plain byte, or a
/// `\` that ends the line.
pub open spec fn is_plain_in_line(b: Seq<u8>, p: int) -> bool {
    is_plain_byte(b[p]) || (b[p] == 92 && p + 1 == b.len())
}

/// The ranges of a line's tokenizing outcome (none when it panics).
pub open spec fn ranges_of(o: Option<(Seq<HTok>, bool)>) -> Seq<HTok> {
    match o {
        Some((t, _)) => t,
        None => seq![],
    }
}

/// Some range of `t` covers byte `p`.
pub open spec fn range_covers(t: Seq<HTok>, p: int) -> bool {
    exists|k: int| 0 <= k < t.len() && #[trigger] t[k].0.start <= p < t[k].0.end
}

pub open spec fn line_tokens_shaped(b: Seq<u8>, t: Seq<HTok>) -> bool {
    forall|k: int| 0 <= k < t.len() ==> line_token_shaped(b, #[trigger] t[k])
}

pub open spec fn line_gaps_plain(b: Seq<u8>, t: Seq<HTok>, lo: int) -> bool {
    forall|p: int| lo <= p < b.len() && !range_covers(t, p) ==> #[trigger] is_plain_in_line(b, p)
}

proof fn lemma_line_plain_step(b: Seq<u8>, i: int)
    requires
        0 <= i < b.len(),
        is_plain_in_line(b, i),
    ensures
        line_tokens_from(b, i) == line_tokens_from(b, i + 1),
{
}

/// The first range that a byte at `i` which is not plain starts, and the rest.
#[verifier::spinoff_prover]
#[verifier::rlimit(40)]
proof fn lemma_line_first_token(b: Seq<u8>, i: int)
    requires
        0 <= i < b.len(),
        b.len() <= usize::MAX,
        !is_plain_in_line(b, i),
        line_tokens_from(b, i) is Some,
    ensures
        ({
            let t = ranges_of(line_tokens_from(b, i));
            &&& t.len() >= 1
            &&& t[0].0.start == i
            &&& i < t[0].0.end <= b.len()
            &&& line_token_shaped(b, t[0])
            &&& line_tokens_from(b, t[0].0.end as int) matches Some((r, _)) && r == t.skip(1)
        }),
{
    lemma_scans(b, i);
    lemma_scans(b, i + 1);
    let c = b[i];
    let t = ranges_of(line_tokens_from(b, i));
    if c == 37 {
        assert(t.skip(1) =~= Seq::<HTok>::empty());
    } else if c == 92 {
        if is_alpha_byte(b[i + 1]) {
            lemma_scan_alnum_shape(b, i + 1);
            let e = scan_alnum(b, i + 1);
            assert(t.skip(1) =~= ranges_of(line_tokens_from(b, e)));
        } else {
            assert(t.skip(1) =~= ranges_of(line_tokens_from(b, i + 2)));
        }
    } else if c == 36 {
        if i + 1 < b.len() && b[i + 1] == 36 {
            lemma_scans(b, i + 2);
            lemma_find_dollars_shape(b, i + 2);
            let k = find_dollars(b, i + 2);
            if k < b.len() {
                assert(t.skip(1) =~= ranges_of(line_tokens_from(b, k + 2)));
            } else {
                assert(t.skip(1) =~= Seq::<HTok>::empty());
            }
        } else {
            lemma_scan_inline_shape(b, i + 1);
            let e = scan_inline(b, i + 1);
            let e2 = if e < b.len() && b[e] == 36 { e + 1 } else { e };
            assert(t.skip(1) =~= ranges_of(line_tokens_from(b, e2)));
        }
    } else if c == 123 || c == 125 || c == 91 || c == 93 {
        assert(t.skip(1) =~= ranges_of(line_tokens_from(b, i + 1)));
    } else {
        lemma_scan_number_shape(b, i);
        let e = scan_number(b, i);
        assert(t.skip(1) =~= ranges_of(line_tokens_from(b, e)));
    }
}

proof fn lemma_line_shapes_cons(b: Seq<u8>, i: int, t: Seq<HTok>)
    requires
        t.len() >= 1,
        t[0].0.start == i,
        i < t[0].0.end,
        line_token_shaped(b, t[0]),
        line_tokens_shaped(b, t.skip(1)),
        line_gaps_plain(b, t.skip(1), t[0].0.end as int),
    ensures
        line_tokens_shaped(b, t),
        line_gaps_plain(b, t, i),
{
    let r = t.skip(1);
    assert forall|k: int| 0 <= k < t.len() implies line_token_shaped(b, #[trigger] t[k]) by {
        if k > 0 {
            assert(t[k] == r[k - 1]);
        }
    }
    assert forall|p: int| i <= p < b.len() && !range_covers(t, p) implies #[trigger] is_plain_in_line(b, p) by {
        assert(t[0].0.start <= p < t[0].0.end ==> range_covers(t, p));
        if range_covers(r, p) {
            let k = choose|k: int| 0 <= k < r.len() && #[trigger] r[k].0.start <= p < r[k].0.end;
            assert(t[k + 1] == r[k]);
            assert(range_covers(t, p));
        }
    }
}

proof fn lemma_line_tokens_shaped(b: Seq<u8>, i: int)
    requires
        0 <= i <= b.len(),
        b.len() <= usize::MAX,
    ensures
        line_tokens_from(b, i) matches Some((t, _)) ==> line_tokens_shaped(b, t) && line_gaps_plain(b, t, i),
    decreases b.len() - i,
{
    if i < b.len() && line_tokens_from(b, i) is Some {
        let t = ranges_of(line_tokens_from(b, i));
        if is_plain_in_line(b, i) {
            lemma_line_plain_step(b, i);
            lemma_line_tokens_shaped(b, i + 1);
            assert(line_gaps_plain(b, t, i));
        } else {
            lemma_line_first_token(b, i);
            lemma_line_tokens_shaped(b, t[0].0.end as int);
            lemma_line_shapes_cons(b, i, t);
        }
    }
}

/// Law: the highlighted ranges of a line have the shapes of their kinds
/// (so `\begin` and `\end` are environments, any other named `\` a
/// command), and every byte outside them begins none.  When a `$$` block
/// runs on from the previous line, the first range is that block, up to and
/// including the first `$$` of the line (or the whole line), and the rest
/// is tokenized from there.
pub proof fn law_line_token_shapes(b: Seq<u8>, in_math: bool)
    requires
        b.len() <= usize::MAX,
    ensures
        line_tokens_spec(b, in_math) matches Some((t, _)) ==> {
            let lead: int = if in_math { 1 } else { 0 };
            let body: int = if in_math { t[0].0.end as int } else { 0 };
            &&& t.len() >= lead
            &&& in_math ==> t[0].1 == TokenKind::MathBlock && t[0].0.start == 0 && ((t[0].0.end == b.len()
                && lacks_dollars(b, 0, b.len() as int)) || (2 <= t[0].0.end <= b.len() && b[t[0].0.end - 2] == 36
                && b[t[0].0.end - 1] == 36 && lacks_dollars(b, 0, t[0].0.end - 2)))
            &&& forall|k: int| lead <= k < t.len() ==> line_token_shaped(b, #[trigger] t[k])
            &&& forall|p: int| body <= p < b.len() && !range_covers(t, p) ==> #[trigger] is_plain_in_line(b, p)
        },
{
    lemma_scans(b, 0);
    lemma_find_dollars_shape(b, 0);
    let ce = carried_block_end(b, in_math);
    lemma_line_tokens_shaped(b, ce);
    if let Some((t, _)) = line_tokens_spec(b, in_math) {
        let r = ranges_of(line_tokens_from(b, ce));
        let lead: int = if in_math { 1 } else { 0 };
        assert(t.skip(lead) =~= r);
        assert forall|k: int| lead <= k < t.len() implies line_token_shaped(b, #[trigger] t[k]) by {
            assert(t[k] == r[k - lead]);
        }
        assert forall|p: int| ce <= p < b.len() && !range_covers(t, p) implies #[trigger] is_plain_in_line(b, p) by {
            if range_covers(r, p) {
                let k = choose|k: int| 0 <= k < r.len() && #[trigger] r[k].0.start <= p < r[k].0.end;
                assert(t[k + lead] == r[k]);
                assert(range_covers(t, p));
            }
        }
    }
}

/// The last range of `t` is a `$$` block that reaches the end of the line
/// with no `$$` after its opening one (`from` is where its body starts).
pub open spec fn ends_in_open_block(b: Seq<u8>, t: Seq<HTok>, from: int) -> bool {
    &&& t.len() > 0
    &&& t.last().1 == TokenKind::MathBlock
    &&& t.last().0.end == b.len()
    &&& lacks_dollars(b, from, b.len() as int)
}

proof fn lemma_line_open_flag(b: Seq<u8>, i: int)
    requires
        0 <= i <= b.len(),
        b.len() <= usize::MAX,
    ensures
        line_tokens_from(b, i) matches Some((t, open)) ==> open == ends_in_open_block(b, t, t.last().0.start + 2),
    decreases b.len() - i,
{
    if i < b.len() && line_tokens_from(b, i) is Some {
        lemma_scans(b, i);
        lemma_scans(b, i + 1);
        let (t, open) = line_tokens_from(b, i)->0;
        let c = b[i];
        if is_plain_in_line(b, i) {
            lemma_line_plain_step(b, i);
            lemma_line_open_flag(b, i + 1);
        } else if c == 37 {
        } else {
            lemma_line_first_token(b, i);
            let e = t[0].0.end as int;
            if c == 36 && i + 1 < b.len() && b[i + 1] == 36 {
                lemma_scans(b, i + 2);
                lemma_find_dollars_shape(b, i + 2);
                let k = find_dollars(b, i + 2);
                if k >= b.len() {
                    assert(t.last() == t[0]);
                    return;
                }
                assert(!lacks_dollars(b, i + 2, b.len() as int)) by {
                    assert(b[k] == 36 && k + 1 < b.len() && b[k + 1] == 36);
                }
            }
            lemma_line_open_flag(b, e);
            let (r, open2) = line_tokens_from(b, e)->0;
            assert(line_tokens_from(b, i) == cons_line(t[0], line_tokens_from(b, e)));
            assert(open == open2);
            if r.len() > 0 {
                assert(t.last() == r.last());
            } else {
                assert(t.last() == t[0]);
            }
        }
    }
}

/// Law: after a line, a `$$` block is open exactly when the line ends inside
/// one: the block that ran on into the line found no closing `$$`, or the
/// line's last range is a `$$` block opened on it with no `$$` after it.
pub proof fn law_block_open_after_line(b: Seq<u8>, in_math: bool)
    requires
        b.len() <= usize::MAX,
    ensures
        line_tokens_spec(b, in_math) matches Some((t, open)) ==> open == ends_in_open_block(b, t, if in_math
            && t.len() == 1 {
            0
        } else {
            t.last().0.start + 2
        }),
{
    lemma_scans(b, 0);
    lemma_find_dollars_shape(b, 0);
    let ce = carried_block_end(b, in_math);
    lemma_line_open_flag(b, ce);
    if let Some((t, open)) = line_tokens_spec(b, in_math) {
        let (r, open2) = line_tokens_from(b, ce)->0;
        let lead: Seq<HTok> = if in_math { seq![(rng(0, ce), TokenKind::MathBlock)] } else { seq![] };
        assert(t == lead + r);
        if in_math {
            let k = find_dollars(b, 0);
            if k >= b.len() {
                assert(r.len() == 0);
                assert(t =~= lead);
            } else {
                assert(!lacks_dollars(b, 0, b.len() as int)) by {
                    assert(b[k] == 36 && k + 1 < b.len() && b[k + 1] == 36);
                }
                if r.len() > 0 {
                    assert(t.last() == r.last());
                } else {
                    assert(t =~= lead);
                }
            }
        } else {
            assert(t =~= r);
        }
    }
}

} // verus!
