//! Character-level helpers over `str` and `String`, stated over `Seq<char>`.
//!
//! The spec functions here describe the std behaviour that the rest of the
//! library relies on: `str::lines`, `str::trim`, `u32::from_str`,
//! `str::contains` and `char::is_whitespace`.

use vstd::prelude::*;

verus! {

// ------------------------------------------------------------------
// Spec vocabulary
// ------------------------------------------------------------------

/// `char::is_whitespace`: the characters with the Unicode property White_Space.
pub open spec fn is_white(c: char) -> bool {
    let u = c as u32;
    ||| 0x9 <= u <= 0xd
    ||| u == 0x20
    ||| u == 0x85
    ||| u == 0xa0
    ||| u == 0x1680
    ||| 0x2000 <= u <= 0x200a
    ||| u == 0x2028
    ||| u == 0x2029
    ||| u == 0x202f
    ||| u == 0x205f
    ||| u == 0x3000
}

pub open spec fn is_digit(c: char) -> bool {
    '0' <= c <= '9'
}

pub open spec fn digit_value(c: char) -> nat {
    (c as u32 - '0' as u32) as nat
}

/// Decimal value of a string of ASCII digits.
pub open spec fn digits_value(s: Seq<char>) -> nat
    decreases s.len(),
{
    if s.len() == 0 {
        0
    } else {
        digits_value(s.drop_last()) * 10 + digit_value(s.last())
    }
}

pub open spec fn all_digits(s: Seq<char>) -> bool {
    forall|i: int| 0 <= i < s.len() ==> is_digit(#[trigger] s[i])
}

/// What `s.parse::<u32>()` gives: an optional `+`, then one or more ASCII
/// digits whose value fits in a `u32`.
pub open spec fn parse_u32_spec(s: Seq<char>) -> Option<u32> {
    let d = if s.len() > 0 && s[0] == '+' { s.drop_first() } else { s };
    if d.len() > 0 && all_digits(d) && digits_value(d) <= u32::MAX {
        Some(digits_value(d) as u32)
    } else {
        None
    }
}

/// Index of the first non-whitespace character at or after `i`, or `s.len()`.
pub open spec fn skip_white(s: Seq<char>, i: int) -> int
    decreases s.len() - i,
{
    if i >= s.len() || i < 0 {
        if i < 0 { 0 } else { s.len() as int }
    } else if !is_white(s[i]) {
        i
    } else {
        skip_white(s, i + 1)
    }
}

/// End of `s[lo..j]` once trailing whitespace is dropped.
pub open spec fn trim_end_at(s: Seq<char>, lo: int, j: int) -> int
    decreases j - lo,
{
    if j <= lo {
        lo
    } else if !is_white(s[j - 1]) {
        j
    } else {
        trim_end_at(s, lo, j - 1)
    }
}

/// `str::trim`: the string without leading and trailing whitespace.
pub open spec fn trim_spec(s: Seq<char>) -> Seq<char> {
    let a = skip_white(s, 0);
    s.subrange(a, trim_end_at(s, a, s.len() as int))
}

/// Index of the first `'\n'` in `s`, or `s.len()`.
pub open spec fn first_newline(s: Seq<char>) -> nat
    decreases s.len(),
{
    if s.len() == 0 {
        0
    } else if s[0] == '\n' {
        0
    } else {
        1 + first_newline(s.drop_first())
    }
}

/// A line without its terminator: a final `'\r'` is dropped.
pub open spec fn strip_cr(s: Seq<char>) -> Seq<char> {
    if s.len() > 0 && s.last() == '\r' {
        s.drop_last()
    } else {
        s
    }
}

/// `str::lines`: split at `"\n"` and `"\r\n"`; the final terminator is optional.
pub open spec fn lines_spec(s: Seq<char>) -> Seq<Seq<char>>
    decreases s.len(),
{
    if s.len() == 0 {
        seq![]
    } else {
        let k = first_newline(s);
        if k >= s.len() {
            seq![s]
        } else {
            seq![strip_cr(s.take(k as int))] + lines_spec(s.skip(k as int + 1))
        }
    }
}

/// `needle` occurs in `hay` at position `i`.
pub open spec fn occurs_at(hay: Seq<char>, needle: Seq<char>, i: int) -> bool {
    0 <= i && i + needle.len() <= hay.len() && hay.subrange(i, i + needle.len()) == needle
}

/// `str::contains` with a string pattern.
pub open spec fn contains_spec(hay: Seq<char>, needle: Seq<char>) -> bool {
    exists|i: int| occurs_at(hay, needle, i)
}

pub open spec fn ends_with_spec(s: Seq<char>, suffix: Seq<char>) -> bool {
    suffix.len() <= s.len() && s.skip(s.len() - suffix.len()) == suffix
}

pub open spec fn starts_with_spec(s: Seq<char>, prefix: Seq<char>) -> bool {
    prefix.len() <= s.len() && s.take(prefix.len() as int) == prefix
}

// ------------------------------------------------------------------
// Lemmas
// ------------------------------------------------------------------

proof fn lemma_first_newline_bound(s: Seq<char>)
    ensures
        first_newline(s) <= s.len(),
        first_newline(s) < s.len() ==> s[first_newline(s) as int] == '\n',
        forall|i: int| 0 <= i < first_newline(s) ==> s[i] != '\n',
    decreases s.len(),
{
    if s.len() > 0 && s[0] != '\n' {
        lemma_first_newline_bound(s.drop_first());
        assert forall|i: int| 0 <= i < first_newline(s) implies s[i] != '\n' by {
            if i > 0 {
                assert(s[i] == s.drop_first()[i - 1]);
            }
        }
    }
}

proof fn lemma_first_newline_at(s: Seq<char>, k: int)
    requires
        0 <= k <= s.len(),
        forall|i: int| 0 <= i < k ==> s[i] != '\n',
        k < s.len() ==> s[k] == '\n',
    ensures
        first_newline(s) == k,
    decreases s.len(),
{
    if s.len() > 0 && k > 0 {
        lemma_first_newline_at(s.drop_first(), k - 1);
    }
}

proof fn lemma_lines_step(s: Seq<char>, k: int)
    requires
        0 <= k < s.len(),
        forall|i: int| 0 <= i < k ==> s[i] != '\n',
        s[k] == '\n',
    ensures
        lines_spec(s) == seq![strip_cr(s.take(k))] + lines_spec(s.skip(k + 1)),
{
    lemma_first_newline_at(s, k);
}

proof fn lemma_lines_last(s: Seq<char>)
    requires
        forall|i: int| 0 <= i < s.len() ==> s[i] != '\n',
    ensures
        lines_spec(s) == (if s.len() == 0 { seq![] } else { seq![s] }),
{
    if s.len() > 0 {
        lemma_first_newline_at(s, s.len() as int);
    }
}

proof fn lemma_digits_value_push(s: Seq<char>, c: char)
    ensures
        digits_value(s.push(c)) == digits_value(s) * 10 + digit_value(c),
{
    assert(s.push(c).drop_last() =~= s);
}

// ------------------------------------------------------------------
// Exec helpers
// ------------------------------------------------------------------

/// Collects the characters of `s`, in order.
pub fn chars_of(s: &str) -> (r: Vec<char>)
    ensures
        r@ == s@,
{
    let mut out: Vec<char> = Vec::new();
    for c in it: s.chars()
        invariant
            out@ == it.seq().take(it.index() as int),
            it.seq() == s@,
    {
        out.push(c);
    }
    out
}

/// `String::from_iter` over a slice of characters (std's `FromIterator<&char>`
/// for `String`): the string holds exactly those characters, in order.
#[verifier::external_body]
pub(crate) fn string_from_chars(cs: &[char]) -> (r: String)
    ensures
        r@ == cs@,
{
    cs.iter().collect()
}

/// The characters `v[lo..hi]` as a `String`.
pub fn string_of_range(v: &Vec<char>, lo: usize, hi: usize) -> (r: String)
    requires
        lo <= hi <= v.len(),
    ensures
        r@ == v@.subrange(lo as int, hi as int),
{
    let sl = vstd::slice::slice_subrange(v.as_slice(), lo, hi);
    string_from_chars(sl)
}

/// `char::is_whitespace`.
pub fn is_white_char(c: char) -> (b: bool)
    ensures
        b == is_white(c),
{
    let u = c as u32;
    (0x9 <= u && u <= 0xd) || u == 0x20 || u == 0x85 || u == 0xa0 || u == 0x1680 || (0x2000
        <= u && u <= 0x200a) || u == 0x2028 || u == 0x2029 || u == 0x202f || u == 0x205f || u
        == 0x3000
}

/// `str::trim` on a character vector.
pub fn trim_chars(s: &Vec<char>) -> (r: String)
    ensures
        r@ == trim_spec(s@),
{
    let n = s.len();
    let mut a: usize = 0;
    while a < n && is_white_char(s[a])
        invariant
            0 <= a <= n == s@.len(),
            skip_white(s@, 0) == skip_white(s@, a as int),
        decreases n - a,
    {
        a = a + 1;
    }
    let mut b: usize = n;
    while b > a && is_white_char(s[b - 1])
        invariant
            a <= b <= n == s@.len(),
            skip_white(s@, 0) == a,
            trim_end_at(s@, a as int, n as int) == trim_end_at(s@, a as int, b as int),
        decreases b,
    {
        b = b - 1;
    }
    string_of_range(s, a, b)
}

/// `str::trim` followed by an owned copy.
pub fn trim_str(s: &str) -> (r: String)
    ensures
        r@ == trim_spec(s@),
{
    let cs = chars_of(s);
    trim_chars(&cs)
}

/// `str::parse::<u32>` on characters.
pub fn parse_u32_chars(s: &Vec<char>) -> (r: Option<u32>)
    ensures
        r == parse_u32_spec(s@),
{
    let n = s.len();
    let start: usize = if n > 0 && s[0] == '+' { 1 } else { 0 };
    let ghost d = if s@.len() > 0 && s@[0] == '+' { s@.drop_first() } else { s@ };
    assert(d =~= s@.skip(start as int));
    if start >= n {
        return None;
    }
    let mut val: u64 = 0;
    let mut over = false;
    let mut i = start;
    while i < n
        invariant
            start <= i <= n == s@.len(),
            d =~= s@.skip(start as int),
            d == (if s@.len() > 0 && s@[0] == '+' { s@.drop_first() } else { s@ }),
            forall|k: int| start <= k < i ==> is_digit(s@[k]),
            !over ==> val == digits_value(s@.subrange(start as int, i as int)) && val <= u32::MAX,
            over ==> digits_value(s@.subrange(start as int, i as int)) > u32::MAX,
        decreases n - i,
    {
        let c = s[i];
        if !('0' <= c && c <= '9') {
            assert(!all_digits(d)) by {
                assert(d[i - start] == c);
            }
            return None;
        }
        proof {
            assert(s@.subrange(start as int, i + 1) =~= s@.subrange(start as int, i as int).push(c));
            lemma_digits_value_push(s@.subrange(start as int, i as int), c);
        }
        if !over {
            let dv = (c as u32 - '0' as u32) as u64;
            val = val * 10 + dv;
            if val > 0xffff_ffff {
                over = true;
            }
        }
        i = i + 1;
    }
    assert(s@.subrange(start as int, n as int) =~= d);
    assert(all_digits(d)) by {
        assert forall|k: int| 0 <= k < d.len() implies is_digit(#[trigger] d[k]) by {
            assert(d[k] == s@[k + start]);
        }
    }
    if over {
        None
    } else {
        Some(val as u32)
    }
}

/// `str::parse::<u32>`.
pub fn parse_u32(s: &str) -> (r: Option<u32>)
    ensures
        r == parse_u32_spec(s@),
{
    let cs = chars_of(s);
    parse_u32_chars(&cs)
}

/// Does `needle` occur in `hay` at position `i`?
pub fn occurs_at_exec(hay: &Vec<char>, needle: &Vec<char>, i: usize) -> (b: bool)
    ensures
        b == occurs_at(hay@, needle@, i as int),
{
    let m = needle.len();
    if i > hay.len() || m > hay.len() - i {
        return false;
    }
    let mut k: usize = 0;
    while k < m
        invariant
            i + m <= hay@.len(),
            i + m <= hay.len(),
            m == needle@.len(),
            0 <= k <= m,
            forall|j: int| 0 <= j < k ==> hay@[i + j] == needle@[j],
        decreases m - k,
    {
        if hay[i + k] != needle[k] {
            assert(hay@.subrange(i as int, i + m)[k as int] != needle@[k as int]);
            return false;
        }
        k = k + 1;
    }
    assert(hay@.subrange(i as int, i + m) =~= needle@);
    true
}

/// `str::contains` with a string pattern.
pub fn contains_chars(hay: &Vec<char>, needle: &Vec<char>) -> (b: bool)
    ensures
        b == contains_spec(hay@, needle@),
{
    let n = hay.len();
    let m = needle.len();
    if m > n {
        assert forall|i: int| !occurs_at(hay@, needle@, i) by {}
        return false;
    }
    if m == 0 {
        assert(hay@.subrange(0, 0) =~= needle@);
        assert(occurs_at(hay@, needle@, 0));
        return true;
    }
    let mut i: usize = 0;
    while i <= n - m
        invariant
            1 <= m <= n == hay@.len(),
            m == needle@.len(),
            forall|j: int| 0 <= j < i ==> !occurs_at(hay@, needle@, j),
        decreases n - m + 1 - i,
    {
        if occurs_at_exec(hay, needle, i) {
            return true;
        }
        i = i + 1;
    }
    assert forall|j: int| !occurs_at(hay@, needle@, j) by {
        if 0 <= j < i {
        } else {
        }
    }
    false
}

/// `str::lines`, each line as an owned `String`.
pub fn split_lines(s: &str) -> (r: Vec<String>)
    ensures
        r.deep_view() == lines_spec(s@),
{
    let cs = chars_of(s);
    let n = cs.len();
    let mut out: Vec<String> = Vec::new();
    let mut start: usize = 0;
    let mut j: usize = 0;
    assert(cs@.skip(0) =~= cs@);
    assert(out.deep_view() + lines_spec(cs@) =~= lines_spec(cs@));
    while j < n
        invariant
            0 <= start <= j <= n == cs@.len(),
            cs@ == s@,
            forall|k: int| start <= k < j ==> cs@[k] != '\n',
            lines_spec(s@) == out.deep_view() + lines_spec(cs@.skip(start as int)),
        decreases n - j,
    {
        if cs[j] == '\n' {
            let ghost rest = cs@.skip(start as int);
            proof {
                assert forall|i: int| 0 <= i < j - start implies rest[i] != '\n' by {
                    assert(rest[i] == cs@[start + i]);
                }
                lemma_lines_step(rest, (j - start) as int);
                assert(rest.skip(j - start + 1) =~= cs@.skip(j + 1));
                assert(rest.take(j - start) =~= cs@.subrange(start as int, j as int));
            }
            let end = if j > start && cs[j - 1] == '\r' { j - 1 } else { j };
            let line = string_of_range(&cs, start, end);
            proof {
                let raw = cs@.subrange(start as int, j as int);
                assert(line@ == strip_cr(raw)) by {
                    if j > start && cs@[j - 1] == '\r' {
                        assert(raw.drop_last() =~= cs@.subrange(start as int, (j - 1) as int));
                    }
                }
            }
            let ghost before = out.deep_view();
            out.push(line);
            proof {
                assert(out.deep_view() =~= before.push(line@));
                assert(before.push(line@) + lines_spec(cs@.skip(j + 1)) =~= before + (seq![
                    line@,
                ] + lines_spec(cs@.skip(j + 1))));
            }
            start = j + 1;
        }
        j = j + 1;
    }
    let ghost rest = cs@.skip(start as int);
    proof {
        assert forall|i: int| 0 <= i < rest.len() implies rest[i] != '\n' by {
            assert(rest[i] == cs@[start + i]);
        }
        lemma_lines_last(rest);
    }
    if start < n {
        let line = string_of_range(&cs, start, n);
        assert(line@ =~= rest);
        let ghost before = out.deep_view();
        out.push(line);
        assert(out.deep_view() =~= before + seq![rest]);
    } else {
        assert(rest.len() == 0);
        assert(out.deep_view() + seq![] =~= out.deep_view());
    }
    out
}

/// The decimal digits of `n`, without leading zeros.
pub open spec fn decimal_spec(n: nat) -> Seq<char>
    decreases n,
{
    if n < 10 {
        seq![(('0' as u32) + n) as char]
    } else {
        decimal_spec(n / 10).push((('0' as u32) + (n % 10)) as char)
    }
}

/// Formats a number in decimal, as `{}` does.
pub fn decimal_string(n: u64) -> (r: String)
    ensures
        r@ == decimal_spec(n as nat),
{
    let mut digits: Vec<char> = Vec::new();
    let mut m = n;
    assert(digits@.reverse() =~= Seq::<char>::empty());
    assert(decimal_spec(n as nat) =~= decimal_spec(m as nat) + digits@.reverse());
    loop
        invariant
            decimal_spec(n as nat) == decimal_spec(m as nat) + digits@.reverse(),
        ensures
            m < 10,
            decimal_spec(n as nat) == decimal_spec(m as nat) + digits@.reverse(),
        decreases m,
    {
        if m < 10 {
            break;
        }
        let d = (m % 10) as u32;
        let c = char_from_digit(d);
        let ghost before = digits@;
        digits.push(c);
        proof {
            assert(decimal_spec(m as nat) == decimal_spec((m / 10) as nat).push(c));
            assert(digits@.reverse() =~= seq![c] + before.reverse());
            assert(decimal_spec((m / 10) as nat).push(c) + before.reverse() =~= decimal_spec((m / 10) as nat) + (seq![c] + before.reverse()));
        }
        m = m / 10;
    }
    let first = char_from_digit(m as u32);
    let mut out: Vec<char> = Vec::new();
    out.push(first);
    assert(decimal_spec(m as nat) == seq![first]);
    assert(out@ =~= decimal_spec(m as nat));
    let mut k = digits.len();
    while k > 0
        invariant
            0 <= k <= digits@.len(),
            decimal_spec(n as nat) == out@ + digits@.take(k as int).reverse(),
        decreases k,
    {
        let ghost before = out@;
        out.push(digits[k - 1]);
        proof {
            assert(digits@.take(k as int).reverse() =~= seq![digits@[k - 1]] + digits@.take(k - 1).reverse());
            assert(out@ + digits@.take(k - 1).reverse() =~= before + digits@.take(k as int).reverse());
        }
        k = k - 1;
    }
    assert(digits@.take(0).reverse() =~= Seq::<char>::empty());
    assert(out@ + Seq::<char>::empty() =~= out@);
    string_from_chars(out.as_slice())
}

fn char_from_digit(d: u32) -> (c: char)
    requires
        d < 10,
    ensures
        c == (('0' as u32) + d) as char,
        is_digit(c),
        digit_value(c) == d,
{
    let c = if d == 0 { '0' } else if d == 1 { '1' } else if d == 2 { '2' } else if d == 3 { '3' }
    else if d == 4 { '4' } else if d == 5 { '5' } else if d == 6 { '6' } else if d == 7 { '7' }
    else if d == 8 { '8' } else { '9' };
    c
}

proof fn lemma_decimal_digits(n: nat)
    ensures
        all_digits(decimal_spec(n)),
        decimal_spec(n).len() > 0,
        digits_value(decimal_spec(n)) == n,
        decimal_spec(n)[0] != '+',
    decreases n,
{
    let c0 = (('0' as u32) + (n % 10)) as char;
    assert((c0 as u32) == ('0' as u32) + (n % 10));
    if n < 10 {
        assert(decimal_spec(n) == seq![c0]);
        assert(seq![c0].drop_last() =~= Seq::<char>::empty());
        assert(digits_value(Seq::<char>::empty()) == 0);
        assert(digits_value(seq![c0]) == digit_value(c0));
    }
    if n >= 10 {
        lemma_decimal_digits(n / 10);
        let s = decimal_spec(n / 10);
        let c = (('0' as u32) + (n % 10)) as char;
        lemma_digits_value_push(s, c);
        assert(decimal_spec(n) == s.push(c));
        assert forall|i: int| 0 <= i < s.push(c).len() implies is_digit(#[trigger] s.push(c)[i]) by {
            if i < s.len() {
                assert(s.push(c)[i] == s[i]);
            }
        }
    }
}

/// Law: reading back a number formatted in decimal gives the number.
pub proof fn law_parse_decimal(n: u32)
    ensures
        parse_u32_spec(decimal_spec(n as nat)) == Some(n),
{
    lemma_decimal_digits(n as nat);
}

} // verus!
