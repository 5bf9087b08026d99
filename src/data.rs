use vstd::prelude::*;
use crate::las_items::strings_view;
use crate::text::{chars_of, copy_range, lemma_run_end_bounds, run_end, scan_run, substring, CharClass};
use ndarray::{Array2, ShapeError};
use rayon::iter::{IntoParallelRefIterator, ParallelIterator};

verus! {

pub open spec fn is_sign(c: char) -> bool {
    c == '+' || c == '-'
}

/// `s` spells the word given in lower case by `lo` and in upper case by `up`,
/// in any mix of the two.
pub open spec fn is_word_ci(s: Seq<char>, lo: Seq<char>, up: Seq<char>) -> bool {
    s.len() == lo.len() && forall|i: int| 0 <= i < s.len() ==> (s[i] == lo[i] || s[i] == up[i])
}

/// `e` is an exponent: `e` or `E`, an optional sign, then one digit or more.
pub open spec fn is_exponent(e: Seq<char>) -> bool {
    let j: int = if e.len() > 1 && is_sign(e[1]) { 2 } else { 1 };
    e.len() > 0 && (e[0] == 'e' || e[0] == 'E') && j < e.len() && run_end(e, j, CharClass::Digit)
        == e.len()
}

/// `n` is digits, an optional `.` with digits after it, at least one digit in
/// all, and then an optional exponent.
pub open spec fn is_decimal(n: Seq<char>) -> bool {
    let a = run_end(n, 0, CharClass::Digit);
    let dot = a < n.len() && n[a] == '.';
    let b = if dot { run_end(n, a + 1, CharClass::Digit) } else { a };
    let ndigits = if dot { a + (b - a - 1) } else { a };
    ndigits > 0 && (b == n.len() || is_exponent(n.subrange(b, n.len() as int)))
}

/// The words that `str::parse` reads as a floating-point number: an optional
/// sign, then a decimal number, `inf`, `infinity` or `nan` (letters in any case).
pub open spec fn is_float_literal(s: Seq<char>) -> bool {
    let u = if s.len() > 0 && is_sign(s[0]) { s.drop_first() } else { s };
    is_decimal(u) || is_word_ci(u, seq!['i', 'n', 'f'], seq!['I', 'N', 'F']) || is_word_ci(
        u,
        seq!['i', 'n', 'f', 'i', 'n', 'i', 't', 'y'],
        seq!['I', 'N', 'F', 'I', 'N', 'I', 'T', 'Y'],
    ) || is_word_ci(u, seq!['n', 'a', 'n'], seq!['N', 'A', 'N'])
}

fn matches_word_ci(s: &Vec<char>, start: usize, lo: &[char], up: &[char]) -> (r: bool)
    requires
        start <= s@.len(),
        lo@.len() == up@.len(),
    ensures
        r == is_word_ci(s@.subrange(start as int, s@.len() as int), lo@, up@),
{
    let ghost u = s@.subrange(start as int, s@.len() as int);
    if s.len() - start != lo.len() {
        return false;
    }
    let mut i: usize = 0;
    while i < lo.len()
        invariant
            start <= s@.len(),
            s@.len() - start == lo@.len(),
            s@.len() <= usize::MAX,
            lo@.len() == up@.len(),
            u == s@.subrange(start as int, s@.len() as int),
            0 <= i <= lo@.len(),
            forall|j: int| 0 <= j < i ==> (u[j] == lo@[j] || u[j] == up@[j]),
        decreases lo@.len() - i,
    {
        let c = s[start + i];
        if !(c == lo[i] || c == up[i]) {
            return false;
        }
        i = i + 1;
    }
    true
}

proof fn lemma_run_end_shift(s: Seq<char>, lo: int, i: int, k: CharClass)
    requires
        0 <= lo <= i <= s.len(),
    ensures
        run_end(s.subrange(lo, s.len() as int), i - lo, k) == run_end(s, i, k) - lo,
    decreases s.len() - i,
{
    if i < s.len() && in_class_at(s, i, k) {
        lemma_run_end_shift(s, lo, i + 1, k);
    }
}

spec fn in_class_at(s: Seq<char>, i: int, k: CharClass) -> bool {
    crate::text::in_class(k, s[i])
}

/// Decides `is_exponent` for `w[b..]`.
fn exponent_at(w: &Vec<char>, b: usize) -> (r: bool)
    requires
        b < w@.len(),
    ensures
        r == is_exponent(w@.subrange(b as int, w@.len() as int)),
{
    let n = w.len();
    let ghost e = w@.subrange(b as int, n as int);
    assert(w@.subrange(0, n as int) =~= w@);
    if !(w[b] == 'e' || w[b] == 'E') {
        return false;
    }
    let j: usize = if n - b > 1 && (w[b + 1] == '+' || w[b + 1] == '-') { b + 2 } else { b + 1 };
    if j >= n {
        return false;
    }
    proof {
        lemma_run_end_shift(w@, b as int, j as int, CharClass::Digit);
    }
    let d = scan_run(w, j, n, CharClass::Digit);
    d == n
}

/// Decides `is_decimal` for `w[lo..]`.
fn decimal_at(w: &Vec<char>, lo: usize) -> (r: bool)
    requires
        lo <= w@.len(),
    ensures
        r == is_decimal(w@.subrange(lo as int, w@.len() as int)),
{
    let n = w.len();
    let ghost u = w@.subrange(lo as int, n as int);
    assert(w@.subrange(0, n as int) =~= w@);
    proof {
        lemma_run_end_shift(w@, lo as int, lo as int, CharClass::Digit);
    }
    let a = scan_run(w, lo, n, CharClass::Digit);
    let dot = a < n && w[a] == '.';
    let b = if dot {
        proof {
            lemma_run_end_shift(w@, lo as int, a + 1, CharClass::Digit);
        }
        scan_run(w, a + 1, n, CharClass::Digit)
    } else {
        a
    };
    let ndigits = if dot { (a - lo) + (b - a - 1) } else { a - lo };
    if ndigits == 0 {
        return false;
    }
    if b == n {
        return true;
    }
    assert(u.subrange(b - lo, u.len() as int) =~= w@.subrange(b as int, n as int));
    exponent_at(w, b)
}

/// Decides `is_float_literal` for a word.
pub fn float_literal(w: &Vec<char>) -> (r: bool)
    ensures
        r == is_float_literal(w@),
{
    let n = w.len();
    let lo: usize = if n > 0 && (w[0] == '+' || w[0] == '-') { 1 } else { 0 };
    assert(w@.subrange(lo as int, n as int) == (if w@.len() > 0 && is_sign(w@[0]) {
        w@.drop_first()
    } else {
        w@
    }));
    matches_word_ci(w, lo, &['i', 'n', 'f'], &['I', 'N', 'F']) || matches_word_ci(
        w,
        lo,
        &['i', 'n', 'f', 'i', 'n', 'i', 't', 'y'],
        &['I', 'N', 'F', 'I', 'N', 'I', 'T', 'Y'],
    ) || matches_word_ci(w, lo, &['n', 'a', 'n'], &['N', 'A', 'N']) || decimal_at(w, lo)
}

/// The values of row `s` from position `i` on: its whitespace-separated words
/// that are float literals, in order; other words are left out.
pub open spec fn values_from(s: Seq<char>, i: int) -> Seq<Seq<char>>
    decreases s.len() - i,
{
    if i < 0 || i >= s.len() {
        Seq::empty()
    } else if crate::text::is_ws(s[i]) {
        values_from(s, i + 1)
    } else {
        let e = run_end(s, i + 1, CharClass::Word);
        let w = s.subrange(i, e);
        (if is_float_literal(w) { seq![w] } else { Seq::empty() }) + if i < e <= s.len() {
            values_from(s, e)
        } else {
            Seq::empty()
        }
    }
}

/// The numeric values of one data row.
pub open spec fn row_values(s: Seq<char>) -> Seq<Seq<char>> {
    values_from(s, 0)
}

/// Splits a data row at whitespace and keeps the words that are float literals.
pub fn parse_row(line: &str) -> (r: Vec<String>)
    ensures
        strings_view(r@) == row_values(line@),
{
    let s = chars_of(line);
    let n = s.len();
    assert(s@.subrange(0, n as int) =~= s@);
    let mut out: Vec<String> = Vec::new();
    let mut i: usize = 0;
    while i < n
        invariant
            n == s@.len(),
            s@ == line@,
            s@.subrange(0, n as int) == s@,
            i <= n,
            strings_view(out@) + values_from(s@, i as int) == row_values(line@),
        decreases n - i,
    {
        if crate::text::is_whitespace_char(s[i]) {
            i = i + 1;
        } else {
            proof {
                lemma_run_end_bounds(s@, i + 1, CharClass::Word);
            }
            let e = scan_run(&s, i + 1, n, CharClass::Word);
            let w = copy_range(&s, i, e);
            let ghost before = out@;
            let ghost rest = values_from(s@, e as int);
            assert(values_from(s@, i as int) == (if is_float_literal(w@) {
                seq![w@]
            } else {
                Seq::empty()
            }) + rest);
            if float_literal(&w) {
                out.push(substring(&s, i, e));
                assert(strings_view(out@) =~= strings_view(before) + seq![w@]);
            } else {
                assert(strings_view(before) + Seq::<Seq<char>>::empty() =~= strings_view(before));
            }
            assert(strings_view(out@) + rest =~= row_values(line@));
            i = e;
        }
    }
    assert(strings_view(out@) =~= strings_view(out@) + values_from(s@, n as int));
    out
}

/// Relies on rayon's `par_iter` over a `Vec` collected into a `Vec`: an indexed
/// parallel iterator collects its results in the order of its items.
#[verifier::external_body]
pub(crate) fn parse_rows(lines: &Vec<String>) -> (r: Vec<Vec<String>>)
    ensures
        r@.len() == lines@.len(),
        forall|i: int|
            0 <= i < lines@.len() ==> strings_view(#[trigger] r@[i]@) == row_values(lines@[i]@),
{
    lines.par_iter().map(|l| parse_row(l.as_str())).collect()
}

/// Relies on ndarray's `Array2::from_shape_vec`, which lays a vector out as a
/// row-major table and fails unless its length is the product of the shape, and
/// on `columns`, which gives the table's columns in order.
#[verifier::external_body]
pub(crate) fn columns_of(flat: Vec<String>, nrows: usize, ncols: usize) -> (r: Result<Vec<Vec<String>>, ShapeError>)
    ensures
        r is Ok ==> flat@.len() == nrows * ncols,
        flat@.len() == nrows * ncols && nrows <= isize::MAX && ncols <= isize::MAX ==> r is Ok,
        r matches Ok(cols) ==> cols@.len() == ncols && (forall|c: int|
            0 <= c < ncols ==> (#[trigger] cols@[c])@.len() == nrows) && (forall|c: int, k: int|
            0 <= c < ncols && 0 <= k < nrows ==> (#[trigger] cols@[c]@[k])@ == flat@[k * ncols
                + c]@),
{
    match Array2::from_shape_vec((nrows, ncols), flat) {
        Ok(a) => Ok(a.columns().into_iter().map(|c| c.to_vec()).collect()),
        Err(e) => Err(e),
    }
}

/// Relies on `Vec::len`, and on the documented limit of a `Vec`: it never
/// holds more than `isize::MAX` bytes, so never more than `isize::MAX` strings.
#[verifier::external_body]
pub(crate) fn strings_len(v: &Vec<String>) -> (r: usize)
    ensures
        r == v@.len(),
        r <= isize::MAX,
{
    v.len()
}

#[verifier::external_type_specification]
#[verifier::external_body]
pub struct ExShapeError(ShapeError);

} // verus!
