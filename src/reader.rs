use vstd::prelude::*;
use crate::data::{columns_of, parse_rows, row_values, strings_len};
use crate::las_items::{strings_view, CurveItem, HeaderItem, HeaderItemView};
use crate::ordered::{
    header_map_get_index, header_map_len, lemma_key_index, upsert,
};
use crate::{entries_wf, LASFile, LasError, SectionCurves, SectionItems};
use crate::text::{
    chars_of, copy_range, string_of, lemma_run_end_bounds, run_end, scan_run, substring, trim, trim_range,
    CharClass,
};

verus! {

/// What one line of input is, as a value of the model.
pub ghost enum LineKind {
    Empty,
    Comment,
    SectionTitle(Seq<char>),
    HeaderItem(HeaderItemView),
    DataLine(Seq<char>),
}

/// What one line of input is.
#[derive(Debug, Clone)]
pub enum LineType {
    Empty,
    Comment,
    SectionTitle(String),
    HeaderItem(HeaderItem),
    DataLine(String),
}

impl View for LineType {
    type V = LineKind;

    open spec fn view(&self) -> LineKind {
        match self {
            LineType::Empty => LineKind::Empty,
            LineType::Comment => LineKind::Comment,
            LineType::SectionTitle(s) => LineKind::SectionTitle(s@),
            LineType::HeaderItem(h) => LineKind::HeaderItem(h@),
            LineType::DataLine(s) => LineKind::DataLine(s@),
        }
    }
}

/// The fields of the trimmed header line `t`: a mnemonic (a non-empty run of
/// characters other than whitespace, `.` and `:`), then after optional
/// whitespace a unit where a `.` follows (the run after it of characters other
/// than whitespace and `:`), then after optional whitespace the value up to the
/// first `:`, and the description after it. Value and description are trimmed.
/// There is no item where the mnemonic is empty.
pub open spec fn header_of(t: Seq<char>) -> Option<HeaderItemView> {
    let m = run_end(t, 0, CharClass::Mnemonic);
    let a = run_end(t, m, CharClass::Whitespace);
    let has_unit = a < t.len() && t[a] == '.';
    let ue = if has_unit { run_end(t, a + 1, CharClass::Unit) } else { a };
    let c = run_end(t, ue, CharClass::Whitespace);
    let ve = run_end(t, c, CharClass::NotColon);
    if m == 0 {
        None
    } else {
        Some(HeaderItemView {
            mnemonic: t.subrange(0, m),
            unit: if has_unit { t.subrange(a + 1, ue) } else { Seq::empty() },
            value: trim(t.subrange(c, ve)),
            descr: if ve < t.len() { trim(t.subrange(ve + 1, t.len() as int)) } else { Seq::empty() },
        })
    }
}

/// The kind of a line: blank, a `#` comment, a `~` section title, a header
/// item, or else a data line that holds the trimmed text.
pub open spec fn classify(line: Seq<char>) -> LineKind {
    let t = trim(line);
    if t.len() == 0 {
        LineKind::Empty
    } else if t[0] == '#' {
        LineKind::Comment
    } else if t[0] == '~' {
        LineKind::SectionTitle(trim(t.drop_first()))
    } else {
        match header_of(t) {
            Some(h) => LineKind::HeaderItem(h),
            None => LineKind::DataLine(t),
        }
    }
}

/// Splits a trimmed header line into its fields.
pub fn parse_line_header(t: &Vec<char>) -> (r: Option<HeaderItem>)
    ensures
        match r {
            Some(h) => header_of(t@) == Some(h@),
            None => header_of(t@) is None,
        },
{
    let n = t.len();
    assert(t@.subrange(0, n as int) =~= t@);
    proof {
        lemma_run_end_bounds(t@, 0, CharClass::Mnemonic);
    }
    let m = scan_run(t, 0, n, CharClass::Mnemonic);
    if m == 0 {
        return None;
    }
    proof {
        lemma_run_end_bounds(t@, m as int, CharClass::Whitespace);
    }
    let a = scan_run(t, m, n, CharClass::Whitespace);
    let has_unit = a < n && t[a] == '.';
    let (unit, ue) = if has_unit {
        proof {
            lemma_run_end_bounds(t@, a + 1, CharClass::Unit);
        }
        let ue = scan_run(t, a + 1, n, CharClass::Unit);
        (substring(t, a + 1, ue), ue)
    } else {
        (String::new(), a)
    };
    proof {
        lemma_run_end_bounds(t@, ue as int, CharClass::Whitespace);
    }
    let c = scan_run(t, ue, n, CharClass::Whitespace);
    proof {
        lemma_run_end_bounds(t@, c as int, CharClass::NotColon);
    }
    let ve = scan_run(t, c, n, CharClass::NotColon);
    let (v0, v1) = trim_range(t, c, ve);
    let value = substring(t, v0, v1);
    let descr = if ve < n {
        let (d0, d1) = trim_range(t, ve + 1, n);
        substring(t, d0, d1)
    } else {
        String::new()
    };
    let mnemonic = substring(t, 0, m);
    Some(HeaderItem { mnemonic, unit, value, descr })
}

/// Classifies one line of input.
pub fn parse_line(line: &str) -> (r: LineType)
    ensures
        r@ == classify(line@),
{
    let s = chars_of(line);
    let (lo, hi) = trim_range(&s, 0, s.len());
    assert(s@.subrange(0, s@.len() as int) =~= s@);
    if lo == hi {
        return LineType::Empty;
    }
    let t = copy_range(&s, lo, hi);
    assert(t@.subrange(0, t@.len() as int) =~= t@);
    if t[0] == '#' {
        return LineType::Comment;
    }
    if t[0] == '~' {
        let (a, b) = trim_range(&t, 1, t.len());
        assert(t@.subrange(1, t@.len() as int) =~= t@.drop_first());
        return LineType::SectionTitle(substring(&t, a, b));
    }
    match parse_line_header(&t) {
        Some(h) => LineType::HeaderItem(h),
        None => LineType::DataLine(substring(&t, 0, t.len())),
    }
}


/// The state of a parse after some lines: the header collections, the free
/// text, the title of the current section, every sample read so far in the
/// order of the text, and the row width (0 until a row with a value is seen).
pub ghost struct DocModel {
    pub version: Seq<(Seq<char>, HeaderItemView)>,
    pub well: Seq<(Seq<char>, HeaderItemView)>,
    pub params: Seq<(Seq<char>, HeaderItemView)>,
    pub curves: Seq<(Seq<char>, HeaderItemView)>,
    pub other: Seq<char>,
    pub section: Seq<char>,
    pub values: Seq<Seq<char>>,
    pub ncols: nat,
}

pub open spec fn initial_model() -> DocModel {
    DocModel {
        version: Seq::empty(),
        well: Seq::empty(),
        params: Seq::empty(),
        curves: Seq::empty(),
        other: Seq::empty(),
        section: Seq::empty(),
        values: Seq::empty(),
        ncols: 0,
    }
}

/// The first character of `s` is `lo` or `up`.
pub open spec fn starts_with_ci(s: Seq<char>, lo: char, up: char) -> bool {
    s.len() > 0 && (s[0] == lo || s[0] == up)
}

pub open spec fn ascii_word() -> Seq<char> {
    seq!['A', 'S', 'C', 'I', 'I']
}

/// A section of numeric rows: its title starts with `A` or holds `ASCII`.
pub open spec fn is_data_section(title: Seq<char>) -> bool {
    starts_with_ci(title, 'a', 'A') || exists|i: int|
        0 <= i && i + 5 <= title.len() && #[trigger] title.subrange(i, i + 5) == ascii_word()
}

pub open spec fn add_item(
    e: Seq<(Seq<char>, HeaderItemView)>,
    h: HeaderItemView,
) -> Seq<(Seq<char>, HeaderItemView)> {
    upsert(e, h.mnemonic, h)
}

/// Appends a row's values; the first row with values fixes the width.
pub open spec fn absorb(acc: (Seq<Seq<char>>, nat), row: Seq<Seq<char>>) -> (Seq<Seq<char>>, nat) {
    (acc.0 + row, if acc.1 == 0 { row.len() } else { acc.1 })
}

/// What a classified line does outside a data section.
pub open spec fn route(m: DocModel, k: LineKind) -> DocModel {
    match k {
        LineKind::SectionTitle(title) => DocModel { section: title, ..m },
        LineKind::HeaderItem(h) => if starts_with_ci(m.section, 'v', 'V') {
            DocModel { version: add_item(m.version, h), ..m }
        } else if starts_with_ci(m.section, 'w', 'W') {
            DocModel { well: add_item(m.well, h), ..m }
        } else if starts_with_ci(m.section, 'p', 'P') {
            DocModel { params: add_item(m.params, h), ..m }
        } else if starts_with_ci(m.section, 'c', 'C') {
            DocModel { curves: add_item(m.curves, h), ..m }
        } else {
            m
        },
        LineKind::DataLine(d) => if starts_with_ci(m.section, 'o', 'O') {
            DocModel { other: m.other + d + seq!['\n'], ..m }
        } else {
            m
        },
        _ => m,
    }
}

/// One line of input. Inside a data section a title line ends the section,
/// comments and blank lines are skipped, and any other line is a row.
pub open spec fn step(m: DocModel, line: Seq<char>) -> DocModel {
    let t = trim(line);
    if is_data_section(m.section) && !(t.len() > 0 && t[0] == '~') {
        if t.len() > 0 && t[0] == '#' {
            m
        } else {
            let acc = absorb((m.values, m.ncols), row_values(line));
            DocModel { values: acc.0, ncols: acc.1, ..m }
        }
    } else {
        route(m, classify(line))
    }
}

/// The state after all of `lines`, one after the other.
pub open spec fn run(lines: Seq<Seq<char>>) -> DocModel
    decreases lines.len(),
{
    if lines.len() == 0 {
        initial_model()
    } else {
        step(run(lines.drop_last()), lines.last())
    }
}

/// Values and width after the buffered rows `chunk` are absorbed.
pub open spec fn absorb_rows(acc: (Seq<Seq<char>>, nat), chunk: Seq<Seq<char>>) -> (Seq<Seq<char>>, nat)
    decreases chunk.len(),
{
    if chunk.len() == 0 {
        acc
    } else {
        absorb(absorb_rows(acc, chunk.drop_last()), row_values(chunk.last()))
    }
}

/// The number of whole rows in `values` at `ncols` values a row; a partial
/// last row does not count.
pub open spec fn rows_of(values: Seq<Seq<char>>, ncols: nat) -> nat {
    if ncols > 0 {
        values.len() / ncols
    } else {
        0
    }
}

/// Column `c` of the row-major table of `values`; empty past the row width.
pub open spec fn column(values: Seq<Seq<char>>, ncols: nat, c: int) -> Seq<Seq<char>> {
    if 0 <= c < ncols {
        Seq::new(rows_of(values, ncols), |k: int| values[k * ncols + c])
    } else {
        Seq::empty()
    }
}

/// The curves in order of declaration, the `i`-th with column `i` as samples.
pub open spec fn with_columns(
    curves: Seq<(Seq<char>, HeaderItemView)>,
    values: Seq<Seq<char>>,
    ncols: nat,
) -> Seq<(Seq<char>, (HeaderItemView, Seq<Seq<char>>))> {
    Seq::new(curves.len(), |i: int| (curves[i].0, (curves[i].1, column(values, ncols, i))))
}

pub open spec fn nrows(m: DocModel) -> nat {
    rows_of(m.values, m.ncols)
}

pub open spec fn final_curves(m: DocModel) -> Seq<(Seq<char>, (HeaderItemView, Seq<Seq<char>>))> {
    with_columns(m.curves, m.values, m.ncols)
}

/// `doc` is the document that the lines leading to `m` describe.
pub open spec fn document_of(doc: LASFile, m: DocModel) -> bool {
    doc.version.entries() == m.version && doc.well.entries() == m.well && doc.params.entries()
        == m.params && doc.curves.entries() == final_curves(m) && doc.other@ == m.other
}

fn contains_ascii(s: &Vec<char>) -> (r: bool)
    ensures
        r == exists|i: int|
            0 <= i && i + 5 <= s@.len() && #[trigger] s@.subrange(i, i + 5) == ascii_word(),
{
    let n = s.len();
    if n < 5 {
        return false;
    }
    let mut i: usize = 0;
    while i <= n - 5
        invariant
            n == s@.len(),
            n >= 5,
            i <= n - 4,
            forall|j: int| 0 <= j < i ==> #[trigger] s@.subrange(j, j + 5) != ascii_word(),
        decreases n - i,
    {
        if s[i] == 'A' && s[i + 1] == 'S' && s[i + 2] == 'C' && s[i + 3] == 'I' && s[i + 4] == 'I' {
            assert(s@.subrange(i as int, i + 5) =~= ascii_word());
            return true;
        }
        assert(s@.subrange(i as int, i + 5)[0] == s@[i as int]);
        assert(s@.subrange(i as int, i + 5)[1] == s@[i + 1]);
        assert(s@.subrange(i as int, i + 5)[2] == s@[i + 2]);
        assert(s@.subrange(i as int, i + 5)[3] == s@[i + 3]);
        assert(s@.subrange(i as int, i + 5)[4] == s@[i + 4]);
        i = i + 1;
    }
    false
}

fn first_is(s: &Vec<char>, lo: char, up: char) -> (r: bool)
    ensures
        r == starts_with_ci(s@, lo, up),
{
    s.len() > 0 && (s[0] == lo || s[0] == up)
}

fn data_section(s: &Vec<char>) -> (r: bool)
    ensures
        r == is_data_section(s@),
{
    first_is(s, 'a', 'A') || contains_ascii(s)
}

/// Absorbs a batch of buffered rows, parsed in parallel, in the order of the batch.
fn absorb_batch(values: &mut Vec<String>, ncols: &mut usize, chunk: &Vec<String>)
    ensures
        (strings_view(final(values)@), *final(ncols) as nat) == absorb_rows(
            (strings_view(old(values)@), *old(ncols) as nat),
            strings_view(chunk@),
        ),
{
    let rows = parse_rows(chunk);
    let mut j: usize = 0;
    while j < rows.len()
        invariant
            rows@.len() == chunk@.len(),
            forall|i: int|
                0 <= i < chunk@.len() ==> strings_view(#[trigger] rows@[i]@) == row_values(
                    chunk@[i]@,
                ),
            j <= rows@.len(),
            (strings_view(values@), *ncols as nat) == absorb_rows(
                (strings_view(old(values)@), *old(ncols) as nat),
                strings_view(chunk@.take(j as int)),
            ),
        decreases rows@.len() - j,
    {
        let row = &rows[j];
        let ghost before = strings_view(values@);
        let mut k: usize = 0;
        while k < row.len()
            invariant
                k <= row@.len(),
                strings_view(values@) == before + strings_view(row@.take(k as int)),
            decreases row@.len() - k,
        {
            let ghost prev = values@;
            let cell = row[k].clone();
            values.push(cell);
            assert(strings_view(values@) =~= strings_view(prev).push(row@[k as int]@));
            assert(strings_view(row@.take(k + 1)) =~= strings_view(row@.take(k as int)).push(
                row@[k as int]@,
            ));
            assert(strings_view(values@) =~= before + strings_view(row@.take(k + 1)));
            k = k + 1;
        }
        if *ncols == 0 {
            *ncols = row.len();
        }
        proof {
            assert(row@.take(row@.len() as int) =~= row@);
            assert(strings_view(chunk@.take(j + 1)).drop_last() =~= strings_view(
                chunk@.take(j as int),
            ));
        }
        j = j + 1;
    }
    assert(chunk@.take(j as int) =~= chunk@);
}

/// The largest number of data rows buffered before a batch is parsed.
const CHUNK_SIZE: usize = 10000;

proof fn lemma_run_step(lines: Seq<Seq<char>>, i: int)
    requires
        0 <= i < lines.len(),
    ensures
        run(lines.take(i + 1)) == step(run(lines.take(i)), lines[i]),
{
    assert(lines.take(i + 1).drop_last() =~= lines.take(i));
}

proof fn lemma_absorb_rows_push(acc: (Seq<Seq<char>>, nat), chunk: Seq<Seq<char>>, l: Seq<char>)
    ensures
        absorb_rows(acc, chunk.push(l)) == absorb(absorb_rows(acc, chunk), row_values(l)),
{
    assert(chunk.push(l).drop_last() =~= chunk);
}

proof fn lemma_cell_index(k: int, c: int, nrows: int, ncols: int)
    requires
        0 <= k < nrows,
        0 <= c < ncols,
    ensures
        0 <= k * ncols + c < nrows * ncols,
{
    assert(0 <= k * ncols) by (nonlinear_arith)
        requires
            0 <= k,
            0 <= ncols,
    ;
    assert(k * ncols + c < nrows * ncols) by (nonlinear_arith)
        requires
            k < nrows,
            c < ncols,
            0 <= k,
            0 <= c,
    ;
}


fn clone_strings(v: &Vec<String>) -> (r: Vec<String>)
    ensures
        strings_view(r@) == strings_view(v@),
{
    let mut out: Vec<String> = Vec::new();
    let mut k: usize = 0;
    while k < v.len()
        invariant
            k <= v@.len(),
            strings_view(out@) == strings_view(v@.take(k as int)),
        decreases v@.len() - k,
    {
        let ghost prev = out@;
        let cell = v[k].clone();
        out.push(cell);
        assert(strings_view(out@) =~= strings_view(prev).push(v@[k as int]@));
        assert(strings_view(v@.take(k + 1)) =~= strings_view(v@.take(k as int)).push(
            v@[k as int]@,
        ));
        k = k + 1;
    }
    assert(v@.take(k as int) =~= v@);
    out
}

/// Builds the curves from their declarations and the flat buffer of samples:
/// the buffer is read as a row-major table `ncols` wide (a partial last row is
/// dropped), and the `i`-th declared curve takes column `i`. Curves past the
/// width get no samples; columns past the curves are dropped.
pub fn assemble_curves(meta: &SectionItems, values: Vec<String>, ncols: usize) -> (r: Result<
    SectionCurves,
    LasError,
>)
    requires
        meta.wf(),
    ensures
        r matches Ok(c) && c.entries() == with_columns(
            meta.entries(),
            strings_view(values@),
            ncols as nat,
        ),
{
    let ghost vals = strings_view(values@);
    let ghost e = meta.entries();
    let count = header_map_len(&meta.items);
    let mut cols: Vec<Vec<String>> = Vec::new();
    let n = strings_len(&values);
    let mut nr: usize = 0;
    if ncols > 0 {
        nr = n / ncols;
    }
    if nr > 0 {
        assert(nr * ncols <= n && ncols <= nr * ncols) by (nonlinear_arith)
            requires
                nr == n as int / (ncols as int),
                ncols > 0,
                nr > 0,
        ;
        let mut flat = values;
        flat.truncate(nr * ncols);
        match columns_of(flat, nr, ncols) {
            Ok(c) => {
                proof {
                    assert forall|ci: int, k: int| 0 <= ci < ncols && 0 <= k < nr implies (
                    #[trigger] c@[ci]@[k])@ == vals[k * ncols + ci] by {
                        lemma_cell_index(k, ci, nr as int, ncols as int);
                    }
                }
                cols = c;
            },
            Err(_) => {
                return Err(LasError::Shape);
            },
        }
    }
    let ghost target = with_columns(e, vals, ncols as nat);
    let mut curves = SectionCurves::new();
    let mut i: usize = 0;
    while i < count
        invariant
            count == e.len(),
            e == meta.entries(),
            entries_wf(e),
            i <= count,
            target == with_columns(e, vals, ncols as nat),
            nr == rows_of(vals, ncols as nat),
            nr > 0 ==> cols@.len() == ncols && (forall|
                c: int,
            | 0 <= c < ncols ==> (#[trigger] cols@[c])@.len() == nr) && (forall|c: int, k: int|
                0 <= c < ncols && 0 <= k < nr ==> (#[trigger] cols@[c]@[k])@ == vals[k * ncols
                    + c]),
            curves.entries() == target.take(i as int),
        decreases count - i,
    {
        match header_map_get_index(&meta.items, i) {
            Some((_, h)) => {
                let data = if i < ncols && nr > 0 {
                    clone_strings(&cols[i])
                } else {
                    Vec::new()
                };
                assert(strings_view(data@) =~= column(vals, ncols as nat, i as int));
                let curve = CurveItem {
                    mnemonic: h.mnemonic.clone(),
                    unit: h.unit.clone(),
                    value: h.value.clone(),
                    descr: h.descr.clone(),
                    data,
                };
                let ghost before = curves.entries();
                proof {
                    lemma_key_index(before, curve.mnemonic@);
                    assert(forall|j: int|
                        0 <= j < before.len() ==> before[j].0 == e[j].0 && e[j].0 != e[i as int].0);
                }
                curves.insert(curve);
                assert(curves.entries() =~= target.take(i + 1));
            },
            None => {},
        }
        i = i + 1;
    }
    assert(target.take(i as int) =~= target);
    Ok(curves)
}


fn append_chars(dst: &mut Vec<char>, src: &Vec<char>)
    ensures
        final(dst)@ == old(dst)@ + src@,
{
    let mut j: usize = 0;
    while j < src.len()
        invariant
            j <= src@.len(),
            dst@ == old(dst)@ + src@.take(j as int),
        decreases src@.len() - j,
    {
        dst.push(src[j]);
        assert(src@.take(j + 1) =~= src@.take(j as int).push(src@[j as int]));
        j = j + 1;
    }
    assert(src@.take(j as int) =~= src@);
}

/// The parse state between lines, beside the document being filled.
struct Router {
    las: LASFile,
    curve_meta: SectionItems,
    other: Vec<char>,
    section: Vec<char>,
    values: Vec<String>,
    ncols: usize,
    chunk: Vec<String>,
}

impl Router {
    /// The state agrees with `m`, once the buffered rows are absorbed.
    spec fn models(&self, m: DocModel) -> bool {
        &&& self.las.version.entries() == m.version
        &&& self.las.well.entries() == m.well
        &&& self.las.params.entries() == m.params
        &&& self.curve_meta.entries() == m.curves
        &&& self.other@ == m.other
        &&& self.section@ == m.section
        &&& absorb_rows((strings_view(self.values@), self.ncols as nat), strings_view(self.chunk@))
            == (m.values, m.ncols)
        &&& self.las.version.wf()
        &&& self.las.well.wf()
        &&& self.las.params.wf()
        &&& self.curve_meta.wf()
    }

    fn flush(&mut self, Ghost(m): Ghost<DocModel>)
        requires
            old(self).models(m),
        ensures
            final(self).models(m),
            final(self).chunk@.len() == 0,
    {
        absorb_batch(&mut self.values, &mut self.ncols, &self.chunk);
        self.chunk.clear();
        assert(strings_view(self.chunk@) =~= Seq::<Seq<char>>::empty());
    }

    /// Takes one line outside a data section.
    fn route_line(&mut self, line: &String, Ghost(m): Ghost<DocModel>)
        requires
            old(self).models(m),
            !is_data_section(old(self).section@) || trim(line@).len() > 0 && trim(line@)[0] == '~',
        ensures
            final(self).models(step(m, line@)),
    {
        match parse_line(line.as_str()) {
            LineType::SectionTitle(title) => {
                if self.chunk.len() > 0 {
                    self.flush(Ghost(m));
                }
                self.section = chars_of(title.as_str());
            },
            LineType::HeaderItem(h) => {
                if first_is(&self.section, 'v', 'V') {
                    self.las.version.insert(h);
                } else if first_is(&self.section, 'w', 'W') {
                    self.las.well.insert(h);
                } else if first_is(&self.section, 'p', 'P') {
                    self.las.params.insert(h);
                } else if first_is(&self.section, 'c', 'C') {
                    self.curve_meta.insert(h);
                }
            },
            LineType::DataLine(d) => {
                if first_is(&self.section, 'o', 'O') {
                    let cs = chars_of(d.as_str());
                    append_chars(&mut self.other, &cs);
                    self.other.push('\n');
                    assert(self.other@ =~= m.other + d@ + seq!['\n']);
                }
            },
            _ => {},
        }
    }

    /// Takes one line of a data section.
    fn data_line(&mut self, line: &String, Ghost(m): Ghost<DocModel>)
        requires
            old(self).models(m),
            is_data_section(old(self).section@),
        ensures
            final(self).models(step(m, line@)),
    {
        let s = chars_of(line.as_str());
        let (lo, hi) = trim_range(&s, 0, s.len());
        assert(s@.subrange(0, s@.len() as int) =~= s@);
        if lo < hi && s[lo] == '~' {
            self.route_line(line, Ghost(m));
        } else if lo < hi && s[lo] == '#' {
        } else {
            let ghost before = self.chunk@;
            self.chunk.push(line.clone());
            proof {
                assert(strings_view(self.chunk@) =~= strings_view(before).push(line@));
                lemma_absorb_rows_push(
                    (strings_view(self.values@), self.ncols as nat),
                    strings_view(before),
                    line@,
                );
            }
            assert(trim(line@) == s@.subrange(lo as int, hi as int));
            if self.chunk.len() >= CHUNK_SIZE {
                self.flush(Ghost(step(m, line@)));
            }
        }
    }
}

/// Parses a document from its lines, given without their line ends.
///
/// One pass over the lines: titles switch the current section, header items go
/// to the collection that the section's first letter names, free text of the
/// other section is kept, and the rows of a data section are read in batches.
/// At the end the samples are spread over the declared curves.
pub fn parse_las_from_lines(lines: &Vec<String>) -> (r: Result<LASFile, LasError>)
    ensures
        r matches Ok(doc) && document_of(doc, run(strings_view(lines@))),
{
    let ghost ls = strings_view(lines@);
    let mut st = Router {
        las: LASFile::new(),
        curve_meta: SectionItems::new(),
        other: Vec::new(),
        section: Vec::new(),
        values: Vec::new(),
        ncols: 0,
        chunk: Vec::new(),
    };
    proof {
        assert(st.other@ =~= initial_model().other);
        assert(st.section@ =~= initial_model().section);
        assert(strings_view(st.values@) =~= Seq::<Seq<char>>::empty());
        assert(strings_view(st.chunk@) =~= Seq::<Seq<char>>::empty());
        assert(st.las.version.entries() =~= initial_model().version);
        assert(st.las.well.entries() =~= initial_model().well);
        assert(st.las.params.entries() =~= initial_model().params);
        assert(st.curve_meta.entries() =~= initial_model().curves);
        assert(ls.take(0) =~= Seq::<Seq<char>>::empty());
    }
    let mut i: usize = 0;
    while i < lines.len()
        invariant
            ls == strings_view(lines@),
            i <= lines@.len(),
            st.models(run(ls.take(i as int))),
        decreases lines@.len() - i,
    {
        let line = &lines[i];
        proof {
            lemma_run_step(ls, i as int);
        }
        if data_section(&st.section) {
            st.data_line(line, Ghost(run(ls.take(i as int))));
        } else {
            st.route_line(line, Ghost(run(ls.take(i as int))));
        }
        i = i + 1;
    }
    assert(ls.take(i as int) =~= ls);
    let ghost m = run(ls);
    st.flush(Ghost(m));
    assert(strings_view(st.values@) == m.values);
    let other = string_of(st.other.as_slice());
    let curves = match assemble_curves(&st.curve_meta, st.values, st.ncols) {
        Ok(c) => c,
        Err(e) => {
            return Err(e);
        },
    };
    let mut las = st.las;
    las.curves = curves;
    las.other = other;
    Ok(las)
}

} // verus!
