use vstd::prelude::*;
use crate::las_items::HeaderItemView;
use crate::reader::add_item;
use crate::ordered::{lemma_key_index, lemma_upsert_unique, upsert};
use crate::reader::{
    classify, document_of, header_of, initial_model, is_data_section, nrows, run, DocModel, LineKind,
};
use crate::text::{
    in_class, is_ws, lemma_run_end_bounds, run_end, trim, trim_end, trim_start, CharClass,
};
use crate::{entries_wf, LASFile};

verus! {

/// Parsing is a function of its input: two parses of the same lines give
/// documents with the same header collections, curves and free text.
pub proof fn lemma_parse_deterministic(a: Seq<Seq<char>>, b: Seq<Seq<char>>, da: LASFile, db: LASFile)
    requires
        a == b,
        document_of(da, run(a)),
        document_of(db, run(b)),
    ensures
        da.version.entries() == db.version.entries(),
        da.well.entries() == db.well.entries(),
        da.params.entries() == db.params.entries(),
        da.curves.entries() == db.curves.entries(),
        da.other@ == db.other@,
{
}

/// Where the data section is at least as wide as the list of curves, every
/// curve holds one sample per whole row: the number of samples read divided by
/// the row width, rounded down.
pub proof fn lemma_series_lengths(lines: Seq<Seq<char>>, doc: LASFile)
    requires
        document_of(doc, run(lines)),
        run(lines).curves.len() <= run(lines).ncols,
    ensures
        doc.curves.entries().len() == run(lines).curves.len(),
        run(lines).ncols > 0 ==> nrows(run(lines)) == run(lines).values.len() / run(lines).ncols,
        forall|i: int|
            0 <= i < doc.curves.entries().len() ==> (#[trigger] doc.curves.entries()[i]).1.1.len()
                == nrows(run(lines)),
{
}

/// Declaring a mnemonic again replaces its item where it stands: the
/// collection keeps its length and order, and only that entry changes.
pub proof fn lemma_redeclare_keeps_position(
    e: Seq<(Seq<char>, HeaderItemView)>,
    h: HeaderItemView,
    i: int,
)
    requires
        entries_wf(e),
        0 <= i < e.len(),
        e[i].0 == h.mnemonic,
    ensures
        upsert(e, h.mnemonic, h).len() == e.len(),
        upsert(e, h.mnemonic, h)[i] == (h.mnemonic, h),
        forall|j: int| 0 <= j < e.len() && j != i ==> upsert(e, h.mnemonic, h)[j] == e[j],
{
    lemma_key_index(e, h.mnemonic);
}

/// A mnemonic not declared before goes after all the others.
pub proof fn lemma_new_mnemonic_goes_last(e: Seq<(Seq<char>, HeaderItemView)>, h: HeaderItemView)
    requires
        forall|j: int| 0 <= j < e.len() ==> e[j].0 != h.mnemonic,
    ensures
        upsert(e, h.mnemonic, h) == e.push((h.mnemonic, h)),
{
    lemma_key_index(e, h.mnemonic);
}


/// A header item written as a line: `MNEM.UNIT VALUE :DESCR`.
pub open spec fn header_line(h: HeaderItemView) -> Seq<char> {
    h.mnemonic + seq!['.'] + h.unit + seq![' '] + h.value + seq![' ', ':'] + h.descr
}

/// An item that its line carries back whole: a mnemonic of characters other
/// than whitespace, `.` and `:` that does not open with `#` or `~`, a unit with
/// no whitespace or `:`, a value with no `:`, and value and description
/// without whitespace at either end.
pub open spec fn writable(h: HeaderItemView) -> bool {
    &&& h.mnemonic.len() > 0
    &&& h.mnemonic[0] != '#' && h.mnemonic[0] != '~'
    &&& forall|i: int| 0 <= i < h.mnemonic.len() ==> in_class(CharClass::Mnemonic, #[trigger] h.mnemonic[i])
    &&& forall|i: int| 0 <= i < h.unit.len() ==> in_class(CharClass::Unit, #[trigger] h.unit[i])
    &&& forall|i: int| 0 <= i < h.value.len() ==> #[trigger] h.value[i] != ':'
    &&& trim(h.value) == h.value
    &&& trim(h.descr) == h.descr
}

proof fn lemma_run_end_exact(s: Seq<char>, i: int, j: int, k: CharClass)
    requires
        0 <= i <= j <= s.len(),
        forall|p: int| i <= p < j ==> in_class(k, #[trigger] s[p]),
        j == s.len() || !in_class(k, s[j]),
    ensures
        run_end(s, i, k) == j,
    decreases j - i,
{
    if i < j {
        lemma_run_end_exact(s, i + 1, j, k);
    }
}

proof fn lemma_trimmed_ends(s: Seq<char>)
    requires
        s.len() > 0,
        !is_ws(s[0]),
        !is_ws(s.last()),
    ensures
        trim(s) == s,
{
}

proof fn lemma_trim_fixed(s: Seq<char>)
    requires
        trim(s) == s,
        s.len() > 0,
    ensures
        !is_ws(s[0]),
        !is_ws(s.last()),
    decreases s.len(),
{
    if is_ws(s[0]) {
        lemma_trim_len(s.drop_first());
        assert(trim_start(s).len() < s.len());
        lemma_trim_end_len(trim_start(s));
    } else {
        assert(trim_start(s) == s);
        if is_ws(s.last()) {
            lemma_trim_end_len(s.drop_last());
        }
    }
}

proof fn lemma_trim_len(s: Seq<char>)
    ensures
        trim_start(s).len() <= s.len(),
    decreases s.len(),
{
    if s.len() > 0 && is_ws(s[0]) {
        lemma_trim_len(s.drop_first());
    }
}

proof fn lemma_trim_end_len(s: Seq<char>)
    ensures
        trim_end(s).len() <= s.len(),
    decreases s.len(),
{
    if s.len() > 0 && is_ws(s.last()) {
        lemma_trim_end_len(s.drop_last());
    }
}

/// Writing a header item as a line and classifying that line gives the item
/// back, for every item that the line format can carry.
pub proof fn lemma_header_line_round_trip(h: HeaderItemView)
    requires
        writable(h),
    ensures
        classify(header_line(h)) == LineKind::HeaderItem(h),
{
    let l = header_line(h);
    let mn = h.mnemonic;
    let un = h.unit;
    let va = h.value;
    let de = h.descr;
    let m = mn.len() as int;
    let ue = m + 1 + un.len();
    let colon = ue + 1 + va.len() + 1;
    assert(l.len() == colon + 1 + de.len());
    assert(forall|p: int| 0 <= p < m ==> l[p] == mn[p]);
    assert(l[m] == '.');
    assert(forall|p: int| 0 <= p < un.len() ==> l[m + 1 + p] == un[p]);
    assert(l[ue] == ' ');
    assert(forall|p: int| 0 <= p < va.len() ==> l[ue + 1 + p] == va[p]);
    assert(l[colon - 1] == ' ');
    assert(l[colon] == ':');
    assert(forall|p: int| 0 <= p < de.len() ==> l[colon + 1 + p] == de[p]);
    if de.len() > 0 {
        lemma_trim_fixed(de);
        assert(l.last() == de.last());
    }
    lemma_trimmed_ends(l);
    assert(trim(l) == l);
    assert(l.subrange(0, m) =~= mn);
    assert(l.subrange(m + 1, ue) =~= un);
    assert(l.subrange(colon + 1, l.len() as int) =~= de);
    lemma_run_end_exact(l, 0, m, CharClass::Mnemonic);
    lemma_run_end_exact(l, m, m, CharClass::Whitespace);
    lemma_run_end_exact(l, m + 1, ue, CharClass::Unit);
    let c = if va.len() > 0 { ue + 1 } else { ue + 2 };
    if va.len() > 0 {
        lemma_trim_fixed(va);
    }
    lemma_run_end_exact(l, ue, c, CharClass::Whitespace);
    lemma_run_end_exact(l, c, colon, CharClass::NotColon);
    if va.len() > 0 {
        let vs = l.subrange(c, colon);
        assert(vs =~= va.push(' '));
        assert(trim_start(vs) == vs);
        assert(vs.drop_last() =~= va);
        assert(trim_end(vs) == trim_end(va));
        assert(trim_start(va) == va);
        assert(trim(vs) == va);
    } else {
        assert(l.subrange(c, colon) =~= Seq::<char>::empty());
        assert(va =~= Seq::<char>::empty());
    }
    assert(header_of(l) == Some(h));
}


/// A header section written as lines: the title line `~` + `title`, then one
/// line per entry, in order.
pub open spec fn section_lines(title: char, e: Seq<(Seq<char>, HeaderItemView)>) -> Seq<Seq<char>> {
    seq![seq!['~', title]] + Seq::new(e.len(), |i: int| header_line(e[i].1))
}

/// The collection that a section titled by `title` fills.
pub open spec fn collection_of(m: DocModel, title: char) -> Seq<(Seq<char>, HeaderItemView)> {
    if title == 'V' {
        m.version
    } else if title == 'W' {
        m.well
    } else if title == 'P' {
        m.params
    } else {
        m.curves
    }
}

/// The four collections of `m2` other than the one `title` fills are those of `m1`.
pub open spec fn others_kept(m1: DocModel, m2: DocModel, title: char) -> bool {
    &&& title != 'V' ==> m2.version == m1.version
    &&& title != 'W' ==> m2.well == m1.well
    &&& title != 'P' ==> m2.params == m1.params
    &&& title != 'C' ==> m2.curves == m1.curves
}

proof fn lemma_section_after(
    pre: Seq<Seq<char>>,
    title: char,
    e: Seq<(Seq<char>, HeaderItemView)>,
    i: int,
)
    requires
        title == 'V' || title == 'W' || title == 'P' || title == 'C',
        entries_wf(e),
        forall|j: int| 0 <= j < e.len() ==> writable(#[trigger] e[j].1),
        collection_of(run(pre), title).len() == 0,
        0 <= i <= e.len(),
    ensures
        run((pre + section_lines(title, e)).take(pre.len() + 1 + i)).section == seq![title],
        collection_of(run((pre + section_lines(title, e)).take(pre.len() + 1 + i)), title)
            == e.take(i),
        others_kept(run(pre), run((pre + section_lines(title, e)).take(pre.len() + 1 + i)), title),
    decreases i,
{
    let ls = pre + section_lines(title, e);
    let n = pre.len() as int;
    if i == 0 {
        let tl = seq!['~', title];
        assert(ls.take(n + 1).drop_last() =~= pre);
        assert(ls.take(n + 1).last() == tl);
        assert(trim(tl) == tl);
        assert(tl.drop_first() =~= seq![title]);
        assert(trim(seq![title]) == seq![title]);
        assert(classify(tl) == LineKind::SectionTitle(seq![title]));
        assert(collection_of(run(ls.take(n + 1)), title) =~= e.take(0));
    } else {
        let k = i - 1;
        lemma_section_after(pre, title, e, k);
        let m = run(ls.take(n + 1 + k));
        let h = e[k].1;
        assert(ls.take(n + 2 + k).drop_last() =~= ls.take(n + 1 + k));
        assert(ls.take(n + 2 + k).last() == header_line(h));
        lemma_header_line_round_trip(h);
        assert(!is_data_section(m.section)) by {
            assert(seq![title].len() == 1);
        }
        assert(e[k].0 == h.mnemonic);
        assert forall|j: int| 0 <= j < e.take(k).len() implies e.take(k)[j].0 != h.mnemonic by {
            assert(e.take(k)[j] == e[j]);
        }
        lemma_new_mnemonic_goes_last(e.take(k), h);
        assert(e.take(k).push((h.mnemonic, h)) =~= e.take(i));
    }
}

/// Every entry of the collection is keyed by its mnemonic, keys are unique,
/// and every item can be written back as a line.
pub open spec fn writable_entries(e: Seq<(Seq<char>, HeaderItemView)>) -> bool {
    entries_wf(e) && forall|j: int| 0 <= j < e.len() ==> writable(#[trigger] e[j].1)
}

/// The header-only text of a parse state: the version, well, curve and
/// parameter sections, each written as its title line and one line per item.
pub open spec fn header_text(m: DocModel) -> Seq<Seq<char>> {
    section_lines('V', m.version) + section_lines('W', m.well) + section_lines('C', m.curves)
        + section_lines('P', m.params)
}

proof fn lemma_whole_section(pre: Seq<Seq<char>>, title: char, e: Seq<(Seq<char>, HeaderItemView)>)
    requires
        title == 'V' || title == 'W' || title == 'P' || title == 'C',
        writable_entries(e),
        collection_of(run(pre), title).len() == 0,
    ensures
        collection_of(run(pre + section_lines(title, e)), title) == e,
        others_kept(run(pre), run(pre + section_lines(title, e)), title),
{
    lemma_section_after(pre, title, e, e.len() as int);
    assert((pre + section_lines(title, e)).take(pre.len() + 1 + e.len() as int) =~= pre + section_lines(
        title,
        e,
    ));
    assert(e.take(e.len() as int) =~= e);
}

/// Writing the header collections of a state back as text and parsing that
/// text gives the same four collections, entry for entry and in order, when
/// every item can be written as a line.
pub proof fn lemma_header_text_round_trip(m: DocModel)
    requires
        writable_entries(m.version),
        writable_entries(m.well),
        writable_entries(m.params),
        writable_entries(m.curves),
    ensures
        run(header_text(m)).version == m.version,
        run(header_text(m)).well == m.well,
        run(header_text(m)).params == m.params,
        run(header_text(m)).curves == m.curves,
{
    let p0 = Seq::<Seq<char>>::empty();
    let p1 = p0 + section_lines('V', m.version);
    let p2 = p1 + section_lines('W', m.well);
    let p3 = p2 + section_lines('C', m.curves);
    let p4 = p3 + section_lines('P', m.params);
    assert(run(p0) == initial_model());
    lemma_whole_section(p0, 'V', m.version);
    lemma_whole_section(p1, 'W', m.well);
    lemma_whole_section(p2, 'C', m.curves);
    lemma_whole_section(p3, 'P', m.params);
    assert(p4 =~= header_text(m));
}


proof fn lemma_trim_start_suffix(s: Seq<char>)
    ensures
        trim_start(s) == s.subrange(s.len() - trim_start(s).len(), s.len() as int),
        trim_start(s).len() > 0 ==> !is_ws(trim_start(s)[0]),
    decreases s.len(),
{
    if s.len() > 0 && is_ws(s[0]) {
        lemma_trim_start_suffix(s.drop_first());
        lemma_trim_len(s.drop_first());
        assert(s.drop_first().subrange(
            s.drop_first().len() - trim_start(s).len(),
            s.drop_first().len() as int,
        ) =~= s.subrange(s.len() - trim_start(s).len(), s.len() as int));
    } else {
        assert(s.subrange(0, s.len() as int) =~= s);
    }
}

proof fn lemma_trim_end_prefix(s: Seq<char>)
    ensures
        trim_end(s) == s.subrange(0, trim_end(s).len() as int),
        trim_end(s).len() > 0 ==> !is_ws(trim_end(s).last()),
    decreases s.len(),
{
    if s.len() > 0 && is_ws(s.last()) {
        lemma_trim_end_prefix(s.drop_last());
        lemma_trim_end_len(s.drop_last());
        assert(s.drop_last().subrange(0, trim_end(s).len() as int) =~= s.subrange(
            0,
            trim_end(s).len() as int,
        ));
    } else {
        assert(s.subrange(0, s.len() as int) =~= s);
    }
}

/// `trim(s)` is a piece of `s` with no whitespace at either end.
proof fn lemma_trim_piece(s: Seq<char>)
    ensures
        trim(trim(s)) == trim(s),
        forall|p: int| 0 <= p < trim(s).len() ==> exists|q: int| 0 <= q < s.len() && #[trigger] trim(s)[p] == s[q],
{
    let ts = trim_start(s);
    let t = trim(s);
    lemma_trim_start_suffix(s);
    lemma_trim_end_prefix(ts);
    lemma_trim_len(s);
    lemma_trim_end_len(ts);
    assert forall|p: int| 0 <= p < t.len() implies exists|q: int| 0 <= q < s.len() && #[trigger] t[p] == s[q] by {
        assert(t[p] == ts[p]);
        assert(ts[p] == s[s.len() - ts.len() + p]);
    }
    if t.len() > 0 {
        assert(t[0] == ts[0]);
        lemma_trimmed_ends(t);
    }
}

proof fn lemma_parsed_writable(t: Seq<char>, h: HeaderItemView)
    requires
        t.len() > 0,
        t[0] != '#',
        t[0] != '~',
        header_of(t) == Some(h),
    ensures
        writable(h),
{
    let m = run_end(t, 0, CharClass::Mnemonic);
    lemma_run_end_bounds(t, 0, CharClass::Mnemonic);
    let a = run_end(t, m, CharClass::Whitespace);
    lemma_run_end_bounds(t, m, CharClass::Whitespace);
    let has_unit = a < t.len() && t[a] == '.';
    let ue = if has_unit { run_end(t, a + 1, CharClass::Unit) } else { a };
    if has_unit {
        lemma_run_end_bounds(t, a + 1, CharClass::Unit);
    }
    let c = run_end(t, ue, CharClass::Whitespace);
    lemma_run_end_bounds(t, ue, CharClass::Whitespace);
    let ve = run_end(t, c, CharClass::NotColon);
    lemma_run_end_bounds(t, c, CharClass::NotColon);
    let vs = t.subrange(c, ve);
    lemma_trim_piece(vs);
    assert forall|i: int| 0 <= i < h.value.len() implies #[trigger] h.value[i] != ':' by {
        let q = choose|q: int| 0 <= q < vs.len() && trim(vs)[i] == vs[q];
        assert(vs[q] == t[c + q]);
    }
    if ve < t.len() {
        lemma_trim_piece(t.subrange(ve + 1, t.len() as int));
    } else {
        assert(trim(Seq::<char>::empty()) == Seq::<char>::empty());
    }
    assert(forall|i: int| 0 <= i < h.mnemonic.len() ==> h.mnemonic[i] == t[i]);
    assert(forall|i: int| 0 <= i < h.unit.len() ==> h.unit[i] == t[a + 1 + i]);
}

proof fn lemma_add_item_writable(e: Seq<(Seq<char>, HeaderItemView)>, h: HeaderItemView)
    requires
        writable_entries(e),
        writable(h),
    ensures
        writable_entries(add_item(e, h)),
{
    lemma_upsert_unique(e, h.mnemonic, h);
    lemma_key_index(e, h.mnemonic);
    let r = add_item(e, h);
    assert forall|j: int| 0 <= j < r.len() implies (#[trigger] r[j]).0 == r[j].1.mnemonic
        && writable(r[j].1) by {
        if j < e.len() && r[j] == e[j] {
            assert(writable(e[j].1));
        }
    }
}

/// Every collection of a parse state keeps unique keys, each the mnemonic of
/// its item, and every item in it can be written back as a line.
pub proof fn lemma_run_writable(lines: Seq<Seq<char>>)
    ensures
        writable_entries(run(lines).version),
        writable_entries(run(lines).well),
        writable_entries(run(lines).params),
        writable_entries(run(lines).curves),
    decreases lines.len(),
{
    if lines.len() > 0 {
        lemma_run_writable(lines.drop_last());
        let m = run(lines.drop_last());
        let line = lines.last();
        let t = trim(line);
        if !(is_data_section(m.section) && !(t.len() > 0 && t[0] == '~')) {
            match classify(line) {
                LineKind::HeaderItem(h) => {
                    lemma_parsed_writable(t, h);
                    lemma_add_item_writable(m.version, h);
                    lemma_add_item_writable(m.well, h);
                    lemma_add_item_writable(m.params, h);
                    lemma_add_item_writable(m.curves, h);
                },
                _ => {},
            }
        }
    } else {
        assert(writable_entries(Seq::<(Seq<char>, HeaderItemView)>::empty()));
    }
}

/// Writing the headers of a parsed document back as text (a `~V`, `~W`, `~C`
/// and `~P` section, one `MNEM.UNIT VALUE :DESCR` line per item, in order) and
/// parsing that text gives the same version, well and parameter collections,
/// and the same curves with the same metadata, samples aside.
pub proof fn lemma_document_header_round_trip(lines: Seq<Seq<char>>, doc: LASFile)
    requires
        document_of(doc, run(lines)),
    ensures
        run(header_text(run(lines))).version == doc.version.entries(),
        run(header_text(run(lines))).well == doc.well.entries(),
        run(header_text(run(lines))).params == doc.params.entries(),
        run(header_text(run(lines))).curves.len() == doc.curves.entries().len(),
        forall|i: int|
            0 <= i < doc.curves.entries().len() ==> (#[trigger] doc.curves.entries()[i]).0 == run(
                header_text(run(lines)),
            ).curves[i].0 && doc.curves.entries()[i].1.0 == run(header_text(run(lines))).curves[i].1,
{
    lemma_run_writable(lines);
    lemma_header_text_round_trip(run(lines));
}

} // verus!
