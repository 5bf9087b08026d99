use vstd::prelude::*;
use crate::las_items::{strings_view, CurveItem, HeaderItem, HeaderItemView};
use indexmap::IndexMap;

verus! {

#[verifier::external_type_specification]
#[verifier::external_body]
#[verifier::reject_recursive_types(K)]
#[verifier::reject_recursive_types(V)]
#[verifier::reject_recursive_types(S)]
pub struct ExIndexMap<K, V, S>(IndexMap<K, V, S>);

/// Index of the first entry with key `k`.
pub open spec fn key_index<T>(e: Seq<(Seq<char>, T)>, k: Seq<char>) -> Option<int>
    decreases e.len(),
{
    if e.len() == 0 {
        None
    } else {
        match key_index(e.drop_last(), k) {
            Some(i) => Some(i),
            None => if e.last().0 == k {
                Some(e.len() - 1)
            } else {
                None
            },
        }
    }
}

/// Ordered-map insertion: an existing key keeps its place and takes the new
/// value; a new key goes last.
pub open spec fn upsert<T>(e: Seq<(Seq<char>, T)>, k: Seq<char>, v: T) -> Seq<(Seq<char>, T)> {
    match key_index(e, k) {
        Some(i) => e.update(i, (k, v)),
        None => e.push((k, v)),
    }
}

pub open spec fn keys_unique<T>(e: Seq<(Seq<char>, T)>) -> bool {
    forall|i: int, j: int| 0 <= i < j < e.len() ==> e[i].0 != e[j].0
}

pub proof fn lemma_key_index<T>(e: Seq<(Seq<char>, T)>, k: Seq<char>)
    ensures
        key_index(e, k) matches Some(i) ==> 0 <= i < e.len() && e[i].0 == k && forall|j: int|
            0 <= j < i ==> e[j].0 != k,
        key_index(e, k) is None ==> forall|j: int| 0 <= j < e.len() ==> e[j].0 != k,
    decreases e.len(),
{
    if e.len() > 0 {
        let d = e.drop_last();
        lemma_key_index(d, k);
        assert(forall|j: int| 0 <= j < d.len() ==> d[j] == e[j]);
    }
}

pub proof fn lemma_upsert_unique<T>(e: Seq<(Seq<char>, T)>, k: Seq<char>, v: T)
    requires
        keys_unique(e),
    ensures
        keys_unique(upsert(e, k, v)),
{
    lemma_key_index(e, k);
}

/// The entries of a header map, in order: each key with its item.
pub uninterp spec fn header_entries(m: IndexMap<String, HeaderItem>) -> Seq<(Seq<char>, HeaderItemView)>;

/// The entries of a curve map, in order: each key with the curve's metadata and samples.
pub uninterp spec fn curve_entries(m: IndexMap<String, CurveItem>) -> Seq<(Seq<char>, (HeaderItemView, Seq<Seq<char>>))>;

pub open spec fn curve_view(c: CurveItem) -> (HeaderItemView, Seq<Seq<char>>) {
    (c@, c.data_view())
}

/// Relies on `IndexMap::new`: a new map is empty.
#[verifier::external_body]
pub(crate) fn header_map_new() -> (r: IndexMap<String, HeaderItem>)
    ensures
        header_entries(r) == Seq::<(Seq<char>, HeaderItemView)>::empty(),
{
    IndexMap::new()
}

/// Relies on `IndexMap::insert`: an existing key keeps its place in the order
/// and takes the new value; a new key is put last.
#[verifier::external_body]
pub(crate) fn header_map_insert(m: &mut IndexMap<String, HeaderItem>, k: String, v: HeaderItem)
    ensures
        header_entries(*final(m)) == upsert(header_entries(*old(m)), k@, v@),
{
    m.insert(k, v);
}

/// Relies on `IndexMap::new`: a new map is empty.
#[verifier::external_body]
pub(crate) fn curve_map_new() -> (r: IndexMap<String, CurveItem>)
    ensures
        curve_entries(r) == Seq::<(Seq<char>, (HeaderItemView, Seq<Seq<char>>))>::empty(),
{
    IndexMap::new()
}

/// Relies on `IndexMap::insert`: an existing key keeps its place in the order
/// and takes the new value; a new key is put last.
#[verifier::external_body]
pub(crate) fn curve_map_insert(m: &mut IndexMap<String, CurveItem>, k: String, v: CurveItem)
    ensures
        curve_entries(*final(m)) == upsert(curve_entries(*old(m)), k@, curve_view(v)),
{
    m.insert(k, v);
}

/// Relies on `IndexMap::len`: the number of entries.
#[verifier::external_body]
pub(crate) fn header_map_len(m: &IndexMap<String, HeaderItem>) -> (r: usize)
    ensures
        r == header_entries(*m).len(),
{
    m.len()
}

/// Relies on `IndexMap::get_index`: the entry at position `i` in the order, if
/// there is one.
#[verifier::external_body]
pub(crate) fn header_map_get_index(m: &IndexMap<String, HeaderItem>, i: usize) -> (r: Option<(&String, &HeaderItem)>)
    ensures
        i < header_entries(*m).len() <==> r is Some,
        r matches Some(p) ==> p.0@ == header_entries(*m)[i as int].0 && p.1@ == header_entries(
            *m,
        )[i as int].1,
{
    m.get_index(i)
}

} // verus!
