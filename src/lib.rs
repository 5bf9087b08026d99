pub mod data;
pub mod las_items;
pub mod laws;
pub mod ordered;
pub mod reader;
pub mod text;

pub use las_items::{CurveItem, HeaderItem, HeaderItemView};
pub use reader::parse_las_from_lines;

use indexmap::IndexMap;
use ordered::{
    curve_entries, curve_map_insert, curve_map_new, curve_view, header_entries, header_map_insert,
    header_map_new, keys_unique, lemma_key_index, lemma_upsert_unique, upsert,
};
use vstd::prelude::*;

verus! {

/// A parsed well-log document: the header sections, the curves with their
/// samples, and the free text of the other section.
pub struct LASFile {
    pub version: SectionItems,
    pub well: SectionItems,
    pub curves: SectionCurves,
    pub params: SectionItems,
    pub other: String,
}

/// The items of one header section, keyed by mnemonic, in order of first
/// declaration.
pub struct SectionItems {
    pub items: IndexMap<String, HeaderItem>,
}

/// Every entry is keyed by its item's mnemonic, and no key occurs twice.
pub open spec fn entries_wf(e: Seq<(Seq<char>, HeaderItemView)>) -> bool {
    keys_unique(e) && forall|i: int| 0 <= i < e.len() ==> (#[trigger] e[i]).0 == e[i].1.mnemonic
}

impl SectionItems {
    pub open spec fn entries(&self) -> Seq<(Seq<char>, HeaderItemView)> {
        header_entries(self.items)
    }

    pub open spec fn wf(&self) -> bool {
        entries_wf(self.entries())
    }

    pub fn new() -> (r: Self)
        ensures
            r.entries().len() == 0,
            r.wf(),
    {
        SectionItems { items: header_map_new() }
    }

    /// Adds `item` under its mnemonic; a mnemonic seen before keeps its place.
    pub fn insert(&mut self, item: HeaderItem)
        ensures
            final(self).entries() == upsert(old(self).entries(), item.mnemonic@, item@),
            old(self).wf() ==> final(self).wf(),
    {
        let key = item.mnemonic.clone();
        header_map_insert(&mut self.items, key, item);
        proof {
            let e = old(self).entries();
            if entries_wf(e) {
                lemma_upsert_unique(e, item.mnemonic@, item@);
                lemma_key_index(e, item.mnemonic@);
            }
        }
    }
}

/// The curves, keyed by mnemonic, in order of declaration.
pub struct SectionCurves {
    pub items: IndexMap<String, CurveItem>,
}

impl SectionCurves {
    pub open spec fn entries(&self) -> Seq<(Seq<char>, (HeaderItemView, Seq<Seq<char>>))> {
        curve_entries(self.items)
    }

    pub fn new() -> (r: Self)
        ensures
            r.entries().len() == 0,
    {
        SectionCurves { items: curve_map_new() }
    }

    /// Adds `item` under its mnemonic; a mnemonic seen before keeps its place.
    pub fn insert(&mut self, item: CurveItem)
        ensures
            final(self).entries() == upsert(old(self).entries(), item.mnemonic@, curve_view(item)),
    {
        let key = item.mnemonic.clone();
        curve_map_insert(&mut self.items, key, item);
    }
}

impl LASFile {
    pub fn new() -> (r: Self)
        ensures
            r.version.entries().len() == 0,
            r.well.entries().len() == 0,
            r.params.entries().len() == 0,
            r.curves.entries().len() == 0,
            r.other@.len() == 0,
            r.version.wf(),
            r.well.wf(),
            r.params.wf(),
    {
        LASFile {
            version: SectionItems::new(),
            well: SectionItems::new(),
            curves: SectionCurves::new(),
            params: SectionItems::new(),
            other: String::new(),
        }
    }
}

/// Why a document could not be assembled.
#[derive(Debug, Clone, Copy, PartialEq, Eq)]
pub enum LasError {
    /// The sample buffer did not fit the table shape it was given.
    Shape,
}

} // verus!
