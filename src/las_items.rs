use vstd::prelude::*;

verus! {

/// The four text fields of a header line, as sequences of characters.
pub struct HeaderItemView {
    pub mnemonic: Seq<char>,
    pub unit: Seq<char>,
    pub value: Seq<char>,
    pub descr: Seq<char>,
}

/// One `MNEM.UNIT VALUE : DESCRIPTION` line of a header section.
#[derive(Debug, Clone)]
pub struct HeaderItem {
    pub mnemonic: String,
    pub unit: String,
    pub value: String,
    pub descr: String,
}

impl View for HeaderItem {
    type V = HeaderItemView;

    open spec fn view(&self) -> HeaderItemView {
        HeaderItemView {
            mnemonic: self.mnemonic@,
            unit: self.unit@,
            value: self.value@,
            descr: self.descr@,
        }
    }
}

impl HeaderItem {
    pub fn new(mnemonic: &str, unit: &str, value: &str, descr: &str) -> (r: Self)
        ensures
            r.mnemonic@ == mnemonic@,
            r.unit@ == unit@,
            r.value@ == value@,
            r.descr@ == descr@,
    {
        HeaderItem {
            mnemonic: mnemonic.to_owned(),
            unit: unit.to_owned(),
            value: value.to_owned(),
            descr: descr.to_owned(),
        }
    }
}

/// A curve declaration together with its column of samples.
///
/// Each sample is kept as the decimal literal that the data section held; every
/// one of them is accepted by `is_float_literal`, so it reads back as a number.
#[derive(Debug, Clone)]
pub struct CurveItem {
    pub mnemonic: String,
    pub unit: String,
    pub value: String,
    pub descr: String,
    pub data: Vec<String>,
}

impl View for CurveItem {
    type V = HeaderItemView;

    /// The metadata of the curve; its samples are read through `data_view`.
    open spec fn view(&self) -> HeaderItemView {
        HeaderItemView {
            mnemonic: self.mnemonic@,
            unit: self.unit@,
            value: self.value@,
            descr: self.descr@,
        }
    }
}

pub open spec fn strings_view(v: Seq<String>) -> Seq<Seq<char>> {
    v.map_values(|s: String| s@)
}

impl CurveItem {
    pub open spec fn data_view(&self) -> Seq<Seq<char>> {
        strings_view(self.data@)
    }

    pub fn new(mnemonic: &str, unit: &str, value: &str, descr: &str) -> (r: Self)
        ensures
            r.mnemonic@ == mnemonic@,
            r.unit@ == unit@,
            r.value@ == value@,
            r.descr@ == descr@,
            r.data@.len() == 0,
    {
        CurveItem {
            mnemonic: mnemonic.to_owned(),
            unit: unit.to_owned(),
            value: value.to_owned(),
            descr: descr.to_owned(),
            data: Vec::new(),
        }
    }
}

} // verus!
