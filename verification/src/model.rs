//! The in-memory model of a chip document.
//!
//! A document optionally carries a list of sub-chip records. Each record has
//! an optional name, an optional identifier, and an `InternalData` field that
//! is either missing, present but not an array, or an array of elements, each
//! of which is either a signed 64-bit integer or some other value the library
//! does not interpret. The surrounding application converts between this model
//! and whatever on-disk representation it uses, carrying fields the library
//! does not touch alongside.

use vstd::prelude::*;

verus! {

/// One element of a record's `InternalData` slot array: an integer slot value,
/// or a value of some other shape (tolerated by reporting, never written by
/// distribution).
#[derive(Clone, Copy, Debug, PartialEq, Eq, Structural)]
pub enum Elem {
    Int(i64),
    Other,
}

/// A record's `InternalData` field: absent, present but not an array, or an
/// array of elements whose length is the record's fixed slot capacity.
#[derive(Clone, Debug, PartialEq, Eq)]
pub enum DataField {
    Missing,
    NotArray,
    Arr(Vec<Elem>),
}

/// The mathematical view of a `DataField`.
pub enum DataFieldV {
    Missing,
    NotArray,
    Arr(Seq<Elem>),
}

impl View for DataField {
    type V = DataFieldV;

    open spec fn view(&self) -> DataFieldV {
        match self {
            DataField::Missing => DataFieldV::Missing,
            DataField::NotArray => DataFieldV::NotArray,
            DataField::Arr(v) => DataFieldV::Arr(v@),
        }
    }
}

/// A sub-chip record. `name` and `id` are `None` where the field is absent or
/// not a string; both cases are reported with the same marker and neither
/// affects distribution.
#[derive(Clone, Debug, PartialEq, Eq)]
pub struct SubChip {
    pub name: Option<String>,
    pub id: Option<String>,
    pub data: DataField,
}

/// The mathematical view of a `SubChip`.
pub struct SubChipV {
    pub name: Option<Seq<char>>,
    pub id: Option<Seq<char>>,
    pub data: DataFieldV,
}

impl View for SubChip {
    type V = SubChipV;

    open spec fn view(&self) -> SubChipV {
        SubChipV {
            name: match self.name {
                Some(s) => Some(s@),
                None => None,
            },
            id: match self.id {
                Some(s) => Some(s@),
                None => None,
            },
            data: self.data@,
        }
    }
}

/// A chip document: `subchips` is `None` where the document has no `SubChips`
/// field or the field is not an array.
#[derive(Clone, Debug, PartialEq, Eq)]
pub struct ChipDocument {
    pub subchips: Option<Vec<SubChip>>,
}

/// The mathematical view of a `ChipDocument`.
pub struct ChipDocumentV {
    pub subchips: Option<Seq<SubChipV>>,
}

/// The views of a sequence of records.
pub open spec fn chip_views(s: Seq<SubChip>) -> Seq<SubChipV> {
    s.map_values(|c: SubChip| c@)
}

impl View for ChipDocument {
    type V = ChipDocumentV;

    open spec fn view(&self) -> ChipDocumentV {
        ChipDocumentV {
            subchips: match self.subchips {
                Some(v) => Some(chip_views(v@)),
                None => None,
            },
        }
    }
}

} // verus!
