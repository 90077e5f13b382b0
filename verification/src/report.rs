//! The report printer: renders a human-readable dump of every sub-chip
//! record's metadata. Rendering is read-only — it borrows the document
//! immutably — and the result is a pure function of the document, so printing
//! a report can never change what a later pass over the document sees.

use vstd::prelude::*;
use vstd::string::StringExecFns;

use crate::decimal::{dec_digits, dec_int, push_i64_dec, push_usize_dec};
use crate::model::{ChipDocument, ChipDocumentV, DataField, DataFieldV, Elem, SubChip, SubChipV};

verus! {

/// The report line for a record's name.
pub open spec fn name_line(name: Option<Seq<char>>) -> Seq<char> {
    match name {
        Some(s) => "\tName: "@ + s + "\n"@,
        None => "\tName: Not found or invalid\n"@,
    }
}

/// The report line for a record's identifier.
pub open spec fn id_line(id: Option<Seq<char>>) -> Seq<char> {
    match id {
        Some(s) => "\tID: "@ + s + "\n"@,
        None => "\tID: Not found or invalid\n"@,
    }
}

/// The report line for one slot element, by its 0-based index: the integer
/// value, or an invalid-format marker for an element that is not an integer.
pub open spec fn elem_line(e: Elem, idx: nat) -> Seq<char> {
    let value = match e {
        Elem::Int(v) => dec_int(v as int),
        Elem::Other => "Invalid format"@,
    };
    "  ["@ + dec_digits(idx) + "]: "@ + value + "\n"@
}

/// The report lines for the slot elements from index `i` on.
pub open spec fn elems_report(es: Seq<Elem>, i: int) -> Seq<char>
    decreases es.len() - i,
{
    if i < 0 || i >= es.len() {
        Seq::empty()
    } else {
        elem_line(es[i], i as nat) + elems_report(es, i + 1)
    }
}

/// The report block for a record's `InternalData` field.
pub open spec fn data_block(d: DataFieldV) -> Seq<char> {
    match d {
        DataFieldV::Arr(es) => "InternalData values:\n"@ + elems_report(es, 0),
        DataFieldV::NotArray => "InternalData: Not an array\n"@,
        DataFieldV::Missing => "No InternalData found\n"@,
    }
}

/// The report block for one record, shown under the 1-based position `n`.
pub open spec fn chip_report(c: SubChipV, n: nat) -> Seq<char> {
    "\nSubChip #"@ + dec_digits(n) + ":\n"@ + name_line(c.name) + id_line(c.id) + data_block(
        c.data,
    ) + "\n----------------------------------------\n"@
}

/// The report blocks for the records from index `i` on (0-based index,
/// rendered 1-based).
pub open spec fn chips_report(cs: Seq<SubChipV>, i: int) -> Seq<char>
    decreases cs.len() - i,
{
    if i < 0 || i >= cs.len() {
        Seq::empty()
    } else {
        chip_report(cs[i], (i + 1) as nat) + chips_report(cs, i + 1)
    }
}

/// The full report text of a document.
pub open spec fn report_spec(d: ChipDocumentV) -> Seq<char> {
    "\n=== Processing JSON File ===\n"@ + match d.subchips {
        Some(cs) => chips_report(cs, 0),
        None => "No SubChips found in JSON\n"@,
    }
}

/// Appends the report lines of every slot element of one record.
fn push_elems(out: &mut String, es: &Vec<Elem>)
    ensures
        final(out)@ == old(out)@ + elems_report(es@, 0),
{
    let mut j: usize = 0;
    while j < es.len()
        invariant
            j <= es.len(),
            out@ + elems_report(es@, j as int) == old(out)@ + elems_report(es@, 0),
        decreases es.len() - j,
    {
        out.append("  [");
        push_usize_dec(out, j);
        out.append("]: ");
        match es[j] {
            Elem::Int(v) => push_i64_dec(out, v),
            Elem::Other => out.append("Invalid format"),
        }
        out.append("\n");
        proof {
            assert(out@ + elems_report(es@, j + 1) =~= old(out)@ + elems_report(es@, 0));
        }
        j += 1;
    }
    proof {
        assert(out@ =~= old(out)@ + elems_report(es@, 0));
    }
}

/// Appends the report block of one record at 1-based position `n`.
fn push_chip(out: &mut String, chip: &SubChip, n: usize)
    ensures
        final(out)@ == old(out)@ + chip_report(chip@, n as nat),
{
    out.append("\nSubChip #");
    push_usize_dec(out, n);
    out.append(":\n");
    let ghost out_a = out@;
    match &chip.name {
        Some(name) => {
            out.append("\tName: ");
            out.append(name.as_str());
            out.append("\n");
            proof {
                assert(out@ =~= out_a + name_line(chip@.name));
            }
        },
        None => {
            out.append("\tName: Not found or invalid\n");
            proof {
                assert(out@ =~= out_a + name_line(chip@.name));
            }
        },
    }
    let ghost out_b = out@;
    match &chip.id {
        Some(id) => {
            out.append("\tID: ");
            out.append(id.as_str());
            out.append("\n");
            proof {
                assert(out@ =~= out_b + id_line(chip@.id));
            }
        },
        None => {
            out.append("\tID: Not found or invalid\n");
            proof {
                assert(out@ =~= out_b + id_line(chip@.id));
            }
        },
    }
    let ghost out_c = out@;
    match &chip.data {
        DataField::Arr(es) => {
            out.append("InternalData values:\n");
            push_elems(out, es);
            proof {
                assert(out@ =~= out_c + data_block(chip@.data));
            }
        },
        DataField::NotArray => {
            out.append("InternalData: Not an array\n");
            proof {
                assert(out@ =~= out_c + data_block(chip@.data));
            }
        },
        DataField::Missing => {
            out.append("No InternalData found\n");
            proof {
                assert(out@ =~= out_c + data_block(chip@.data));
            }
        },
    }
    out.append("\n----------------------------------------\n");
    proof {
        assert(final(out)@ =~= old(out)@ + chip_report(chip@, n as nat));
    }
}

/// Renders the report of every sub-chip record: name, identifier, and slot
/// values, with explicit markers for absent or malformed fields. Missing or
/// malformed fields are rendered inline and never make rendering fail; the
/// document is borrowed immutably, so rendering never changes it, and the
/// output depends on the document alone.
pub fn process_json(json: &ChipDocument) -> (r: String)
    ensures
        r@ == report_spec(json@),
{
    let mut out = String::new();
    out.append("\n=== Processing JSON File ===\n");
    match &json.subchips {
        None => {
            out.append("No SubChips found in JSON\n");
        },
        Some(chips) => {
            let ghost cv = chips@.map_values(|c: SubChip| c@);
            let mut i: usize = 0;
            while i < chips.len()
                invariant
                    i <= chips.len(),
                    cv == chips@.map_values(|c: SubChip| c@),
                    json@.subchips == Some(cv),
                    out@ + chips_report(cv, i as int) == report_spec(json@),
                decreases chips.len() - i,
            {
                let ghost out_pre = out@;
                push_chip(&mut out, &chips[i], i + 1);
                proof {
                    assert(cv[i as int] == chips@[i as int]@);
                    assert(out@ + chips_report(cv, i + 1) =~= out_pre + chips_report(cv, i as int));
                }
                i += 1;
            }
            proof {
                assert(out@ + chips_report(cv, i as int) =~= out@);
            }
        },
    }
    out
}

} // verus!
