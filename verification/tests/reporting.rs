use chipdoc::model::{ChipDocument, DataField, Elem, SubChip};
use chipdoc::report::process_json;

fn sample_doc() -> ChipDocument {
    ChipDocument {
        subchips: Some(vec![
            SubChip {
                name: Some("ALU".to_string()),
                id: Some("A1".to_string()),
                data: DataField::Arr(vec![Elem::Int(1), Elem::Other, Elem::Int(-3)]),
            },
            SubChip {
                name: None,
                id: None,
                data: DataField::Missing,
            },
            SubChip {
                name: Some("X".to_string()),
                id: None,
                data: DataField::NotArray,
            },
        ]),
    }
}

#[test]
fn report_renders_every_field_state() {
    let expected = "\n=== Processing JSON File ===\n\
         \nSubChip #1:\n\
         \tName: ALU\n\
         \tID: A1\n\
         InternalData values:\n\
         \x20 [0]: 1\n\
         \x20 [1]: Invalid format\n\
         \x20 [2]: -3\n\
         \n----------------------------------------\n\
         \nSubChip #2:\n\
         \tName: Not found or invalid\n\
         \tID: Not found or invalid\n\
         No InternalData found\n\
         \n----------------------------------------\n\
         \nSubChip #3:\n\
         \tName: X\n\
         \tID: Not found or invalid\n\
         InternalData: Not an array\n\
         \n----------------------------------------\n";
    assert_eq!(process_json(&sample_doc()), expected);
}

#[test]
fn report_on_document_without_subchips() {
    let doc = ChipDocument { subchips: None };
    assert_eq!(
        process_json(&doc),
        "\n=== Processing JSON File ===\nNo SubChips found in JSON\n"
    );
}

#[test]
fn reporting_twice_changes_nothing_and_repeats_itself() {
    let doc = sample_doc();
    let before = doc.clone();
    let first = process_json(&doc);
    let second = process_json(&doc);
    assert_eq!(first, second);
    assert_eq!(doc, before);
}

#[test]
fn non_integer_element_is_reported_not_fatal() {
    let doc = ChipDocument {
        subchips: Some(vec![SubChip {
            name: Some("N".to_string()),
            id: Some("I".to_string()),
            data: DataField::Arr(vec![Elem::Other, Elem::Int(4)]),
        }]),
    };
    let out = process_json(&doc);
    assert!(out.contains("  [0]: Invalid format\n"));
    assert!(out.contains("  [1]: 4\n"));
}

#[test]
fn report_prints_large_and_negative_values() {
    let doc = ChipDocument {
        subchips: Some(vec![SubChip {
            name: None,
            id: None,
            data: DataField::Arr(vec![Elem::Int(i64::MIN), Elem::Int(i64::MAX), Elem::Int(0)]),
        }]),
    };
    let out = process_json(&doc);
    assert!(out.contains("  [0]: -9223372036854775808\n"));
    assert!(out.contains("  [1]: 9223372036854775807\n"));
    assert!(out.contains("  [2]: 0\n"));
}
