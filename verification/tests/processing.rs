use chipdoc::distribute::DistError;
use chipdoc::model::{ChipDocument, DataField, Elem, SubChip};
use chipdoc::process::{process_text_and_update_json, ProcessError};

fn chip_with_capacity(cap: usize) -> SubChip {
    SubChip {
        name: None,
        id: None,
        data: DataField::Arr(vec![Elem::Int(0); cap]),
    }
}

fn slots(chip: &SubChip) -> Vec<Elem> {
    match &chip.data {
        DataField::Arr(es) => es.clone(),
        _ => panic!("record has no slot array"),
    }
}

#[test]
fn parse_then_distribute_end_to_end() {
    let mut doc = ChipDocument {
        subchips: Some(vec![chip_with_capacity(2), chip_with_capacity(2)]),
    };
    let r = process_text_and_update_json(&mut doc, "10, 0x1A, -3,,  7");
    assert_eq!(r, Ok(()));
    let chips = doc.subchips.unwrap();
    assert_eq!(slots(&chips[0]), vec![Elem::Int(10), Elem::Int(26)]);
    assert_eq!(slots(&chips[1]), vec![Elem::Int(-3), Elem::Int(7)]);
}

#[test]
fn parse_failure_leaves_document_untouched() {
    let mut doc = ChipDocument {
        subchips: Some(vec![chip_with_capacity(2)]),
    };
    let before = doc.clone();
    let r = process_text_and_update_json(&mut doc, "1, oops");
    match r {
        Err(ProcessError::NumberParse(e)) => {
            assert_eq!(e.token, "oops");
        },
        other => panic!("expected a number-parse failure, got {:?}", other),
    }
    assert_eq!(doc, before);
}

#[test]
fn distribution_failure_comes_back_as_such() {
    let mut doc = ChipDocument { subchips: None };
    let r = process_text_and_update_json(&mut doc, "1");
    assert_eq!(r, Err(ProcessError::Distribute(DistError::MissingSubChips)));
    assert_eq!(doc, ChipDocument { subchips: None });
}

#[test]
fn preview_is_capped_at_one_hundred_chars() {
    let short = "1, 2, 3";
    assert_eq!(chipdoc::process::content_preview(short), short);
    let long: String = vec!["9"; 150].join(",");
    let preview = chipdoc::process::content_preview(&long);
    assert_eq!(preview.chars().count(), 100);
    assert_eq!(preview, &long[..100]);
}

#[test]
fn process_error_message_delegates() {
    let mut doc = ChipDocument { subchips: None };
    let e = process_text_and_update_json(&mut doc, "1").unwrap_err();
    assert_eq!(e.message(), "SubChips array not found or not an array");
    let mut doc = ChipDocument {
        subchips: Some(vec![chip_with_capacity(0)]),
    };
    let e = process_text_and_update_json(&mut doc, "1, 2").unwrap_err();
    assert_eq!(
        e.message(),
        "Insufficient SubChips to write all numbers, 2 remaining"
    );
    let e = process_text_and_update_json(&mut doc, "what").unwrap_err();
    assert_eq!(e.message(), "Invalid number 'what': invalid digit found in string");
}
