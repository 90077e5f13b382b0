use chipdoc::distribute::{write_numbers_to_subchips, DistError};
use chipdoc::model::{ChipDocument, DataField, Elem, SubChip};

fn chip_with_capacity(cap: usize) -> SubChip {
    SubChip {
        name: None,
        id: None,
        data: DataField::Arr(vec![Elem::Int(0); cap]),
    }
}

fn slots(chip: &SubChip) -> Vec<Elem> {
    match &chip.data {
        DataField::Arr(es) => es.clone(),
        _ => panic!("record has no slot array"),
    }
}

fn ints(ns: &[i64]) -> Vec<Elem> {
    ns.iter().map(|n| Elem::Int(*n)).collect()
}

#[test]
fn greedy_order_preserving_distribution() {
    let mut doc = ChipDocument {
        subchips: Some(vec![
            chip_with_capacity(2),
            chip_with_capacity(0),
            chip_with_capacity(3),
        ]),
    };
    let r = write_numbers_to_subchips(&mut doc, &[1, 2, 3, 4, 5]);
    assert_eq!(r, Ok(()));
    let chips = doc.subchips.unwrap();
    assert_eq!(slots(&chips[0]), ints(&[1, 2]));
    assert_eq!(slots(&chips[1]), ints(&[]));
    assert_eq!(slots(&chips[2]), ints(&[3, 4, 5]));
}

#[test]
fn leftover_integers_fail_but_mutate() {
    let mut doc = ChipDocument {
        subchips: Some(vec![chip_with_capacity(2)]),
    };
    let r = write_numbers_to_subchips(&mut doc, &[1, 2, 3]);
    assert_eq!(r, Err(DistError::InsufficientCapacity(1)));
    let chips = doc.subchips.unwrap();
    assert_eq!(slots(&chips[0]), ints(&[1, 2]));
}

#[test]
fn missing_subchips_leaves_document_unmutated() {
    let mut doc = ChipDocument { subchips: None };
    let before = doc.clone();
    let r = write_numbers_to_subchips(&mut doc, &[1, 2]);
    assert_eq!(r, Err(DistError::MissingSubChips));
    assert_eq!(doc, before);
}

#[test]
fn missing_internal_data_aborts_without_rollback() {
    let mut doc = ChipDocument {
        subchips: Some(vec![
            chip_with_capacity(1),
            SubChip {
                name: Some("second".to_string()),
                id: None,
                data: DataField::Missing,
            },
        ]),
    };
    let r = write_numbers_to_subchips(&mut doc, &[7, 8]);
    assert_eq!(r, Err(DistError::MissingInternalData));
    let chips = doc.subchips.unwrap();
    // The first record keeps the value already written.
    assert_eq!(slots(&chips[0]), ints(&[7]));
    assert_eq!(chips[1].data, DataField::Missing);
}

#[test]
fn not_an_array_counts_as_missing_internal_data() {
    let mut doc = ChipDocument {
        subchips: Some(vec![SubChip {
            name: None,
            id: None,
            data: DataField::NotArray,
        }]),
    };
    let r = write_numbers_to_subchips(&mut doc, &[1]);
    assert_eq!(r, Err(DistError::MissingInternalData));
}

#[test]
fn no_integers_touch_nothing() {
    let mut doc = ChipDocument {
        subchips: Some(vec![SubChip {
            name: None,
            id: None,
            data: DataField::Missing,
        }]),
    };
    let before = doc.clone();
    let r = write_numbers_to_subchips(&mut doc, &[]);
    assert_eq!(r, Ok(()));
    assert_eq!(doc, before);
}

#[test]
fn iteration_stops_once_integers_run_out() {
    let mut doc = ChipDocument {
        subchips: Some(vec![
            SubChip {
                name: None,
                id: None,
                data: DataField::Arr(vec![Elem::Int(9), Elem::Int(9), Elem::Int(9)]),
            },
            SubChip {
                name: None,
                id: None,
                data: DataField::Missing,
            },
        ]),
    };
    let r = write_numbers_to_subchips(&mut doc, &[1]);
    assert_eq!(r, Ok(()));
    let chips = doc.subchips.unwrap();
    // Only the first slot is overwritten; the record after the cursor ran out
    // is never inspected.
    assert_eq!(slots(&chips[0]), ints(&[1, 9, 9]));
    assert_eq!(chips[1].data, DataField::Missing);
}

#[test]
fn non_integer_slots_are_overwritten_like_any_other() {
    let mut doc = ChipDocument {
        subchips: Some(vec![SubChip {
            name: None,
            id: None,
            data: DataField::Arr(vec![Elem::Other, Elem::Int(9)]),
        }]),
    };
    let r = write_numbers_to_subchips(&mut doc, &[5]);
    assert_eq!(r, Ok(()));
    let chips = doc.subchips.unwrap();
    assert_eq!(slots(&chips[0]), vec![Elem::Int(5), Elem::Int(9)]);
}

#[test]
fn dist_error_message_text() {
    assert_eq!(
        DistError::MissingSubChips.message(),
        "SubChips array not found or not an array"
    );
    assert_eq!(
        DistError::MissingInternalData.message(),
        "InternalData not found or not an array"
    );
    assert_eq!(
        DistError::InsufficientCapacity(3).message(),
        "Insufficient SubChips to write all numbers, 3 remaining"
    );
}
