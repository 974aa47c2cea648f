use xmlwriter::{Indent, Options, XmlWriter};

use xlsx_row::RowError;
use xlsx_row::cell::{Cell, CellKind};
use xlsx_row::row::{ColMovement, Row};

fn compact_writer() -> XmlWriter {
    XmlWriter::new(Options {
        indent: Indent::None,
        ..Options::default()
    })
}

fn reference_of(row: &mut Row, idx: usize) -> String {
    row.get_cells_mut()[idx]
        .get_reference()
        .as_ref()
        .expect("cell should carry a reference")
        .clone()
}

#[test]
fn sequential_append_allocates_in_order() {
    let mut row = Row::new(7);
    row.add_string("first".to_owned());
    row.add_string("second".to_owned());
    assert_eq!(row.get_cells_mut().len(), 2);
    assert_eq!(reference_of(&mut row, 0), "A7");
    assert_eq!(reference_of(&mut row, 1), "B7");
}

#[test]
fn inline_string_kind_is_kept() {
    let mut row = Row::new(2);
    let a = row.add_string("shared".to_owned());
    let b = row.add_inline_string("inline".to_owned());
    let cells = row.get_cells_mut();
    assert_eq!(cells[a].get_kind(), CellKind::SharedString);
    assert_eq!(cells[b].get_kind(), CellKind::InlineString);
}

#[test]
fn explicit_insert_checks_row_component() {
    let mut matching = Row::new(5);
    let cell = Cell::from_string("v".to_owned(), "B5".to_owned(), false);
    assert!(matching.add_cell(cell).is_ok());
    assert_eq!(matching.get_cells_mut().len(), 1);

    let mut mismatching = Row::new(6);
    let cell = Cell::from_string("v".to_owned(), "B5".to_owned(), false);
    assert_eq!(mismatching.add_cell(cell), Err(RowError::RowMismatch));
    assert_eq!(mismatching.get_cells_mut().len(), 0);
}

#[test]
fn duplicate_reference_is_rejected() {
    let mut row = Row::new(5);
    let first = Cell::from_string("one".to_owned(), "C5".to_owned(), false);
    let second = Cell::from_string("two".to_owned(), "C5".to_owned(), false);
    assert!(row.add_cell(first).is_ok());
    assert_eq!(row.add_cell(second), Err(RowError::DuplicateReference));
    assert_eq!(row.get_cells_mut().len(), 1);
}

#[test]
fn missing_reference_is_rejected() {
    let mut row = Row::new(5);
    let cell = Cell::new_string("loose".to_owned(), false);
    assert_eq!(row.add_cell(cell), Err(RowError::MissingReference));
    assert_eq!(row.get_cells_mut().len(), 0);
}

#[test]
fn invalid_references_are_rejected() {
    let mut row = Row::new(5);
    for bad in ["77", "ABC", "a5", "", "#!"] {
        let cell = Cell::from_string("v".to_owned(), bad.to_owned(), false);
        assert_eq!(
            row.add_cell(cell),
            Err(RowError::InvalidReference),
            "reference {:?}",
            bad
        );
    }
    assert_eq!(row.get_cells_mut().len(), 0);
}

#[test]
fn interleaved_reference_classes_are_accepted() {
    // Partitioning goes by character class alone, so "5B" has column "B"
    // and row "5", and is accepted in row 5.
    let mut row = Row::new(5);
    let cell = Cell::from_string("v".to_owned(), "5B".to_owned(), false);
    assert!(row.add_cell(cell).is_ok());
}

#[test]
fn leading_zeros_match_numerically() {
    // The row component is compared by numeric value, so "B05" addresses
    // row 5, and differs from "B5" as a reference string.
    let mut row = Row::new(5);
    let cell = Cell::from_string("v".to_owned(), "B05".to_owned(), false);
    assert!(row.add_cell(cell).is_ok());
}

#[test]
fn non_numeric_row_part_is_a_mismatch() {
    // The non-alphabetic partition must name the row's number; "5!" does
    // not name 5 numerically, so the row component disagrees.
    let mut row = Row::new(5);
    let cell = Cell::from_string("v".to_owned(), "B5!".to_owned(), false);
    assert_eq!(row.add_cell(cell), Err(RowError::RowMismatch));
    assert_eq!(row.get_cells_mut().len(), 0);
}

#[test]
fn number_parse_failure_leaves_row_unchanged() {
    let mut row = Row::new(7);
    assert_eq!(
        row.add_number("abc".to_owned()),
        Err(RowError::NumberParse)
    );
    assert_eq!(row.get_cells_mut().len(), 0);
    // The cursor did not move: the next append still takes column A.
    row.add_string("probe".to_owned());
    assert_eq!(reference_of(&mut row, 0), "A7");
}

#[test]
fn number_append_succeeds_on_literals() {
    let mut row = Row::new(7);
    let idx = row.add_number("3.14".to_owned()).expect("literal");
    assert_eq!(idx, 0);
    assert_eq!(reference_of(&mut row, 0), "A7");
    let cells = row.get_cells_mut();
    assert_eq!(cells[0].get_kind(), CellKind::Number);
    assert_eq!(cells[0].get_value(), "3.14");
}

#[test]
fn serialization_shape() {
    let mut row = Row::new(7);
    row.add_string("x".to_owned());
    row.add_number("3.14".to_owned()).expect("literal");
    let mut writer = compact_writer();
    row.to_xml(&mut writer);
    assert_eq!(
        writer.end_document(),
        "<row r=\"7\"><c r=\"A7\">x</c><c r=\"B7\">3.14</c></row>"
    );
}

#[test]
fn empty_row_serializes_balanced() {
    let row = Row::new(3);
    let mut writer = compact_writer();
    row.to_xml(&mut writer);
    assert_eq!(writer.end_document(), "<row r=\"3\"/>");
}

#[test]
fn skipped_column_is_not_registered() {
    let row = Row::new(5);
    let mut movement = ColMovement::new(row);
    movement.next();
    let mut row = movement.into_row();
    // Column A was skipped, not used: inserting at "A5" is no duplicate.
    let cell = Cell::from_string("v".to_owned(), "A5".to_owned(), false);
    assert!(row.add_cell(cell).is_ok());
}

#[test]
fn skip_reserves_a_gap() {
    let row = Row::new(5);
    let mut movement = ColMovement::new(row);
    movement.skip(3);
    let mut row = movement.into_row();
    row.add_string("after gap".to_owned());
    assert_eq!(reference_of(&mut row, 0), "D5");
}

#[test]
fn cursor_moves_past_inserted_column() {
    let mut row = Row::new(5);
    let cell = Cell::from_string("v".to_owned(), "C5".to_owned(), false);
    row.add_cell(cell).expect("valid reference");
    row.add_string("next".to_owned());
    assert_eq!(reference_of(&mut row, 1), "D5");
}

#[test]
fn cursor_never_moves_backward_on_insert() {
    let mut row = Row::new(5);
    row.add_string("a".to_owned());
    row.add_string("b".to_owned());
    row.add_string("c".to_owned());
    // "B05" has column B, behind the cursor; the cursor stays at D.
    let cell = Cell::from_string("v".to_owned(), "B05".to_owned(), false);
    row.add_cell(cell).expect("valid reference");
    row.add_string("d".to_owned());
    assert_eq!(reference_of(&mut row, 4), "D5");
}

#[test]
fn cells_can_be_edited_in_place() {
    let mut row = Row::new(4);
    row.add_string("draft".to_owned());
    row.get_cells_mut()[0].set_value("final text".to_owned());
    let cells = row.get_cells_mut();
    assert_eq!(cells[0].get_value(), "final text");
    assert_eq!(reference_of(&mut row, 0), "A4");
}

#[test]
fn serialization_keeps_insertion_order() {
    // Insertion order is document order, even when columns are out of order.
    let mut row = Row::new(2);
    let late = Cell::from_string("late".to_owned(), "C2".to_owned(), false);
    row.add_cell(late).expect("valid reference");
    let early = Cell::from_string("early".to_owned(), "A2".to_owned(), false);
    row.add_cell(early).expect("valid reference");
    let mut writer = compact_writer();
    row.to_xml(&mut writer);
    assert_eq!(
        writer.end_document(),
        "<row r=\"2\"><c r=\"C2\">late</c><c r=\"A2\">early</c></row>"
    );
}
