use tabelle::cells::CellPosition;
use tabelle::formula::{parse_raw, CellError, CellReference, Formula, Value};

const SIZE: (usize, usize) = (26, 100);

#[test]
fn tokens_become_references_in_order() {
    let (expression, references) = parse_raw("A0+B1*C2", SIZE).unwrap();
    assert_eq!(expression, "A0+B1*C2");
    assert_eq!(
        references,
        vec![
            CellReference::Cell(CellPosition(0, 0)),
            CellReference::Cell(CellPosition(1, 1)),
            CellReference::Cell(CellPosition(2, 2)),
        ]
    );
}

#[test]
fn bare_column_names_reference_columns_within_the_grid() {
    let (expression, references) = parse_raw("sum(B)", SIZE).unwrap();
    assert_eq!(expression, "sum(B)");
    assert_eq!(references, vec![CellReference::Column(1)]);
    // Outside the grid width the name is echoed but not recorded.
    let (expression, references) = parse_raw("sum(B)", (1, 100)).unwrap();
    assert_eq!(expression, "sum(B)");
    assert_eq!(references, vec![]);
}

#[test]
fn cell_ranges_become_per_column_slices() {
    let (expression, references) = parse_raw("A1:C3 ", SIZE).unwrap();
    assert_eq!(expression, "A[1:4] + B[1:4] + C[1:4] ");
    assert_eq!(
        references,
        vec![
            CellReference::Cell(CellPosition(0, 1)),
            CellReference::Cell(CellPosition(2, 3)),
        ]
    );
}

#[test]
fn row_ranges_become_one_slice() {
    let (expression, references) = parse_raw("A1:5 ", SIZE).unwrap();
    assert_eq!(expression, "A[1:6] ");
    assert_eq!(
        references,
        vec![
            CellReference::Cell(CellPosition(0, 1)),
            CellReference::Row(5),
        ]
    );
}

#[test]
fn a_range_with_a_bad_end_is_a_fatal_parse_error() {
    assert!(matches!(parse_raw("A1:x ", SIZE), Err(CellError::InvalidRange)));
    assert!(matches!(parse_raw("A1: ", SIZE), Err(CellError::InvalidRange)));
}

#[test]
fn leading_whitespace_is_dropped_from_the_expression() {
    let (expression, _) = parse_raw("  A0", SIZE).unwrap();
    assert_eq!(expression, "A0");
}

#[test]
fn relocation_shifts_references_and_reparses() {
    // A formula at the origin referencing B1; moved one column and one row
    // further, the reference shifts by the same offset and the rewritten
    // text parses back to exactly the shifted references.
    let (parsed, references) = parse_raw("B1+7", SIZE).unwrap();
    let f = Formula {
        position: CellPosition(0, 0),
        raw: "B1+7".to_string(),
        parsed,
        references,
        value: Value::Empty,
    };
    let moved = f.moved_to(CellPosition(1, 1), SIZE).unwrap();
    assert_eq!(moved.position, CellPosition(1, 1));
    assert_eq!(moved.raw, "C2+7");
    assert_eq!(moved.parsed, "C2+7");
    assert_eq!(moved.references, vec![CellReference::Cell(CellPosition(2, 2))]);
    assert_eq!(moved.value, Value::Empty);
}

#[test]
fn relocation_detects_an_inconsistent_reference_list() {
    // A reference whose text does not occur in the raw buffer cannot be
    // rewritten: the relocation must fail loudly, not silently diverge.
    let f = Formula {
        position: CellPosition(0, 0),
        raw: "1+2".to_string(),
        parsed: "1+2".to_string(),
        references: vec![CellReference::Cell(CellPosition(3, 3))],
        value: Value::Empty,
    };
    assert!(matches!(
        f.moved_to(CellPosition(1, 0), SIZE),
        Err(CellError::RelocationMismatch)
    ));
}

#[test]
fn relocation_below_the_grid_origin_fails() {
    let (parsed, references) = parse_raw("A0+1", SIZE).unwrap();
    let f = Formula {
        position: CellPosition(1, 1),
        raw: "A0+1".to_string(),
        parsed,
        references,
        value: Value::Empty,
    };
    assert!(f.moved_to(CellPosition(0, 0), SIZE).is_err());
}

#[test]
fn appending_a_character_reparses_the_whole_buffer() {
    let mut f = Formula::new_at(CellPosition(0, 0));
    for ch in "A1+2".chars() {
        f.push_char(ch, SIZE).unwrap();
    }
    assert_eq!(f.raw, "A1+2");
    assert_eq!(f.parsed, "A1+2");
    assert_eq!(f.references, vec![CellReference::Cell(CellPosition(0, 1))]);
}
