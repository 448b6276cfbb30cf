use tabelle::cells::CellPosition;
use tabelle::{cell_name_to_position, cell_position_to_name, column_name_to_index, to_column_name};

#[test]
fn column_names_round_trip() {
    // Reading a produced column name gives the index back, across a wide
    // range; the encoding is plain base 26, so multi-letter names differ
    // from the bijective convention by design.
    for i in 0..10_000usize {
        let name = to_column_name(i);
        assert_eq!(column_name_to_index(&name), Ok(i));
    }
    assert_eq!(to_column_name(0), "A");
    assert_eq!(to_column_name(25), "Z");
    assert_eq!(to_column_name(26), "BA");
}

#[test]
fn column_name_rejects_non_letters() {
    assert!(column_name_to_index("").is_err());
    assert!(column_name_to_index("A1").is_err());
    assert!(column_name_to_index("-").is_err());
    assert_eq!(column_name_to_index("b"), Ok(1));
}

#[test]
fn cell_names_parse_with_zero_based_rows() {
    assert_eq!(cell_name_to_position("A0"), Ok((0, 0)));
    assert_eq!(cell_name_to_position("C12"), Ok((2, 12)));
    assert!(cell_name_to_position("").is_err());
    assert!(cell_name_to_position("1A").is_err());
    assert!(cell_name_to_position("A1x").is_err());
    assert!(cell_name_to_position("ABC").is_err());
}

#[test]
fn cell_names_render_back() {
    assert_eq!(cell_position_to_name((0, 0)), "A0");
    assert_eq!(cell_position_to_name((2, 12)), "C12");
    assert_eq!(cell_position_to_name((27, 3)), "BB3");
}

#[test]
fn position_scan_takes_letters_and_digits_anywhere() {
    let p = CellPosition::parse("B7").unwrap();
    assert_eq!((p.0, p.1), (1, 7));
    let empty = CellPosition::parse("").unwrap();
    assert_eq!((empty.0, empty.1), (0, 0));
    assert!(CellPosition::parse("B-7").is_err());
}
