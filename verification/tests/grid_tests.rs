use tabelle::cell_content::CellContent;
use tabelle::decimal::Decimal;
use tabelle::formula::Value;
use tabelle::grid::{EvalRequest, Spreadsheet};

/// A stand-in for the external expression evaluator, good enough for the
/// integer formulas these tests use: an integer literal evaluates to
/// itself, and `NAME+1` evaluates to one more than the bound scalar.
fn toy_evaluate(request: &EvalRequest) -> Value {
    let expr = &request.expression;
    if let Ok(n) = expr.parse::<i64>() {
        return Value::Number(n);
    }
    if let Some(name) = expr.strip_suffix("+1") {
        for (key, value) in &request.bindings {
            if key == name {
                if let Value::Number(n) = value {
                    return Value::Number(n + 1);
                }
            }
        }
    }
    Value::Error
}

fn pass(sheet: &mut Spreadsheet) {
    let requests = sheet.prepare_evaluation();
    let results: Vec<Value> = requests.iter().map(toy_evaluate).collect();
    sheet.apply_evaluation(&results);
}

#[test]
fn evaluation_settles_in_two_passes() {
    // A0 = "=1" and B0 = "=A0+1": every formula in a pass reads the
    // pre-pass snapshot, so B0 cannot see A0's fresh value in the first
    // pass and needs a second one to settle at 2.
    let mut sheet = Spreadsheet::new(2, 1);
    sheet.update_cell_at((0, 0), CellContent::parse("=1", (0, 0), (2, 1)).unwrap());
    sheet.update_cell_at((1, 0), CellContent::parse("=A0+1", (1, 0), (2, 1)).unwrap());
    assert!(sheet.needs_evaluation());

    pass(&mut sheet);
    let b0_after_one = match &sheet.cell_at((1, 0)).content {
        CellContent::Formula(f) => f.value.clone(),
        other => panic!("expected a formula, got {other:?}"),
    };
    // Still stale after exactly one pass: A0 had no value in the snapshot.
    assert_eq!(b0_after_one, Value::Error);

    pass(&mut sheet);
    let a0 = match &sheet.cell_at((0, 0)).content {
        CellContent::Formula(f) => f.value.clone(),
        other => panic!("expected a formula, got {other:?}"),
    };
    let b0 = match &sheet.cell_at((1, 0)).content {
        CellContent::Formula(f) => f.value.clone(),
        other => panic!("expected a formula, got {other:?}"),
    };
    assert_eq!(a0, Value::Number(1));
    assert_eq!(b0, Value::Number(2));
}

#[test]
fn sorting_reverses_the_comparator_order() {
    // A column of "3", "apple", nothing, "10": the comparator puts the
    // empty cell below the numbers, numbers by value below text, so the
    // rows order as Empty, 3, 10, "apple" — and sorting then reverses
    // that, leaving the ascending rows last.
    let mut sheet = Spreadsheet::new(1, 4);
    sheet.update_cell_at((0, 0), CellContent::parse("3", (0, 0), (1, 4)).unwrap());
    sheet.update_cell_at((0, 1), CellContent::parse("apple", (0, 1), (1, 4)).unwrap());
    sheet.update_cell_at((0, 3), CellContent::parse("10", (0, 3), (1, 4)).unwrap());
    sheet.sort_column(0);
    assert_eq!(sheet.cell_at((0, 0)).content, CellContent::Text("apple".to_string()));
    assert_eq!(sheet.cell_at((0, 1)).content, CellContent::Number(10));
    assert_eq!(sheet.cell_at((0, 2)).content, CellContent::Number(3));
    assert_eq!(sheet.cell_at((0, 3)).content, CellContent::Empty);
}

#[test]
fn pinned_rows_stay_put_under_sorting() {
    let mut sheet = Spreadsheet::new(1, 3);
    sheet.update_cell_at((0, 0), CellContent::parse("header", (0, 0), (1, 3)).unwrap());
    sheet.update_cell_at((0, 1), CellContent::parse("2", (0, 1), (1, 3)).unwrap());
    sheet.update_cell_at((0, 2), CellContent::parse("9", (0, 2), (1, 3)).unwrap());
    sheet.fix_rows(1);
    sheet.sort_column(0);
    assert_eq!(sheet.cell_at((0, 0)).content, CellContent::Text("header".to_string()));
    assert_eq!(sheet.cell_at((0, 1)).content, CellContent::Number(9));
    assert_eq!(sheet.cell_at((0, 2)).content, CellContent::Number(2));
}

#[test]
fn load_csv_builds_a_grid_of_parsed_cells() {
    let sheet = Spreadsheet::load_csv("1, two ,3.5\n4,five,6\n").unwrap();
    assert_eq!(sheet.columns(), 3);
    assert_eq!(sheet.rows(), 2);
    assert_eq!(sheet.cell_at((0, 0)).content, CellContent::Number(1));
    assert_eq!(sheet.cell_at((1, 0)).content, CellContent::Text("two".to_string()));
    assert_eq!(
        sheet.cell_at((2, 0)).content,
        CellContent::FloatNumber(Decimal { mantissa: 35, scale: 1 }, 0)
    );
    assert_eq!(sheet.cell_at((1, 1)).content, CellContent::Text("five".to_string()));
}

#[test]
fn load_csv_skips_blank_lines() {
    let sheet = Spreadsheet::load_csv("a,b\n\n   \nc,d\n").unwrap();
    assert_eq!(sheet.rows(), 2);
    assert_eq!(sheet.cell_at((0, 1)).content, CellContent::Text("c".to_string()));
}

#[test]
fn resize_grows_and_keeps_contents() {
    let mut sheet = Spreadsheet::new(2, 2);
    sheet.update_cell_at((1, 1), CellContent::parse("keep", (1, 1), (2, 2)).unwrap());
    sheet.resize(3, 4);
    assert_eq!(sheet.columns(), 3);
    assert_eq!(sheet.rows(), 4);
    assert_eq!(sheet.cell_at((1, 1)).content, CellContent::Text("keep".to_string()));
    assert_eq!(sheet.cell_at((2, 3)).content, CellContent::Empty);
    assert_eq!(sheet.column_width(2), 10);
}

#[test]
fn cursor_moves_clamp_at_the_edges() {
    let mut sheet = Spreadsheet::new(3, 3);
    assert!(sheet.move_cursor(1, 1));
    assert_eq!(sheet.current_cell(), (1, 1));
    assert!(!sheet.move_cursor(5, 0));
    assert_eq!(sheet.current_cell(), (2, 1));
    assert!(!sheet.move_cursor(0, -5));
    assert_eq!(sheet.current_cell(), (2, 0));
}

#[test]
fn typing_into_the_grid_edits_the_cursor_cell() {
    let mut sheet = Spreadsheet::new(2, 2);
    sheet.move_cursor(1, 0);
    sheet.input_char('4').unwrap();
    sheet.input_char('2').unwrap();
    assert_eq!(sheet.cell_at((1, 0)).content, CellContent::Number(42));
    sheet.clear_current_cell();
    assert_eq!(sheet.cell_at((1, 0)).content, CellContent::Empty);
}

#[test]
fn find_wraps_around_from_the_cursor() {
    let mut sheet = Spreadsheet::new(2, 2);
    sheet.update_cell_at((0, 0), CellContent::parse("needle one", (0, 0), (2, 2)).unwrap());
    sheet.update_cell_at((1, 1), CellContent::parse("a needle too", (1, 1), (2, 2)).unwrap());
    assert_eq!(sheet.find("needle"), Some((1, 1)));
    sheet.set_cursor((1, 1));
    assert_eq!(sheet.find("needle"), Some((0, 0)));
    assert_eq!(sheet.find("missing"), None);
}

#[test]
fn serialization_writes_the_used_corner() {
    let mut sheet = Spreadsheet::new(3, 3);
    sheet.input_char('a').unwrap();
    sheet.move_cursor(1, 1);
    sheet.input_char('7').unwrap();
    let text = sheet.serialize_as_csv();
    assert_eq!(text, "a,,\n,7,");
}

#[test]
fn filling_shifts_numbers_and_relocates_formulas() {
    let mut sheet = Spreadsheet::new(2, 2);
    sheet.update_cell_at((0, 0), CellContent::parse("5", (0, 0), (2, 2)).unwrap());
    sheet.set_cursor((1, 1));
    let filled = sheet.recommended_cell_content((0, 0)).unwrap();
    assert_eq!(filled, CellContent::Number(7));

    sheet.update_cell_at((0, 0), CellContent::parse("=A1", (0, 0), (2, 2)).unwrap());
    let moved = sheet.recommended_cell_content((0, 0)).unwrap();
    match moved {
        CellContent::Formula(f) => assert_eq!(f.raw, "B2"),
        other => panic!("expected a formula, got {other:?}"),
    }
}

#[test]
fn fit_column_width_counts_display_columns_not_characters() {
    // A wide ideograph occupies two terminal columns: the fitted width
    // must come from the displayed width, not the character count.
    let mut sheet = Spreadsheet::new(1, 1);
    sheet.update_cell_at((0, 0), CellContent::parse("你你", (0, 0), (1, 1)).unwrap());
    sheet.fit_column_width(0);
    assert_eq!(sheet.column_width(0), 5);
}

#[test]
fn fit_column_width_takes_the_widest_cell_plus_one() {
    let mut sheet = Spreadsheet::new(1, 2);
    sheet.update_cell_at((0, 0), CellContent::parse("wide text", (0, 0), (1, 2)).unwrap());
    sheet.update_cell_at((0, 1), CellContent::parse("x", (0, 1), (1, 2)).unwrap());
    sheet.fit_column_width(0);
    assert_eq!(sheet.column_width(0), 10);
}
