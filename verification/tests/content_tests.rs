use tabelle::cell_content::{content_cmp, CellContent};
use tabelle::cells::CellPosition;
use tabelle::decimal::Decimal;
use tabelle::formula::Value;
use std::cmp::Ordering;

const SIZE: (usize, usize) = (usize::MAX, usize::MAX);

fn typed(chars: &str) -> CellContent {
    let mut c = CellContent::Empty;
    for ch in chars.chars() {
        c.input_char(ch, CellPosition(0, 0), (10, 10)).unwrap();
    }
    c
}

#[test]
fn typing_digits_point_digits_gives_a_decimal() {
    // Typing `1`, `.`, `5` into an empty cell: one and five tenths, with
    // two fractional digit positions consumed.
    let c = typed("1.5");
    assert_eq!(
        c,
        CellContent::FloatNumber(Decimal { mantissa: 15, scale: 1 }, 2)
    );
}

#[test]
fn typing_a_letter_after_a_digit_falls_back_to_text() {
    let c = typed("1a");
    assert_eq!(c, CellContent::Text("1a".to_string()));
}

#[test]
fn typing_builds_numbers_and_formulas() {
    assert_eq!(typed("407"), CellContent::Number(407));
    let f = typed("=A0");
    match f {
        CellContent::Formula(f) => {
            assert_eq!(f.raw, "A0");
            assert_eq!(f.parsed, "A0");
            assert_eq!(f.references.len(), 1);
        }
        other => panic!("expected a formula, got {other:?}"),
    }
    assert_eq!(typed(".5"), CellContent::FloatNumber(Decimal { mantissa: 5, scale: 1 }, 2));
}

#[test]
fn parse_classifies_cell_text() {
    assert_eq!(CellContent::parse("", (0, 0), SIZE).unwrap(), CellContent::Empty);
    assert_eq!(CellContent::parse("42", (0, 0), SIZE).unwrap(), CellContent::Number(42));
    assert_eq!(CellContent::parse("-7", (0, 0), SIZE).unwrap(), CellContent::Number(-7));
    assert_eq!(
        CellContent::parse("2.25", (0, 0), SIZE).unwrap(),
        CellContent::FloatNumber(Decimal { mantissa: 225, scale: 2 }, 0)
    );
    assert_eq!(
        CellContent::parse("hello", (0, 0), SIZE).unwrap(),
        CellContent::Text("hello".to_string())
    );
    match CellContent::parse("=B2+1", (0, 0), SIZE).unwrap() {
        CellContent::Formula(f) => {
            assert_eq!(f.raw, "B2+1");
            assert_eq!(f.parsed, "B2+1");
            assert_eq!(f.references.len(), 1);
        }
        other => panic!("expected a formula, got {other:?}"),
    }
}

#[test]
fn display_forms() {
    assert_eq!(CellContent::Number(-3).display(), "-3");
    assert_eq!(
        CellContent::FloatNumber(Decimal { mantissa: 15, scale: 1 }, 0).display(),
        "1.5"
    );
    assert_eq!(
        CellContent::FloatNumber(Decimal { mantissa: 10, scale: 1 }, 0).display(),
        "1"
    );
    assert_eq!(CellContent::Empty.long_display(), "Press ENTER to edit");
    let f = CellContent::parse("=A0", (1, 0), SIZE).unwrap();
    assert_eq!(f.serialize_display(), "=A0");
}

#[test]
fn ordering_puts_empty_low_and_text_high() {
    // The sorting rule: Empty below numbers, numbers by value, text above
    // numbers and reverse-alphabetical among itself.
    let three = CellContent::parse("3", (0, 0), SIZE).unwrap();
    let ten = CellContent::parse("10", (0, 0), SIZE).unwrap();
    let apple = CellContent::parse("apple", (0, 0), SIZE).unwrap();
    let empty = CellContent::Empty;
    assert_eq!(content_cmp(&empty, &ten), Ordering::Less);
    assert_eq!(content_cmp(&three, &ten), Ordering::Less);
    assert_eq!(content_cmp(&ten, &apple), Ordering::Less);
    let banana = CellContent::parse("banana", (0, 0), SIZE).unwrap();
    // Reverse lexicographic: higher letters sort first.
    assert_eq!(content_cmp(&apple, &banana), Ordering::Greater);
    // Numbers promote to decimals when mixed.
    let half = CellContent::parse("0.5", (0, 0), SIZE).unwrap();
    assert_eq!(content_cmp(&half, &three), Ordering::Less);
    assert_eq!(content_cmp(&three, &half), Ordering::Greater);
}

#[test]
fn unevaluated_formula_compares_below_everything() {
    // The documented open inconsistency: a formula whose value is empty or
    // failed is below everything, even another such formula, both ways.
    let f = CellContent::parse("=A0", (0, 0), SIZE).unwrap();
    let g = CellContent::parse("=B0", (0, 0), SIZE).unwrap();
    assert_eq!(content_cmp(&f, &g), Ordering::Less);
    assert_eq!(content_cmp(&g, &f), Ordering::Less);
    assert_eq!(content_cmp(&f, &CellContent::Empty), Ordering::Less);
}

#[test]
fn number_entry_overflow_is_rejected() {
    let mut c = CellContent::Number(i64::MAX / 10 + 1);
    let r = c.input_char('9', CellPosition(0, 0), (10, 10));
    assert!(r.is_err());
    assert_eq!(c, CellContent::Number(i64::MAX / 10 + 1));
}

#[test]
fn scalar_values_come_from_content_or_formula_value() {
    assert_eq!(CellContent::Number(4).scalar_value(), Some(Value::Number(4)));
    assert_eq!(CellContent::Empty.scalar_value(), None);
    let f = CellContent::parse("=A0", (0, 0), SIZE).unwrap();
    assert_eq!(f.scalar_value(), None);
}
