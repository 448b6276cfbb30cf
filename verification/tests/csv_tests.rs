use std::cmp::Ordering;
use tabelle::csv::{parse_csv, parse_size_of_csv, CsvFile, CsvParseError};

#[test]
pub fn regression_test1() {
    let fail_csv = "Filename;Stmts;Miss;Cover;Missing
src/application.rs;29;29;0.00%;87-137
src/pattern/buffer.rs;21;0;100.00%;
src/pattern/io_processor.rs;19;19;0.00%;72-160
src/pattern/reader.rs;31;20;35.48%;57-58, 75-79, 90-109, 123-139
src/changelog/comment_changes.rs;163;163;0.00%;106-399";

    let known_seperators = ",;\t";
    let mut size: Vec<Result<(char, (usize, usize)), CsvParseError>> = known_seperators
        .chars()
        .map(|sep| parse_size_of_csv(fail_csv, sep).map(|s| (sep, s)))
        .collect();

    for (actual, expected) in size
        .iter()
        .zip([(',', (4usize, 6usize)), (';', (5, 6)), ('\t', (1, 6))])
    {
        let actual = *actual.as_ref().expect("Should not fail!");
        assert_eq!(actual, expected);
    }

    size.sort_unstable_by(|a, b| match (a, b) {
        (Ok(a), Ok(b)) => b.1.cmp(&a.1),
        (Ok(_), Err(_)) => Ordering::Less,
        (Err(_), Ok(_)) => Ordering::Greater,
        (Err(_), Err(_)) => Ordering::Equal,
    });

    let expected = [(';', (5, 6)), (',', (4, 6)), ('\t', (1, 6))];

    for (actual, expected) in size.iter().zip(expected) {
        let actual = *actual.as_ref().expect("Should not fail!");
        assert_eq!(actual, expected);
    }

    let csv = match &size[0] {
        Ok(it) => parse_csv(fail_csv, it.0, it.1 .0, it.1 .1),
        Err(err) => panic!("{err:?}"),
    }
    .unwrap();

    assert_eq!(csv.width, 5);
    assert_eq!(csv.height, 6);
    assert_eq!(csv.seperator, ';');
    assert_eq!(
        csv.cells,
        [
            "Filename",
            "Stmts",
            "Miss",
            "Cover",
            "Missing",
            "src/application.rs",
            "29",
            "29",
            "0.00%",
            "87-137",
            "src/pattern/buffer.rs",
            "21",
            "0",
            "100.00%",
            "",
            "src/pattern/io_processor.rs",
            "19",
            "19",
            "0.00%",
            "72-160",
            "src/pattern/reader.rs",
            "31",
            "20",
            "35.48%",
            "57-58, 75-79, 90-109, 123-139",
            "src/changelog/comment_changes.rs",
            "163",
            "163",
            "0.00%",
            "106-399",
        ],
    );
}

#[test]
fn sizing_counts_columns_and_rows() {
    // A two-line input where only the comma splits fields: three columns
    // win over two, and the short row is padded with one empty field.
    let input = "a,b\nc,d,e\n";
    assert_eq!(parse_size_of_csv(input, ',').unwrap(), (3, 2));
    let csv = parse_csv(input, ',', 3, 2).unwrap();
    assert_eq!(csv.width, 3);
    assert_eq!(csv.height, 2);
    assert_eq!(csv.cells, ["a", "b", "", "c", "d", "e"]);
}

#[test]
fn semicolon_wins_on_width() {
    // Four commas, five semicolons, one tab per line: the semicolon gives
    // the most columns and is selected, heights being equal.
    let line = "a,b;c;d;e,f;g,h\tx,y;z";
    let input = format!("{line}\n{line}\n");
    let csv = CsvFile::from_str(&input).unwrap();
    assert_eq!(csv.seperator, ';');
    assert_eq!(csv.width, 6);
    assert_eq!(csv.height, 2);
}

#[test]
fn quoted_fields_keep_separators_and_quotes() {
    // A quoted field swallows the separator; a doubled quote inside a
    // quoted span is one literal quote.
    let csv = CsvFile::from_str("\"a,b\",c").unwrap();
    assert_eq!(csv.seperator, ',');
    assert_eq!((csv.width, csv.height), (2, 1));
    assert_eq!(csv.cells, ["a,b", "c"]);
    let csv = CsvFile::from_str("\"say \"\"hi\"\"\",d").unwrap();
    assert_eq!(csv.cells, ["say \"hi\"", "d"]);
}

#[test]
fn unterminated_quote_is_reported() {
    let r = parse_size_of_csv("\"abc\ndef,g", ',');
    assert!(matches!(r, Err(CsvParseError::UnfinishedEscaping)));
}

#[test]
fn text_after_closing_quote_is_invalid() {
    let r = parse_size_of_csv("\"abc\"def,g", ',');
    assert!(matches!(r, Err(CsvParseError::InvalidEscaping)));
}

#[test]
fn empty_input_has_no_cells() {
    let r = CsvFile::from_str("x");
    assert!(r.is_ok());
    let none = parse_size_of_csv("", ',');
    assert!(matches!(none, Err(CsvParseError::NoCellsFound(0, 0))));
}
