use tabelle::commands::{Command, CommandKind, SetCommand};
use tabelle::dialog::DialogAnswers;
use tabelle::text_input::TextInput;
use tabelle::units::UnitKind;
use tabelle::cell_content::CellContent;

#[test]
fn commands_parse_keywords_and_arguments() {
    assert!(matches!(Command::parse(""), Ok(Command::Nothing)));
    assert!(matches!(Command::parse("help"), Ok(Command::Help)));
    assert!(matches!(Command::parse("new"), Ok(Command::New)));
    assert!(matches!(Command::parse("sort b"), Ok(Command::Sort(1))));
    assert!(matches!(Command::parse("fit A"), Ok(Command::Fit(0))));
    assert!(matches!(Command::parse("fix 3 rows"), Ok(Command::Fix(3))));
    assert!(matches!(Command::parse("fix 1 row"), Ok(Command::Fix(1))));
    assert!(matches!(Command::parse("resize 5 9"), Ok(Command::Resize(5, 9))));
    assert!(matches!(Command::parse("goto C12"), Ok(Command::Goto((2, 12)))));
    assert!(matches!(Command::parse("clear B2"), Ok(Command::Clear((1, 2)))));
    assert!(matches!(Command::parse("fill A1"), Ok(Command::Fill((0, 1)))));
    assert!(matches!(
        Command::parse("set column-width 12"),
        Ok(Command::Assign(SetCommand::ColumnWidth(12)))
    ));
    assert!(matches!(
        Command::parse("set unit $"),
        Ok(Command::Assign(SetCommand::Unit(UnitKind::Dollar)))
    ));
    match Command::parse("save table.xlsx") {
        Ok(Command::Save(p)) => assert_eq!(p, "table.xlsx"),
        other => panic!("expected save, got {other:?}"),
    }
    match Command::parse("find total") {
        Ok(Command::Find(t)) => assert_eq!(t, "total"),
        other => panic!("expected find, got {other:?}"),
    }
    assert!(Command::parse("bogus").is_err());
    assert!(Command::parse("sort 7").is_err());
    assert!(Command::parse("set unit %").is_err());
    assert!(Command::parse("goto 9Z").is_err());
}

#[test]
fn commands_render_back_to_text() {
    assert_eq!(Command::Nothing.full_display(), "none");
    assert_eq!(Command::Sort(1).full_display(), "sort B");
    assert_eq!(Command::Fix(1).full_display(), "fix 1 row");
    assert_eq!(Command::Fix(4).full_display(), "fix 4 rows");
    assert_eq!(Command::Resize(5, 9).full_display(), "resize 5 9");
    assert_eq!(Command::Goto((2, 12)).full_display(), "goto C12");
    assert_eq!(
        Command::Assign(SetCommand::ColumnWidth(12)).full_display(),
        "set column-width 12"
    );
    assert_eq!(
        Command::Assign(SetCommand::Unit(UnitKind::Dollar)).full_display(),
        "set unit $"
    );
    assert_eq!(Command::Save("a.xlsx".to_string()).full_display(), "save a.xlsx");
}

#[test]
fn command_kinds_document_themselves() {
    assert!(CommandKind::Sort.description().contains("sorts the spreadsheet"));
    assert_eq!(CommandKind::Nothing.description(), "");
    let examples = CommandKind::Fix.example_values();
    assert!(matches!(examples[0], Command::Fix(1)));
    assert!(matches!(examples[1], Command::Fix(5)));
}

#[test]
fn dialog_answers_count() {
    assert_eq!(DialogAnswers::Okay.len(), 1);
    assert_eq!(DialogAnswers::YesNo.len(), 2);
}

#[test]
fn text_input_edits_by_characters() {
    let mut input = TextInput::new();
    input.insert_char('h');
    input.insert_char('i');
    assert_eq!(input.text(), "hi");
    input.backspace();
    assert_eq!(input.text(), "h");
    input.insert_char('a');
    input.insert_char('t');
    input.up();
    input.delete();
    assert_eq!(input.text(), "at");
    input.right();
    input.insert_char('r');
    assert_eq!(input.text(), "art");
    input.down();
    assert_eq!(input.cursor(), 3);
    input.set("plain");
    assert_eq!(input.text(), "plain");
    assert_eq!(input.cursor(), 5);
    input.set_cursor(2);
    assert_eq!(input.cursor(), 2);
    input.clear();
    assert_eq!(input.text(), "");
}

#[test]
fn dollar_unit_formats_cents() {
    assert_eq!(UnitKind::Dollar.display(&CellContent::Number(1234)), "$ 12.34");
    assert_eq!(UnitKind::Dollar.display(&CellContent::Number(-5)), "$ -0.05");
    assert_eq!(UnitKind::Plain.display(&CellContent::Number(1234)), "1234");
    assert_eq!(
        UnitKind::Dollar.display(&CellContent::Text("x".to_string())),
        "x"
    );
}
