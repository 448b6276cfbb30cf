//! The editor's command line: the commands it understands, how their text
//! form parses (pieces split on single spaces), and how a command renders
//! back to text.
use vstd::prelude::*;

use crate::address::{cell_name_ok, cell_name_val, col_name_ok, spec_column_name,
    spec_column_value, cell_pos_of_chars, column_value_of_chars};
use crate::text::{
    chars_to_string, is_uint_text, parse_usize, piece_is, spec_digits, spec_split_char,
    spec_uint_body, spec_uint_val, spec_upper, split_char, str_to_chars, to_upper_chars,
};
use crate::units::UnitKind;

verus! {

/// The kinds of command the command line understands.
#[derive(Debug, Clone, Copy, PartialEq, Eq, Structural)]
pub enum CommandKind {
    Nothing,
    Help,
    New,
    Assign,
    Save,
    Find,
    Sort,
    Fit,
    Fix,
    Resize,
    Clear,
    Fill,
    Goto,
}

/// A change to the current cell: its column's display width, or its unit.
#[derive(Debug)]
pub enum SetCommand {
    ColumnWidth(usize),
    Unit(UnitKind),
}

/// A parsed command with its arguments.
#[derive(Debug)]
pub enum Command {
    Nothing,
    Help,
    New,
    Assign(SetCommand),
    Save(String),
    Find(String),
    Sort(usize),
    Fit(usize),
    Fix(usize),
    Resize(usize, usize),
    Clear((usize, usize)),
    Fill((usize, usize)),
    Goto((usize, usize)),
}

/// Whether a piece is an unsigned number that fits.
pub open spec fn piece_uint_ok(s: Seq<char>) -> bool {
    is_uint_text(s) && spec_uint_val(spec_uint_body(s)) <= usize::MAX
}

/// The number a piece holds.
pub open spec fn piece_uint(s: Seq<char>) -> nat {
    spec_uint_val(spec_uint_body(s))
}

/// Whether command text is recognisable: one of the three bare keywords, or
/// a known keyword with arguments of the right shape.
pub open spec fn spec_command_ok(s: Seq<char>) -> bool {
    let pieces = spec_split_char(s, ' ');
    ||| s == ""@
    ||| s == "help"@
    ||| s == "new"@
    ||| (pieces.len() == 3 && pieces[0] == "set"@ && ((pieces[1] == "column-width"@
        && piece_uint_ok(pieces[2])) || (pieces[1] == "unit"@ && pieces[2] == "$"@)))
    ||| (pieces.len() == 2 && pieces[0] == "save"@)
    ||| (pieces.len() == 2 && pieces[0] == "find"@)
    ||| (pieces.len() == 2 && pieces[0] == "sort"@ && col_name_ok(spec_upper(pieces[1])))
    ||| (pieces.len() == 2 && pieces[0] == "fit"@ && col_name_ok(spec_upper(pieces[1])))
    ||| (pieces.len() == 3 && pieces[0] == "fix"@ && ((pieces[2] == "rows"@ && piece_uint_ok(
        pieces[1],
    )) || (pieces[1] == "1"@ && pieces[2] == "row"@)))
    ||| (pieces.len() == 3 && pieces[0] == "resize"@ && piece_uint_ok(pieces[1]) && piece_uint_ok(
        pieces[2],
    ))
    ||| (pieces.len() == 2 && (pieces[0] == "clear"@ || pieces[0] == "fill"@ || pieces[0]
        == "goto"@) && cell_name_ok(pieces[1]))
}

/// Whether a parsed command is what the text says.
pub open spec fn spec_command_matches(s: Seq<char>, c: Command) -> bool {
    let pieces = spec_split_char(s, ' ');
    match c {
        Command::Nothing => s == ""@,
        Command::Help => s == "help"@,
        Command::New => s == "new"@,
        Command::Assign(sc) => pieces.len() == 3 && pieces[0] == "set"@ && s != ""@ && s != "help"@
            && s != "new"@ && match sc {
            SetCommand::ColumnWidth(w) => pieces[1] == "column-width"@ && piece_uint_ok(pieces[2])
                && w == piece_uint(pieces[2]),
            SetCommand::Unit(u) => pieces[1] == "unit"@ && pieces[2] == "$"@ && u
                == UnitKind::Dollar,
        },
        Command::Save(p) => pieces.len() == 2 && pieces[0] == "save"@ && p@ == pieces[1] && s
            != ""@ && s != "help"@ && s != "new"@,
        Command::Find(t) => pieces.len() == 2 && pieces[0] == "find"@ && t@ == pieces[1] && s
            != ""@ && s != "help"@ && s != "new"@,
        Command::Sort(col) => pieces.len() == 2 && pieces[0] == "sort"@ && col_name_ok(
            spec_upper(pieces[1]),
        ) && col == spec_column_value(spec_upper(pieces[1])) && s != ""@ && s != "help"@ && s
            != "new"@,
        Command::Fit(col) => pieces.len() == 2 && pieces[0] == "fit"@ && col_name_ok(
            spec_upper(pieces[1]),
        ) && col == spec_column_value(spec_upper(pieces[1])) && s != ""@ && s != "help"@ && s
            != "new"@,
        Command::Fix(n) => pieces.len() == 3 && pieces[0] == "fix"@ && ((pieces[2] == "rows"@
            && piece_uint_ok(pieces[1]) && n == piece_uint(pieces[1])) || (pieces[1] == "1"@
            && pieces[2] == "row"@ && n == 1)) && s != ""@ && s != "help"@ && s != "new"@,
        Command::Resize(w, h) => pieces.len() == 3 && pieces[0] == "resize"@ && piece_uint_ok(
            pieces[1],
        ) && piece_uint_ok(pieces[2]) && w == piece_uint(pieces[1]) && h == piece_uint(pieces[2])
            && s != ""@ && s != "help"@ && s != "new"@,
        Command::Clear(p) => pieces.len() == 2 && pieces[0] == "clear"@ && cell_name_ok(pieces[1])
            && p == cell_name_val_pair(pieces[1]) && s != ""@ && s != "help"@ && s != "new"@,
        Command::Fill(p) => pieces.len() == 2 && pieces[0] == "fill"@ && cell_name_ok(pieces[1])
            && p == cell_name_val_pair(pieces[1]) && s != ""@ && s != "help"@ && s != "new"@,
        Command::Goto(p) => pieces.len() == 2 && pieces[0] == "goto"@ && cell_name_ok(pieces[1])
            && p == cell_name_val_pair(pieces[1]) && s != ""@ && s != "help"@ && s != "new"@,
    }
}

/// The `(column, row)` a well-formed cell name denotes, as machine integers.
pub open spec fn cell_name_val_pair(s: Seq<char>) -> (usize, usize) {
    (cell_name_val(s).0 as usize, cell_name_val(s).1 as usize)
}

/// The command keywords are pairwise distinct words.
proof fn lemma_keywords_distinct()
    ensures
        ""@ != "help"@ && ""@ != "new"@ && ""@ != "set"@ && ""@ != "save"@ && ""@ != "find"@
            && ""@ != "sort"@ && ""@ != "fit"@ && ""@ != "fix"@ && ""@ != "resize"@ && ""@
            != "clear"@ && ""@ != "fill"@ && ""@ != "goto"@,
        "set"@ != "fix"@ && "set"@ != "fit"@ && "set"@ != "resize"@ && "set"@ != "save"@ && "set"@
            != "find"@ && "set"@ != "sort"@ && "set"@ != "clear"@ && "set"@ != "fill"@ && "set"@
            != "goto"@,
        "fix"@ != "fit"@ && "fix"@ != "resize"@ && "fix"@ != "save"@ && "fix"@ != "find"@
            && "fix"@ != "sort"@ && "fix"@ != "clear"@ && "fix"@ != "fill"@ && "fix"@ != "goto"@,
        "resize"@ != "save"@ && "resize"@ != "find"@ && "resize"@ != "sort"@ && "resize"@
            != "fit"@ && "resize"@ != "clear"@ && "resize"@ != "fill"@ && "resize"@ != "goto"@,
        "save"@ != "find"@ && "save"@ != "sort"@ && "save"@ != "fit"@ && "save"@ != "clear"@
            && "save"@ != "fill"@ && "save"@ != "goto"@,
        "find"@ != "sort"@ && "find"@ != "fit"@ && "find"@ != "clear"@ && "find"@ != "fill"@
            && "find"@ != "goto"@,
        "sort"@ != "fit"@ && "sort"@ != "clear"@ && "sort"@ != "fill"@ && "sort"@ != "goto"@,
        "fit"@ != "clear"@ && "fit"@ != "fill"@ && "fit"@ != "goto"@,
        "clear"@ != "fill"@ && "clear"@ != "goto"@,
        "fill"@ != "goto"@,
        "rows"@ != "row"@,
        "column-width"@ != "unit"@,
{
    reveal_strlit("");
    reveal_strlit("help");
    reveal_strlit("new");
    reveal_strlit("set");
    reveal_strlit("save");
    reveal_strlit("find");
    reveal_strlit("sort");
    reveal_strlit("fit");
    reveal_strlit("fix");
    reveal_strlit("resize");
    reveal_strlit("clear");
    reveal_strlit("fill");
    reveal_strlit("goto");
    reveal_strlit("rows");
    reveal_strlit("row");
    reveal_strlit("column-width");
    reveal_strlit("unit");
    assert(""@.len() == 0);
    assert("set"@.len() == 3 && "fix"@.len() == 3 && "fit"@.len() == 3 && "new"@.len() == 3);
    assert("save"@.len() == 4 && "find"@.len() == 4 && "sort"@.len() == 4 && "goto"@.len() == 4);
    assert("fill"@.len() == 4 && "help"@.len() == 4 && "rows"@.len() == 4);
    assert("clear"@.len() == 5 && "resize"@.len() == 6 && "row"@.len() == 3);
    assert("column-width"@.len() == 12 && "unit"@.len() == 4);
    assert("set"@[0] == 's' && "fix"@[0] == 'f' && "fit"@[0] == 'f' && "new"@[0] == 'n');
    assert("fix"@[2] == 'x' && "fit"@[2] == 't');
    assert("save"@[0] == 's' && "find"@[0] == 'f' && "sort"@[0] == 's' && "goto"@[0] == 'g');
    assert("fill"@[0] == 'f' && "help"@[0] == 'h' && "rows"@[0] == 'r');
    assert("save"@[1] == 'a' && "sort"@[1] == 'o');
    assert("find"@[2] == 'n' && "fill"@[2] == 'l');
}

impl Command {
    /// Parses command text: the bare keywords, or a keyword with arguments,
    /// split on single spaces. The error hands back the offending text.
    pub fn parse<'a>(text: &'a str) -> (r: Result<Command, &'a str>)
        ensures
            match r {
                Ok(c) => spec_command_matches(text@, c),
                Err(_) => !spec_command_ok(text@),
            },
    {
        proof {
            lemma_keywords_distinct();
        }
        let chars = str_to_chars(text);
        if piece_is(chars.as_slice(), "") {
            return Ok(Command::Nothing);
        }
        if piece_is(chars.as_slice(), "help") {
            return Ok(Command::Help);
        }
        if piece_is(chars.as_slice(), "new") {
            return Ok(Command::New);
        }
        let pieces = split_char(chars.as_slice(), ' ');
        proof {
            assert(crate::text::char_vec_views(pieces@) == spec_split_char(text@, ' '));
        }
        if pieces.len() == 3 {
            assert(pieces@[0]@ == spec_split_char(text@, ' ')[0]);
            assert(pieces@[1]@ == spec_split_char(text@, ' ')[1]);
            assert(pieces@[2]@ == spec_split_char(text@, ' ')[2]);
            if piece_is(pieces[0].as_slice(), "set") {
                return parse_set_command(&pieces[1], &pieces[2], text);
            }
            if piece_is(pieces[0].as_slice(), "fix") {
                if piece_is(pieces[2].as_slice(), "rows") {
                    match parse_usize(pieces[1].as_slice()) {
                        Some(n) => {
                            return Ok(Command::Fix(n));
                        },
                        None => {
                            return Err(text);
                        },
                    }
                }
                if piece_is(pieces[1].as_slice(), "1") && piece_is(pieces[2].as_slice(), "row") {
                    return Ok(Command::Fix(1));
                }
                return Err(text);
            }
            if piece_is(pieces[0].as_slice(), "resize") {
                match parse_usize(pieces[1].as_slice()) {
                    Some(w) => {
                        match parse_usize(pieces[2].as_slice()) {
                            Some(h) => {
                                return Ok(Command::Resize(w, h));
                            },
                            None => {
                                return Err(text);
                            },
                        }
                    },
                    None => {
                        return Err(text);
                    },
                }
            }
            return Err(text);
        }
        if pieces.len() == 2 {
            assert(pieces@[0]@ == spec_split_char(text@, ' ')[0]);
            assert(pieces@[1]@ == spec_split_char(text@, ' ')[1]);
            if piece_is(pieces[0].as_slice(), "save") {
                return Ok(Command::Save(chars_to_string(pieces[1].as_slice())));
            }
            if piece_is(pieces[0].as_slice(), "find") {
                return Ok(Command::Find(chars_to_string(pieces[1].as_slice())));
            }
            if piece_is(pieces[0].as_slice(), "sort") {
                let upper = to_upper_chars(pieces[1].as_slice());
                match column_value_of_chars(upper.as_slice()) {
                    Some(col) => {
                        return Ok(Command::Sort(col));
                    },
                    None => {
                        return Err(text);
                    },
                }
            }
            if piece_is(pieces[0].as_slice(), "fit") {
                let upper = to_upper_chars(pieces[1].as_slice());
                match column_value_of_chars(upper.as_slice()) {
                    Some(col) => {
                        return Ok(Command::Fit(col));
                    },
                    None => {
                        return Err(text);
                    },
                }
            }
            let is_clear = piece_is(pieces[0].as_slice(), "clear");
            let is_fill = piece_is(pieces[0].as_slice(), "fill");
            let is_goto = piece_is(pieces[0].as_slice(), "goto");
            if is_clear || is_fill || is_goto {
                match cell_pos_of_chars(pieces[1].as_slice()) {
                    Some(p) => {
                        if is_clear {
                            return Ok(Command::Clear(p));
                        }
                        if is_fill {
                            return Ok(Command::Fill(p));
                        }
                        return Ok(Command::Goto(p));
                    },
                    None => {
                        return Err(text);
                    },
                }
            }
            return Err(text);
        }
        Err(text)
    }
}

/// Parses the two arguments of a `set` command: a column width in
/// characters, or a display unit.
pub fn parse_set_command<'a>(key: &Vec<char>, value: &Vec<char>, text: &'a str) -> (r: Result<
    Command,
    &'a str,
>)
    ensures
        match r {
            Ok(c) => {
                ||| (c matches Command::Assign(SetCommand::ColumnWidth(w)) && key@
                    == "column-width"@ && piece_uint_ok(value@) && w == piece_uint(value@))
                ||| (c matches Command::Assign(SetCommand::Unit(u)) && key@ == "unit"@ && value@
                    == "$"@ && u == UnitKind::Dollar)
            },
            Err(_) => !((key@ == "column-width"@ && piece_uint_ok(value@)) || (key@ == "unit"@
                && value@ == "$"@)),
        },
{
    proof {
        lemma_keywords_distinct();
    }
    if piece_is(key.as_slice(), "column-width") {
        match parse_usize(value.as_slice()) {
            Some(w) => Ok(Command::Assign(SetCommand::ColumnWidth(w))),
            None => Err("column-width expected integer"),
        }
    } else if piece_is(key.as_slice(), "unit") {
        if piece_is(value.as_slice(), "$") {
            Ok(Command::Assign(SetCommand::Unit(UnitKind::Dollar)))
        } else {
            Err("Invalid unit kind found")
        }
    } else {
        Err(text)
    }
}

/// The words a command renders back to: its keyword and arguments.
pub open spec fn spec_full_display(c: Command) -> Seq<char> {
    match c {
        Command::Nothing => "none"@,
        Command::Help => "help"@,
        Command::New => "new"@,
        Command::Assign(SetCommand::ColumnWidth(w)) => "set"@ + seq![' '] + "column-width"@
            + seq![' '] + spec_digits(w as nat),
        Command::Assign(SetCommand::Unit(u)) => "set"@ + seq![' '] + "unit"@ + seq![' '] + (
        if u is Dollar {
            "$"@
        } else {
            ""@
        }),
        Command::Save(p) => "save"@ + seq![' '] + p@,
        Command::Find(t) => "find"@ + seq![' '] + t@,
        Command::Sort(col) => "sort"@ + seq![' '] + spec_column_name(col as nat),
        Command::Fit(col) => "fit"@ + seq![' '] + spec_column_name(col as nat),
        Command::Fix(n) => "fix"@ + seq![' '] + spec_digits(n as nat) + seq![' '] + (if n == 1 {
            "row"@
        } else {
            "rows"@
        }),
        Command::Resize(w, h) => "resize"@ + seq![' '] + spec_digits(w as nat) + seq![' ']
            + spec_digits(h as nat),
        Command::Clear(p) => "clear"@ + seq![' '] + crate::address::spec_cell_name(
            p.0 as nat,
            p.1 as nat,
        ),
        Command::Fill(p) => "fill"@ + seq![' '] + crate::address::spec_cell_name(
            p.0 as nat,
            p.1 as nat,
        ),
        Command::Goto(p) => "goto"@ + seq![' '] + crate::address::spec_cell_name(
            p.0 as nat,
            p.1 as nat,
        ),
    }
}

/// Joins a keyword and the rendered arguments with single spaces.
fn join_command(kw: &str, parts: Vec<Vec<char>>) -> (r: String)
    ensures
        parts@.len() == 1 ==> r@ == kw@ + seq![' '] + parts@[0]@,
        parts@.len() == 2 ==> r@ == kw@ + seq![' '] + parts@[0]@ + seq![' '] + parts@[1]@,
{
    let mut chars = str_to_chars(kw);
    let n = parts.len();
    if n == 1 {
        chars.push(' ');
        chars_append_cloned(&mut chars, &parts[0]);
        assert(chars@ =~= kw@ + seq![' '] + parts@[0]@);
        return chars_to_string(chars.as_slice());
    }
    if n == 2 {
        chars.push(' ');
        chars_append_cloned(&mut chars, &parts[0]);
        chars.push(' ');
        chars_append_cloned(&mut chars, &parts[1]);
        assert(chars@ =~= kw@ + seq![' '] + parts@[0]@ + seq![' '] + parts@[1]@);
        return chars_to_string(chars.as_slice());
    }
    chars_to_string(chars.as_slice())
}

/// Appends a copy of the given characters.
fn chars_append_cloned(out: &mut Vec<char>, piece: &Vec<char>)
    ensures
        final (out)@ == old(out)@ + piece@,
{
    let mut i: usize = 0;
    while i < piece.len()
        invariant
            i <= piece@.len(),
            out@ == old(out)@ + piece@.subrange(0, i as int),
        decreases piece@.len() - i,
    {
        out.push(piece[i]);
        assert(out@ =~= old(out)@ + piece@.subrange(0, i + 1));
        i += 1;
    }
    proof {
        assert(out@ =~= old(out)@ + piece@);
    }
}

impl Command {
    /// Renders the command back to its full text form.
    pub fn full_display(&self) -> (r: String)
        ensures
            r@ == spec_full_display(*self),
    {
        match self {
            Command::Nothing => "none".to_owned(),
            Command::Help => "help".to_owned(),
            Command::New => "new".to_owned(),
            Command::Assign(SetCommand::ColumnWidth(w)) => {
                let mut parts: Vec<Vec<char>> = Vec::new();
                parts.push(str_to_chars("column-width"));
                parts.push(crate::text::u64_digits(*w as u64));
                join_command("set", parts)
            },
            Command::Assign(SetCommand::Unit(u)) => {
                let mut parts: Vec<Vec<char>> = Vec::new();
                parts.push(str_to_chars("unit"));
                parts.push(
                    match u {
                        UnitKind::Plain => str_to_chars(""),
                        UnitKind::Dollar => str_to_chars("$"),
                    },
                );
                join_command("set", parts)
            },
            Command::Save(p) => {
                let mut parts: Vec<Vec<char>> = Vec::new();
                parts.push(str_to_chars(p.as_str()));
                join_command("save", parts)
            },
            Command::Find(t) => {
                let mut parts: Vec<Vec<char>> = Vec::new();
                parts.push(str_to_chars(t.as_str()));
                join_command("find", parts)
            },
            Command::Sort(col) => {
                let mut parts: Vec<Vec<char>> = Vec::new();
                parts.push(crate::address::column_name_chars(*col));
                join_command("sort", parts)
            },
            Command::Fit(col) => {
                let mut parts: Vec<Vec<char>> = Vec::new();
                parts.push(crate::address::column_name_chars(*col));
                join_command("fit", parts)
            },
            Command::Fix(n) => {
                let mut parts: Vec<Vec<char>> = Vec::new();
                parts.push(crate::text::u64_digits(*n as u64));
                parts.push(
                    if *n == 1 {
                        str_to_chars("row")
                    } else {
                        str_to_chars("rows")
                    },
                );
                join_command("fix", parts)
            },
            Command::Resize(w, h) => {
                let mut parts: Vec<Vec<char>> = Vec::new();
                parts.push(crate::text::u64_digits(*w as u64));
                parts.push(crate::text::u64_digits(*h as u64));
                join_command("resize", parts)
            },
            Command::Clear(p) => {
                let mut parts: Vec<Vec<char>> = Vec::new();
                parts.push(cell_name_chars_of(*p));
                join_command("clear", parts)
            },
            Command::Fill(p) => {
                let mut parts: Vec<Vec<char>> = Vec::new();
                parts.push(cell_name_chars_of(*p));
                join_command("fill", parts)
            },
            Command::Goto(p) => {
                let mut parts: Vec<Vec<char>> = Vec::new();
                parts.push(cell_name_chars_of(*p));
                join_command("goto", parts)
            },
        }
    }
}

/// The characters of a cell name.
fn cell_name_chars_of(p: (usize, usize)) -> (r: Vec<char>)
    ensures
        r@ == crate::address::spec_cell_name(p.0 as nat, p.1 as nat),
{
    let mut chars = crate::address::column_name_chars(p.0);
    let mut digits = crate::text::u64_digits(p.1 as u64);
    chars.append(&mut digits);
    chars
}

impl CommandKind {
    /// A short help text for the command.
    pub fn description(&self) -> (r: &'static str)
        ensures
            match *self {
                CommandKind::Nothing => r@ == ""@,
                CommandKind::Help => r@
                    == "Displays this help with an overview over all commands and a general tutorial for this application."@,
                CommandKind::New => r@ == "Creates a new spreadsheet. Make sure to save before."@,
                CommandKind::Assign => r@
                    == "Change the current cell. Takes two arguments, the first is the property, which will be changed (see the example for all possible values) and the second is the value for that key."@,
                CommandKind::Save => r@ == "Saves the current spreadsheet to a path."@,
                CommandKind::Find => r@
                    == "Finds a string in all the cells. Starts looking at the current cell, so you can checkout all results by repeating the command."@,
                CommandKind::Sort => r@
                    == "Takes a column (case insensitive) as an argument. This sorts the spreadsheet by this column. The ordering is `Text > Numbers > Empty`, where text is sorted alphabetically and numbers by their value. Formulas are ordered by their last evaluated value (which is the one displayed)."@,
                CommandKind::Fit => r@
                    == "Sets the width of the given column automatically, so that its content fits inside."@,
                CommandKind::Fix => r@
                    == "This pins the given number of rows to the top. They will not be sorted."@,
                CommandKind::Resize => r@
                    == "Takes the new number of columns and rows as arguments. The have to be >= then the old size, otherwise bugs might be triggered."@,
                CommandKind::Clear => r@
                    == "Clears the cells between the current cell and the supplied cell of any content."@,
                CommandKind::Fill => r@ == "Auto fills from the current cell to the given cell."@,
                CommandKind::Goto => r@
                    == "Go to a given cell. Can also be accessed by pressing Ctrl+G."@,
            },
    {
        match self {
            CommandKind::Nothing => "",
            CommandKind::Help => "Displays this help with an overview over all commands and a general tutorial for this application.",
            CommandKind::New => "Creates a new spreadsheet. Make sure to save before.",
            CommandKind::Assign => "Change the current cell. Takes two arguments, the first is the property, which will be changed (see the example for all possible values) and the second is the value for that key.",
            CommandKind::Save => "Saves the current spreadsheet to a path.",
            CommandKind::Find => "Finds a string in all the cells. Starts looking at the current cell, so you can checkout all results by repeating the command.",
            CommandKind::Sort => "Takes a column (case insensitive) as an argument. This sorts the spreadsheet by this column. The ordering is `Text > Numbers > Empty`, where text is sorted alphabetically and numbers by their value. Formulas are ordered by their last evaluated value (which is the one displayed).",
            CommandKind::Fit => "Sets the width of the given column automatically, so that its content fits inside.",
            CommandKind::Fix => "This pins the given number of rows to the top. They will not be sorted.",
            CommandKind::Resize => "Takes the new number of columns and rows as arguments. The have to be >= then the old size, otherwise bugs might be triggered.",
            CommandKind::Clear => "Clears the cells between the current cell and the supplied cell of any content.",
            CommandKind::Fill => "Auto fills from the current cell to the given cell.",
            CommandKind::Goto => "Go to a given cell. Can also be accessed by pressing Ctrl+G.",
        }
    }

    /// Example commands of this kind, as the help shows them.
    pub fn example_values(&self) -> (r: Vec<Command>)
        ensures
            match *self {
                CommandKind::Nothing => r@.len() == 1 && r@[0] is Nothing,
                CommandKind::Help => r@.len() == 1 && r@[0] is Help,
                CommandKind::New => r@.len() == 1 && r@[0] is New,
                CommandKind::Assign => r@.len() == 2 && (r@[0] matches Command::Assign(
                    SetCommand::ColumnWidth(w),
                ) && w == 10) && (r@[1] matches Command::Assign(SetCommand::Unit(u)) && u
                    == UnitKind::Dollar),
                CommandKind::Save => r@.len() == 1 && (r@[0] matches Command::Save(p) && p@
                    == "table.xlsx"@),
                CommandKind::Find => r@.len() == 1 && (r@[0] matches Command::Find(t) && t@
                    == "total"@),
                CommandKind::Sort => r@.len() == 1 && (r@[0] matches Command::Sort(c) && c == 0),
                CommandKind::Fit => r@.len() == 1 && (r@[0] matches Command::Fit(c) && c == 0),
                CommandKind::Fix => r@.len() == 2 && (r@[0] matches Command::Fix(a) && a == 1) && (
                r@[1] matches Command::Fix(b) && b == 5),
                CommandKind::Resize => r@.len() == 1 && (r@[0] matches Command::Resize(w, h) && w
                    == 5 && h == 5),
                CommandKind::Clear => r@.len() == 1 && (r@[0] matches Command::Clear(p) && p == (
                3usize,
                2usize,
                )),
                CommandKind::Fill => r@.len() == 1 && (r@[0] matches Command::Fill(p) && p == (
                5usize,
                5usize,
                )),
                CommandKind::Goto => r@.len() == 1 && (r@[0] matches Command::Goto(p) && p == (
                0usize,
                550usize,
                )),
            },
    {
        let mut r: Vec<Command> = Vec::new();
        match self {
            CommandKind::Nothing => r.push(Command::Nothing),
            CommandKind::Help => r.push(Command::Help),
            CommandKind::New => r.push(Command::New),
            CommandKind::Assign => {
                r.push(Command::Assign(SetCommand::ColumnWidth(10)));
                r.push(Command::Assign(SetCommand::Unit(UnitKind::Dollar)));
            },
            CommandKind::Save => r.push(Command::Save("table.xlsx".to_owned())),
            CommandKind::Find => r.push(Command::Find("total".to_owned())),
            CommandKind::Sort => r.push(Command::Sort(0)),
            CommandKind::Fit => r.push(Command::Fit(0)),
            CommandKind::Fix => {
                r.push(Command::Fix(1));
                r.push(Command::Fix(5));
            },
            CommandKind::Resize => r.push(Command::Resize(5, 5)),
            CommandKind::Clear => r.push(Command::Clear((3, 2))),
            CommandKind::Fill => r.push(Command::Fill((5, 5))),
            CommandKind::Goto => r.push(Command::Goto((0, 550))),
        }
        r
    }
}

} // verus!
