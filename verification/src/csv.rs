//! Delimited-text ingestion: a four-state machine sizes the input once per
//! candidate separator (comma, semicolon, tab), the separator giving the
//! widest grid wins (ties broken by more rows, then by the earlier
//! candidate), and a second pass over the winner collects the field texts,
//! unescaping doubled quotes and padding short rows.
use vstd::prelude::*;

use crate::text::{chars_to_string, str_to_chars};

verus! {

/// A parsed delimited-text file: the field texts in row-major order, the
/// grid size, and the separator that won.
#[derive(Debug, Clone)]
pub struct CsvFile {
    pub cells: Vec<String>,
    pub width: usize,
    pub height: usize,
    pub seperator: char,
}

/// Why delimited text was rejected: a character following a closing quote,
/// no separator yielding any cells, or a line ending inside a quoted span.
/// When every candidate separator fails, the first candidate's failure is
/// reported.
#[derive(Debug)]
pub enum CsvParseError {
    NoSuccessfullParse(Box<CsvParseError>),
    InvalidEscaping,
    NoCellsFound(usize, usize),
    UnfinishedEscaping,
}

/// The scanner's state: before a field, inside an unquoted field, inside a
/// quoted span, or just past a closing quote.
#[derive(Debug, Clone, Copy, PartialEq, Eq, Structural)]
pub enum CsvParseState {
    NewCell,
    InCell,
    InCellEscaped,
    InCellEndEscape,
}

/// Where the first line feed stands, or the length when there is none.
pub open spec fn nl_index(s: Seq<char>) -> nat
    decreases s.len(),
{
    if s.len() == 0 || s[0] == '\n' {
        0
    } else {
        (1 + nl_index(s.subrange(1, s.len() as int))) as nat
    }
}

/// A position before which there is no line feed, and which holds one or is
/// the end, is where `nl_index` stands.
pub proof fn lemma_nl_index_is(s: Seq<char>, k: int)
    requires
        0 <= k <= s.len(),
        forall|i: int| 0 <= i < k ==> #[trigger] s[i] != '\n',
        k < s.len() ==> s[k] == '\n',
    ensures
        nl_index(s) == k,
    decreases s.len(),
{
    if s.len() > 0 && s[0] != '\n' {
        let rest = s.subrange(1, s.len() as int);
        assert(forall|i: int| 1 <= i < s.len() ==> #[trigger] s[i] == rest[i - 1]);
        lemma_nl_index_is(rest, k - 1);
    }
}

/// How text splits into lines, as the standard library splits it: at each
/// line feed, stripping one carriage return just before it, with no final
/// empty line after a trailing line feed.
pub open spec fn spec_lines(s: Seq<char>) -> Seq<Seq<char>>
    decreases s.len(),
{
    if s.len() == 0 {
        Seq::empty()
    } else {
        let k = if nl_index(s) <= s.len() {
            nl_index(s) as int
        } else {
            s.len() as int
        };
        if k == s.len() {
            seq![s.subrange(0, k)]
        } else {
            let line = s.subrange(0, k);
            let stripped = if line.len() > 0 && line.last() == '\r' {
                line.drop_last()
            } else {
                line
            };
            seq![stripped] + spec_lines(s.subrange(k + 1, s.len() as int))
        }
    }
}

/// One character of scanning: a quote outside an unquoted field opens,
/// closes or (doubled) re-opens a quoted span; the separator ends a field
/// only inside a field or just past a closing quote; anything else starts or
/// continues a field, and is an error just past a closing quote. The scan
/// yields the completed fields, the pending field text, and the state the
/// line ends in.
pub open spec fn csv_scan(
    line: Seq<char>,
    i: int,
    st: CsvParseState,
    fields: Seq<Seq<char>>,
    cur: Seq<char>,
    sep: char,
) -> Result<(Seq<Seq<char>>, Seq<char>, CsvParseState), ()>
    decreases line.len() - i,
{
    if i < 0 || i >= line.len() {
        Ok((fields, cur, st))
    } else {
        let ch = line[i];
        if ch == '"' && st != CsvParseState::InCell {
            match st {
                CsvParseState::NewCell => csv_scan(
                    line,
                    i + 1,
                    CsvParseState::InCellEscaped,
                    fields,
                    cur,
                    sep,
                ),
                CsvParseState::InCellEscaped => csv_scan(
                    line,
                    i + 1,
                    CsvParseState::InCellEndEscape,
                    fields,
                    cur,
                    sep,
                ),
                _ => csv_scan(line, i + 1, CsvParseState::InCellEscaped, fields, cur.push('"'), sep),
            }
        } else if ch == sep && (st == CsvParseState::InCell || st == CsvParseState::InCellEndEscape) {
            csv_scan(line, i + 1, CsvParseState::NewCell, fields.push(cur), Seq::empty(), sep)
        } else {
            match st {
                CsvParseState::NewCell => csv_scan(
                    line,
                    i + 1,
                    CsvParseState::InCell,
                    fields,
                    cur.push(ch),
                    sep,
                ),
                CsvParseState::InCell => csv_scan(
                    line,
                    i + 1,
                    CsvParseState::InCell,
                    fields,
                    cur.push(ch),
                    sep,
                ),
                CsvParseState::InCellEscaped => csv_scan(
                    line,
                    i + 1,
                    CsvParseState::InCellEscaped,
                    fields,
                    cur.push(ch),
                    sep,
                ),
                CsvParseState::InCellEndEscape => Err(()),
            }
        }
    }
}

/// The sizing pass over the lines from `j` on, entering with the given
/// state: the width is the largest per-line field count, a line counts
/// toward the height only when it has any field, and a line ending inside a
/// quoted span is an unterminated-quote error. The state carries across
/// lines; the pending field text does not.
pub open spec fn csv_size_lines(
    lines: Seq<Seq<char>>,
    j: int,
    st: CsvParseState,
    sep: char,
) -> Result<(nat, nat), CsvParseError>
    decreases lines.len() - j,
{
    if j < 0 || j >= lines.len() {
        Ok((0, 0))
    } else {
        match csv_scan(lines[j], 0, st, Seq::empty(), Seq::empty(), sep) {
            Err(()) => Err(CsvParseError::InvalidEscaping),
            Ok((fields, _cur, st2)) => {
                if st2 == CsvParseState::InCellEscaped {
                    Err(CsvParseError::UnfinishedEscaping)
                } else {
                    let cw: nat = if lines[j].len() == 0 {
                        0
                    } else {
                        fields.len() + 1
                    };
                    match csv_size_lines(lines, j + 1, st2, sep) {
                        Err(e) => Err(e),
                        Ok((w, h)) => Ok(
                            (
                                if cw > w {
                                    cw
                                } else {
                                    w
                                },
                                if cw > 0 {
                                    (h + 1) as nat
                                } else {
                                    h
                                },
                            ),
                        ),
                    }
                }
            },
        }
    }
}

/// What sizing the whole text with one separator yields: the grid size, or
/// the first error; a size without any cells is itself an error.
pub open spec fn spec_size_csv(s: Seq<char>, sep: char) -> Result<(nat, nat), CsvParseError> {
    match csv_size_lines(spec_lines(s), 0, CsvParseState::NewCell, sep) {
        Err(e) => Err(e),
        Ok((w, h)) => if w == 0 || h == 0 {
            Err(CsvParseError::NoCellsFound(w as usize, h as usize))
        } else {
            Ok((w, h))
        },
    }
}

/// The collecting pass over the lines from `j` on: each line's completed
/// fields, then its pending text as one more field, padded with empty fields
/// up to the width.
pub open spec fn csv_parse_lines(
    lines: Seq<Seq<char>>,
    j: int,
    st: CsvParseState,
    width: nat,
    sep: char,
) -> Result<Seq<Seq<char>>, CsvParseError>
    decreases lines.len() - j,
{
    if j < 0 || j >= lines.len() {
        Ok(Seq::empty())
    } else {
        match csv_scan(lines[j], 0, st, Seq::empty(), Seq::empty(), sep) {
            Err(()) => Err(CsvParseError::InvalidEscaping),
            Ok((fields, cur, st2)) => {
                let row = fields.push(cur);
                let padded = if row.len() < width {
                    row + Seq::new((width - row.len()) as nat, |i: int| Seq::<char>::empty())
                } else {
                    row
                };
                match csv_parse_lines(lines, j + 1, st2, width, sep) {
                    Err(e) => Err(e),
                    Ok(rest) => Ok(padded + rest),
                }
            },
        }
    }
}

/// What the collecting pass yields over the whole text.
pub open spec fn spec_parse_csv(s: Seq<char>, sep: char, width: nat) -> Result<
    Seq<Seq<char>>,
    CsvParseError,
> {
    csv_parse_lines(spec_lines(s), 0, CsvParseState::NewCell, width, sep)
}

/// A list of strings whose views are exactly the given field texts.
pub open spec fn strings_match(v: Seq<String>, f: Seq<Seq<char>>) -> bool {
    v.len() == f.len() && forall|i: int| 0 <= i < f.len() ==> v[i]@ == #[trigger] f[i]
}

/// The views of a list of character vectors.
pub open spec fn vec_views(v: Seq<Vec<char>>) -> Seq<Seq<char>> {
    v.map_values(|x: Vec<char>| x@)
}

/// The views of a list of strings.
pub open spec fn string_views(v: Seq<String>) -> Seq<Seq<char>> {
    v.map_values(|x: String| x@)
}

/// Splits text into lines as the standard library does.
pub fn split_text_lines(s: &[char]) -> (r: Vec<Vec<char>>)
    ensures
        vec_views(r@) == spec_lines(s@),
{
    let n = s.len();
    let mut out: Vec<Vec<char>> = Vec::new();
    let mut cur: Vec<char> = Vec::new();
    let mut start: usize = 0;
    let mut i: usize = 0;
    proof {
        assert(vec_views(out@) =~= Seq::<Seq<char>>::empty());
        assert(s@.subrange(0, n as int) =~= s@);
        assert(vec_views(out@) + spec_lines(s@) =~= spec_lines(s@));
    }
    while i < n
        invariant
            start <= i <= n,
            n == s@.len(),
            cur@ == s@.subrange(start as int, i as int),
            forall|j: int| start <= j < i ==> s@[j] != '\n',
            spec_lines(s@) == vec_views(out@) + spec_lines(s@.subrange(start as int, n as int)),
        decreases n - i,
    {
        let ch = s[i];
        if ch == '\n' {
            let ghost rest = s@.subrange(start as int, n as int);
            let ghost prev_views = vec_views(out@);
            let ghost old_start = start as int;
            let ghost k = i - old_start;
            let ghost line = rest.subrange(0, k);
            proof {
                assert forall|j: int| 0 <= j < k implies #[trigger] rest[j] != '\n' by {
                    assert(rest[j] == s@[old_start + j]);
                }
                assert(rest[k] == '\n');
                lemma_nl_index_is(rest, k);
                assert(line =~= s@.subrange(old_start, i as int));
            }
            let ghost stripped = if line.len() > 0 && line.last() == '\r' {
                line.drop_last()
            } else {
                line
            };
            if cur.len() > 0 && cur[cur.len() - 1] == '\r' {
                let _ = cur.pop();
                proof {
                    assert(cur@ =~= line.drop_last());
                }
            }
            assert(cur@ == stripped);
            out.push(cur);
            cur = Vec::new();
            start = i + 1;
            proof {
                assert(rest.subrange(k + 1, rest.len() as int) =~= s@.subrange(i + 1, n as int));
                assert(spec_lines(rest) == seq![stripped] + spec_lines(
                    s@.subrange(i + 1, n as int),
                ));
                assert(vec_views(out@) =~= prev_views.push(stripped));
                assert(prev_views + spec_lines(rest) =~= vec_views(out@) + spec_lines(
                    s@.subrange(i + 1, n as int),
                ));
                assert(cur@ =~= s@.subrange(start as int, i + 1));
            }
        } else {
            cur.push(ch);
            assert(cur@ =~= s@.subrange(start as int, i + 1));
        }
        i += 1;
    }
    let ghost rest = s@.subrange(start as int, n as int);
    let ghost prev_views = vec_views(out@);
    proof {
        assert forall|j: int| 0 <= j < rest.len() implies #[trigger] rest[j] != '\n' by {
            assert(rest[j] == s@[start + j]);
        }
        lemma_nl_index_is(rest, rest.len() as int);
    }
    if cur.len() > 0 {
        out.push(cur);
        proof {
            assert(rest.subrange(0, rest.len() as int) =~= rest);
            assert(spec_lines(rest) == seq![rest]);
            assert(vec_views(out@) =~= prev_views.push(rest));
            assert(prev_views + spec_lines(rest) =~= vec_views(out@));
        }
    } else {
        proof {
            assert(rest =~= Seq::<char>::empty());
            assert(prev_views + spec_lines(rest) =~= vec_views(out@));
        }
    }
    out
}

/// Scans one line for sizing: the count of fields its separators completed
/// and the state it ends in.
fn size_line(line: &[char], st0: CsvParseState, sep: char) -> (r: Result<
    (usize, CsvParseState),
    (),
>)
    ensures
        match r {
            Ok((count, st2)) => csv_scan(line@, 0, st0, Seq::empty(), Seq::empty(), sep) matches Ok(
                t,
            ) && t.0.len() == count && t.2 == st2 && 2 * count <= line@.len() + 1,
            Err(()) => csv_scan(line@, 0, st0, Seq::empty(), Seq::empty(), sep) is Err,
        },
{
    let n = line.len();
    let mut st = st0;
    let mut count: usize = 0;
    let ghost mut fields: Seq<Seq<char>> = Seq::empty();
    let ghost mut cur: Seq<char> = Seq::empty();
    let mut i: usize = 0;
    while i < n
        invariant
            i <= n,
            n == line@.len(),
            count == fields.len(),
            2 * count <= i + 1,
            st != CsvParseState::NewCell ==> 2 * count <= i,
            csv_scan(line@, 0, st0, Seq::empty(), Seq::empty(), sep) == csv_scan(
                line@,
                i as int,
                st,
                fields,
                cur,
                sep,
            ),
        decreases n - i,
    {
        let ch = line[i];
        if ch == '"' && st != CsvParseState::InCell {
            match st {
                CsvParseState::NewCell => {
                    st = CsvParseState::InCellEscaped;
                },
                CsvParseState::InCellEscaped => {
                    st = CsvParseState::InCellEndEscape;
                },
                _ => {
                    st = CsvParseState::InCellEscaped;
                    proof {
                        cur = cur.push('"');
                    }
                },
            }
        } else if ch == sep && (st == CsvParseState::InCell || st == CsvParseState::InCellEndEscape)
        {
            count = count + 1;
            st = CsvParseState::NewCell;
            proof {
                fields = fields.push(cur);
                cur = Seq::empty();
            }
        } else {
            match st {
                CsvParseState::NewCell => {
                    st = CsvParseState::InCell;
                    proof {
                        cur = cur.push(ch);
                    }
                },
                CsvParseState::InCell | CsvParseState::InCellEscaped => {
                    proof {
                        cur = cur.push(ch);
                    }
                },
                CsvParseState::InCellEndEscape => {
                    return Err(());
                },
            }
        }
        i += 1;
    }
    Ok((count, st))
}

/// Sizes delimited text with one candidate separator: the greatest per-line
/// field count and the number of lines with any field. Fails on a character
/// after a closing quote, a line ending inside a quoted span, or when no
/// line yields any field.
pub fn parse_size_of_csv(s: &str, sep: char) -> (r: Result<(usize, usize), CsvParseError>)
    ensures
        match r {
            Ok((w, h)) => spec_size_csv(s@, sep) == Ok::<(nat, nat), CsvParseError>(
                (w as nat, h as nat),
            ),
            Err(e) => spec_size_csv(s@, sep) == Err::<(nat, nat), CsvParseError>(e),
        },
{
    let chars = str_to_chars(s);
    let lines = split_text_lines(chars.as_slice());
    let ghost lseq = spec_lines(s@);
    let m = lines.len();
    let mut width: usize = 0;
    let mut height: usize = 0;
    let mut st = CsvParseState::NewCell;
    let mut j: usize = 0;
    while j < m
        invariant
            j <= m,
            m == lseq.len(),
            lseq == spec_lines(s@),
            vec_views(lines@) == lseq,
            height <= j,
            match csv_size_lines(lseq, j as int, st, sep) {
                Ok((w, h)) => csv_size_lines(lseq, 0, CsvParseState::NewCell, sep) == Ok::<
                    (nat, nat),
                    CsvParseError,
                >(
                    (
                        if w > width {
                            w
                        } else {
                            width as nat
                        },
                        (height + h) as nat,
                    ),
                ),
                Err(e) => csv_size_lines(lseq, 0, CsvParseState::NewCell, sep) == Err::<
                    (nat, nat),
                    CsvParseError,
                >(e),
            },
        decreases m - j,
    {
        assert(lines@[j as int]@ == lseq[j as int]);
        match size_line(lines[j].as_slice(), st, sep) {
            Err(()) => {
                return Err(CsvParseError::InvalidEscaping);
            },
            Ok((count, st2)) => {
                if matches!(st2, CsvParseState::InCellEscaped) {
                    return Err(CsvParseError::UnfinishedEscaping);
                }
                let cw: usize = if lines[j].len() == 0 {
                    0
                } else {
                    count + 1
                };
                if cw > width {
                    width = cw;
                }
                if cw > 0 {
                    height = height + 1;
                }
                st = st2;
            },
        }
        j += 1;
    }
    if width == 0 || height == 0 {
        Err(CsvParseError::NoCellsFound(width, height))
    } else {
        Ok((width, height))
    }
}

/// Scans one line for collecting: appends each completed field and then the
/// pending text to the output, and hands back the state the line ends in.
fn parse_line(line: &[char], st0: CsvParseState, sep: char, cells: &mut Vec<String>) -> (r: Result<
    CsvParseState,
    (),
>)
    ensures
        match r {
            Ok(st2) => csv_scan(line@, 0, st0, Seq::empty(), Seq::empty(), sep) matches Ok(t)
                && t.2 == st2 && string_views(final (cells)@) == string_views(old(cells)@)
                + t.0.push(t.1),
            Err(()) => csv_scan(line@, 0, st0, Seq::empty(), Seq::empty(), sep) is Err
                && final (cells)@ == old(cells)@,
        },
{
    let n = line.len();
    let mut st = st0;
    let mut cur: Vec<char> = Vec::new();
    let mut out: Vec<String> = Vec::new();
    let ghost mut fields: Seq<Seq<char>> = Seq::empty();
    let mut i: usize = 0;
    while i < n
        invariant
            i <= n,
            n == line@.len(),
            string_views(out@) == fields,
            csv_scan(line@, 0, st0, Seq::empty(), Seq::empty(), sep) == csv_scan(
                line@,
                i as int,
                st,
                fields,
                cur@,
                sep,
            ),
        decreases n - i,
    {
        let ch = line[i];
        if ch == '"' && st != CsvParseState::InCell {
            match st {
                CsvParseState::NewCell => {
                    st = CsvParseState::InCellEscaped;
                },
                CsvParseState::InCellEscaped => {
                    st = CsvParseState::InCellEndEscape;
                },
                _ => {
                    st = CsvParseState::InCellEscaped;
                    cur.push('"');
                },
            }
        } else if ch == sep && (st == CsvParseState::InCell || st == CsvParseState::InCellEndEscape)
        {
            let ghost prev = out@;
            let text = chars_to_string(cur.as_slice());
            let ghost done = cur@;
            out.push(text);
            cur = Vec::new();
            st = CsvParseState::NewCell;
            proof {
                assert(string_views(out@) =~= string_views(prev).push(done));
                fields = fields.push(done);
            }
        } else {
            match st {
                CsvParseState::NewCell => {
                    st = CsvParseState::InCell;
                    cur.push(ch);
                },
                CsvParseState::InCell | CsvParseState::InCellEscaped => {
                    cur.push(ch);
                },
                CsvParseState::InCellEndEscape => {
                    return Err(());
                },
            }
        }
        i += 1;
    }
    let ghost prev = out@;
    let text = chars_to_string(cur.as_slice());
    let ghost done = cur@;
    out.push(text);
    proof {
        assert(string_views(out@) =~= string_views(prev).push(done));
    }
    let ghost before = cells@;
    let mut k: usize = 0;
    while k < out.len()
        invariant
            k <= out@.len(),
            string_views(out@) == fields.push(done),
            string_views(cells@) == string_views(before) + string_views(out@).subrange(
                0,
                k as int,
            ),
        decreases out@.len() - k,
    {
        let ghost prev_cells = cells@;
        let item = out[k].clone();
        cells.push(item);
        proof {
            assert(string_views(cells@) =~= string_views(prev_cells).push(out@[k as int]@));
            assert(string_views(out@).subrange(0, k + 1) =~= string_views(out@).subrange(
                0,
                k as int,
            ).push(out@[k as int]@));
            assert(string_views(cells@) =~= string_views(before) + string_views(out@).subrange(
                0,
                k + 1,
            ));
        }
        k += 1;
    }
    proof {
        assert(string_views(out@).subrange(0, out@.len() as int) =~= string_views(out@));
    }
    Ok(st)
}

/// Collects the fields of delimited text with the winning separator and its
/// size, padding each short row with empty fields up to the width. The
/// sizing result is what guarantees that exactly `width * height` fields
/// come out, so a matching sizing is demanded up front.
pub fn parse_csv(s: &str, seperator: char, width: usize, height: usize) -> (r: Result<
    CsvFile,
    CsvParseError,
>)
    requires
        width * height <= usize::MAX,
        spec_parse_csv(s@, seperator, width as nat) matches Ok(fields) ==> fields.len() == width
            * height,
    ensures
        match r {
            Ok(csv) => {
                &&& spec_parse_csv(s@, seperator, width as nat) matches Ok(fields)
                    && strings_match(csv.cells@, fields)
                &&& csv.width == width
                &&& csv.height == height
                &&& csv.seperator == seperator
                &&& csv.cells@.len() == width * height
            },
            Err(e) => spec_parse_csv(s@, seperator, width as nat) == Err::<
                Seq<Seq<char>>,
                CsvParseError,
            >(e),
        },
{
    let chars = str_to_chars(s);
    let lines = split_text_lines(chars.as_slice());
    let ghost lseq = spec_lines(s@);
    let ghost whole = spec_parse_csv(s@, seperator, width as nat);
    let m = lines.len();
    let mut cells: Vec<String> = Vec::new();
    let mut st = CsvParseState::NewCell;
    let mut j: usize = 0;
    proof {
        assert(string_views(cells@) =~= Seq::<Seq<char>>::empty());
        let r0 = csv_parse_lines(lseq, 0, CsvParseState::NewCell, width as nat, seperator);
        if r0 is Ok {
            assert(string_views(cells@) + r0->Ok_0 =~= r0->Ok_0);
        }
    }
    while j < m
        invariant
            j <= m,
            m == lseq.len(),
            lseq == spec_lines(s@),
            whole == spec_parse_csv(s@, seperator, width as nat),
            vec_views(lines@) == lseq,
            match csv_parse_lines(lseq, j as int, st, width as nat, seperator) {
                Ok(rest) => whole == Ok::<Seq<Seq<char>>, CsvParseError>(
                    string_views(cells@) + rest,
                ),
                Err(e) => whole == Err::<Seq<Seq<char>>, CsvParseError>(e),
            },
        decreases m - j,
    {
        assert(lines@[j as int]@ == lseq[j as int]);
        let row_start = cells.len();
        let ghost before = cells@;
        match parse_line(lines[j].as_slice(), st, seperator, &mut cells) {
            Err(()) => {
                return Err(CsvParseError::InvalidEscaping);
            },
            Ok(st2) => {
                let ghost t = csv_scan(
                    lseq[j as int],
                    0,
                    st,
                    Seq::empty(),
                    Seq::empty(),
                    seperator,
                )->Ok_0;
                let ghost row = t.0.push(t.1);
                let ghost padded = if row.len() < width as nat {
                    row + Seq::new((width as nat - row.len()) as nat, |i: int| Seq::<char>::empty())
                } else {
                    row
                };
                proof {
                    assert(string_views(cells@).len() == cells@.len());
                    assert(string_views(before).len() == before.len());
                    assert(cells@.len() == before.len() + row.len());
                }
                let fields_here = cells.len() - row_start;
                if fields_here < width {
                    let mut p: usize = 0;
                    let pad = width - fields_here;
                    proof {
                        assert(string_views(cells@) =~= string_views(before) + row + Seq::new(
                            0,
                            |i: int| Seq::<char>::empty(),
                        ));
                    }
                    while p < pad
                        invariant
                            p <= pad,
                            pad == width - row.len(),
                            string_views(cells@) == string_views(before) + row + Seq::new(
                                p as nat,
                                |i: int| Seq::<char>::empty(),
                            ),
                        decreases pad - p,
                    {
                        let ghost prev_cells = cells@;
                        cells.push(String::new());
                        proof {
                            assert(string_views(cells@) =~= string_views(prev_cells).push(
                                Seq::<char>::empty(),
                            ));
                            assert(string_views(cells@) =~= string_views(before) + row + Seq::new(
                                (p + 1) as nat,
                                |i: int| Seq::<char>::empty(),
                            ));
                        }
                        p += 1;
                    }
                    proof {
                        assert(row + Seq::new(
                            (width as nat - row.len()) as nat,
                            |i: int| Seq::<char>::empty(),
                        ) =~= padded);
                        assert(string_views(cells@) =~= string_views(before) + padded);
                    }
                } else {
                    proof {
                        assert(string_views(cells@) =~= string_views(before) + padded);
                    }
                }
                st = st2;
                proof {
                    let rr = csv_parse_lines(lseq, j + 1, st2, width as nat, seperator);
                    if rr is Ok {
                        assert((string_views(before) + padded) + rr->Ok_0 =~= string_views(before)
                            + (padded + rr->Ok_0));
                    }
                }
            },
        }
        j += 1;
    }
    proof {
        let rm = csv_parse_lines(lseq, m as int, st, width as nat, seperator);
        if rm is Ok {
            assert(string_views(cells@) + rm->Ok_0 =~= string_views(cells@));
        }
    }
    Ok(CsvFile { cells, width, height, seperator })
}

/// Over lines that are all nonempty, a successful sizing pins the collecting
/// pass down: it succeeds and yields exactly `height` rows of `width` fields
/// for any width at least the sized one.
pub proof fn lemma_parse_matches_size(
    lines: Seq<Seq<char>>,
    j: int,
    st: CsvParseState,
    sep: char,
    width: nat,
)
    requires
        0 <= j <= lines.len(),
        forall|l: int| j <= l < lines.len() ==> #[trigger] lines[l].len() > 0,
        csv_size_lines(lines, j, st, sep) matches Ok(wh) && wh.0 <= width,
    ensures
        csv_parse_lines(lines, j, st, width, sep) matches Ok(fields) && fields.len()
            == (csv_size_lines(lines, j, st, sep)->Ok_0).1 * width,
    decreases lines.len() - j,
{
    if j < lines.len() {
        assert(lines[j].len() > 0);
        let scan = csv_scan(lines[j], 0, st, Seq::empty(), Seq::empty(), sep);
        assert(scan is Ok);
        let t = scan->Ok_0;
        let wh = csv_size_lines(lines, j, st, sep)->Ok_0;
        let cw = t.0.len() + 1;
        assert(csv_size_lines(lines, j + 1, t.2, sep) is Ok);
        let rest_wh = csv_size_lines(lines, j + 1, t.2, sep)->Ok_0;
        assert(wh.0 == if cw > rest_wh.0 {
            cw
        } else {
            rest_wh.0
        });
        assert(rest_wh.0 <= width);
        lemma_parse_matches_size(lines, j + 1, t.2, sep, width);
        let row = t.0.push(t.1);
        let padded = if row.len() < width {
            row + Seq::new((width - row.len()) as nat, |i: int| Seq::<char>::empty())
        } else {
            row
        };
        assert(cw <= wh.0);
        assert(padded.len() == width);
        let rest_fields = csv_parse_lines(lines, j + 1, t.2, width, sep)->Ok_0;
        assert(csv_parse_lines(lines, j, st, width, sep) == Ok::<Seq<Seq<char>>, CsvParseError>(
            padded + rest_fields,
        ));
        assert(rest_fields.len() == rest_wh.1 * width);
        assert(wh.1 == rest_wh.1 + 1);
        assert((rest_wh.1 + 1) * width == rest_wh.1 * width + width) by (nonlinear_arith);
        assert((padded + rest_fields).len() == wh.1 * width);
    } else {
        assert(csv_parse_lines(lines, j, st, width, sep) == Ok::<Seq<Seq<char>>, CsvParseError>(
            Seq::empty(),
        ));
        assert(csv_size_lines(lines, j, st, sep) == Ok::<(nat, nat), CsvParseError>((0, 0)));
        assert((csv_size_lines(lines, j, st, sep)->Ok_0).1 == 0);
        assert((csv_size_lines(lines, j, st, sep)->Ok_0).1 * width == 0) by (nonlinear_arith)
            requires
                (csv_size_lines(lines, j, st, sep)->Ok_0).1 == 0,
        ;
    }
}

/// Whether a successful size is at least as good as another attempt: more
/// columns win, ties go to more rows, and any success beats a failure.
pub open spec fn size_ge(a: (nat, nat), b: Result<(nat, nat), CsvParseError>) -> bool {
    match b {
        Err(_) => true,
        Ok(x) => a.0 > x.0 || (a.0 == x.0 && a.1 >= x.1),
    }
}

/// The separator that ingestion picks, with its size: the first of comma,
/// semicolon and tab whose size is greatest, columns first; nothing when
/// every candidate fails.
pub open spec fn spec_winner(s: Seq<char>) -> Option<(char, (nat, nat))> {
    let rc = spec_size_csv(s, ',');
    let rs = spec_size_csv(s, ';');
    let rt = spec_size_csv(s, '\t');
    if rc is Ok && size_ge(rc->Ok_0, rs) && size_ge(rc->Ok_0, rt) {
        Some((',', rc->Ok_0))
    } else if rs is Ok && size_ge(rs->Ok_0, rt) {
        Some((';', rs->Ok_0))
    } else if rt is Ok {
        Some(('\t', rt->Ok_0))
    } else {
        None
    }
}

impl CsvFile {
    /// Ingests delimited text: sizes it with comma, semicolon and tab,
    /// picks the separator giving the widest grid (ties broken by more
    /// rows, then by that order), and collects the fields with the winner.
    /// When every candidate fails, the first candidate's failure is
    /// reported. Lines must be nonempty — an empty line adds a row of
    /// fields that the sizing pass does not count, which the collecting
    /// pass cannot reconcile with the sized grid.
    pub fn from_str(s: &str) -> (r: Result<CsvFile, CsvParseError>)
        requires
            forall|l: int|
                0 <= l < spec_lines(s@).len() ==> #[trigger] spec_lines(s@)[l].len() > 0,
            spec_winner(s@) matches Some(t) ==> t.1.0 * t.1.1 <= usize::MAX,
        ensures
            match spec_winner(s@) {
                Some(t) => {
                    &&& r matches Ok(csv)
                    &&& csv.seperator == t.0
                    &&& csv.width == t.1.0
                    &&& csv.height == t.1.1
                    &&& csv.cells@.len() == t.1.0 * t.1.1
                    &&& spec_parse_csv(s@, t.0, t.1.0) matches Ok(fields) && strings_match(
                        csv.cells@,
                        fields,
                    )
                },
                None => {
                    &&& r matches Err(e)
                    &&& e matches CsvParseError::NoSuccessfullParse(inner)
                    &&& spec_size_csv(s@, ',') matches Err(first) && *inner == first
                },
            },
    {
        let rc = parse_size_of_csv(s, ',');
        let rs = parse_size_of_csv(s, ';');
        let rt = parse_size_of_csv(s, '\t');
        let comma_wins = match &rc {
            Ok(c) => ge_exec(*c, &rs) && ge_exec(*c, &rt),
            Err(_) => false,
        };
        let semi_wins = match &rs {
            Ok(v) => ge_exec(*v, &rt),
            Err(_) => false,
        };
        let (sep, width, height) = if comma_wins {
            match rc {
                Ok((w, h)) => (',', w, h),
                Err(_) => {
                    proof {
                        assert(false);
                    }
                    (',', 0, 0)
                },
            }
        } else if semi_wins {
            match rs {
                Ok((w, h)) => (';', w, h),
                Err(_) => {
                    proof {
                        assert(false);
                    }
                    (';', 0, 0)
                },
            }
        } else {
            match rt {
                Ok((w, h)) => ('\t', w, h),
                Err(_) => {
                    let first = match rc {
                        Err(e) => e,
                        Ok(_) => {
                            proof {
                                assert(false);
                            }
                            CsvParseError::InvalidEscaping
                        },
                    };
                    return Err(CsvParseError::NoSuccessfullParse(Box::new(first)));
                },
            }
        };
        proof {
            assert(csv_size_lines(spec_lines(s@), 0, CsvParseState::NewCell, sep) == Ok::<
                (nat, nat),
                CsvParseError,
            >((width as nat, height as nat)));
            lemma_parse_matches_size(
                spec_lines(s@),
                0,
                CsvParseState::NewCell,
                sep,
                width as nat,
            );
            assert(spec_winner(s@) == Some((sep, (width as nat, height as nat))));
            let pr = spec_parse_csv(s@, sep, width as nat);
            assert(pr is Ok);
            assert(pr->Ok_0.len() == (height as nat) * (width as nat));
            assert((height as nat) * (width as nat) == (width as nat) * (height as nat))
                by (nonlinear_arith);
        }
        match parse_csv(s, sep, width, height) {
            Ok(csv) => Ok(csv),
            Err(e) => {
                proof {
                    assert(false);
                }
                Err(e)
            },
        }
    }
}

/// Whether a size is at least as good as another sizing attempt.
fn ge_exec(a: (usize, usize), b: &Result<(usize, usize), CsvParseError>) -> (r: bool)
    ensures
        ({
            let bs = match *b {
                Ok((w, h)) => Ok::<(nat, nat), ()>((w as nat, h as nat)),
                Err(_) => Err::<(nat, nat), ()>(()),
            };
            r == match bs {
                Err(_) => true,
                Ok(x) => a.0 > x.0 || (a.0 == x.0 && a.1 >= x.1),
            }
        }),
{
    match b {
        Err(_) => true,
        Ok((w, h)) => a.0 > *w || (a.0 == *w && a.1 >= *h),
    }
}

} // verus!
