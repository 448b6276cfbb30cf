//! Formulas: raw text tokenized into an expression string plus an ordered
//! list of references to cells, rows or columns, and the relocation logic
//! that re-derives both when a formula is copied to a new position.
//!
//! The tokenizer walks the raw text once. A separator ends the pending
//! token; a token is tried as a cell name, then as a bare column name. A
//! `:` inside a token switches to range mode: the text before it is stashed
//! as a tentative range start, and the token after it must be a cell name
//! (cell range) or a bare row number (row range), anything else being a
//! fatal parse error. Ranges are rewritten into per-column slice
//! expressions; other tokens and all separators are echoed into the
//! expression, except whitespace before any content.
use vstd::prelude::*;

use crate::address::{
    cell_name_ok, cell_name_val, col_name_ok, cell_pos_of_chars, column_value_of_chars,
    spec_cell_name, spec_column_name, spec_column_value,
};
use crate::cells::CellPosition;
use crate::decimal::Decimal;
use crate::text::{
    chars_to_string, is_uint_text, parse_usize, spec_digits, spec_uint_body, spec_uint_val,
    str_to_chars, u64_digits,
};

verus! {

/// Why an operation on cell content failed. Parsing a formula fails only on
/// a malformed range; relocation can also push a reference outside the
/// addressable grid or find that the rewritten text no longer parses back to
/// the shifted references; digit entry can overflow the numeric types.
#[derive(Debug, Clone, Copy, PartialEq, Eq, Structural)]
pub enum CellError {
    InvalidRange,
    ReferenceOutOfBounds,
    RelocationMismatch,
    NumberOverflow,
}

/// A formula's dependency: a single cell, a whole row, or a whole column,
/// recorded in the order of first occurrence in the raw text.
#[derive(Debug, Clone, Copy, PartialEq, Eq, Structural)]
pub enum CellReference {
    Cell(CellPosition),
    Row(usize),
    Column(usize),
}

/// The evaluated result of a formula.
#[derive(Debug, Clone, PartialEq)]
pub enum Value {
    String(String),
    Number(i64),
    FloatNumber(Decimal),
    Empty,
    Error,
}

impl Value {
    /// A value is well formed when its decimal, if any, is.
    pub open spec fn wf(self) -> bool {
        match self {
            Value::FloatNumber(d) => d.wf(),
            _ => true,
        }
    }

    /// An equal copy of the value.
    pub fn duplicate(&self) -> (r: Value)
        ensures
            r == *self,
    {
        match self {
            Value::String(s) => Value::String(s.clone()),
            Value::Number(n) => Value::Number(*n),
            Value::FloatNumber(d) => Value::FloatNumber(*d),
            Value::Empty => Value::Empty,
            Value::Error => Value::Error,
        }
    }
}

/// A formula cell: the position it was written at, its raw text (without the
/// leading `=`), the derived expression, the references in order of
/// occurrence, and the value of the last evaluation.
#[derive(Debug, Clone, PartialEq)]
pub struct Formula {
    pub position: CellPosition,
    pub raw: String,
    pub parsed: String,
    pub references: Vec<CellReference>,
    pub value: Value,
}

/// Two formulas that agree in every observable part: the same position,
/// texts, references and value.
pub open spec fn formula_like(a: Formula, b: Formula) -> bool {
    &&& a.position == b.position
    &&& a.raw == b.raw
    &&& a.parsed == b.parsed
    &&& a.references@ == b.references@
    &&& a.value == b.value
}

/// One of the characters that end a token.
pub open spec fn is_separator(c: char) -> bool {
    c == ' ' || c == '(' || c == ')' || c == '*' || c == '-' || c == '+' || c == '/' || c == ','
        || c == '.' || c == ';' || c == '[' || c == ']' || c == '%' || c == '!'
}

pub fn char_is_separator(c: char) -> (r: bool)
    ensures
        r == is_separator(c),
{
    c == ' ' || c == '(' || c == ')' || c == '*' || c == '-' || c == '+' || c == '/' || c == ','
        || c == '.' || c == ';' || c == '[' || c == ']' || c == '%' || c == '!'
}

/// The tokenizer's state after some prefix of the raw text: the token built
/// so far, the expression and references emitted so far, and the stashed
/// start of a range if a `:` was seen in the current token.
#[verifier::ext_equal]
pub struct ParseState {
    pub buf: Seq<char>,
    pub parsed: Seq<char>,
    pub refs: Seq<CellReference>,
    pub pending: Option<(nat, nat)>,
}

/// The state before any character.
pub open spec fn init_state() -> ParseState {
    ParseState {
        buf: Seq::empty(),
        parsed: Seq::empty(),
        refs: Seq::empty(),
        pending: None,
    }
}

/// The expression text of one column slice: `B[2:5]` reads rows 2 to 4 of
/// column `B`.
pub open spec fn spec_slice_code(x: nat, lo: nat, hi: nat) -> Seq<char> {
    spec_column_name(x) + seq!['['] + spec_digits(lo) + seq![':'] + spec_digits(hi) + seq![']']
}

/// The expression text of a cell range: one slice per column from `x0` to
/// `x1`, joined by ` + `; empty when `x1 < x0`.
pub open spec fn spec_range_code(x0: int, x1: int, lo: nat, hi: nat) -> Seq<char>
    decreases x1 - x0,
{
    if x1 < x0 {
        Seq::empty()
    } else if x1 == x0 {
        spec_slice_code(x0 as nat, lo, hi)
    } else {
        spec_range_code(x0, x1 - 1, lo, hi) + seq![' ', '+', ' '] + spec_slice_code(
            x1 as nat,
            lo,
            hi,
        )
    }
}

/// Resolves the pending token at a separator or at the end of the text.
/// With a stashed range start, the token must be a cell name (cell range)
/// or a row number (row range); the end row must also leave room for the
/// exclusive bound written into the slice. Without one, the token emits a
/// cell reference, a column reference (only when the column lies within the
/// grid width), or nothing, and is echoed into the expression.
#[verifier::opaque]
pub open spec fn spec_flush(st: ParseState, width: nat) -> Result<ParseState, CellError> {
    match st.pending {
        Some(start) => {
            if cell_name_ok(st.buf) {
                let end = cell_name_val(st.buf);
                if end.1 < usize::MAX {
                    Ok(
                        ParseState {
                            buf: Seq::empty(),
                            parsed: st.parsed + spec_range_code(
                                start.0 as int,
                                end.0 as int,
                                start.1,
                                (end.1 + 1) as nat,
                            ),
                            refs: st.refs + seq![
                                CellReference::Cell(
                                    CellPosition(start.0 as usize, start.1 as usize),
                                ),
                                CellReference::Cell(CellPosition(end.0 as usize, end.1 as usize)),
                            ],
                            pending: None,
                        },
                    )
                } else {
                    Err(CellError::InvalidRange)
                }
            } else if is_uint_text(st.buf) && spec_uint_val(spec_uint_body(st.buf)) <= usize::MAX {
                let row = spec_uint_val(spec_uint_body(st.buf));
                if row < usize::MAX {
                    Ok(
                        ParseState {
                            buf: Seq::empty(),
                            parsed: st.parsed + spec_slice_code(start.0, start.1, (row + 1) as nat),
                            refs: st.refs + seq![
                                CellReference::Cell(
                                    CellPosition(start.0 as usize, start.1 as usize),
                                ),
                                CellReference::Row(row as usize),
                            ],
                            pending: None,
                        },
                    )
                } else {
                    Err(CellError::InvalidRange)
                }
            } else {
                Err(CellError::InvalidRange)
            }
        },
        None => Ok(
            ParseState {
                buf: Seq::empty(),
                parsed: st.parsed + st.buf,
                refs: if cell_name_ok(st.buf) {
                    st.refs.push(
                        CellReference::Cell(
                            CellPosition(
                                cell_name_val(st.buf).0 as usize,
                                cell_name_val(st.buf).1 as usize,
                            ),
                        ),
                    )
                } else if col_name_ok(st.buf) && spec_column_value(st.buf) < width {
                    st.refs.push(CellReference::Column(spec_column_value(st.buf) as usize))
                } else {
                    st.refs
                },
                pending: None,
            },
        ),
    }
}

/// One character of tokenizing: `:` stashes the token as a tentative range
/// start; a separator resolves the token and is echoed (unless it is
/// whitespace before any content); anything else extends the token.
pub open spec fn spec_step(st: ParseState, ch: char, width: nat) -> Result<
    ParseState,
    CellError,
> {
    if ch == ':' {
        Ok(
            ParseState {
                buf: Seq::empty(),
                parsed: st.parsed,
                refs: st.refs,
                pending: if cell_name_ok(st.buf) {
                    Some(cell_name_val(st.buf))
                } else {
                    None
                },
            },
        )
    } else if is_separator(ch) {
        match spec_flush(st, width) {
            Ok(st1) => Ok(
                ParseState {
                    buf: st1.buf,
                    parsed: if st1.parsed.len() > 0 || ch != ' ' {
                        st1.parsed.push(ch)
                    } else {
                        st1.parsed
                    },
                    refs: st1.refs,
                    pending: st1.pending,
                },
            ),
            Err(e) => Err(e),
        }
    } else {
        Ok(
            ParseState {
                buf: st.buf.push(ch),
                parsed: st.parsed,
                refs: st.refs,
                pending: st.pending,
            },
        )
    }
}

/// The tokenizer's state after the first `i` characters of the raw text.
pub open spec fn spec_run(raw: Seq<char>, width: nat, i: int) -> Result<ParseState, CellError>
    decreases i,
{
    if i <= 0 {
        Ok(init_state())
    } else {
        match spec_run(raw, width, i - 1) {
            Ok(st) => spec_step(st, raw[i - 1], width),
            Err(e) => Err(e),
        }
    }
}

/// What tokenizing the whole raw text yields: the expression string and the
/// references in order of occurrence, or the parse error.
pub open spec fn spec_parse_raw(raw: Seq<char>, width: nat) -> Result<
    (Seq<char>, Seq<CellReference>),
    CellError,
> {
    match spec_run(raw, width, raw.len() as int) {
        Ok(st) => match spec_flush(st, width) {
            Ok(st2) => Ok((st2.parsed, st2.refs)),
            Err(e) => Err(e),
        },
        Err(e) => Err(e),
    }
}

/// A failed run stays failed as the text extends.
proof fn lemma_run_err_persists(raw: Seq<char>, width: nat, i: int, j: int)
    requires
        0 <= i <= j,
        spec_run(raw, width, i) is Err,
    ensures
        spec_run(raw, width, j) == spec_run(raw, width, i),
    decreases j - i,
{
    if i < j {
        lemma_run_err_persists(raw, width, i, j - 1);
    }
}

/// The view of the four executable tokenizer variables as a spec state.
pub open spec fn state_of(
    buf: Seq<char>,
    parsed: Seq<char>,
    refs: Seq<CellReference>,
    pending: Option<(usize, usize)>,
) -> ParseState {
    ParseState {
        buf,
        parsed,
        refs,
        pending: match pending {
            Some(p) => Some((p.0 as nat, p.1 as nat)),
            None => None,
        },
    }
}

/// Appends the expression text of one column slice.
fn push_slice_code(parsed: &mut Vec<char>, x: usize, lo: usize, hi: usize)
    ensures
        final (parsed)@ == old(parsed)@ + spec_slice_code(x as nat, lo as nat, hi as nat),
{
    let mut name = crate::address::column_name_chars(x);
    parsed.append(&mut name);
    parsed.push('[');
    let mut lo_digits = u64_digits(lo as u64);
    parsed.append(&mut lo_digits);
    parsed.push(':');
    let mut hi_digits = u64_digits(hi as u64);
    parsed.append(&mut hi_digits);
    parsed.push(']');
    assert(parsed@ =~= old(parsed)@ + spec_slice_code(x as nat, lo as nat, hi as nat));
}

/// Appends the expression text of a cell range, one slice per column from
/// `x0` to `x1`, joined by ` + `.
fn push_range_code(parsed: &mut Vec<char>, x0: usize, x1: usize, lo: usize, hi: usize)
    requires
        x0 <= x1,
    ensures
        final (parsed)@ == old(parsed)@ + spec_range_code(x0 as int, x1 as int, lo as nat, hi as nat),
{
    let ghost base = parsed@;
    push_slice_code(parsed, x0, lo, hi);
    assert(parsed@ =~= base + spec_range_code(x0 as int, x0 as int, lo as nat, hi as nat));
    let mut x = x0;
    while x < x1
        invariant
            x0 <= x <= x1,
            parsed@ == base + spec_range_code(x0 as int, x as int, lo as nat, hi as nat),
        decreases x1 - x,
    {
        x += 1;
        parsed.push(' ');
        parsed.push('+');
        parsed.push(' ');
        push_slice_code(parsed, x, lo, hi);
        assert(parsed@ =~= base + spec_range_code(x0 as int, x as int, lo as nat, hi as nat));
    }
}

/// Resolves the pending token into references and expression text, as
/// `spec_flush` says; on a malformed range the variables are left midway
/// and the caller discards them.
fn flush_buffer(
    buf: &mut Vec<char>,
    parsed: &mut Vec<char>,
    refs: &mut Vec<CellReference>,
    pending: &mut Option<(usize, usize)>,
    width: usize,
) -> (r: Result<(), CellError>)
    ensures
        match r {
            Ok(()) => spec_flush(
                state_of(old(buf)@, old(parsed)@, old(refs)@, *old(pending)),
                width as nat,
            ) == Ok::<ParseState, CellError>(
                state_of(final (buf)@, final (parsed)@, final (refs)@, *final (pending)),
            ),
            Err(e) => spec_flush(
                state_of(old(buf)@, old(parsed)@, old(refs)@, *old(pending)),
                width as nat,
            ) == Err::<ParseState, CellError>(e),
        },
{
    proof {
        reveal(spec_flush);
    }
    match *pending {
        Some(start) => {
            match cell_pos_of_chars(buf.as_slice()) {
                Some(end) => {
                    if end.1 == usize::MAX {
                        return Err(CellError::InvalidRange);
                    }
                    refs.push(CellReference::Cell(CellPosition(start.0, start.1)));
                    refs.push(CellReference::Cell(CellPosition(end.0, end.1)));
                    if start.0 <= end.0 {
                        push_range_code(parsed, start.0, end.0, start.1, end.1 + 1);
                    }
                    buf.clear();
                    *pending = None;
                    proof {
                        if start.0 > end.0 {
                            assert(spec_range_code(
                                start.0 as int,
                                end.0 as int,
                                start.1 as nat,
                                (end.1 + 1) as nat,
                            ) =~= Seq::<char>::empty());
                        }
                        assert(parsed@ =~= old(parsed)@ + spec_range_code(
                            start.0 as int,
                            end.0 as int,
                            start.1 as nat,
                            (end.1 + 1) as nat,
                        ));
                        assert(refs@ =~= old(refs)@ + seq![
                            CellReference::Cell(CellPosition(start.0, start.1)),
                            CellReference::Cell(CellPosition(end.0, end.1)),
                        ]);
                    }
                    Ok(())
                },
                None => {
                    match parse_usize(buf.as_slice()) {
                        Some(row) => {
                            if row == usize::MAX {
                                return Err(CellError::InvalidRange);
                            }
                            refs.push(CellReference::Cell(CellPosition(start.0, start.1)));
                            refs.push(CellReference::Row(row));
                            push_slice_code(parsed, start.0, start.1, row + 1);
                            buf.clear();
                            *pending = None;
                            proof {
                                assert(refs@ =~= old(refs)@ + seq![
                                    CellReference::Cell(CellPosition(start.0, start.1)),
                                    CellReference::Row(row),
                                ]);
                            }
                            Ok(())
                        },
                        None => Err(CellError::InvalidRange),
                    }
                },
            }
        },
        None => {
            match cell_pos_of_chars(buf.as_slice()) {
                Some(p) => {
                    refs.push(CellReference::Cell(CellPosition(p.0, p.1)));
                },
                None => {
                    match column_value_of_chars(buf.as_slice()) {
                        Some(c) => {
                            if c < width {
                                refs.push(CellReference::Column(c));
                            }
                        },
                        None => {},
                    }
                },
            }
            parsed.append(buf);
            proof {
                assert(parsed@ =~= old(parsed)@ + old(buf)@);
            }
            Ok(())
        },
    }
}

/// Tokenizes a formula's raw text into its expression string and the
/// ordered list of references, against the given grid size (column
/// references outside the width are echoed but not recorded). Fails exactly
/// where the tokenizer model does: on a range whose start parsed as a cell
/// name but whose end is neither a cell name nor a row number, or whose end
/// row leaves no room for the exclusive bound.
#[verifier::rlimit(60)]
pub fn parse_raw(raw: &str, size: (usize, usize)) -> (r: Result<
    (String, Vec<CellReference>),
    CellError,
>)
    ensures
        match r {
            Ok(pr) => spec_parse_raw(raw@, size.0 as nat) == Ok::<
                (Seq<char>, Seq<CellReference>),
                CellError,
            >((pr.0@, pr.1@)),
            Err(e) => spec_parse_raw(raw@, size.0 as nat) == Err::<
                (Seq<char>, Seq<CellReference>),
                CellError,
            >(e),
        },
{
    let width = size.0;
    let chars = str_to_chars(raw);
    let n = chars.len();
    let mut buf: Vec<char> = Vec::new();
    let mut parsed: Vec<char> = Vec::new();
    let mut refs: Vec<CellReference> = Vec::new();
    let mut pending: Option<(usize, usize)> = None;
    let mut i: usize = 0;
    while i < n
        invariant
            i <= n,
            n == raw@.len(),
            chars@ == raw@,
            width == size.0,
            spec_run(raw@, width as nat, i as int) == Ok::<ParseState, CellError>(
                state_of(buf@, parsed@, refs@, pending),
            ),
        decreases n - i,
    {
        let ch = chars[i];
        let ghost st = state_of(buf@, parsed@, refs@, pending);
        if ch == ':' {
            pending = cell_pos_of_chars(buf.as_slice());
            buf.clear();
            proof {
                assert(state_of(buf@, parsed@, refs@, pending) =~= spec_step(
                    st,
                    raw@[i as int],
                    width as nat,
                )->Ok_0);
            }
        } else if char_is_separator(ch) {
            match flush_buffer(&mut buf, &mut parsed, &mut refs, &mut pending, width) {
                Ok(()) => {},
                Err(e) => {
                    proof {
                        assert(spec_step(st, raw@[i as int], width as nat) == Err::<
                            ParseState,
                            CellError,
                        >(e));
                        assert(spec_run(raw@, width as nat, i + 1) == Err::<
                            ParseState,
                            CellError,
                        >(e));
                        lemma_run_err_persists(raw@, width as nat, i + 1, raw@.len() as int);
                    }
                    return Err(e);
                },
            }
            if parsed.len() > 0 || ch != ' ' {
                parsed.push(ch);
            }
            proof {
                assert(state_of(buf@, parsed@, refs@, pending) =~= spec_step(
                    st,
                    raw@[i as int],
                    width as nat,
                )->Ok_0);
            }
        } else {
            buf.push(ch);
            proof {
                assert(state_of(buf@, parsed@, refs@, pending) =~= spec_step(
                    st,
                    raw@[i as int],
                    width as nat,
                )->Ok_0);
            }
        }
        i += 1;
    }
    match flush_buffer(&mut buf, &mut parsed, &mut refs, &mut pending, width) {
        Ok(()) => {},
        Err(e) => {
            return Err(e);
        },
    }
    let expression = chars_to_string(parsed.as_slice());
    Ok((expression, refs))
}

/// The text a reference was written as: a cell name, a bare row number, or
/// a column name.
pub open spec fn spec_ref_text(r: CellReference) -> Seq<char> {
    match r {
        CellReference::Cell(p) => spec_cell_name(p.0 as nat, p.1 as nat),
        CellReference::Row(n) => spec_digits(n as nat),
        CellReference::Column(c) => spec_column_name(c as nat),
    }
}

/// Whether shifting a reference by the offset keeps it addressable.
pub open spec fn spec_shift_ref_ok(r: CellReference, dx: int, dy: int) -> bool {
    match r {
        CellReference::Cell(p) => 0 <= p.0 + dx <= usize::MAX && 0 <= p.1 + dy <= usize::MAX,
        CellReference::Row(n) => 0 <= n + dy <= usize::MAX,
        CellReference::Column(c) => 0 <= c + dx <= usize::MAX,
    }
}

/// The reference shifted by the offset: cells move on both axes, rows only
/// vertically, columns only horizontally.
pub open spec fn spec_shift_ref(r: CellReference, dx: int, dy: int) -> CellReference {
    match r {
        CellReference::Cell(p) => CellReference::Cell(
            CellPosition((p.0 + dx) as usize, (p.1 + dy) as usize),
        ),
        CellReference::Row(n) => CellReference::Row((n + dy) as usize),
        CellReference::Column(c) => CellReference::Column((c + dx) as usize),
    }
}

/// Whether every reference stays addressable under the offset.
pub open spec fn spec_shift_all_ok(refs: Seq<CellReference>, dx: int, dy: int) -> bool {
    forall|i: int| 0 <= i < refs.len() ==> spec_shift_ref_ok(#[trigger] refs[i], dx, dy)
}

/// All references shifted by the offset.
pub open spec fn spec_shifted_refs(refs: Seq<CellReference>, dx: int, dy: int) -> Seq<
    CellReference,
> {
    refs.map_values(|r: CellReference| spec_shift_ref(r, dx, dy))
}

/// The first position at or after `from` where `pat` occurs in `s`.
pub open spec fn spec_find(s: Seq<char>, pat: Seq<char>, from: int) -> Option<int>
    decreases s.len() + 1 - from,
{
    if from < 0 || from + pat.len() > s.len() {
        None
    } else if s.subrange(from, from + pat.len() as int) == pat {
        Some(from)
    } else {
        spec_find(s, pat, from + 1)
    }
}

/// The raw text and search cursor after rewriting the references from `k`
/// on: each reference's old text is sought from the advancing cursor, never
/// re-scanning earlier text, and replaced by the shifted reference's text in
/// place; the cursor stays at the replacement's start. `None` when a shift
/// leaves the addressable range or an old text cannot be found.
pub open spec fn spec_rewrite(
    raw: Seq<char>,
    refs: Seq<CellReference>,
    k: int,
    cursor: int,
    dx: int,
    dy: int,
) -> Option<(Seq<char>, int)>
    decreases refs.len() - k,
{
    if k < 0 || k >= refs.len() {
        Some((raw, cursor))
    } else if !spec_shift_ref_ok(refs[k], dx, dy) {
        None
    } else {
        let old_text = spec_ref_text(refs[k]);
        let new_text = spec_ref_text(spec_shift_ref(refs[k], dx, dy));
        match spec_find(raw, old_text, cursor) {
            None => None,
            Some(p) => spec_rewrite(
                raw.subrange(0, p) + new_text + raw.subrange(
                    p + old_text.len() as int,
                    raw.len() as int,
                ),
                refs,
                k + 1,
                p,
                dx,
                dy,
            ),
        }
    }
}

/// The first position at or after `from` where `pat` occurs in `s`.
pub(crate) fn find_from(s: &[char], pat: &[char], from: usize) -> (r: Option<usize>)
    ensures
        match r {
            Some(p) => spec_find(s@, pat@, from as int) == Some(p as int),
            None => spec_find(s@, pat@, from as int) is None,
        },
{
    let n = s.len();
    let m = pat.len();
    if m > n {
        return None;
    }
    if m == 0 {
        if from <= n {
            proof {
                assert(s@.subrange(from as int, from as int) =~= pat@);
            }
            return Some(from);
        } else {
            return None;
        }
    }
    let mut p = from;
    while p <= n - m
        invariant
            from <= p,
            1 <= m <= n,
            n == s@.len(),
            m == pat@.len(),
            spec_find(s@, pat@, from as int) == spec_find(s@, pat@, p as int),
        decreases n - p,
    {
        let mut j: usize = 0;
        let mut matches = true;
        while j < m
            invariant
                j <= m,
                p + m <= n,
                n == s@.len(),
                m == pat@.len(),
                matches ==> forall|q: int| 0 <= q < j ==> s@[p + q] == pat@[q],
                !matches ==> s@.subrange(p as int, p + m) != pat@,
            decreases m - j,
        {
            if s[p + j] != pat[j] {
                proof {
                    assert(s@.subrange(p as int, p + m)[j as int] != pat@[j as int]);
                }
                matches = false;
                j = m;
            } else {
                j += 1;
            }
        }
        if matches {
            proof {
                assert(s@.subrange(p as int, p + m) =~= pat@);
            }
            return Some(p);
        }
        proof {
            assert(spec_find(s@, pat@, p as int) == spec_find(s@, pat@, p + 1));
        }
        p += 1;
    }
    None
}

/// `s` with the `old_len` characters at `p` replaced by `new_text`.
fn splice(s: &Vec<char>, p: usize, old_len: usize, new_text: &Vec<char>) -> (r: Vec<char>)
    requires
        p + old_len <= s@.len(),
    ensures
        r@ == s@.subrange(0, p as int) + new_text@ + s@.subrange(
            p + old_len as int,
            s@.len() as int,
        ),
{
    let slen = s.len();
    assert(slen == s@.len());
    let mut r: Vec<char> = Vec::new();
    let mut i: usize = 0;
    while i < p
        invariant
            i <= p,
            p + old_len <= s@.len(),
            s@.len() <= usize::MAX,
            r@ == s@.subrange(0, i as int),
        decreases p - i,
    {
        r.push(s[i]);
        assert(r@ =~= s@.subrange(0, i + 1));
        i += 1;
    }
    let mut j: usize = 0;
    while j < new_text.len()
        invariant
            j <= new_text@.len(),
            p + old_len <= s@.len(),
            r@ == s@.subrange(0, p as int) + new_text@.subrange(0, j as int),
        decreases new_text@.len() - j,
    {
        r.push(new_text[j]);
        assert(r@ =~= s@.subrange(0, p as int) + new_text@.subrange(0, j + 1));
        j += 1;
    }
    let mut k = p + old_len;
    while k < s.len()
        invariant
            p + old_len <= k <= s@.len(),
            r@ == s@.subrange(0, p as int) + new_text@ + s@.subrange(
                p + old_len as int,
                k as int,
            ),
        decreases s@.len() - k,
    {
        r.push(s[k]);
        assert(r@ =~= s@.subrange(0, p as int) + new_text@ + s@.subrange(
            p + old_len as int,
            k + 1,
        ));
        k += 1;
    }
    assert(new_text@.subrange(0, new_text@.len() as int) =~= new_text@);
    assert(r@ =~= s@.subrange(0, p as int) + new_text@ + s@.subrange(
        p + old_len as int,
        s@.len() as int,
    ));
    r
}

/// The characters a reference was written as.
fn ref_text_chars(r: &CellReference) -> (out: Vec<char>)
    ensures
        out@ == spec_ref_text(*r),
{
    match r {
        CellReference::Cell(p) => {
            let mut chars = crate::address::column_name_chars(p.0);
            let mut digits = u64_digits(p.1 as u64);
            chars.append(&mut digits);
            chars
        },
        CellReference::Row(n) => u64_digits(*n as u64),
        CellReference::Column(c) => crate::address::column_name_chars(*c),
    }
}

/// A found occurrence lies at or after the start of the search and fits in
/// the text.
proof fn lemma_find_bounds(s: Seq<char>, pat: Seq<char>, from: int, p: int)
    requires
        spec_find(s, pat, from) == Some(p),
    ensures
        from <= p,
        p + pat.len() <= s.len(),
        s.subrange(p, p + pat.len() as int) == pat,
    decreases s.len() + 1 - from,
{
    if !(from < 0 || from + pat.len() > s.len()) {
        if s.subrange(from, from + pat.len() as int) != pat {
            lemma_find_bounds(s, pat, from + 1, p);
        }
    }
}

/// A reference that cannot be shifted fails the whole rewrite, whatever the
/// text looks like by then.
proof fn lemma_rewrite_none_if_bad_shift(
    raw: Seq<char>,
    refs: Seq<CellReference>,
    k: int,
    cursor: int,
    dx: int,
    dy: int,
    i: int,
)
    requires
        0 <= k <= i < refs.len(),
        !spec_shift_ref_ok(refs[i], dx, dy),
    ensures
        spec_rewrite(raw, refs, k, cursor, dx, dy) is None,
    decreases i - k,
{
    if k < i && spec_shift_ref_ok(refs[k], dx, dy) {
        let old_text = spec_ref_text(refs[k]);
        let new_text = spec_ref_text(spec_shift_ref(refs[k], dx, dy));
        match spec_find(raw, old_text, cursor) {
            None => {},
            Some(p) => {
                lemma_rewrite_none_if_bad_shift(
                    raw.subrange(0, p) + new_text + raw.subrange(
                        p + old_text.len() as int,
                        raw.len() as int,
                    ),
                    refs,
                    k + 1,
                    p,
                    dx,
                    dy,
                    i,
                );
            },
        }
    }
}

/// Whether two reference lists hold the same references in the same order.
fn refs_equal(a: &Vec<CellReference>, b: &Vec<CellReference>) -> (r: bool)
    ensures
        r == (a@ == b@),
{
    if a.len() != b.len() {
        return false;
    }
    let mut i: usize = 0;
    while i < a.len()
        invariant
            i <= a@.len(),
            a@.len() == b@.len(),
            forall|j: int| 0 <= j < i ==> a@[j] == b@[j],
        decreases a@.len() - i,
    {
        if a[i] != b[i] {
            return false;
        }
        i += 1;
    }
    proof {
        assert(a@ =~= b@);
    }
    true
}

/// `a` shifted by a signed magnitude; `None` when the result leaves
/// `usize`.
fn add_signed(a: usize, neg: bool, mag: usize) -> (r: Option<usize>)
    ensures
        ({
            let delta = if neg {
                -(mag as int)
            } else {
                mag as int
            };
            match r {
                Some(v) => v == a + delta && 0 <= a + delta <= usize::MAX,
                None => !(0 <= a + delta <= usize::MAX),
            }
        }),
{
    if neg {
        if a >= mag {
            Some(a - mag)
        } else {
            None
        }
    } else {
        if a <= usize::MAX - mag {
            Some(a + mag)
        } else {
            None
        }
    }
}

/// How a value renders as text: strings and numbers as themselves, the
/// empty value as nothing, the error value as `#error`.
pub open spec fn spec_value_display(v: Value) -> Seq<char> {
    match v {
        Value::String(s) => s@,
        Value::Number(n) => crate::text::spec_int_digits(n as int),
        Value::FloatNumber(d) => crate::decimal::spec_dec_display(d),
        Value::Empty => Seq::empty(),
        Value::Error => seq!['#', 'e', 'r', 'r', 'o', 'r'],
    }
}

/// Renders a value as text.
pub fn value_display_chars(v: &Value) -> (r: Vec<char>)
    requires
        v.wf(),
    ensures
        r@ == spec_value_display(*v),
{
    match v {
        Value::String(s) => str_to_chars(s.as_str()),
        Value::Number(n) => crate::text::i64_digits(*n),
        Value::FloatNumber(d) => crate::decimal::dec_display(d),
        Value::Empty => {
            let r: Vec<char> = Vec::new();
            assert(r@ =~= spec_value_display(*v));
            r
        },
        Value::Error => {
            let mut r: Vec<char> = Vec::new();
            r.push('#');
            r.push('e');
            r.push('r');
            r.push('r');
            r.push('o');
            r.push('r');
            assert(r@ =~= spec_value_display(*v));
            r
        },
    }
}

impl Formula {
    /// A formula is well formed when its value is.
    pub open spec fn wf(self) -> bool {
        self.value.wf()
    }

    /// A copy of the formula, equal in every observable part.
    pub fn duplicate(&self) -> (r: Formula)
        ensures
            formula_like(r, *self),
    {
        let mut references: Vec<CellReference> = Vec::new();
        let mut i: usize = 0;
        while i < self.references.len()
            invariant
                i <= self.references@.len(),
                references@ == self.references@.subrange(0, i as int),
            decreases self.references@.len() - i,
        {
            references.push(self.references[i]);
            assert(references@ =~= self.references@.subrange(0, i + 1));
            i += 1;
        }
        proof {
            assert(references@ =~= self.references@);
        }
        Formula {
            position: self.position,
            raw: self.raw.clone(),
            parsed: self.parsed.clone(),
            references,
            value: self.value.duplicate(),
        }
    }

    /// A fresh, empty formula seeded at the given position.
    pub fn new_at(position: CellPosition) -> (r: Formula)
        ensures
            r.position == position,
            r.raw@ == Seq::<char>::empty(),
            r.parsed@ == Seq::<char>::empty(),
            r.references@ == Seq::<CellReference>::empty(),
            r.value == Value::Empty,
    {
        Formula {
            position,
            raw: String::new(),
            parsed: String::new(),
            references: Vec::new(),
            value: Value::Empty,
        }
    }

    /// The value of the last evaluation.
    pub fn value(&self) -> (r: &Value)
        ensures
            r == &self.value,
    {
        &self.value
    }

    /// Whether the last evaluation failed.
    pub fn is_error(&self) -> (r: bool)
        ensures
            r == (self.value is Error),
    {
        matches!(self.value, Value::Error)
    }

    /// Whether the formula displays right-aligned: its value is numeric or
    /// the error marker.
    pub fn is_right_aligned(&self) -> (r: bool)
        ensures
            r == match self.value {
                Value::Number(_) | Value::FloatNumber(_) | Value::Error => true,
                _ => false,
            },
    {
        matches!(self.value, Value::Number(_) | Value::FloatNumber(_) | Value::Error)
    }

    /// The editable form: the raw text behind a leading `=`.
    pub fn long_display(&self) -> (r: String)
        ensures
            r@ == seq!['='] + self.raw@,
    {
        let mut chars: Vec<char> = Vec::new();
        chars.push('=');
        let mut raw_chars = str_to_chars(self.raw.as_str());
        chars.append(&mut raw_chars);
        assert(chars@ =~= seq!['='] + self.raw@);
        chars_to_string(chars.as_slice())
    }

    /// The displayed form: the value of the last evaluation.
    pub fn display(&self) -> (r: String)
        requires
            self.wf(),
        ensures
            r@ == spec_value_display(self.value),
    {
        let chars = value_display_chars(&self.value);
        chars_to_string(chars.as_slice())
    }

    /// Appends one character to the raw text and re-derives the expression
    /// and references from the whole buffer. When the longer text no longer
    /// parses, the formula is left unchanged and the error is handed back.
    pub fn push_char(&mut self, ch: char, size: (usize, usize)) -> (r: Result<(), CellError>)
        ensures
            match r {
                Ok(()) => {
                    &&& final (self).position == old(self).position
                    &&& final (self).value == old(self).value
                    &&& final (self).raw@ == old(self).raw@.push(ch)
                    &&& spec_parse_raw(final (self).raw@, size.0 as nat) == Ok::<
                        (Seq<char>, Seq<CellReference>),
                        CellError,
                    >((final (self).parsed@, final (self).references@))
                },
                Err(e) => {
                    &&& *final (self) == *old(self)
                    &&& spec_parse_raw(old(self).raw@.push(ch), size.0 as nat) == Err::<
                        (Seq<char>, Seq<CellReference>),
                        CellError,
                    >(e)
                },
            },
    {
        let mut chars = str_to_chars(self.raw.as_str());
        chars.push(ch);
        let new_raw = chars_to_string(chars.as_slice());
        match parse_raw(new_raw.as_str(), size) {
            Ok((parsed, references)) => {
                self.raw = new_raw;
                self.parsed = parsed;
                self.references = references;
                Ok(())
            },
            Err(e) => Err(e),
        }
    }

    /// The formula relocated to a new position: every reference is shifted
    /// by the positional offset, each shifted reference's text replaces the
    /// next occurrence of its old text in the raw buffer, and the rewritten
    /// buffer is re-tokenized and checked against the shifted list. The
    /// relocated formula starts with an empty value and must be evaluated
    /// anew. Fails when a shifted reference leaves the addressable range,
    /// when an old text cannot be found, or when the rewritten text does not
    /// parse back to exactly the shifted references.
    pub fn moved_to(&self, position: CellPosition, size: (usize, usize)) -> (r: Result<
        Formula,
        CellError,
    >)
        ensures
            ({
                let dx = position.0 - self.position.0;
                let dy = position.1 - self.position.1;
                let rewritten = spec_rewrite(self.raw@, self.references@, 0, 0, dx, dy);
                match r {
                    Ok(f) => {
                        &&& f.position == position
                        &&& f.value == Value::Empty
                        &&& spec_shift_all_ok(self.references@, dx, dy)
                        &&& f.references@ == spec_shifted_refs(self.references@, dx, dy)
                        &&& (rewritten matches Some(rw) && rw.0 == f.raw@)
                        &&& spec_parse_raw(f.raw@, size.0 as nat) == Ok::<
                            (Seq<char>, Seq<CellReference>),
                            CellError,
                        >((f.parsed@, f.references@))
                    },
                    Err(e) => {
                        ||| rewritten is None
                        ||| (rewritten matches Some(rw) && !(spec_parse_raw(rw.0, size.0 as nat)
                            matches Ok(pr) && pr.1 == spec_shifted_refs(
                            self.references@,
                            dx,
                            dy,
                        )))
                    },
                }
            }),
    {
        let ghost dx = position.0 as int - self.position.0 as int;
        let ghost dy = position.1 as int - self.position.1 as int;
        let (sx, sy) = position.offset_from(&self.position);
        let n = self.references.len();
        let mut shifted: Vec<CellReference> = Vec::new();
        let mut k: usize = 0;
        while k < n
            invariant
                k <= n,
                n == self.references@.len(),
                dx == position.0 - self.position.0,
                dy == position.1 - self.position.1,
                dx == if sx.0 {
                    -(sx.1 as int)
                } else {
                    sx.1 as int
                },
                dy == if sy.0 {
                    -(sy.1 as int)
                } else {
                    sy.1 as int
                },
                shifted@.len() == k,
                forall|i: int|
                    0 <= i < k ==> spec_shift_ref_ok(#[trigger] self.references@[i], dx, dy),
                forall|i: int|
                    0 <= i < k ==> shifted@[i] == spec_shift_ref(
                        #[trigger] self.references@[i],
                        dx,
                        dy,
                    ),
            decreases n - k,
        {
            let shifted_ref = match self.references[k] {
                CellReference::Cell(p) => {
                    let c0 = match add_signed(p.0, sx.0, sx.1) {
                        Some(v) => v,
                        None => {
                            proof {
                                lemma_rewrite_none_if_bad_shift(
                                    self.raw@,
                                    self.references@,
                                    0,
                                    0,
                                    dx,
                                    dy,
                                    k as int,
                                );
                            }
                            return Err(CellError::ReferenceOutOfBounds);
                        },
                    };
                    let c1 = match add_signed(p.1, sy.0, sy.1) {
                        Some(v) => v,
                        None => {
                            proof {
                                lemma_rewrite_none_if_bad_shift(
                                    self.raw@,
                                    self.references@,
                                    0,
                                    0,
                                    dx,
                                    dy,
                                    k as int,
                                );
                            }
                            return Err(CellError::ReferenceOutOfBounds);
                        },
                    };
                    CellReference::Cell(CellPosition(c0, c1))
                },
                CellReference::Row(row) => {
                    match add_signed(row, sy.0, sy.1) {
                        Some(v) => CellReference::Row(v),
                        None => {
                            proof {
                                lemma_rewrite_none_if_bad_shift(
                                    self.raw@,
                                    self.references@,
                                    0,
                                    0,
                                    dx,
                                    dy,
                                    k as int,
                                );
                            }
                            return Err(CellError::ReferenceOutOfBounds);
                        },
                    }
                },
                CellReference::Column(col) => {
                    match add_signed(col, sx.0, sx.1) {
                        Some(v) => CellReference::Column(v),
                        None => {
                            proof {
                                lemma_rewrite_none_if_bad_shift(
                                    self.raw@,
                                    self.references@,
                                    0,
                                    0,
                                    dx,
                                    dy,
                                    k as int,
                                );
                            }
                            return Err(CellError::ReferenceOutOfBounds);
                        },
                    }
                },
            };
            shifted.push(shifted_ref);
            k += 1;
        }
        let mut cur = str_to_chars(self.raw.as_str());
        let mut cursor: usize = 0;
        let mut j: usize = 0;
        while j < n
            invariant
                j <= n,
                n == self.references@.len(),
                dx == position.0 - self.position.0,
                dy == position.1 - self.position.1,
                shifted@.len() == n,
                forall|i: int|
                    0 <= i < n ==> spec_shift_ref_ok(#[trigger] self.references@[i], dx, dy),
                forall|i: int|
                    0 <= i < n ==> shifted@[i] == spec_shift_ref(
                        #[trigger] self.references@[i],
                        dx,
                        dy,
                    ),
                spec_rewrite(self.raw@, self.references@, 0, 0, dx, dy) == spec_rewrite(
                    cur@,
                    self.references@,
                    j as int,
                    cursor as int,
                    dx,
                    dy,
                ),
            decreases n - j,
        {
            let old_text = ref_text_chars(&self.references[j]);
            let new_text = ref_text_chars(&shifted[j]);
            match find_from(cur.as_slice(), old_text.as_slice(), cursor) {
                None => {
                    return Err(CellError::RelocationMismatch);
                },
                Some(p) => {
                    proof {
                        lemma_find_bounds(cur@, old_text@, cursor as int, p as int);
                    }
                    let spliced = splice(&cur, p, old_text.len(), &new_text);
                    proof {
                        assert(spec_rewrite(cur@, self.references@, j as int, cursor as int, dx, dy)
                            == spec_rewrite(
                            spliced@,
                            self.references@,
                            j + 1,
                            p as int,
                            dx,
                            dy,
                        ));
                    }
                    cur = spliced;
                    cursor = p;
                },
            }
            j += 1;
        }
        let new_raw = chars_to_string(cur.as_slice());
        match parse_raw(new_raw.as_str(), size) {
            Err(e) => Err(CellError::RelocationMismatch),
            Ok((parsed, reparsed_refs)) => {
                if !refs_equal(&reparsed_refs, &shifted) {
                    proof {
                        assert(shifted@ =~= spec_shifted_refs(self.references@, dx, dy));
                    }
                    return Err(CellError::RelocationMismatch);
                }
                proof {
                    assert(shifted@ =~= spec_shifted_refs(self.references@, dx, dy));
                }
                Ok(
                    Formula {
                        position,
                        raw: new_raw,
                        parsed,
                        references: shifted,
                        value: Value::Empty,
                    },
                )
            },
        }
    }
}

} // verus!

