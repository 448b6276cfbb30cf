//! Cell contents: the tagged union of what a cell can hold, the
//! character-driven editing state machine that infers a content's type from
//! what is typed, text parsing for ingestion, display forms, and the total
//! comparison used for sorting columns.
use vstd::prelude::*;

use core::cmp::Ordering;
use crate::cells::CellPosition;
use crate::decimal::{
    dec_add_digit, dec_cmp, dec_display, int_dec_cmp, spec_add_digit_mantissa,
    spec_add_digit_scale, spec_dec_body_ok, spec_dec_body_val, spec_dec_cmp, spec_dec_display,
    spec_int_dec_cmp, Decimal, MAX_SCALE,
};
use crate::formula::{
    parse_raw, spec_parse_raw, spec_value_display, CellError, CellReference, Formula, Value,
};
use crate::text::{
    char_digit_val, char_is_digit, chars_to_string, digit_val, i64_digits, is_digit, is_int_text,
    spec_int_digits, spec_int_val, str_to_chars,
};

verus! {

/// What a cell holds: nothing, plain text, an integer, a decimal number
/// (with a count of how many fractional digit positions have been typed so
/// far during interactive entry), or a formula.
#[derive(Debug, Clone, PartialEq)]
pub enum CellContent {
    Empty,
    Text(String),
    Number(i64),
    FloatNumber(Decimal, u32),
    Formula(Formula),
}

impl Default for CellContent {
    /// A cell starts out empty.
    fn default() -> (r: CellContent)
        ensures
            r == CellContent::Empty,
    {
        CellContent::Empty
    }
}

impl CellContent {
    /// A content is well formed when its decimal or formula, if any, is.
    pub open spec fn wf(self) -> bool {
        match self {
            CellContent::FloatNumber(d, _) => d.wf(),
            CellContent::Formula(f) => f.wf(),
            _ => true,
        }
    }

    /// A copy of the content, equal in every observable part.
    pub fn duplicate(&self) -> (r: CellContent)
        ensures
            content_like(r, *self),
    {
        match self {
            CellContent::Empty => CellContent::Empty,
            CellContent::Text(s) => CellContent::Text(s.clone()),
            CellContent::Number(n) => CellContent::Number(*n),
            CellContent::FloatNumber(d, k) => CellContent::FloatNumber(*d, *k),
            CellContent::Formula(f) => CellContent::Formula(f.duplicate()),
        }
    }

    /// Whether the content displays right-aligned: numbers do, and so do
    /// formulas whose value is numeric or the error marker.
    pub fn is_right_aligned(&self) -> (r: bool)
        ensures
            r == match *self {
                CellContent::Number(_) | CellContent::FloatNumber(..) => true,
                CellContent::Formula(f) => f.value matches Value::Number(_)
                    || f.value matches Value::FloatNumber(_) || f.value matches Value::Error,
                _ => false,
            },
    {
        match self {
            CellContent::Empty => false,
            CellContent::Text(_) => false,
            CellContent::Number(_) => true,
            CellContent::FloatNumber(..) => true,
            CellContent::Formula(f) => f.is_right_aligned(),
        }
    }

    /// Whether the content is a formula whose last evaluation failed.
    pub fn is_error(&self) -> (r: bool)
        ensures
            r == match *self {
                CellContent::Formula(f) => f.value is Error,
                _ => false,
            },
    {
        match self {
            CellContent::Formula(f) => f.is_error(),
            _ => false,
        }
    }

    /// Whether the cell holds nothing.
    pub fn is_empty(&self) -> (r: bool)
        ensures
            r == (*self is Empty),
    {
        matches!(self, CellContent::Empty)
    }

    /// The integer a number cell holds.
    pub fn as_number(&self) -> (r: Option<i64>)
        ensures
            r == match *self {
                CellContent::Number(n) => Some(n),
                _ => None::<i64>,
            },
    {
        if let CellContent::Number(v) = self {
            Some(*v)
        } else {
            None
        }
    }

    /// The decimal a decimal-number cell holds.
    pub fn as_float_number(&self) -> (r: Option<Decimal>)
        ensures
            r == match *self {
                CellContent::FloatNumber(d, _) => Some(d),
                _ => None::<Decimal>,
            },
    {
        if let CellContent::FloatNumber(v, _) = self {
            Some(*v)
        } else {
            None
        }
    }

    /// The text a text cell holds.
    pub fn as_str(&self) -> (r: Option<&str>)
        ensures
            match *self {
                CellContent::Text(s) => r matches Some(t) && t@ == s@,
                _ => r is None,
            },
    {
        if let CellContent::Text(v) = self {
            Some(v.as_str())
        } else {
            None
        }
    }

    /// The scalar a cell contributes as a name binding for evaluation: its
    /// text or number, or for a formula its last value; nothing for empty
    /// cells and failed formulas.
    pub fn scalar_value(&self) -> (r: Option<Value>)
        ensures
            r == spec_scalar_value(*self),
    {
        match self {
            CellContent::Empty => None,
            CellContent::Text(s) => Some(Value::String(s.clone())),
            CellContent::Number(n) => Some(Value::Number(*n)),
            CellContent::FloatNumber(d, _) => Some(Value::FloatNumber(*d)),
            CellContent::Formula(f) => match &f.value {
                Value::String(s) => Some(Value::String(s.clone())),
                Value::Number(n) => Some(Value::Number(*n)),
                Value::FloatNumber(d) => Some(Value::FloatNumber(*d)),
                Value::Empty => None,
                Value::Error => None,
            },
        }
    }

    /// The displayed form: text and numbers as themselves, a formula as its
    /// last value, an empty cell as nothing.
    pub fn display(&self) -> (r: String)
        requires
            self.wf(),
        ensures
            r@ == spec_display(*self),
    {
        match self {
            CellContent::Empty => {
                let chars: Vec<char> = Vec::new();
                assert(chars@ =~= spec_display(*self));
                chars_to_string(chars.as_slice())
            },
            CellContent::Text(s) => {
                let chars = str_to_chars(s.as_str());
                chars_to_string(chars.as_slice())
            },
            CellContent::Number(n) => {
                let chars = i64_digits(*n);
                chars_to_string(chars.as_slice())
            },
            CellContent::FloatNumber(d, _) => {
                let chars = dec_display(d);
                chars_to_string(chars.as_slice())
            },
            CellContent::Formula(f) => f.display(),
        }
    }

    /// The form written when saving as delimited text: a formula keeps its
    /// editable `={raw}` form, everything else its displayed form.
    pub fn serialize_display(&self) -> (r: String)
        requires
            self.wf(),
        ensures
            r@ == spec_serialize_display(*self),
    {
        if let CellContent::Formula(f) = self {
            f.long_display()
        } else {
            self.display()
        }
    }

    /// The editable form shown in the status line: a hint for empty cells,
    /// the `={raw}` form for formulas, the displayed form otherwise.
    pub fn long_display(&self) -> (r: String)
        requires
            self.wf(),
        ensures
            r@ == spec_long_display(*self),
    {
        match self {
            CellContent::Empty => {
                let hint = "Press ENTER to edit";
                hint.to_owned()
            },
            CellContent::Formula(f) => f.long_display(),
            _ => self.display(),
        }
    }

    /// Feeds one typed character into the cell, stepping the editing state
    /// machine: an empty cell infers its type from the first character, text
    /// and formulas append, numbers accumulate digits, become decimal at a
    /// point, and fall back to text on anything else. On failure the content
    /// is unchanged: a formula that no longer parses with the appended
    /// character, or a digit that overflows the numeric types.
    pub fn input_char(&mut self, ch: char, position: CellPosition, size: (usize, usize)) -> (r:
        Result<(), CellError>)
        requires
            old(self).wf(),
        ensures
            match r {
                Ok(()) => final (self).wf() && spec_input_rel(
                    *old(self),
                    ch,
                    position,
                    size.0 as nat,
                    *final (self),
                ),
                Err(e) => *final (self) == *old(self) && spec_input_err(
                    *old(self),
                    ch,
                    size.0 as nat,
                    e,
                ),
            },
    {
        match self {
            CellContent::Empty => {
                if char_is_digit(ch) {
                    let d = char_digit_val(ch) as i64;
                    *self = CellContent::Number(d);
                } else if ch == '=' {
                    *self = CellContent::Formula(Formula::new_at(position));
                } else if ch == '.' {
                    *self = CellContent::FloatNumber(Decimal { mantissa: 0, scale: 0 }, 1);
                } else {
                    let mut chars: Vec<char> = Vec::new();
                    chars.push(ch);
                    assert(chars@ =~= seq![ch]);
                    *self = CellContent::Text(chars_to_string(chars.as_slice()));
                }
                Ok(())
            },
            CellContent::Text(s) => {
                let mut chars = str_to_chars(s.as_str());
                chars.push(ch);
                *self = CellContent::Text(chars_to_string(chars.as_slice()));
                Ok(())
            },
            CellContent::Formula(f) => {
                match f.push_char(ch, size) {
                    Ok(()) => Ok(()),
                    Err(e) => Err(e),
                }
            },
            CellContent::Number(n) => {
                if char_is_digit(ch) {
                    let d = char_digit_val(ch) as i128;
                    let m: i128 = (*n as i128) * 10 + d;
                    if m < i64::MIN as i128 || m > i64::MAX as i128 {
                        Err(CellError::NumberOverflow)
                    } else {
                        *self = CellContent::Number(m as i64);
                        Ok(())
                    }
                } else if ch == '.' {
                    *self = CellContent::FloatNumber(Decimal { mantissa: *n, scale: 0 }, 1);
                    Ok(())
                } else {
                    let mut chars = i64_digits(*n);
                    chars.push(ch);
                    assert(chars@ =~= spec_int_digits(*n as int).push(ch));
                    *self = CellContent::Text(chars_to_string(chars.as_slice()));
                    Ok(())
                }
            },
            CellContent::FloatNumber(d, k) => {
                if char_is_digit(ch) {
                    let digit = char_digit_val(ch);
                    match dec_add_digit(d, digit, *k) {
                        Some(nd) => {
                            let count = *k + 1;
                            *self = CellContent::FloatNumber(nd, count);
                            Ok(())
                        },
                        None => Err(CellError::NumberOverflow),
                    }
                } else {
                    let mut chars = dec_display(d);
                    chars.push(ch);
                    assert(chars@ =~= spec_dec_display(*d).push(ch));
                    *self = CellContent::Text(chars_to_string(chars.as_slice()));
                    Ok(())
                }
            },
        }
    }

    /// Parses raw text into cell content, as ingestion does: nothing from
    /// empty text, an integer when the text is one, a decimal number (with
    /// no fractional digits typed) when the text is one, a formula when the
    /// text starts with `=`, and plain text otherwise. Fails exactly when a
    /// formula's body does not parse.
    pub fn parse(cell: &str, cell_position: (usize, usize), size: (usize, usize)) -> (r: Result<
        CellContent,
        CellError,
    >)
        ensures
            match r {
                Ok(c) => spec_parse_rel(cell@, cell_position, size.0 as nat, c) && c.wf(),
                Err(e) => {
                    &&& cell@.len() > 0
                    &&& !spec_is_int(cell@)
                    &&& !spec_is_dec(cell@)
                    &&& cell@[0] == '='
                    &&& spec_parse_raw(cell@.subrange(1, cell@.len() as int), size.0 as nat)
                        == Err::<(Seq<char>, Seq<CellReference>), CellError>(e)
                },
            },
    {
        let chars = str_to_chars(cell);
        if chars.len() == 0 {
            return Ok(CellContent::Empty);
        }
        match crate::text::parse_i64(chars.as_slice()) {
            Some(n) => Ok(CellContent::Number(n)),
            None => {
                match crate::decimal::parse_decimal(chars.as_slice()) {
                    Some(d) => Ok(CellContent::FloatNumber(d, 0)),
                    None => {
                        if chars[0] == '=' {
                            let n = chars.len();
                            let tail = cell.substring_char(1, n);
                            match parse_raw(tail, size) {
                                Ok((parsed, references)) => Ok(
                                    CellContent::Formula(
                                        Formula {
                                            position: CellPosition(
                                                cell_position.0,
                                                cell_position.1,
                                            ),
                                            raw: tail.to_owned(),
                                            parsed,
                                            references,
                                            value: Value::Empty,
                                        },
                                    ),
                                ),
                                Err(e) => Err(e),
                            }
                        } else {
                            Ok(CellContent::Text(cell.to_owned()))
                        }
                    },
                }
            },
        }
    }
}

/// Two contents that agree in every observable part. Only the reference
/// list inside a formula keeps copies from being equal outright.
pub open spec fn content_like(a: CellContent, b: CellContent) -> bool {
    match a {
        CellContent::Formula(f) => b matches CellContent::Formula(g) && crate::formula::formula_like(
            f,
            g,
        ),
        _ => a == b,
    }
}

/// The scalar a cell contributes as a name binding for evaluation.
pub open spec fn spec_scalar_value(c: CellContent) -> Option<Value> {
    match c {
        CellContent::Empty => None,
        CellContent::Text(s) => Some(Value::String(s)),
        CellContent::Number(n) => Some(Value::Number(n)),
        CellContent::FloatNumber(d, _) => Some(Value::FloatNumber(d)),
        CellContent::Formula(f) => match f.value {
            Value::Empty => None,
            Value::Error => None,
            v => Some(v),
        },
    }
}

/// How a content displays: text and numbers as themselves, a formula as its
/// last value.
pub open spec fn spec_display(c: CellContent) -> Seq<char> {
    match c {
        CellContent::Empty => Seq::empty(),
        CellContent::Text(s) => s@,
        CellContent::Number(n) => spec_int_digits(n as int),
        CellContent::FloatNumber(d, _) => spec_dec_display(d),
        CellContent::Formula(f) => spec_value_display(f.value),
    }
}

/// How a content serializes: a formula as `={raw}`, all else as displayed.
pub open spec fn spec_serialize_display(c: CellContent) -> Seq<char> {
    match c {
        CellContent::Formula(f) => seq!['='] + f.raw@,
        _ => spec_display(c),
    }
}

/// The status-line form: a hint for empty cells, `={raw}` for formulas, the
/// displayed form otherwise.
pub open spec fn spec_long_display(c: CellContent) -> Seq<char> {
    match c {
        CellContent::Empty => "Press ENTER to edit"@,
        CellContent::Formula(f) => seq!['='] + f.raw@,
        _ => spec_display(c),
    }
}

/// Whether text reads as an integer cell: a signed decimal literal whose
/// value fits in the integer type.
pub open spec fn spec_is_int(s: Seq<char>) -> bool {
    is_int_text(s) && i64::MIN <= spec_int_val(s) <= i64::MAX
}

/// Whether text reads as a decimal cell: a decimal literal within the
/// supported scale whose magnitude fits in the mantissa type.
pub open spec fn spec_is_dec(s: Seq<char>) -> bool {
    spec_dec_body_ok(crate::text::spec_sign_body(s)) && spec_dec_body_val(
        crate::text::spec_sign_body(s),
    ).0 <= i64::MAX
}

/// What `CellContent::parse` yields for given text: the five-way split over
/// empty text, integers, decimals, formulas and plain text.
pub open spec fn spec_parse_rel(
    s: Seq<char>,
    position: (usize, usize),
    width: nat,
    c: CellContent,
) -> bool {
    if s.len() == 0 {
        c == CellContent::Empty
    } else if spec_is_int(s) {
        c == CellContent::Number(spec_int_val(s) as i64)
    } else if spec_is_dec(s) {
        let body = crate::text::spec_sign_body(s);
        &&& c matches CellContent::FloatNumber(d, k)
        &&& k == 0
        &&& d.scale == spec_dec_body_val(body).1
        &&& d.mantissa == if crate::text::spec_is_negative(s) {
            -(spec_dec_body_val(body).0 as int)
        } else {
            spec_dec_body_val(body).0 as int
        }
    } else if s[0] == '=' {
        &&& c matches CellContent::Formula(f)
        &&& f.position == CellPosition(position.0, position.1)
        &&& f.raw@ == s.subrange(1, s.len() as int)
        &&& spec_parse_raw(f.raw@, width) == Ok::<(Seq<char>, Seq<CellReference>), CellError>(
            (f.parsed@, f.references@),
        )
        &&& f.value == Value::Empty
    } else {
        c matches CellContent::Text(t) && t@ == s
    }
}

/// How one typed character steps the content, in the successful case.
pub open spec fn spec_input_rel(
    old_c: CellContent,
    ch: char,
    position: CellPosition,
    width: nat,
    new_c: CellContent,
) -> bool {
    match old_c {
        CellContent::Empty => {
            if is_digit(ch) {
                new_c == CellContent::Number(digit_val(ch) as i64)
            } else if ch == '=' {
                &&& new_c matches CellContent::Formula(f)
                &&& f.position == position
                &&& f.raw@ == Seq::<char>::empty()
                &&& f.parsed@ == Seq::<char>::empty()
                &&& f.references@ == Seq::<CellReference>::empty()
                &&& f.value == Value::Empty
            } else if ch == '.' {
                new_c == CellContent::FloatNumber(Decimal { mantissa: 0, scale: 0 }, 1u32)
            } else {
                new_c matches CellContent::Text(t) && t@ == seq![ch]
            }
        },
        CellContent::Text(s) => new_c matches CellContent::Text(t) && t@ == s@.push(ch),
        CellContent::Number(n) => {
            if is_digit(ch) {
                new_c == CellContent::Number((n * 10 + digit_val(ch)) as i64)
            } else if ch == '.' {
                new_c == CellContent::FloatNumber(Decimal { mantissa: n, scale: 0 }, 1u32)
            } else {
                new_c matches CellContent::Text(t) && t@ == spec_int_digits(n as int).push(ch)
            }
        },
        CellContent::FloatNumber(d, k) => {
            if is_digit(ch) {
                &&& new_c matches CellContent::FloatNumber(nd, k2)
                &&& k2 == k + 1
                &&& nd.mantissa == spec_add_digit_mantissa(d, digit_val(ch), k as nat)
                &&& nd.scale == spec_add_digit_scale(d, k as nat)
            } else {
                new_c matches CellContent::Text(t) && t@ == spec_dec_display(d).push(ch)
            }
        },
        CellContent::Formula(f) => {
            &&& new_c matches CellContent::Formula(g)
            &&& g.position == f.position
            &&& g.value == f.value
            &&& g.raw@ == f.raw@.push(ch)
            &&& spec_parse_raw(g.raw@, width) == Ok::<(Seq<char>, Seq<CellReference>), CellError>(
                (g.parsed@, g.references@),
            )
        },
    }
}

/// When one typed character is rejected: a digit that overflows a number,
/// a digit that overflows a decimal's mantissa or scale, or a character
/// after which the formula no longer parses.
pub open spec fn spec_input_err(old_c: CellContent, ch: char, width: nat, e: CellError) -> bool {
    match old_c {
        CellContent::Number(n) => {
            &&& is_digit(ch)
            &&& !(i64::MIN <= n * 10 + digit_val(ch) <= i64::MAX)
            &&& e == CellError::NumberOverflow
        },
        CellContent::FloatNumber(d, k) => {
            &&& is_digit(ch)
            &&& (k > MAX_SCALE || !(i64::MIN <= spec_add_digit_mantissa(d, digit_val(ch), k as nat)
                <= i64::MAX))
            &&& e == CellError::NumberOverflow
        },
        CellContent::Formula(f) => spec_parse_raw(f.raw@.push(ch), width) == Err::<
            (Seq<char>, Seq<CellReference>),
            CellError,
        >(e),
        _ => false,
    }
}

/// Lexicographic comparison of text by character code, as the standard
/// library orders strings.
pub open spec fn spec_str_cmp(a: Seq<char>, b: Seq<char>) -> Ordering
    decreases a.len(),
{
    if a.len() == 0 && b.len() == 0 {
        Ordering::Equal
    } else if a.len() == 0 {
        Ordering::Less
    } else if b.len() == 0 {
        Ordering::Greater
    } else if (a[0] as u32) < (b[0] as u32) {
        Ordering::Less
    } else if (a[0] as u32) > (b[0] as u32) {
        Ordering::Greater
    } else {
        spec_str_cmp(a.drop_first(), b.drop_first())
    }
}

/// The opposite ordering.
pub open spec fn spec_reverse_ord(o: Ordering) -> Ordering {
    match o {
        Ordering::Less => Ordering::Greater,
        Ordering::Equal => Ordering::Equal,
        Ordering::Greater => Ordering::Less,
    }
}

/// How two integers compare.
pub open spec fn spec_int_cmp(a: int, b: int) -> Ordering {
    if a < b {
        Ordering::Less
    } else if a == b {
        Ordering::Equal
    } else {
        Ordering::Greater
    }
}

/// How a number on the left compares with any content on the right: above
/// the empty cell and failed or unevaluated formulas, below text, by value
/// against other numbers.
pub open spec fn spec_cmp_int_vs(n: i64, other: CellContent) -> Ordering {
    match other {
        CellContent::Empty => Ordering::Greater,
        CellContent::Text(_) => Ordering::Less,
        CellContent::Number(m) => spec_int_cmp(n as int, m as int),
        CellContent::FloatNumber(d, _) => spec_int_dec_cmp(n as int, d),
        CellContent::Formula(f) => match f.value {
            Value::String(_) => Ordering::Less,
            Value::Number(m) => spec_int_cmp(n as int, m as int),
            Value::FloatNumber(d) => spec_int_dec_cmp(n as int, d),
            Value::Empty => Ordering::Greater,
            Value::Error => Ordering::Greater,
        },
    }
}

/// How a decimal on the left compares with any content on the right.
pub open spec fn spec_cmp_dec_vs(d: Decimal, other: CellContent) -> Ordering {
    match other {
        CellContent::Empty => Ordering::Greater,
        CellContent::Text(_) => Ordering::Less,
        CellContent::Number(m) => spec_reverse_ord(spec_int_dec_cmp(m as int, d)),
        CellContent::FloatNumber(e, _) => spec_dec_cmp(d, e),
        CellContent::Formula(f) => match f.value {
            Value::String(_) => Ordering::Less,
            Value::Number(m) => spec_reverse_ord(spec_int_dec_cmp(m as int, d)),
            Value::FloatNumber(e) => spec_dec_cmp(d, e),
            Value::Empty => Ordering::Greater,
            Value::Error => Ordering::Greater,
        },
    }
}

/// The total comparison used for sorting a column: the empty cell below
/// everything, text above numbers and in reverse lexicographic order among
/// itself, numbers by exact value, a formula ranked by its last value — and
/// a formula whose value is empty or failed below everything, even another
/// such formula, an intentional non-transitivity kept from the documented
/// rule rather than repaired.
pub open spec fn spec_content_cmp(a: CellContent, b: CellContent) -> Ordering {
    match a {
        CellContent::Empty => if b is Empty {
            Ordering::Equal
        } else {
            Ordering::Less
        },
        CellContent::Text(s) => match b {
            CellContent::Text(t) => spec_reverse_ord(spec_str_cmp(s@, t@)),
            _ => Ordering::Greater,
        },
        CellContent::Number(n) => spec_cmp_int_vs(n, b),
        CellContent::FloatNumber(d, _) => spec_cmp_dec_vs(d, b),
        CellContent::Formula(f) => match f.value {
            Value::String(s) => match b {
                CellContent::Text(t) => spec_reverse_ord(spec_str_cmp(s@, t@)),
                _ => Ordering::Greater,
            },
            Value::Number(n) => spec_cmp_int_vs(n, b),
            Value::FloatNumber(d) => spec_cmp_dec_vs(d, b),
            Value::Empty => Ordering::Less,
            Value::Error => Ordering::Less,
        },
    }
}

/// Compares two character sequences lexicographically.
fn str_cmp_chars(a: &[char], b: &[char]) -> (r: Ordering)
    ensures
        r == spec_str_cmp(a@, b@),
{
    proof {
        assert(a@.subrange(0, a@.len() as int) =~= a@);
        assert(b@.subrange(0, b@.len() as int) =~= b@);
    }
    let mut i: usize = 0;
    while i < a.len() && i < b.len()
        invariant
            i <= a@.len(),
            i <= b@.len(),
            spec_str_cmp(a@, b@) == spec_str_cmp(
                a@.subrange(i as int, a@.len() as int),
                b@.subrange(i as int, b@.len() as int),
            ),
        decreases a@.len() - i,
    {
        let ca = a[i] as u32;
        let cb = b[i] as u32;
        let ghost ra = a@.subrange(i as int, a@.len() as int);
        let ghost rb = b@.subrange(i as int, b@.len() as int);
        proof {
            assert(ra.len() > 0 && rb.len() > 0);
            assert(ra[0] == a@[i as int]);
            assert(rb[0] == b@[i as int]);
            assert(ca == ra[0] as u32);
            assert(cb == rb[0] as u32);
        }
        if ca < cb {
            return Ordering::Less;
        } else if ca > cb {
            return Ordering::Greater;
        }
        proof {
            assert(ra.drop_first() =~= a@.subrange(i + 1, a@.len() as int));
            assert(rb.drop_first() =~= b@.subrange(i + 1, b@.len() as int));
            assert(spec_str_cmp(ra, rb) == spec_str_cmp(ra.drop_first(), rb.drop_first()));
        }
        i += 1;
    }
    proof {
        let ra = a@.subrange(i as int, a@.len() as int);
        let rb = b@.subrange(i as int, b@.len() as int);
        assert(ra.len() == 0 || rb.len() == 0);
    }
    if a.len() == b.len() {
        Ordering::Equal
    } else if i == a.len() {
        Ordering::Less
    } else {
        Ordering::Greater
    }
}

/// The opposite ordering.
fn reverse_ord(o: Ordering) -> (r: Ordering)
    ensures
        r == spec_reverse_ord(o),
{
    match o {
        Ordering::Less => Ordering::Greater,
        Ordering::Equal => Ordering::Equal,
        Ordering::Greater => Ordering::Less,
    }
}

/// Compares an integer on the left with any content on the right.
fn cmp_int_vs(n: i64, other: &CellContent) -> (r: Ordering)
    requires
        other.wf(),
    ensures
        r == spec_cmp_int_vs(n, *other),
{
    match other {
        CellContent::Empty => Ordering::Greater,
        CellContent::Text(_) => Ordering::Less,
        CellContent::Number(m) => {
            if n < *m {
                Ordering::Less
            } else if n == *m {
                Ordering::Equal
            } else {
                Ordering::Greater
            }
        },
        CellContent::FloatNumber(d, _) => int_dec_cmp(n, d),
        CellContent::Formula(f) => match &f.value {
            Value::String(_) => Ordering::Less,
            Value::Number(m) => {
                if n < *m {
                    Ordering::Less
                } else if n == *m {
                    Ordering::Equal
                } else {
                    Ordering::Greater
                }
            },
            Value::FloatNumber(d) => int_dec_cmp(n, d),
            Value::Empty => Ordering::Greater,
            Value::Error => Ordering::Greater,
        },
    }
}

/// Compares a decimal on the left with any content on the right.
fn cmp_dec_vs(d: &Decimal, other: &CellContent) -> (r: Ordering)
    requires
        d.wf(),
        other.wf(),
    ensures
        r == spec_cmp_dec_vs(*d, *other),
{
    match other {
        CellContent::Empty => Ordering::Greater,
        CellContent::Text(_) => Ordering::Less,
        CellContent::Number(m) => reverse_ord(int_dec_cmp(*m, d)),
        CellContent::FloatNumber(e, _) => dec_cmp(d, e),
        CellContent::Formula(f) => match &f.value {
            Value::String(_) => Ordering::Less,
            Value::Number(m) => reverse_ord(int_dec_cmp(*m, d)),
            Value::FloatNumber(e) => dec_cmp(d, e),
            Value::Empty => Ordering::Greater,
            Value::Error => Ordering::Greater,
        },
    }
}

/// Compares two cell contents with the sorting rule.
pub fn content_cmp(a: &CellContent, b: &CellContent) -> (r: Ordering)
    requires
        a.wf(),
        b.wf(),
    ensures
        r == spec_content_cmp(*a, *b),
{
    match a {
        CellContent::Empty => {
            if matches!(b, CellContent::Empty) {
                Ordering::Equal
            } else {
                Ordering::Less
            }
        },
        CellContent::Text(s) => match b {
            CellContent::Text(t) => {
                let sc = str_to_chars(s.as_str());
                let tc = str_to_chars(t.as_str());
                reverse_ord(str_cmp_chars(sc.as_slice(), tc.as_slice()))
            },
            _ => Ordering::Greater,
        },
        CellContent::Number(n) => cmp_int_vs(*n, b),
        CellContent::FloatNumber(d, _) => cmp_dec_vs(d, b),
        CellContent::Formula(f) => match &f.value {
            Value::String(s) => match b {
                CellContent::Text(t) => {
                    let sc = str_to_chars(s.as_str());
                    let tc = str_to_chars(t.as_str());
                    reverse_ord(str_cmp_chars(sc.as_slice(), tc.as_slice()))
                },
                _ => Ordering::Greater,
            },
            Value::Number(n) => cmp_int_vs(*n, b),
            Value::FloatNumber(d) => cmp_dec_vs(d, b),
            Value::Empty => Ordering::Less,
            Value::Error => Ordering::Less,
        },
    }
}

} // verus!
