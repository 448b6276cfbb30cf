//! Per-cell unit tags: how a cell's value is dressed up for display. A
//! dollar-tagged integer is a count of cents and shows as dollars with two
//! decimal places.
use vstd::prelude::*;

use crate::cell_content::{spec_display, CellContent};
use crate::formula::Value;
use crate::text::{digit_char, spec_digits, spec_int_digits};

verus! {

/// The unit a cell's value is displayed in.
#[derive(Debug, Clone, Copy, PartialEq, Eq, Structural)]
pub enum UnitKind {
    Plain,
    Dollar,
}

impl Default for UnitKind {
    /// Cells start without a unit.
    fn default() -> (r: UnitKind)
        ensures
            r == UnitKind::Plain,
    {
        UnitKind::Plain
    }
}

/// How a count of cents shows as dollars: `$ `, a sign for negative
/// amounts, the whole dollars, and exactly two digits of cents.
pub open spec fn spec_dollar(cents: int) -> Seq<char> {
    let mag = if cents < 0 {
        -cents
    } else {
        cents
    };
    let sign: Seq<char> = if cents < 0 {
        seq!['-']
    } else {
        Seq::empty()
    };
    seq!['$', ' '] + sign + spec_digits((mag / 100) as nat) + seq!['.'] + seq![
        digit_char(((mag / 10) % 10) as nat),
        digit_char((mag % 10) as nat),
    ]
}

/// How content shows under a unit: a dollar unit formats integer values
/// (own or a formula's) as dollars and cents; everything else shows as the
/// content itself does.
pub open spec fn spec_unit_display(u: UnitKind, c: CellContent) -> Seq<char> {
    match c {
        CellContent::Number(n) => if u is Dollar {
            spec_dollar(n as int)
        } else {
            spec_int_digits(n as int)
        },
        CellContent::Formula(f) => match f.value {
            Value::Number(n) => if u is Dollar {
                spec_dollar(n as int)
            } else {
                spec_int_digits(n as int)
            },
            _ => spec_display(c),
        },
        _ => spec_display(c),
    }
}

/// Renders a count of cents as dollars.
fn dollar_chars(cents: i64) -> (r: Vec<char>)
    ensures
        r@ == spec_dollar(cents as int),
{
    let mag: u64 = if cents < 0 {
        (-(cents as i128)) as u64
    } else {
        cents as u64
    };
    let mut r: Vec<char> = Vec::new();
    r.push('$');
    r.push(' ');
    if cents < 0 {
        r.push('-');
    }
    let mut whole = crate::text::u64_digits(mag / 100);
    r.append(&mut whole);
    r.push('.');
    let tens: u8 = ((mag / 10) % 10) as u8;
    let ones: u8 = (mag % 10) as u8;
    r.push((48 + tens) as char);
    r.push((48 + ones) as char);
    assert(r@ =~= spec_dollar(cents as int));
    r
}

impl UnitKind {
    /// Renders content under this unit: integer values show as dollars and
    /// cents when the unit is the dollar, everything else as the content
    /// itself displays.
    pub fn display(&self, content: &CellContent) -> (r: String)
        requires
            content.wf(),
        ensures
            r@ == spec_unit_display(*self, *content),
    {
        match content {
            CellContent::Number(n) => {
                match self {
                    UnitKind::Plain => content.display(),
                    UnitKind::Dollar => {
                        let chars = dollar_chars(*n);
                        crate::text::chars_to_string(chars.as_slice())
                    },
                }
            },
            CellContent::Formula(f) => {
                match f.value() {
                    Value::Number(n) => {
                        match self {
                            UnitKind::Plain => content.display(),
                            UnitKind::Dollar => {
                                let chars = dollar_chars(*n);
                                crate::text::chars_to_string(chars.as_slice())
                            },
                        }
                    },
                    _ => content.display(),
                }
            },
            _ => content.display(),
        }
    }
}

} // verus!
