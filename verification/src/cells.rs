//! Grid addresses and cells. A `CellPosition` is a zero-based
//! `(column, row)` pair; a `Cell` couples a position with its content.
use vstd::prelude::*;

use crate::address::spec_cell_name;
use crate::text::{
    char_digit_val, char_is_alpha, char_is_digit, char_letter_val, chars_to_string, digit_val,
    is_alpha, is_digit, letter_val, str_to_chars, u64_digits,
};

verus! {

/// A zero-based `(column, row)` grid address.
#[derive(Debug, Clone, Copy, PartialEq, Eq, Structural, Hash)]
pub struct CellPosition(pub usize, pub usize);

/// The result of scanning cell-name text character by character: letters
/// accumulate into the column in base 26, digits into the row in base 10,
/// in whatever order they come; any other character fails the scan.
pub open spec fn spec_pos_scan(s: Seq<char>) -> Option<(nat, nat)>
    decreases s.len(),
{
    if s.len() == 0 {
        Some((0, 0))
    } else {
        match spec_pos_scan(s.drop_last()) {
            Some((c, r)) => {
                let ch = s.last();
                if is_alpha(ch) {
                    Some(((c * 26 + letter_val(ch)) as nat, r))
                } else if is_digit(ch) {
                    Some((c, (r * 10 + digit_val(ch)) as nat))
                } else {
                    None
                }
            },
            None => None,
        }
    }
}

/// Prefixes of a successful scan succeed with components no larger than the
/// whole; a failed prefix fails the whole.
proof fn lemma_pos_scan_prefix(s: Seq<char>, i: int)
    requires
        0 <= i <= s.len(),
    ensures
        spec_pos_scan(s) matches Some(whole) ==> (spec_pos_scan(s.subrange(0, i)) matches Some(
            part,
        ) && part.0 <= whole.0 && part.1 <= whole.1),
        spec_pos_scan(s.subrange(0, i)) is None ==> spec_pos_scan(s) is None,
    decreases s.len() - i,
{
    if i < s.len() {
        lemma_pos_scan_prefix(s, i + 1);
        assert(s.subrange(0, i + 1).drop_last() =~= s.subrange(0, i));
        assert(s.subrange(0, i + 1).last() == s[i]);
    } else {
        assert(s.subrange(0, i) =~= s);
    }
}

impl CellPosition {
    /// Reads an address from mixed letters and digits: letters (either case)
    /// accumulate into the column, digits into the row, in any order. The
    /// empty text reads as `(0, 0)`. Fails, handing the input back, on any
    /// other character or when a component does not fit in `usize`.
    pub fn parse<'a>(text: &'a str) -> (r: Result<Self, &'a str>)
        ensures
            match r {
                Ok(p) => spec_pos_scan(text@) == Some((p.0 as nat, p.1 as nat)),
                Err(e) => {
                    &&& !(spec_pos_scan(text@) matches Some(v) && v.0 <= usize::MAX && v.1
                        <= usize::MAX)
                    &&& e@ == text@
                },
            },
    {
        let chars = str_to_chars(text);
        let n = chars.len();
        let mut column: usize = 0;
        let mut row: usize = 0;
        let mut i: usize = 0;
        while i < n
            invariant
                i <= n,
                n == text@.len(),
                chars@ == text@,
                spec_pos_scan(text@.subrange(0, i as int)) == Some((column as nat, row as nat)),
            decreases n - i,
        {
            let ch = chars[i];
            proof {
                assert(text@.subrange(0, i + 1).drop_last() =~= text@.subrange(0, i as int));
                assert(text@.subrange(0, i + 1).last() == text@[i as int]);
            }
            if char_is_alpha(ch) {
                let v = char_letter_val(ch) as usize;
                if column > (usize::MAX - v) / 26 {
                    proof {
                        lemma_pos_scan_prefix(text@, i + 1);
                        assert(column * 26 + v > usize::MAX) by (nonlinear_arith)
                            requires
                                column > (usize::MAX - v) / 26,
                                0 <= v <= 25,
                        ;
                    }
                    return Err(text);
                }
                proof {
                    assert(column * 26 + v <= usize::MAX) by (nonlinear_arith)
                        requires
                            column <= (usize::MAX - v) / 26,
                            0 <= v <= 25,
                    ;
                }
                column = column * 26 + v;
            } else if char_is_digit(ch) {
                let d = char_digit_val(ch) as usize;
                if row > (usize::MAX - d) / 10 {
                    proof {
                        lemma_pos_scan_prefix(text@, i + 1);
                        assert(row * 10 + d > usize::MAX) by (nonlinear_arith)
                            requires
                                row > (usize::MAX - d) / 10,
                                0 <= d <= 9,
                        ;
                    }
                    return Err(text);
                }
                proof {
                    assert(row * 10 + d <= usize::MAX) by (nonlinear_arith)
                        requires
                            row <= (usize::MAX - d) / 10,
                            0 <= d <= 9,
                    ;
                }
                row = row * 10 + d;
            } else {
                proof {
                    lemma_pos_scan_prefix(text@, i + 1);
                }
                return Err(text);
            }
            i += 1;
        }
        assert(text@.subrange(0, n as int) =~= text@);
        Ok(CellPosition(column, row))
    }

    /// The address of the cell at a row-major index in a grid of the given
    /// width.
    pub fn from_index(index: usize, width: usize) -> (r: CellPosition)
        requires
            width > 0,
        ensures
            r.0 == index as int % width as int,
            r.1 == index as int / width as int,
    {
        let x = index % width;
        let y = index / width;
        CellPosition(x, y)
    }

    /// The cell's name: its column's base-26 letter name followed by its
    /// zero-based row in decimal.
    pub fn name(&self) -> (r: String)
        ensures
            r@ == spec_cell_name(self.0 as nat, self.1 as nat),
    {
        let mut chars = crate::address::column_name_chars(self.0);
        let mut digits = u64_digits(self.1 as u64);
        chars.append(&mut digits);
        chars_to_string(chars.as_slice())
    }

    /// The signed `(column, row)` offset that carries `from` to `self`,
    /// as a sign and a magnitude per axis.
    pub fn offset_from(&self, from: &CellPosition) -> (r: ((bool, usize), (bool, usize)))
        ensures
            r.0.0 ==> self.0 as int - from.0 as int == -(r.0.1 as int),
            !r.0.0 ==> self.0 as int - from.0 as int == r.0.1 as int,
            r.1.0 ==> self.1 as int - from.1 as int == -(r.1.1 as int),
            !r.1.0 ==> self.1 as int - from.1 as int == r.1.1 as int,
    {
        let dx = if self.0 >= from.0 {
            (false, self.0 - from.0)
        } else {
            (true, from.0 - self.0)
        };
        let dy = if self.1 >= from.1 {
            (false, self.1 - from.1)
        } else {
            (true, from.1 - self.1)
        };
        (dx, dy)
    }
}

/// A cell of the grid: its content, its own address, and its display unit.
/// A cell's identity is purely positional; content and unit are payload.
#[derive(Debug, Clone)]
pub struct Cell {
    pub content: crate::cell_content::CellContent,
    pub position: CellPosition,
    pub unit: crate::units::UnitKind,
}

/// Two cells that agree in every observable part.
pub open spec fn cell_like(a: Cell, b: Cell) -> bool {
    &&& crate::cell_content::content_like(a.content, b.content)
    &&& a.position == b.position
    &&& a.unit == b.unit
}

impl Cell {
    /// A cell is well formed when its content is.
    pub open spec fn wf(self) -> bool {
        self.content.wf()
    }

    /// A copy of the cell, equal in every observable part.
    pub fn duplicate(&self) -> (r: Cell)
        ensures
            cell_like(r, *self),
    {
        Cell { content: self.content.duplicate(), position: self.position, unit: self.unit }
    }

    /// The cell's column.
    pub fn column(&self) -> (r: usize)
        ensures
            r == self.position.0,
    {
        self.position.0
    }

    /// The cell's row.
    pub fn row(&self) -> (r: usize)
        ensures
            r == self.position.1,
    {
        self.position.1
    }

    /// The cell's `(column, row)` address.
    pub fn position(&self) -> (r: (usize, usize))
        ensures
            r == (self.position.0, self.position.1),
    {
        (self.position.0, self.position.1)
    }

    /// The form written when saving as delimited text.
    pub fn serialize_display_content(&self) -> (r: String)
        requires
            self.wf(),
        ensures
            r@ == crate::cell_content::spec_serialize_display(self.content),
    {
        self.content.serialize_display()
    }

    /// The editable form shown in the status line.
    pub fn long_display_content(&self) -> (r: String)
        requires
            self.wf(),
        ensures
            r@ == crate::cell_content::spec_long_display(self.content),
    {
        self.content.long_display()
    }

    /// The displayed form.
    pub fn display_content(&self) -> (r: String)
        requires
            self.wf(),
        ensures
            r@ == crate::cell_content::spec_display(self.content),
    {
        self.content.display()
    }

    /// Whether the cell displays right-aligned.
    pub fn is_right_aligned(&self) -> (r: bool)
        ensures
            r == match self.content {
                crate::cell_content::CellContent::Number(_)
                | crate::cell_content::CellContent::FloatNumber(..) => true,
                crate::cell_content::CellContent::Formula(f) => f.value matches crate::formula::Value::Number(_)
                    || f.value matches crate::formula::Value::FloatNumber(_)
                    || f.value matches crate::formula::Value::Error,
                _ => false,
            },
    {
        self.content.is_right_aligned()
    }

    /// Whether the cell holds a formula whose last evaluation failed.
    pub fn is_error(&self) -> (r: bool)
        ensures
            r == match self.content {
                crate::cell_content::CellContent::Formula(f) => f.value is Error,
                _ => false,
            },
    {
        self.content.is_error()
    }

    /// The cell's spreadsheet-style name.
    pub fn name(&self) -> (r: String)
        ensures
            r@ == spec_cell_name(self.position.0 as nat, self.position.1 as nat),
    {
        self.position.name()
    }

    /// Whether the cell holds nothing.
    pub fn is_empty(&self) -> (r: bool)
        ensures
            r == (self.content is Empty),
    {
        self.content.is_empty()
    }

    /// Changes the cell's display unit.
    pub fn set_unit(&mut self, unit: crate::units::UnitKind)
        ensures
            final (self).unit == unit,
            final (self).content == old(self).content,
            final (self).position == old(self).position,
    {
        self.unit = unit;
    }
}

} // verus!
