//! Bidirectional mapping between zero-based `(column, row)` pairs, base-26
//! letter column names, and spreadsheet-style cell names such as `C12`.
//! Rows are zero-based throughout: the cell name of `(0, 0)` is `A0`.
use vstd::prelude::*;

use crate::text::{
    char_is_alpha, char_is_upper_alpha, char_letter_val, chars_to_string, is_alpha, is_uint_text,
    is_upper_alpha, letter_val, parse_usize, spec_digits, spec_uint_body, spec_uint_val,
    str_to_chars, u64_digits,
};

verus! {

/// The letter that stands for one base-26 digit: `0` is `A`, `25` is `Z`.
pub open spec fn spec_column_letter(digit: nat) -> char {
    ((65 + (digit % 26)) as u8) as char
}

/// The base-26 letter name of a zero-based column index: `0` is `A`,
/// `25` is `Z`, `26` is `BA` (plain digit encoding, not the bijective
/// numeration of common spreadsheet products).
pub open spec fn spec_column_name(index: nat) -> Seq<char>
    decreases index,
{
    if index < 26 {
        seq![spec_column_letter(index)]
    } else {
        spec_column_name(index / 26).push(spec_column_letter(index % 26))
    }
}

/// The value of a column name read as base-26, case-insensitively, ignoring
/// whether the characters are in fact letters.
pub open spec fn spec_column_value(s: Seq<char>) -> nat
    decreases s.len(),
{
    if s.len() == 0 {
        0
    } else {
        spec_column_value(s.drop_last()) * 26 + letter_val(s.last())
    }
}

/// Every character is an ASCII letter, either case.
pub open spec fn all_alpha(s: Seq<char>) -> bool {
    forall|i: int| 0 <= i < s.len() ==> is_alpha(#[trigger] s[i])
}

/// The spreadsheet-style name of a cell: its column name followed by its
/// zero-based row number in decimal.
pub open spec fn spec_cell_name(column: nat, row: nat) -> Seq<char> {
    spec_column_name(column) + spec_digits(row)
}

/// Reading a column name as base-26 undoes producing one: the letters of
/// `spec_column_name(i)` are all alphabetic and read back as `i`.
pub proof fn lemma_column_name_round_trip(i: nat)
    ensures
        all_alpha(spec_column_name(i)),
        spec_column_value(spec_column_name(i)) == i,
    decreases i,
{
    lemma_column_letter(i % 26);
    if i < 26 {
        assert(spec_column_name(i) =~= seq![spec_column_letter(i)]);
        assert(spec_column_name(i).drop_last() =~= Seq::<char>::empty());
        assert(spec_column_value(Seq::<char>::empty()) == 0);
        assert(spec_column_value(spec_column_name(i)) == 0 * 26 + letter_val(
            spec_column_letter(i),
        ));
    } else {
        lemma_column_name_round_trip(i / 26);
        let prefix = spec_column_name(i / 26);
        let whole = spec_column_name(i);
        assert(whole == prefix.push(spec_column_letter(i % 26)));
        assert(whole.drop_last() =~= prefix);
        assert(spec_column_value(whole) == spec_column_value(prefix) * 26 + letter_val(
            spec_column_letter(i % 26),
        ));
        assert((i / 26) * 26 + i % 26 == i) by (nonlinear_arith);
        assert forall|j: int| 0 <= j < whole.len() implies is_alpha(#[trigger] whole[j]) by {
            if j < prefix.len() {
                assert(is_alpha(prefix[j]));
            }
        }
    }
}

/// The letter of a base-26 digit is an uppercase letter and reads back as
/// the digit.
proof fn lemma_column_letter(d: nat)
    ensures
        is_upper_alpha(spec_column_letter(d)),
        is_alpha(spec_column_letter(d)),
        letter_val(spec_column_letter(d)) == d % 26,
{
    let c = spec_column_letter(d);
    assert(c as int == 65 + (d % 26));
}

/// A prefix of a column name never reads as a larger value than the whole.
proof fn lemma_column_value_prefix_le(s: Seq<char>, i: int)
    requires
        0 <= i <= s.len(),
    ensures
        spec_column_value(s.subrange(0, i)) <= spec_column_value(s),
    decreases s.len() - i,
{
    if i < s.len() {
        lemma_column_value_prefix_le(s, i + 1);
        assert(s.subrange(0, i + 1).drop_last() =~= s.subrange(0, i));
        assert(spec_column_value(s.subrange(0, i + 1)) == spec_column_value(s.subrange(0, i)) * 26
            + letter_val(s.subrange(0, i + 1).last()));
    } else {
        assert(s.subrange(0, i) =~= s);
    }
}

/// Renders a zero-based column index as its base-26 letter name.
pub fn column_name_chars(index: usize) -> (result: Vec<char>)
    ensures
        result@ == spec_column_name(index as nat),
    decreases index,
{
    let digit: u8 = (index % 26) as u8;
    let letter: char = (65 + digit) as char;
    if index < 26 {
        let mut result: Vec<char> = Vec::new();
        result.push(letter);
        assert(result@ =~= spec_column_name(index as nat));
        result
    } else {
        let mut result = column_name_chars(index / 26);
        result.push(letter);
        assert(result@ =~= spec_column_name(index as nat));
        result
    }
}

/// Renders a zero-based column index as its base-26 letter name.
pub fn to_column_name(index: usize) -> (result: String)
    ensures
        result@ == spec_column_name(index as nat),
{
    let chars = column_name_chars(index);
    chars_to_string(chars.as_slice())
}

/// Reads a base-26 column name case-insensitively. Fails, handing the input
/// back, exactly when the text is empty, contains a character that is not an
/// ASCII letter, or names an index that does not fit in `usize`.
pub fn column_name_to_index<'a>(column: &'a str) -> (r: Result<usize, &'a str>)
    ensures
        match r {
            Ok(v) => column@.len() > 0 && all_alpha(column@) && v == spec_column_value(column@),
            Err(e) => {
                &&& !(column@.len() > 0 && all_alpha(column@) && spec_column_value(column@)
                    <= usize::MAX)
                &&& e@ == column@
            },
        },
{
    let chars = str_to_chars(column);
    match column_value_of_chars(chars.as_slice()) {
        Some(v) => Ok(v),
        None => Err(column),
    }
}

/// Reads characters as a base-26 column name; `None` exactly when the text is
/// empty, not all letters, or too large for `usize`.
pub fn column_value_of_chars(s: &[char]) -> (r: Option<usize>)
    ensures
        match r {
            Some(v) => s@.len() > 0 && all_alpha(s@) && v == spec_column_value(s@),
            None => !(s@.len() > 0 && all_alpha(s@) && spec_column_value(s@) <= usize::MAX),
        },
{
    if s.len() == 0 {
        return None;
    }
    let mut acc: usize = 0;
    let mut i: usize = 0;
    while i < s.len()
        invariant
            i <= s@.len(),
            all_alpha(s@.subrange(0, i as int)),
            acc == spec_column_value(s@.subrange(0, i as int)),
        decreases s@.len() - i,
    {
        let c = s[i];
        if !char_is_alpha(c) {
            assert(!all_alpha(s@)) by {
                assert(!is_alpha(s@[i as int]));
            }
            return None;
        }
        let d = char_letter_val(c) as usize;
        proof {
            assert(s@.subrange(0, i + 1).drop_last() =~= s@.subrange(0, i as int));
            assert(spec_column_value(s@.subrange(0, i + 1)) == acc * 26 + d);
        }
        if acc > (usize::MAX - d) / 26 {
            proof {
                lemma_column_value_prefix_le(s@, i + 1);
                assert(acc * 26 + d > usize::MAX) by (nonlinear_arith)
                    requires
                        acc > (usize::MAX - d) / 26,
                        0 <= d <= 25,
                ;
            }
            return None;
        }
        proof {
            assert(acc * 26 + d <= usize::MAX) by (nonlinear_arith)
                requires
                    acc <= (usize::MAX - d) / 26,
                    0 <= d <= 25,
            ;
        }
        acc = acc * 26 + d;
        i += 1;
    }
    assert(s@.subrange(0, s@.len() as int) =~= s@);
    Some(acc)
}

/// The number of leading uppercase ASCII letters.
pub open spec fn upper_prefix_len(s: Seq<char>) -> nat
    decreases s.len(),
{
    if s.len() == 0 || !is_upper_alpha(s[0]) {
        0
    } else {
        (1 + upper_prefix_len(s.subrange(1, s.len() as int))) as nat
    }
}

/// `upper_prefix_len` indeed marks the first position that is not an
/// uppercase letter.
pub proof fn lemma_upper_prefix_len(s: Seq<char>)
    ensures
        upper_prefix_len(s) <= s.len(),
        forall|i: int| 0 <= i < upper_prefix_len(s) ==> is_upper_alpha(#[trigger] s[i]),
        upper_prefix_len(s) < s.len() ==> !is_upper_alpha(s[upper_prefix_len(s) as int]),
    decreases s.len(),
{
    if s.len() > 0 && is_upper_alpha(s[0]) {
        let rest = s.subrange(1, s.len() as int);
        lemma_upper_prefix_len(rest);
        let k = upper_prefix_len(s);
        assert forall|i: int| 0 <= i < k implies is_upper_alpha(#[trigger] s[i]) by {
            if i >= 1 {
                assert(is_upper_alpha(rest[i - 1]));
                assert(s[i] == rest[i - 1]);
            }
        }
        if k < s.len() {
            assert(s[k as int] == rest[k - 1]);
        }
    }
}

/// Parses a spreadsheet-style cell name: one or more uppercase letters naming
/// the column, then the zero-based row in decimal, with nothing after it.
/// `A0` is `(0, 0)` and `C12` is `(2, 12)`. Fails on an empty name, a name
/// with no letters or with nothing after the letters, trailing text after the
/// row, or a column or row too large for `usize`. The error hands back the
/// part of the input from the first offending position on.
pub fn cell_name_to_position<'a>(cell: &'a str) -> (r: Result<(usize, usize), &'a str>)
    ensures
        ({
            let k = upper_prefix_len(cell@) as int;
            let suffix = cell@.subrange(k, cell@.len() as int);
            match r {
                Ok((x, y)) => {
                    &&& 0 < k < cell@.len()
                    &&& x == spec_column_value(cell@.subrange(0, k))
                    &&& spec_column_value(cell@.subrange(0, k)) <= usize::MAX
                    &&& is_uint_text(suffix)
                    &&& y == spec_uint_val(spec_uint_body(suffix))
                },
                Err(e) => {
                    &&& !(0 < k < cell@.len() && spec_column_value(cell@.subrange(0, k))
                        <= usize::MAX && is_uint_text(suffix) && spec_uint_val(
                        spec_uint_body(suffix),
                    ) <= usize::MAX)
                    &&& (e@ == cell@ || e@ == suffix)
                },
            }
        }),
{
    proof {
        lemma_upper_prefix_len(cell@);
    }
    let chars = str_to_chars(cell);
    let ghost k_spec = upper_prefix_len(cell@) as int;
    let n = chars.len();
    let mut k: usize = 0;
    while k < n && char_is_upper_alpha(chars[k])
        invariant
            k <= n,
            n == cell@.len(),
            chars@ == cell@,
            k <= k_spec,
            k_spec == upper_prefix_len(cell@),
            forall|i: int| 0 <= i < k ==> is_upper_alpha(#[trigger] cell@[i]),
        decreases n - k,
    {
        proof {
            lemma_upper_prefix_len(cell@);
            if k == k_spec {
                assert(!is_upper_alpha(cell@[k as int]));
            }
        }
        k += 1;
    }
    proof {
        lemma_upper_prefix_len(cell@);
        assert(k == k_spec) by {
            if k < k_spec {
                assert(is_upper_alpha(cell@[k as int]));
            }
        }
    }
    if k == 0 || k == n {
        return Err(cell);
    }
    let column = match column_value_of_chars(slice_prefix(chars.as_slice(), k)) {
        Some(v) => v,
        None => {
            return Err(cell);
        },
    };
    let row = match parse_usize(slice_suffix(chars.as_slice(), k)) {
        Some(v) => v,
        None => {
            return Err(cell.substring_char(k, n));
        },
    };
    Ok((column, row))
}

/// The first `k` characters of a slice.
fn slice_prefix<'a>(s: &'a [char], k: usize) -> (r: &'a [char])
    requires
        k <= s@.len(),
    ensures
        r@ == s@.subrange(0, k as int),
{
    vstd::slice::slice_subrange(s, 0, k)
}

/// The characters of a slice from position `k` on.
fn slice_suffix<'a>(s: &'a [char], k: usize) -> (r: &'a [char])
    requires
        k <= s@.len(),
    ensures
        r@ == s@.subrange(k as int, s@.len() as int),
{
    vstd::slice::slice_subrange(s, k, s.len())
}

/// Whether text is a well-formed cell name as `cell_name_to_position`
/// accepts it: a nonempty run of uppercase letters, then a row number, both
/// fitting in `usize`.
pub open spec fn cell_name_ok(s: Seq<char>) -> bool {
    let k = upper_prefix_len(s) as int;
    let suffix = s.subrange(k, s.len() as int);
    &&& 0 < k < s.len()
    &&& spec_column_value(s.subrange(0, k)) <= usize::MAX
    &&& is_uint_text(suffix)
    &&& spec_uint_val(spec_uint_body(suffix)) <= usize::MAX
}

/// The `(column, row)` pair a well-formed cell name denotes.
pub open spec fn cell_name_val(s: Seq<char>) -> (nat, nat) {
    let k = upper_prefix_len(s) as int;
    let suffix = s.subrange(k, s.len() as int);
    (spec_column_value(s.subrange(0, k)), spec_uint_val(spec_uint_body(suffix)))
}

/// Whether text is a well-formed column name: nonempty, all ASCII letters,
/// its base-26 value fitting in `usize`.
pub open spec fn col_name_ok(s: Seq<char>) -> bool {
    s.len() > 0 && all_alpha(s) && spec_column_value(s) <= usize::MAX
}

/// Parses a cell name given as characters; `None` exactly when the text is
/// not a well-formed cell name.
pub fn cell_pos_of_chars(s: &[char]) -> (r: Option<(usize, usize)>)
    ensures
        match r {
            Some((x, y)) => cell_name_ok(s@) && x == cell_name_val(s@).0 && y == cell_name_val(
                s@,
            ).1,
            None => !cell_name_ok(s@),
        },
{
    proof {
        lemma_upper_prefix_len(s@);
    }
    let ghost k_spec = upper_prefix_len(s@) as int;
    let n = s.len();
    let mut k: usize = 0;
    while k < n && char_is_upper_alpha(s[k])
        invariant
            k <= n,
            n == s@.len(),
            k <= k_spec,
            k_spec == upper_prefix_len(s@),
            forall|i: int| 0 <= i < k ==> is_upper_alpha(#[trigger] s@[i]),
        decreases n - k,
    {
        proof {
            lemma_upper_prefix_len(s@);
            if k == k_spec {
                assert(!is_upper_alpha(s@[k as int]));
            }
        }
        k += 1;
    }
    proof {
        lemma_upper_prefix_len(s@);
        assert(k == k_spec) by {
            if k < k_spec {
                assert(is_upper_alpha(s@[k as int]));
            }
        }
    }
    if k == 0 || k == n {
        return None;
    }
    proof {
        let prefix = s@.subrange(0, k as int);
        assert forall|i: int| 0 <= i < prefix.len() implies is_alpha(#[trigger] prefix[i]) by {
            assert(is_upper_alpha(s@[i]));
        }
    }
    let column = match column_value_of_chars(slice_prefix(s, k)) {
        Some(v) => v,
        None => {
            return None;
        },
    };
    let row = match parse_usize(slice_suffix(s, k)) {
        Some(v) => v,
        None => {
            return None;
        },
    };
    Some((column, row))
}

/// Renders a `(column, row)` pair as a cell name.
pub fn cell_position_to_name(position: (usize, usize)) -> (r: String)
    ensures
        r@ == spec_cell_name(position.0 as nat, position.1 as nat),
{
    let mut chars = column_name_chars(position.0);
    let mut digits = u64_digits(position.1 as u64);
    chars.append(&mut digits);
    chars_to_string(chars.as_slice())
}

} // verus!
