//! Character classification, number rendering and number parsing used by the
//! addressing, content and formula modules. All text is processed as
//! sequences of `char`; the one conversion back to `String` is a trusted
//! wrapper around the standard library.
use vstd::prelude::*;

verus! {

/// An ASCII decimal digit.
pub open spec fn is_digit(c: char) -> bool {
    48 <= c as int <= 57
}

/// The numeric value of an ASCII decimal digit.
pub open spec fn digit_val(c: char) -> nat {
    (c as int - 48) as nat
}

/// An ASCII letter, either case.
pub open spec fn is_alpha(c: char) -> bool {
    (65 <= c as int <= 90) || (97 <= c as int <= 122)
}

/// An uppercase ASCII letter.
pub open spec fn is_upper_alpha(c: char) -> bool {
    65 <= c as int <= 90
}

/// The uppercase form of an ASCII letter; other characters are unchanged.
pub open spec fn to_upper(c: char) -> char {
    if 97 <= c as int <= 122 {
        ((c as int - 32) as u8) as char
    } else {
        c
    }
}

/// The lowercase form of an ASCII letter; other characters are unchanged.
pub open spec fn to_lower(c: char) -> char {
    if 65 <= c as int <= 90 {
        ((c as int + 32) as u8) as char
    } else {
        c
    }
}

/// The value of an ASCII letter as a base-26 digit: `A` and `a` are 0,
/// `Z` and `z` are 25.
pub open spec fn letter_val(c: char) -> nat {
    (to_upper(c) as int - 65) as nat
}

/// A character with the Unicode `White_Space` property, as the standard
/// library's `char::is_whitespace` recognises it.
pub open spec fn is_white(c: char) -> bool {
    c == ' ' || c == '\t' || c == '\n' || c == '\r' || c as int == 0x0b || c as int == 0x0c
        || c as int == 0x85 || c as int == 0xa0 || c as int == 0x1680 || (0x2000 <= c as int
        <= 0x200a) || c as int == 0x2028 || c as int == 0x2029 || c as int == 0x202f
        || c as int == 0x205f || c as int == 0x3000
}

pub fn char_is_digit(c: char) -> (r: bool)
    ensures
        r == is_digit(c),
{
    let u = c as u32;
    48 <= u && u <= 57
}

pub fn char_digit_val(c: char) -> (r: u32)
    requires
        is_digit(c),
    ensures
        r == digit_val(c),
{
    c as u32 - 48
}

pub fn char_is_alpha(c: char) -> (r: bool)
    ensures
        r == is_alpha(c),
{
    let u = c as u32;
    (65 <= u && u <= 90) || (97 <= u && u <= 122)
}

pub fn char_is_upper_alpha(c: char) -> (r: bool)
    ensures
        r == is_upper_alpha(c),
{
    let u = c as u32;
    65 <= u && u <= 90
}

pub fn char_to_upper(c: char) -> (r: char)
    ensures
        r == to_upper(c),
{
    let u = c as u32;
    if 97 <= u && u <= 122 {
        (u - 32) as u8 as char
    } else {
        c
    }
}

pub fn char_to_lower(c: char) -> (r: char)
    ensures
        r == to_lower(c),
{
    let u = c as u32;
    if 65 <= u && u <= 90 {
        (u + 32) as u8 as char
    } else {
        c
    }
}

pub fn char_letter_val(c: char) -> (r: u32)
    requires
        is_alpha(c),
    ensures
        r == letter_val(c),
{
    char_to_upper(c) as u32 - 65
}

pub fn char_is_white(c: char) -> (r: bool)
    ensures
        r == is_white(c),
{
    let u = c as u32;
    u == 32 || u == 9 || u == 10 || u == 13 || u == 0x0b || u == 0x0c || u == 0x85 || u == 0xa0
        || u == 0x1680 || (0x2000 <= u && u <= 0x200a) || u == 0x2028 || u == 0x2029 || u == 0x202f
        || u == 0x205f || u == 0x3000
}

/// The characters of a string as a vector, for index-based processing.
pub fn str_to_chars(s: &str) -> (r: Vec<char>)
    ensures
        r@ == s@,
{
    let n = s.unicode_len();
    let mut r: Vec<char> = Vec::new();
    let mut i: usize = 0;
    while i < n
        invariant
            i <= n,
            n == s@.len(),
            r@ == s@.subrange(0, i as int),
        decreases n - i,
    {
        r.push(s.get_char(i));
        i += 1;
        assert(r@ =~= s@.subrange(0, i as int));
    }
    assert(r@ =~= s@);
    r
}

/// Relies on `core::iter::Iterator::collect` building a `String` from
/// exactly the characters of the slice, in order.
#[verifier::external_body]
pub fn chars_to_string(v: &[char]) -> (r: String)
    ensures
        r@ == v@,
{
    v.iter().collect()
}

/// The character for a decimal digit value.
pub open spec fn digit_char(d: nat) -> char {
    ((48 + (d % 10)) as u8) as char
}

/// The decimal digits of a natural number, most significant first.
pub open spec fn spec_digits(n: nat) -> Seq<char>
    decreases n,
{
    if n < 10 {
        seq![digit_char(n)]
    } else {
        spec_digits(n / 10).push(digit_char(n % 10))
    }
}

/// The decimal rendering of a signed integer: a leading `-` for negative
/// values, then the digits of the magnitude.
pub open spec fn spec_int_digits(n: int) -> Seq<char> {
    if n < 0 {
        seq!['-'] + spec_digits((-n) as nat)
    } else {
        spec_digits(n as nat)
    }
}

/// Renders an unsigned integer in decimal.
pub fn u64_digits(n: u64) -> (r: Vec<char>)
    ensures
        r@ == spec_digits(n as nat),
    decreases n,
{
    let d: u8 = (n % 10) as u8;
    let c: char = (48 + d) as char;
    if n < 10 {
        let mut r: Vec<char> = Vec::new();
        r.push(c);
        assert(r@ =~= spec_digits(n as nat));
        r
    } else {
        let mut r = u64_digits(n / 10);
        r.push(c);
        assert(r@ =~= spec_digits(n as nat));
        r
    }
}

/// Renders a signed integer in decimal.
pub fn i64_digits(n: i64) -> (r: Vec<char>)
    ensures
        r@ == spec_int_digits(n as int),
{
    if n < 0 {
        let mag: u64 = (-(n as i128)) as u64;
        let digits = u64_digits(mag);
        let mut r: Vec<char> = Vec::new();
        r.push('-');
        let mut i: usize = 0;
        while i < digits.len()
            invariant
                i <= digits@.len(),
                digits@ == spec_digits((-(n as int)) as nat),
                r@ == seq!['-'] + digits@.subrange(0, i as int),
            decreases digits@.len() - i,
        {
            r.push(digits[i]);
            i += 1;
            assert(r@ =~= seq!['-'] + digits@.subrange(0, i as int));
        }
        assert(r@ =~= spec_int_digits(n as int));
        r
    } else {
        u64_digits(n as u64)
    }
}

/// The value of a digit string read in decimal, ignoring whether the
/// characters are in fact digits.
pub open spec fn spec_uint_val(s: Seq<char>) -> nat
    decreases s.len(),
{
    if s.len() == 0 {
        0
    } else {
        spec_uint_val(s.drop_last()) * 10 + digit_val(s.last())
    }
}

/// Every character is an ASCII decimal digit.
pub open spec fn all_digits(s: Seq<char>) -> bool {
    forall|i: int| 0 <= i < s.len() ==> is_digit(#[trigger] s[i])
}

/// The body of an unsigned decimal literal as `str::parse` to an unsigned
/// type accepts it: an optional leading `+`, then at least one digit.
pub open spec fn spec_uint_body(s: Seq<char>) -> Seq<char> {
    if s.len() > 0 && s[0] == '+' {
        s.subrange(1, s.len() as int)
    } else {
        s
    }
}

/// A well-formed unsigned decimal literal.
pub open spec fn is_uint_text(s: Seq<char>) -> bool {
    spec_uint_body(s).len() > 0 && all_digits(spec_uint_body(s))
}

/// The text without an optional single leading sign.
pub open spec fn spec_sign_body(s: Seq<char>) -> Seq<char> {
    if s.len() > 0 && (s[0] == '+' || s[0] == '-') {
        s.subrange(1, s.len() as int)
    } else {
        s
    }
}

/// Whether the text is negative: a leading minus sign.
pub open spec fn spec_is_negative(s: Seq<char>) -> bool {
    s.len() > 0 && s[0] == '-'
}

/// A well-formed signed decimal literal: an optional sign, then at least one
/// digit.
pub open spec fn is_int_text(s: Seq<char>) -> bool {
    spec_sign_body(s).len() > 0 && all_digits(spec_sign_body(s))
}

/// The value of a signed decimal literal.
pub open spec fn spec_int_val(s: Seq<char>) -> int {
    if spec_is_negative(s) {
        -(spec_uint_val(spec_sign_body(s)) as int)
    } else {
        spec_uint_val(spec_sign_body(s)) as int
    }
}

/// A prefix of a digit string never reads as a larger value than the whole.
proof fn lemma_uint_val_prefix_le(s: Seq<char>, i: int)
    requires
        0 <= i <= s.len(),
    ensures
        spec_uint_val(s.subrange(0, i)) <= spec_uint_val(s),
    decreases s.len() - i,
{
    if i < s.len() {
        lemma_uint_val_prefix_le(s, i + 1);
        assert(s.subrange(0, i + 1).drop_last() =~= s.subrange(0, i));
        assert(spec_uint_val(s.subrange(0, i + 1)) == spec_uint_val(s.subrange(0, i)) * 10
            + digit_val(s.subrange(0, i + 1).last()));
    } else {
        assert(s.subrange(0, i) =~= s);
    }
}

/// Parses the characters as an unsigned decimal integer, as `str::parse`
/// would: `None` exactly when the text is not a well-formed literal or its
/// value does not fit.
pub fn parse_usize(s: &[char]) -> (r: Option<usize>)
    ensures
        match r {
            Some(v) => is_uint_text(s@) && v == spec_uint_val(spec_uint_body(s@)),
            None => !(is_uint_text(s@) && spec_uint_val(spec_uint_body(s@)) <= usize::MAX),
        },
{
    let start: usize = if s.len() > 0 && s[0] == '+' {
        1
    } else {
        0
    };
    let ghost body = spec_uint_body(s@);
    assert(body =~= s@.subrange(start as int, s@.len() as int));
    if s.len() == start {
        return None;
    }
    let mut acc: usize = 0;
    let mut i: usize = start;
    while i < s.len()
        invariant
            start <= i <= s@.len(),
            body == spec_uint_body(s@),
            body == s@.subrange(start as int, s@.len() as int),
            all_digits(s@.subrange(start as int, i as int)),
            acc == spec_uint_val(s@.subrange(start as int, i as int)),
        decreases s@.len() - i,
    {
        let c = s[i];
        if !char_is_digit(c) {
            assert(!all_digits(body)) by {
                assert(body[i - start] == s@[i as int]);
            }
            return None;
        }
        let d = char_digit_val(c) as usize;
        if acc > (usize::MAX - d) / 10 {
            proof {
                assert(s@.subrange(start as int, i + 1).drop_last() =~= s@.subrange(
                    start as int,
                    i as int,
                ));
                assert(spec_uint_val(s@.subrange(start as int, i + 1)) == acc * 10 + d);
                lemma_uint_val_prefix_le(body, i + 1 - start);
                assert(body.subrange(0, i + 1 - start) =~= s@.subrange(start as int, i + 1));
                assert(acc * 10 + d > usize::MAX) by (nonlinear_arith)
                    requires
                        acc > (usize::MAX - d) / 10,
                        0 <= d <= 9,
                ;
            }
            return None;
        }
        proof {
            assert(s@.subrange(start as int, i + 1).drop_last() =~= s@.subrange(
                start as int,
                i as int,
            ));
            assert(acc * 10 + d <= usize::MAX) by (nonlinear_arith)
                requires
                    acc <= (usize::MAX - d) / 10,
                    0 <= d <= 9,
            ;
        }
        acc = acc * 10 + d;
        i += 1;
    }
    assert(s@.subrange(start as int, s@.len() as int) =~= body);
    Some(acc)
}

/// Parses the characters as a signed decimal integer, as `str::parse` to
/// `i64` would: `None` exactly when the text is not a well-formed literal or
/// its value does not fit.
pub fn parse_i64(s: &[char]) -> (r: Option<i64>)
    ensures
        match r {
            Some(v) => is_int_text(s@) && v == spec_int_val(s@),
            None => !(is_int_text(s@) && i64::MIN <= spec_int_val(s@) <= i64::MAX),
        },
{
    let neg = s.len() > 0 && s[0] == '-';
    let start: usize = if s.len() > 0 && (s[0] == '+' || s[0] == '-') {
        1
    } else {
        0
    };
    let ghost body = spec_sign_body(s@);
    assert(body =~= s@.subrange(start as int, s@.len() as int));
    if s.len() == start {
        return None;
    }
    let bound: u64 = if neg {
        0x8000_0000_0000_0000
    } else {
        0x7fff_ffff_ffff_ffff
    };
    let mut acc: u64 = 0;
    let mut i: usize = start;
    while i < s.len()
        invariant
            start <= i <= s@.len(),
            body == spec_sign_body(s@),
            body == s@.subrange(start as int, s@.len() as int),
            neg == spec_is_negative(s@),
            bound == if neg {
                0x8000_0000_0000_0000u64
            } else {
                0x7fff_ffff_ffff_ffffu64
            },
            all_digits(s@.subrange(start as int, i as int)),
            acc == spec_uint_val(s@.subrange(start as int, i as int)),
            acc <= bound,
        decreases s@.len() - i,
    {
        let c = s[i];
        if !char_is_digit(c) {
            assert(!all_digits(body)) by {
                assert(body[i - start] == s@[i as int]);
            }
            return None;
        }
        let d = char_digit_val(c) as u64;
        proof {
            assert(s@.subrange(start as int, i + 1).drop_last() =~= s@.subrange(
                start as int,
                i as int,
            ));
            assert(spec_uint_val(s@.subrange(start as int, i + 1)) == acc * 10 + d);
        }
        if acc > (bound - d) / 10 {
            proof {
                lemma_uint_val_prefix_le(body, i + 1 - start);
                assert(body.subrange(0, i + 1 - start) =~= s@.subrange(start as int, i + 1));
                assert(acc * 10 + d > bound) by (nonlinear_arith)
                    requires
                        acc > (bound - d) / 10,
                        0 <= d <= 9,
                        d <= bound,
                ;
            }
            return None;
        }
        proof {
            assert(acc * 10 + d <= bound) by (nonlinear_arith)
                requires
                    acc <= (bound - d) / 10,
                    0 <= d <= 9,
            ;
        }
        acc = acc * 10 + d;
        i += 1;
    }
    assert(s@.subrange(start as int, s@.len() as int) =~= body);
    if neg {
        if acc == 0x8000_0000_0000_0000 {
            Some(i64::MIN)
        } else {
            Some(-(acc as i64))
        }
    } else {
        Some(acc as i64)
    }
}

/// The displayed width, in terminal columns, of the text: what the
/// unicode-width crate computes. A function of the characters alone.
pub uninterp spec fn spec_display_width(s: Seq<char>) -> nat;

/// Relies on `unicode_width::UnicodeWidthStr::width`: the displayed width of
/// a string in terminal columns, determined by its characters alone; the
/// empty string is zero columns wide.
#[verifier::external_body]
pub fn str_width(s: &str) -> (r: usize)
    ensures
        r == spec_display_width(s@),
        s@.len() == 0 ==> r == 0,
{
    unicode_width::UnicodeWidthStr::width(s)
}

/// Where the first occurrence of a character stands, or the length when
/// there is none.
pub open spec fn first_index_of(s: Seq<char>, c: char) -> nat
    decreases s.len(),
{
    if s.len() == 0 || s[0] == c {
        0
    } else {
        (1 + first_index_of(s.subrange(1, s.len() as int), c)) as nat
    }
}

/// A position before which the character does not occur, and which holds it
/// or is the end, is where `first_index_of` stands.
pub proof fn lemma_first_index_of_is(s: Seq<char>, c: char, k: int)
    requires
        0 <= k <= s.len(),
        forall|i: int| 0 <= i < k ==> #[trigger] s[i] != c,
        k < s.len() ==> s[k] == c,
    ensures
        first_index_of(s, c) == k,
    decreases s.len(),
{
    if s.len() > 0 && s[0] != c {
        let rest = s.subrange(1, s.len() as int);
        assert(forall|i: int| 1 <= i < s.len() ==> #[trigger] s[i] == rest[i - 1]);
        lemma_first_index_of_is(rest, c, k - 1);
    }
}

/// How text splits on one character, as the standard library splits it:
/// every piece kept, including empty ones; the empty text is one empty
/// piece.
pub open spec fn spec_split_char(s: Seq<char>, c: char) -> Seq<Seq<char>>
    decreases s.len(),
{
    let k = if first_index_of(s, c) <= s.len() {
        first_index_of(s, c) as int
    } else {
        s.len() as int
    };
    if k == s.len() {
        seq![s]
    } else {
        seq![s.subrange(0, k)] + spec_split_char(s.subrange(k + 1, s.len() as int), c)
    }
}

/// The views of a list of character vectors.
pub open spec fn char_vec_views(v: Seq<Vec<char>>) -> Seq<Seq<char>> {
    v.map_values(|x: Vec<char>| x@)
}

/// Splits characters on one separator, every piece kept.
pub fn split_char(s: &[char], c: char) -> (r: Vec<Vec<char>>)
    ensures
        char_vec_views(r@) == spec_split_char(s@, c),
{
    let n = s.len();
    let mut out: Vec<Vec<char>> = Vec::new();
    let mut cur: Vec<char> = Vec::new();
    let mut start: usize = 0;
    let mut i: usize = 0;
    proof {
        assert(char_vec_views(out@) =~= Seq::<Seq<char>>::empty());
        assert(s@.subrange(0, n as int) =~= s@);
        assert(char_vec_views(out@) + spec_split_char(s@, c) =~= spec_split_char(s@, c));
    }
    while i < n
        invariant
            start <= i <= n,
            n == s@.len(),
            cur@ == s@.subrange(start as int, i as int),
            forall|j: int| start <= j < i ==> s@[j] != c,
            spec_split_char(s@, c) == char_vec_views(out@) + spec_split_char(
                s@.subrange(start as int, n as int),
                c,
            ),
        decreases n - i,
    {
        let ch = s[i];
        if ch == c {
            let ghost rest = s@.subrange(start as int, n as int);
            let ghost prev_views = char_vec_views(out@);
            let ghost old_start = start as int;
            let ghost k = i - old_start;
            proof {
                assert forall|j: int| 0 <= j < k implies #[trigger] rest[j] != c by {
                    assert(rest[j] == s@[old_start + j]);
                }
                assert(rest[k] == c);
                lemma_first_index_of_is(rest, c, k);
                assert(rest.subrange(0, k) =~= s@.subrange(old_start, i as int));
            }
            out.push(cur);
            cur = Vec::new();
            start = i + 1;
            proof {
                assert(rest.subrange(k + 1, rest.len() as int) =~= s@.subrange(i + 1, n as int));
                assert(spec_split_char(rest, c) == seq![rest.subrange(0, k)] + spec_split_char(
                    s@.subrange(i + 1, n as int),
                    c,
                ));
                assert(char_vec_views(out@) =~= prev_views.push(rest.subrange(0, k)));
                assert(prev_views + spec_split_char(rest, c) =~= char_vec_views(out@)
                    + spec_split_char(s@.subrange(i + 1, n as int), c));
                assert(cur@ =~= s@.subrange(start as int, i + 1));
            }
        } else {
            cur.push(ch);
            assert(cur@ =~= s@.subrange(start as int, i + 1));
        }
        i += 1;
    }
    let ghost rest = s@.subrange(start as int, n as int);
    let ghost prev_views = char_vec_views(out@);
    proof {
        assert forall|j: int| 0 <= j < rest.len() implies #[trigger] rest[j] != c by {
            assert(rest[j] == s@[start + j]);
        }
        lemma_first_index_of_is(rest, c, rest.len() as int);
        assert(spec_split_char(rest, c) == seq![rest]);
    }
    out.push(cur);
    proof {
        assert(char_vec_views(out@) =~= prev_views.push(rest));
        assert(prev_views + spec_split_char(rest, c) =~= char_vec_views(out@));
    }
    out
}

/// Text without its leading whitespace.
pub open spec fn spec_trim_start(s: Seq<char>) -> Seq<char>
    decreases s.len(),
{
    if s.len() > 0 && is_white(s[0]) {
        spec_trim_start(s.subrange(1, s.len() as int))
    } else {
        s
    }
}

/// Text without its trailing whitespace.
pub open spec fn spec_trim_end(s: Seq<char>) -> Seq<char>
    decreases s.len(),
{
    if s.len() > 0 && is_white(s.last()) {
        spec_trim_end(s.drop_last())
    } else {
        s
    }
}

/// Text without leading and trailing whitespace, as `str::trim` strips it.
pub open spec fn spec_trim(s: Seq<char>) -> Seq<char> {
    spec_trim_end(spec_trim_start(s))
}

/// Dropping leading whitespace is taking the suffix from the first
/// non-white character.
proof fn lemma_trim_start_is(s: Seq<char>, a: int)
    requires
        0 <= a <= s.len(),
        forall|i: int| 0 <= i < a ==> is_white(#[trigger] s[i]),
        a < s.len() ==> !is_white(s[a]),
    ensures
        spec_trim_start(s) == s.subrange(a, s.len() as int),
    decreases s.len(),
{
    if s.len() > 0 && is_white(s[0]) {
        assert(a > 0) by {
            if a == 0 {
                assert(!is_white(s[0]));
            }
        }
        let rest = s.subrange(1, s.len() as int);
        assert(forall|i: int| 1 <= i < s.len() ==> #[trigger] s[i] == rest[i - 1]);
        lemma_trim_start_is(rest, a - 1);
        assert(rest.subrange(a - 1, rest.len() as int) =~= s.subrange(a, s.len() as int));
    } else {
        assert(a == 0) by {
            if a > 0 {
                assert(is_white(s[0]));
            }
        }
        assert(s.subrange(0, s.len() as int) =~= s);
    }
}

/// Dropping trailing whitespace is taking the prefix up to the last
/// non-white character.
proof fn lemma_trim_end_is(s: Seq<char>, b: int)
    requires
        0 <= b <= s.len(),
        forall|i: int| b <= i < s.len() ==> is_white(#[trigger] s[i]),
        b > 0 ==> !is_white(s[b - 1]),
    ensures
        spec_trim_end(s) == s.subrange(0, b),
    decreases s.len(),
{
    if s.len() > 0 && is_white(s.last()) {
        assert(b < s.len()) by {
            if b == s.len() {
                assert(!is_white(s[b - 1]));
            }
        }
        let rest = s.drop_last();
        lemma_trim_end_is(rest, b);
        assert(rest.subrange(0, b) =~= s.subrange(0, b));
    } else {
        assert(b == s.len()) by {
            if b < s.len() {
                assert(is_white(s[s.len() - 1]));
            }
        }
        assert(s.subrange(0, b) =~= s);
    }
}

/// The uppercase form of text, character by character.
pub open spec fn spec_upper(s: Seq<char>) -> Seq<char> {
    s.map_values(|c: char| to_upper(c))
}

/// Uppercases text character by character.
pub fn to_upper_chars(v: &[char]) -> (r: Vec<char>)
    ensures
        r@ == spec_upper(v@),
{
    let mut r: Vec<char> = Vec::new();
    let mut i: usize = 0;
    while i < v.len()
        invariant
            i <= v@.len(),
            r@.len() == i,
            forall|j: int| 0 <= j < i ==> #[trigger] r@[j] == to_upper(v@[j]),
        decreases v@.len() - i,
    {
        r.push(char_to_upper(v[i]));
        i += 1;
    }
    proof {
        assert(r@ =~= spec_upper(v@));
    }
    r
}

/// Whether two character sequences are the same text.
pub fn chars_eq(v: &[char], w: &[char]) -> (r: bool)
    ensures
        r == (v@ == w@),
{
    if v.len() != w.len() {
        return false;
    }
    let mut i: usize = 0;
    while i < v.len()
        invariant
            i <= v@.len(),
            v@.len() == w@.len(),
            forall|j: int| 0 <= j < i ==> v@[j] == w@[j],
        decreases v@.len() - i,
    {
        if v[i] != w[i] {
            return false;
        }
        i += 1;
    }
    proof {
        assert(v@ =~= w@);
    }
    true
}

/// Whether a piece of split text is exactly the given word.
pub fn piece_is(v: &[char], s: &str) -> (r: bool)
    ensures
        r == (v@ == s@),
{
    let w = str_to_chars(s);
    chars_eq(v, w.as_slice())
}

/// Appends the given characters.
pub fn append_chars(out: &mut Vec<char>, piece: &[char])
    ensures
        final (out)@ == old(out)@ + piece@,
{
    let mut i: usize = 0;
    while i < piece.len()
        invariant
            i <= piece@.len(),
            out@ == old(out)@ + piece@.subrange(0, i as int),
        decreases piece@.len() - i,
    {
        out.push(piece[i]);
        assert(out@ =~= old(out)@ + piece@.subrange(0, i + 1));
        i += 1;
    }
    proof {
        assert(out@ =~= old(out)@ + piece@);
    }
}

/// Strips leading and trailing whitespace.
pub fn trim_chars(s: &[char]) -> (r: Vec<char>)
    ensures
        r@ == spec_trim(s@),
{
    let n = s.len();
    let mut a: usize = 0;
    while a < n && char_is_white(s[a])
        invariant
            a <= n,
            n == s@.len(),
            forall|i: int| 0 <= i < a ==> is_white(#[trigger] s@[i]),
        decreases n - a,
    {
        a += 1;
    }
    let mut b: usize = n;
    while b > a && char_is_white(s[b - 1])
        invariant
            a <= b <= n,
            n == s@.len(),
            forall|i: int| 0 <= i < a ==> is_white(#[trigger] s@[i]),
            a < n ==> !is_white(s@[a as int]),
            forall|i: int| b <= i < n ==> is_white(#[trigger] s@[i]),
        decreases b,
    {
        b -= 1;
    }
    proof {
        lemma_trim_start_is(s@, a as int);
        let st = spec_trim_start(s@);
        assert(st =~= s@.subrange(a as int, n as int));
        if b == a {
            lemma_trim_end_is(st, 0);
        } else {
            assert forall|i: int| b - a <= i < st.len() implies is_white(#[trigger] st[i]) by {
                assert(st[i] == s@[a + i]);
            }
            assert(!is_white(st[b - a - 1]));
            lemma_trim_end_is(st, b - a);
        }
        assert(spec_trim(s@) =~= s@.subrange(a as int, b as int)) by {
            assert(st.subrange(0, b - a) =~= s@.subrange(a as int, b as int));
        }
    }
    let mut r: Vec<char> = Vec::new();
    let mut i: usize = a;
    while i < b
        invariant
            a <= i <= b <= n,
            n == s@.len(),
            r@ == s@.subrange(a as int, i as int),
        decreases b - i,
    {
        r.push(s[i]);
        assert(r@ =~= s@.subrange(a as int, i + 1));
        i += 1;
    }
    proof {
        assert(r@ =~= spec_trim(s@));
    }
    r
}

} // verus!
