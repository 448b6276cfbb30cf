//! Exact decimal numbers standing in for the floating-point cell values: a
//! mantissa and a power-of-ten scale, so `1.5` is `15 / 10^1`. Interactive
//! digit entry, ordering and rendering are all defined over the exact
//! rational value `mantissa / 10^scale`. The scale is capped at 18 so that
//! every comparison fits comfortably in 128-bit intermediate arithmetic.
use vstd::prelude::*;

use core::cmp::Ordering;
use crate::text::{char_digit_val, char_is_digit, digit_char, digit_val, is_digit, spec_digits,
    spec_is_negative, spec_sign_body};

verus! {

/// The largest supported scale: values are `mantissa / 10^scale` with
/// `scale <= 18`.
pub const MAX_SCALE: u32 = 18;

/// An exact decimal number `mantissa / 10^scale`.
#[derive(Debug, Clone, Copy, PartialEq, Eq, Structural)]
pub struct Decimal {
    pub mantissa: i64,
    pub scale: u32,
}

/// Ten to the given power.
pub open spec fn pow10(e: nat) -> nat
    decreases e,
{
    if e == 0 {
        1
    } else {
        10 * pow10((e - 1) as nat)
    }
}

impl Decimal {
    /// A decimal is well formed when its scale is within the supported cap.
    pub open spec fn wf(self) -> bool {
        self.scale <= MAX_SCALE
    }

    /// The exact value, scaled up by `10^other_scale` so that two decimals
    /// compare by integers: `a` relates to `b` as
    /// `a.scaled(b.scale)` relates to `b.scaled(a.scale)`.
    pub open spec fn scaled(self, other_scale: nat) -> int {
        self.mantissa * pow10(other_scale)
    }

    /// The decimal with the given integer value.
    pub open spec fn spec_from_int(n: int) -> Decimal {
        Decimal { mantissa: n as i64, scale: 0 }
    }

    /// Builds the decimal with the value of the given integer.
    pub fn from_i64(n: i64) -> (r: Decimal)
        ensures
            r == (Decimal { mantissa: n, scale: 0u32 }),
            r.wf(),
    {
        Decimal { mantissa: n, scale: 0 }
    }
}

/// How the exact values of two decimals compare.
pub open spec fn spec_dec_cmp(a: Decimal, b: Decimal) -> Ordering {
    let x = a.scaled(b.scale as nat);
    let y = b.scaled(a.scale as nat);
    if x < y {
        Ordering::Less
    } else if x == y {
        Ordering::Equal
    } else {
        Ordering::Greater
    }
}

/// How an integer compares with the exact value of a decimal.
pub open spec fn spec_int_dec_cmp(n: int, d: Decimal) -> Ordering {
    let x = n * pow10(d.scale as nat);
    let y = d.mantissa as int;
    if x < y {
        Ordering::Less
    } else if x == y {
        Ordering::Equal
    } else {
        Ordering::Greater
    }
}

/// Powers of ten are positive.
pub proof fn lemma_pow10_pos(e: nat)
    ensures
        0 < pow10(e),
    decreases e,
{
    if e > 0 {
        lemma_pow10_pos((e - 1) as nat);
    }
}

/// Powers of ten grow with the exponent.
pub proof fn lemma_pow10_mono(a: nat, b: nat)
    requires
        a <= b,
    ensures
        pow10(a) <= pow10(b),
    decreases b,
{
    if a < b {
        lemma_pow10_mono(a, (b - 1) as nat);
        lemma_pow10_pos((b - 1) as nat);
    }
}

/// `10^e` for scales within the cap never exceeds `10^18`.
pub proof fn lemma_pow10_bound(e: nat)
    requires
        e <= 18,
    ensures
        0 < pow10(e) <= 1_000_000_000_000_000_000,
{
    lemma_pow10_pos(e);
    lemma_pow10_mono(e, 18);
    assert(pow10(0) == 1);
    assert(pow10(1) == 10 * pow10(0));
    assert(pow10(2) == 10 * pow10(1));
    assert(pow10(3) == 10 * pow10(2));
    assert(pow10(4) == 10 * pow10(3));
    assert(pow10(5) == 10 * pow10(4));
    assert(pow10(6) == 10 * pow10(5));
    assert(pow10(7) == 10 * pow10(6));
    assert(pow10(8) == 10 * pow10(7));
    assert(pow10(9) == 10 * pow10(8));
    assert(pow10(10) == 10 * pow10(9));
    assert(pow10(11) == 10 * pow10(10));
    assert(pow10(12) == 10 * pow10(11));
    assert(pow10(13) == 10 * pow10(12));
    assert(pow10(14) == 10 * pow10(13));
    assert(pow10(15) == 10 * pow10(14));
    assert(pow10(16) == 10 * pow10(15));
    assert(pow10(17) == 10 * pow10(16));
    assert(pow10(18) == 10 * pow10(17));
    assert(pow10(18) == 1_000_000_000_000_000_000);
}

/// Ten to the given power, for scales within the cap.
pub fn pow10_u64(e: u32) -> (r: u64)
    requires
        e <= MAX_SCALE,
    ensures
        r == pow10(e as nat),
{
    let mut r: u64 = 1;
    let mut i: u32 = 0;
    while i < e
        invariant
            i <= e <= 18,
            r == pow10(i as nat),
        decreases e - i,
    {
        proof {
            lemma_pow10_bound(i as nat);
            lemma_pow10_bound((i + 1) as nat);
        }
        r = r * 10;
        i += 1;
    }
    r
}

/// Compares the exact values of two decimals.
pub fn dec_cmp(a: &Decimal, b: &Decimal) -> (r: Ordering)
    requires
        a.wf(),
        b.wf(),
    ensures
        r == spec_dec_cmp(*a, *b),
{
    proof {
        lemma_pow10_bound(a.scale as nat);
        lemma_pow10_bound(b.scale as nat);
    }
    let pa = pow10_u64(a.scale) as i128;
    let pb = pow10_u64(b.scale) as i128;
    proof {
        lemma_mul_in_i128(a.mantissa as int, pow10(b.scale as nat) as int);
        lemma_mul_in_i128(b.mantissa as int, pow10(a.scale as nat) as int);
    }
    let x: i128 = (a.mantissa as i128) * pb;
    let y: i128 = (b.mantissa as i128) * pa;
    if x < y {
        Ordering::Less
    } else if x == y {
        Ordering::Equal
    } else {
        Ordering::Greater
    }
}

/// Compares an integer with the exact value of a decimal.
pub fn int_dec_cmp(n: i64, d: &Decimal) -> (r: Ordering)
    requires
        d.wf(),
    ensures
        r == spec_int_dec_cmp(n as int, *d),
{
    proof {
        lemma_pow10_bound(d.scale as nat);
        lemma_mul_in_i128(n as int, pow10(d.scale as nat) as int);
    }
    let p = pow10_u64(d.scale) as i128;
    let x: i128 = (n as i128) * p;
    let y: i128 = d.mantissa as i128;
    if x < y {
        Ordering::Less
    } else if x == y {
        Ordering::Equal
    } else {
        Ordering::Greater
    }
}

/// The product of an `i64` and a power of ten within the cap fits in `i128`.
proof fn lemma_mul_in_i128(m: int, p: int)
    requires
        i64::MIN <= m <= i64::MAX,
        0 < p <= 1_000_000_000_000_000_000,
    ensures
        -0x8000_0000_0000_0000 * 1_000_000_000_000_000_000 <= m * p <= 0x7fff_ffff_ffff_ffff
            * 1_000_000_000_000_000_000,
{
    assert(-0x8000_0000_0000_0000 * 1_000_000_000_000_000_000 <= m * p <= 0x7fff_ffff_ffff_ffff
        * 1_000_000_000_000_000_000) by (nonlinear_arith)
        requires
            -0x8000_0000_0000_0000 <= m <= 0x7fff_ffff_ffff_ffff,
            0 < p <= 1_000_000_000_000_000_000,
    ;
}

/// The mantissa after adding `digit / 10^k` to a decimal: the two operands
/// brought to the common scale `max(scale, k)` and added.
pub open spec fn spec_add_digit_mantissa(d: Decimal, digit: nat, k: nat) -> int {
    if k >= d.scale as nat {
        d.mantissa * pow10((k - d.scale) as nat) + digit
    } else {
        d.mantissa + digit * pow10((d.scale - k) as nat)
    }
}

/// The scale after adding `digit / 10^k`: the larger of the two scales.
pub open spec fn spec_add_digit_scale(d: Decimal, k: nat) -> nat {
    if k >= d.scale as nat {
        k
    } else {
        d.scale as nat
    }
}

/// Adds `digit / 10^k` to the decimal, exactly. `None` exactly when the
/// result needs a scale over the cap or a mantissa outside `i64`.
pub fn dec_add_digit(d: &Decimal, digit: u32, k: u32) -> (r: Option<Decimal>)
    requires
        d.wf(),
        digit <= 9,
    ensures
        match r {
            Some(nd) => {
                &&& k <= MAX_SCALE
                &&& nd.wf()
                &&& nd.mantissa == spec_add_digit_mantissa(*d, digit as nat, k as nat)
                &&& nd.scale == spec_add_digit_scale(*d, k as nat)
            },
            None => k > MAX_SCALE || !{
                let m = spec_add_digit_mantissa(*d, digit as nat, k as nat);
                i64::MIN <= m <= i64::MAX
            },
        },
{
    if k > MAX_SCALE {
        return None;
    }
    if k >= d.scale {
        proof {
            lemma_pow10_bound((k - d.scale) as nat);
            lemma_mul_in_i128(d.mantissa as int, pow10((k - d.scale) as nat) as int);
        }
        let p = pow10_u64(k - d.scale) as i128;
        let m: i128 = (d.mantissa as i128) * p + (digit as i128);
        if m < i64::MIN as i128 || m > i64::MAX as i128 {
            None
        } else {
            Some(Decimal { mantissa: m as i64, scale: k })
        }
    } else {
        proof {
            lemma_pow10_bound((d.scale - k) as nat);
            lemma_mul_in_i128(digit as int, pow10((d.scale - k) as nat) as int);
        }
        let p = pow10_u64(d.scale - k) as i128;
        let m: i128 = (d.mantissa as i128) + (digit as i128) * p;
        if m < i64::MIN as i128 || m > i64::MAX as i128 {
            None
        } else {
            Some(Decimal { mantissa: m as i64, scale: d.scale })
        }
    }
}

/// The decimal digits of a natural number, zero-padded on the left to the
/// given width; only the lowest `width` digits are kept.
pub open spec fn spec_padded_digits(n: nat, width: nat) -> Seq<char>
    decreases width,
{
    if width == 0 {
        Seq::<char>::empty()
    } else {
        spec_padded_digits(n / 10, (width - 1) as nat).push(digit_char(n % 10))
    }
}

/// The sequence with trailing `'0'` characters removed.
pub open spec fn spec_trim_zeros(s: Seq<char>) -> Seq<char>
    decreases s.len(),
{
    if s.len() > 0 && s.last() == '0' {
        spec_trim_zeros(s.drop_last())
    } else {
        s
    }
}

/// How a decimal renders as text, mirroring how the standard library renders
/// a float with the same exact value: an optional minus sign, the integer
/// part, and the fractional digits with trailing zeros removed, preceded by
/// a point only when any remain.
pub open spec fn spec_dec_display(d: Decimal) -> Seq<char> {
    let mag = if d.mantissa < 0 {
        (-d.mantissa) as nat
    } else {
        d.mantissa as nat
    };
    let intpart = mag / pow10(d.scale as nat);
    let frac = mag % pow10(d.scale as nat);
    let fracs = spec_trim_zeros(spec_padded_digits(frac, d.scale as nat));
    let body = if fracs.len() == 0 {
        spec_digits(intpart)
    } else {
        spec_digits(intpart) + seq!['.'] + fracs
    };
    if d.mantissa < 0 {
        seq!['-'] + body
    } else {
        body
    }
}

/// Renders a natural number zero-padded to the given width.
fn padded_digits(n: u64, width: u32) -> (r: Vec<char>)
    ensures
        r@ == spec_padded_digits(n as nat, width as nat),
    decreases width,
{
    if width == 0 {
        let r: Vec<char> = Vec::new();
        assert(r@ =~= spec_padded_digits(n as nat, 0));
        r
    } else {
        let d: u8 = (n % 10) as u8;
        let c: char = (48 + d) as char;
        let mut r = padded_digits(n / 10, width - 1);
        r.push(c);
        assert(c == digit_char(n as nat % 10));
        assert(r@ =~= spec_padded_digits(n as nat, width as nat));
        r
    }
}

/// Renders the exact value of a decimal.
pub fn dec_display(d: &Decimal) -> (r: Vec<char>)
    requires
        d.wf(),
    ensures
        r@ == spec_dec_display(*d),
{
    proof {
        lemma_pow10_bound(d.scale as nat);
    }
    let neg = d.mantissa < 0;
    let mag: u64 = if neg {
        (-(d.mantissa as i128)) as u64
    } else {
        d.mantissa as u64
    };
    let p = pow10_u64(d.scale);
    let intpart = mag / p;
    let frac = mag % p;
    let mut fracs = padded_digits(frac, d.scale);
    while fracs.len() > 0 && fracs[fracs.len() - 1] == '0'
        invariant
            spec_trim_zeros(fracs@) == spec_trim_zeros(
                spec_padded_digits(frac as nat, d.scale as nat),
            ),
        decreases fracs@.len(),
    {
        proof {
            assert(fracs@.drop_last() =~= fracs@.subrange(0, fracs@.len() - 1));
        }
        let _ = fracs.pop();
    }
    assert(fracs@ == spec_trim_zeros(spec_padded_digits(frac as nat, d.scale as nat)));
    let mut r: Vec<char> = Vec::new();
    if neg {
        r.push('-');
    }
    let mut ints = crate::text::u64_digits(intpart);
    let ghost intdigits = ints@;
    r.append(&mut ints);
    if fracs.len() > 0 {
        r.push('.');
        let ghost before = r@;
        r.append(&mut fracs);
        assert(r@ =~= spec_dec_display(*d));
    } else {
        assert(r@ =~= spec_dec_display(*d));
    }
    r
}

/// Where the first `'.'` stands, or the length when there is none.
pub open spec fn dot_index(s: Seq<char>) -> nat
    decreases s.len(),
{
    if s.len() == 0 || s[0] == '.' {
        0
    } else {
        (1 + dot_index(s.subrange(1, s.len() as int))) as nat
    }
}

/// `dot_index` indeed marks the first point.
pub proof fn lemma_dot_index(s: Seq<char>)
    ensures
        dot_index(s) <= s.len(),
        forall|i: int| 0 <= i < dot_index(s) ==> #[trigger] s[i] != '.',
        dot_index(s) < s.len() ==> s[dot_index(s) as int] == '.',
    decreases s.len(),
{
    if s.len() > 0 && s[0] != '.' {
        let rest = s.subrange(1, s.len() as int);
        lemma_dot_index(rest);
        let k = dot_index(s);
        assert forall|i: int| 0 <= i < k implies #[trigger] s[i] != '.' by {
            if i >= 1 {
                assert(rest[i - 1] != '.');
                assert(s[i] == rest[i - 1]);
            }
        }
        if k < s.len() {
            assert(s[k as int] == rest[k - 1]);
        }
    }
}

/// Whether a sign-stripped body is a decimal literal this module accepts:
/// digits with at most one point somewhere among them, at least one digit in
/// all, and at most `MAX_SCALE` digits after the point.
pub open spec fn spec_dec_body_ok(b: Seq<char>) -> bool {
    let dp = dot_index(b) as int;
    let before = b.subrange(0, dp);
    let after = if dp < b.len() {
        b.subrange(dp + 1, b.len() as int)
    } else {
        Seq::<char>::empty()
    };
    &&& crate::text::all_digits(before)
    &&& crate::text::all_digits(after)
    &&& before.len() + after.len() > 0
    &&& after.len() <= MAX_SCALE
}

/// The digits of a decimal body with the point removed, read as one integer,
/// together with the count of digits after the point.
pub open spec fn spec_dec_body_val(b: Seq<char>) -> (nat, nat) {
    let dp = dot_index(b) as int;
    let before = b.subrange(0, dp);
    let after = if dp < b.len() {
        b.subrange(dp + 1, b.len() as int)
    } else {
        Seq::<char>::empty()
    };
    (crate::text::spec_uint_val(before + after), after.len())
}

/// A position before which there is no point, and which holds a point or is
/// the end, is where `dot_index` stands.
proof fn lemma_dot_index_is(s: Seq<char>, k: int)
    requires
        0 <= k <= s.len(),
        forall|i: int| 0 <= i < k ==> #[trigger] s[i] != '.',
        k < s.len() ==> s[k] == '.',
    ensures
        dot_index(s) == k,
    decreases s.len(),
{
    if s.len() > 0 && s[0] != '.' {
        let rest = s.subrange(1, s.len() as int);
        assert(forall|i: int| 1 <= i < s.len() ==> #[trigger] s[i] == rest[i - 1]);
        lemma_dot_index_is(rest, k - 1);
    }
}

/// A prefix of a digit string never reads as a larger value than the whole.
proof fn lemma_uint_prefix_le(s: Seq<char>, i: int)
    requires
        0 <= i <= s.len(),
    ensures
        crate::text::spec_uint_val(s.subrange(0, i)) <= crate::text::spec_uint_val(s),
    decreases s.len() - i,
{
    if i < s.len() {
        lemma_uint_prefix_le(s, i + 1);
        assert(s.subrange(0, i + 1).drop_last() =~= s.subrange(0, i));
        assert(crate::text::spec_uint_val(s.subrange(0, i + 1)) == crate::text::spec_uint_val(
            s.subrange(0, i),
        ) * 10 + digit_val(s.subrange(0, i + 1).last()));
    } else {
        assert(s.subrange(0, i) =~= s);
    }
}

/// Parses a decimal literal: an optional sign, digits with at most one
/// point among them and at least one digit. `None` exactly when the text is
/// not such a literal, has more than `MAX_SCALE` digits after the point, or
/// holds a magnitude over `i64::MAX`.
pub fn parse_decimal(s: &[char]) -> (r: Option<Decimal>)
    ensures
        ({
            let b = spec_sign_body(s@);
            match r {
                Some(d) => {
                    &&& spec_dec_body_ok(b)
                    &&& spec_dec_body_val(b).0 <= i64::MAX
                    &&& d.wf()
                    &&& d.scale == spec_dec_body_val(b).1
                    &&& d.mantissa == if spec_is_negative(s@) {
                        -(spec_dec_body_val(b).0 as int)
                    } else {
                        spec_dec_body_val(b).0 as int
                    }
                },
                None => !(spec_dec_body_ok(b) && spec_dec_body_val(b).0 <= i64::MAX),
            }
        }),
{
    let ghost b = spec_sign_body(s@);
    let neg = s.len() > 0 && s[0] == '-';
    let start: usize = if s.len() > 0 && (s[0] == '+' || s[0] == '-') {
        1
    } else {
        0
    };
    assert(b =~= s@.subrange(start as int, s@.len() as int));
    let n = s.len();
    let mut acc: u64 = 0;
    let mut seen_digit = false;
    let mut dot_pos: Option<usize> = None;
    let ghost mut digits: Seq<char> = Seq::empty();
    let mut i: usize = start;
    while i < n
        invariant
            start <= i <= n,
            n == s@.len(),
            b == spec_sign_body(s@),
            b == s@.subrange(start as int, s@.len() as int),
            acc == crate::text::spec_uint_val(digits),
            acc <= i64::MAX,
            crate::text::all_digits(digits),
            seen_digit == (digits.len() > 0),
            match dot_pos {
                None => {
                    &&& digits == b.subrange(0, i - start)
                    &&& forall|j: int| 0 <= j < i - start ==> #[trigger] b[j] != '.'
                },
                Some(p) => {
                    &&& start <= p < i
                    &&& b[p - start] == '.'
                    &&& forall|j: int| 0 <= j < p - start ==> #[trigger] b[j] != '.'
                    &&& crate::text::all_digits(b.subrange(0, p - start))
                    &&& digits == b.subrange(0, p - start) + b.subrange(p - start + 1, i - start)
                },
            },
        decreases n - i,
    {
        let c = s[i];
        assert(c == b[i - start]);
        if c == '.' {
            match dot_pos {
                None => {
                    proof {
                        lemma_dot_index_is(b, i - start);
                        assert(b.subrange(0, i - start) + b.subrange(
                            i - start + 1,
                            i + 1 - start,
                        ) =~= digits);
                    }
                    dot_pos = Some(i);
                },
                Some(p) => {
                    // A second point: the fractional digits are not all
                    // digits, so the text is no decimal literal.
                    proof {
                        lemma_dot_index_is(b, p - start);
                        let after = b.subrange(p - start + 1, b.len() as int);
                        assert(after[i - start - (p - start + 1)] == '.');
                        assert(!crate::text::all_digits(after));
                    }
                    return None;
                },
            }
        } else if char_is_digit(c) {
            let d = char_digit_val(c) as u64;
            proof {
                assert(digits.push(c).drop_last() =~= digits);
                assert(crate::text::spec_uint_val(digits.push(c)) == acc * 10 + d);
            }
            if acc > ((i64::MAX as u64) - d) / 10 {
                proof {
                    assert(acc * 10 + d > i64::MAX) by (nonlinear_arith)
                        requires
                            acc > ((i64::MAX as u64) - d) / 10,
                            0 <= d <= 9,
                    ;
                    lemma_overflow_means_too_big(b, dot_pos, digits, c, i as int, start as int);
                }
                return None;
            }
            proof {
                assert(acc * 10 + d <= i64::MAX) by (nonlinear_arith)
                    requires
                        acc <= ((i64::MAX as u64) - d) / 10,
                        0 <= d <= 9,
                ;
                match dot_pos {
                    None => {
                        assert(b.subrange(0, i + 1 - start) =~= digits.push(c));
                    },
                    Some(p) => {
                        assert(b.subrange(0, p as int - start) + b.subrange(
                            p as int - start + 1,
                            i + 1 - start,
                        ) =~= digits.push(c));
                    },
                }
            }
            acc = acc * 10 + d;
            seen_digit = true;
            proof {
                digits = digits.push(c);
            }
        } else {
            // Not a digit and not a point: no decimal literal.
            proof {
                lemma_bad_char_means_not_ok(b, dot_pos, i as int, start as int);
            }
            return None;
        }
        i += 1;
    }
    let scale: u32 = match dot_pos {
        Some(p) => {
            proof {
                lemma_dot_index_is(b, p as int - start);
            }
            let ghost after = b.subrange(p as int - start + 1, b.len() as int);
            assert(digits =~= b.subrange(0, p as int - start) + after);
            if n - 1 - p > MAX_SCALE as usize {
                assert(!spec_dec_body_ok(b));
                return None;
            }
            (n - 1 - p) as u32
        },
        None => {
            proof {
                lemma_dot_index_is(b, b.len() as int);
                assert(digits =~= b.subrange(0, b.len() as int));
                assert(b.subrange(0, b.len() as int) + Seq::<char>::empty() =~= digits);
            }
            0
        },
    };
    let ghost dp = dot_index(b) as int;
    let ghost before = b.subrange(0, dp);
    let ghost after = if dp < b.len() {
        b.subrange(dp + 1, b.len() as int)
    } else {
        Seq::<char>::empty()
    };
    proof {
        lemma_dot_index(b);
        assert(digits == before + after);
        assert(scale == after.len());
        assert forall|j: int| 0 <= j < before.len() implies is_digit(#[trigger] before[j]) by {
            assert(before[j] == digits[j]);
        }
        assert forall|j: int| 0 <= j < after.len() implies is_digit(#[trigger] after[j]) by {
            assert(after[j] == digits[before.len() + j]);
        }
    }
    if !seen_digit {
        assert(before.len() + after.len() == 0);
        assert(!spec_dec_body_ok(b));
        return None;
    }
    let mantissa: i64 = if neg {
        -(acc as i64)
    } else {
        acc as i64
    };
    Some(Decimal { mantissa, scale })
}

/// When the digits read so far, extended by one more digit, already exceed
/// `i64::MAX`, the whole literal's value does too.
proof fn lemma_overflow_means_too_big(
    b: Seq<char>,
    dot_pos: Option<usize>,
    digits: Seq<char>,
    c: char,
    i: int,
    start: int,
)
    requires
        0 <= start <= i < b.len() + start,
        is_digit(c),
        c == b[i - start],
        c != '.',
        crate::text::spec_uint_val(digits.push(c)) > i64::MAX,
        match dot_pos {
            None => {
                &&& digits == b.subrange(0, i - start)
                &&& forall|j: int| 0 <= j < i - start ==> #[trigger] b[j] != '.'
            },
            Some(p) => {
                &&& start <= p < i
                &&& b[p - start] == '.'
                &&& forall|j: int| 0 <= j < p - start ==> #[trigger] b[j] != '.'
                &&& digits == b.subrange(0, p - start) + b.subrange(p - start + 1, i - start)
            },
        },
    ensures
        !(spec_dec_body_ok(b) && spec_dec_body_val(b).0 <= i64::MAX),
{
    if spec_dec_body_ok(b) {
        let dp = dot_index(b) as int;
        let before = b.subrange(0, dp);
        let after = if dp < b.len() {
            b.subrange(dp + 1, b.len() as int)
        } else {
            Seq::<char>::empty()
        };
        let whole = before + after;
        lemma_dot_index(b);
        match dot_pos {
            None => {
                // No point so far, and the current character is a digit, so
                // the point (if any) lies beyond position `i - start`.
                assert(dp > i - start) by {
                    if dp <= i - start {
                        assert(b[dp] == '.');
                    }
                }
                assert(whole.subrange(0, i - start + 1) =~= digits.push(c));
                lemma_uint_prefix_le(whole, i - start + 1);
            },
            Some(p) => {
                assert(dp == p - start) by {
                    lemma_dot_index_is(b, p - start);
                }
                assert(whole.subrange(0, (i - start) as int) =~= digits.push(c));
                lemma_uint_prefix_le(whole, i - start);
            },
        }
    }
}

/// A character that is neither a digit nor the first point makes the text no
/// decimal literal.
proof fn lemma_bad_char_means_not_ok(b: Seq<char>, dot_pos: Option<usize>, i: int, start: int)
    requires
        0 <= start <= i < b.len() + start,
        !is_digit(b[i - start]),
        b[i - start] != '.',
        match dot_pos {
            None => forall|j: int| 0 <= j < i - start ==> #[trigger] b[j] != '.',
            Some(p) => {
                &&& start <= p < i
                &&& b[p - start] == '.'
                &&& forall|j: int| 0 <= j < p - start ==> #[trigger] b[j] != '.'
            },
        },
    ensures
        !spec_dec_body_ok(b),
{
    if spec_dec_body_ok(b) {
        let dp = dot_index(b) as int;
        let before = b.subrange(0, dp);
        let after = if dp < b.len() {
            b.subrange(dp + 1, b.len() as int)
        } else {
            Seq::<char>::empty()
        };
        lemma_dot_index(b);
        match dot_pos {
            None => {
                assert(dp > i - start) by {
                    if dp <= i - start {
                        assert(b[dp] == '.');
                    }
                }
                assert(!is_digit(before[i - start]));
            },
            Some(p) => {
                assert(dp == p - start) by {
                    lemma_dot_index_is(b, p - start);
                }
                assert(!is_digit(after[i - start - dp - 1]));
            },
        }
    }
}

} // verus!
