//! Rendering of one number: the choice between fixed-point and exponential
//! notation, and the tidying of what the hardware printed.
//!
//! Printing the digits of a binary number is the caller's part. It hands in
//! the number's decimal order of magnitude and its two printed forms at the
//! wanted precision; which of the two is shown, and how it is cut, is
//! decided here.

use vstd::prelude::*;
use crate::binary64::Binary64;
use crate::text::{chars_of, find, find_char, slice, string_of, trim_bounds, trimmed};

verus! {

/// The magnitude budget that applies where none is given.
pub const DEFAULT_MAGNITUDE: usize = 12;

/// The precision budget that applies where none is given.
pub const DEFAULT_PRECISION: usize = 6;

/// What the hardware says of one number at one precision.
#[derive(Clone, Debug)]
pub struct Rendering {
    /// The largest integer not above the decimal logarithm of the absolute
    /// value. It is not read for zero.
    pub log10_floor: i16,
    /// The number in fixed-point notation, with as many fractional digits
    /// as the precision says.
    pub fixed: String,
    /// The number in exponential notation, mantissa, `e`, exponent, with as
    /// many fractional digits in the mantissa as the precision says.
    pub exponential: String,
}

/// The digits that a number takes before the decimal point: one for zero,
/// one more than the order of magnitude from one upwards, and for a number
/// between zero and one the position of its first digit behind the point.
/// A minus sign counts as one more.
pub open spec fn magnitude(f: Binary64, log10_floor: i16) -> int {
    let sign: int = if f.is_negative() {
        1
    } else {
        0
    };
    if f.is_zero() {
        1
    } else if log10_floor >= 0 {
        log10_floor + 1 + sign
    } else {
        -log10_floor + sign
    }
}

/// Whether a number is shown in fixed-point notation: its magnitude must
/// not exceed the magnitude budget, and if it lies between minus one and
/// one, the precision budget must reach its first digit.
pub open spec fn fits_fixed(
    f: Binary64,
    log10_floor: i16,
    max_digit_magnitude: usize,
    max_precision: usize,
) -> bool {
    let m = magnitude(f, log10_floor);
    m <= max_digit_magnitude && !(f.is_below_one() && max_precision < m)
}

/// The text without the run of `c` at its end.
pub open spec fn strip_end(s: Seq<char>, c: char) -> Seq<char>
    decreases s.len(),
{
    if s.len() > 0 && s.last() == c {
        strip_end(s.drop_last(), c)
    } else {
        s
    }
}

/// Printed digits without what says nothing behind the decimal point: if
/// the text holds a point, the zeros at its end go, and then a point at its
/// end. A text without a point is a whole number, and its zeros stay.
pub open spec fn tidied(s: Seq<char>) -> Seq<char> {
    if find(s, '.', 0) < s.len() {
        strip_end(strip_end(s, '0'), '.')
    } else {
        s
    }
}

/// A number printed in fixed-point notation, tidied, and without white
/// space around it.
pub open spec fn fixed_form(rendered: Seq<char>) -> Seq<char> {
    trimmed(tidied(rendered))
}

/// A number printed in exponential notation, with its mantissa tidied. The
/// mantissa runs up to the first `e`; the exponent, which runs from there to
/// the next `e` or the end of the text, stays as it is. A text without `e`
/// is all mantissa.
pub open spec fn exponential_form(rendered: Seq<char>) -> Seq<char> {
    let mark = find(rendered, 'e', 0);
    let mantissa = tidied(rendered.subrange(0, mark));
    if mark < rendered.len() {
        mantissa + rendered.subrange(mark, find(rendered, 'e', mark + 1))
    } else {
        mantissa
    }
}

/// The text that shows a number within the given budgets.
pub open spec fn formatted(
    f: Binary64,
    rendering: Rendering,
    max_digit_magnitude: usize,
    max_precision: usize,
) -> Seq<char> {
    if fits_fixed(f, rendering.log10_floor, max_digit_magnitude, max_precision) {
        fixed_form(rendering.fixed@)
    } else {
        exponential_form(rendering.exponential@)
    }
}

/// Larger budgets never turn fixed-point notation into exponential
/// notation.
pub proof fn fixed_stays_fixed(
    f: Binary64,
    log10_floor: i16,
    max_digit_magnitude: usize,
    max_precision: usize,
    larger_magnitude: usize,
    larger_precision: usize,
)
    requires
        fits_fixed(f, log10_floor, max_digit_magnitude, max_precision),
        max_digit_magnitude <= larger_magnitude,
        max_precision <= larger_precision,
    ensures
        fits_fixed(f, log10_floor, larger_magnitude, larger_precision),
{
}

/// Nothing of the run is left: a stripped text does not end in `c`, and it
/// is the beginning of the text it was made from.
pub proof fn stripped_is_a_prefix(s: Seq<char>, c: char)
    ensures
        strip_end(s, c).len() <= s.len(),
        strip_end(s, c) == s.take(strip_end(s, c).len() as int),
        strip_end(s, c).len() > 0 ==> strip_end(s, c).last() != c,
        forall|k: int| strip_end(s, c).len() <= k < s.len() ==> #[trigger] s[k] == c,
    decreases s.len(),
{
    if s.len() > 0 && s.last() == c {
        stripped_is_a_prefix(s.drop_last(), c);
        assert(s.drop_last().take(strip_end(s, c).len() as int) =~= s.take(
            strip_end(s, c).len() as int,
        ));
        assert forall|k: int| strip_end(s, c).len() <= k < s.len() implies #[trigger] s[k]
            == c by {
            if k < s.len() - 1 {
                assert(s.drop_last()[k] == c);
            }
        }
    } else {
        assert(s.take(s.len() as int) =~= s);
    }
}

/// Counts the digits before the decimal point, as [`magnitude`] defines
/// them.
pub fn digit_magnitude(f: Binary64, log10_floor: i16) -> (m: usize)
    ensures
        m == magnitude(f, log10_floor),
{
    let sign: usize = if f.is_negative() {
        1
    } else {
        0
    };
    if f.is_zero() {
        1
    } else if log10_floor >= 0 {
        log10_floor as usize + 1 + sign
    } else {
        (-(log10_floor as i32)) as usize + sign
    }
}

/// Where the text ends once the run of `c` at the end of its first `until`
/// characters is left off.
fn strip_end_bound(chars: &Vec<char>, until: usize, c: char) -> (end: usize)
    requires
        until <= chars@.len(),
    ensures
        end <= until,
        chars@.take(end as int) == strip_end(chars@.take(until as int), c),
{
    let mut end = until;
    while end > 0 && chars[end - 1] == c
        invariant
            end <= until <= chars@.len(),
            strip_end(chars@.take(end as int), c) == strip_end(chars@.take(until as int), c),
        decreases end,
    {
        proof {
            assert(chars@.take(end as int).drop_last() =~= chars@.take(end - 1));
        }
        end -= 1;
    }
    end
}

/// Tidies printed digits.
fn tidy(chars: &Vec<char>) -> (kept: Vec<char>)
    ensures
        kept@ == tidied(chars@),
{
    let n = chars.len();
    if find_char(chars, '.', 0) < n {
        proof {
            assert(chars@.take(n as int) =~= chars@);
        }
        let zeros = strip_end_bound(chars, n, '0');
        let point = strip_end_bound(chars, zeros, '.');
        let kept = slice(chars, 0, point);
        proof {
            assert(kept@ =~= chars@.take(point as int));
        }
        kept
    } else {
        let kept = slice(chars, 0, n);
        proof {
            assert(kept@ =~= chars@);
        }
        kept
    }
}

/// Tidies a number printed in fixed-point notation.
pub fn trim_fixed(rendered: &str) -> (text: String)
    ensures
        text@ == fixed_form(rendered@),
{
    let kept = tidy(&chars_of(rendered));
    let (start, end) = trim_bounds(&kept);
    string_of(&kept, start, end)
}

/// Tidies a number printed in exponential notation.
pub fn trim_exponential(rendered: &str) -> (text: String)
    ensures
        text@ == exponential_form(rendered@),
{
    let chars = chars_of(rendered);
    let mark = find_char(&chars, 'e', 0);
    let mantissa = tidy(&slice(&chars, 0, mark));
    let mut text = string_of(&mantissa, 0, mantissa.len());
    proof {
        assert(mantissa@.subrange(0, mantissa@.len() as int) =~= mantissa@);
    }
    if mark < chars.len() {
        let next = find_char(&chars, 'e', mark + 1);
        let tail = string_of(&chars, mark, next);
        text.append(tail.as_str());
    }
    text
}

/// Shows a number within the given budgets: in fixed-point notation where
/// [`fits_fixed`] allows it, in exponential notation otherwise.
pub fn format_f64(
    f: Binary64,
    rendering: &Rendering,
    max_digit_magnitude: usize,
    max_precision: usize,
) -> (text: String)
    ensures
        text@ == formatted(f, *rendering, max_digit_magnitude, max_precision),
{
    let magn = digit_magnitude(f, rendering.log10_floor);
    if magn <= max_digit_magnitude && !(f.is_below_one() && max_precision < magn) {
        trim_fixed(rendering.fixed.as_str())
    } else {
        trim_exponential(rendering.exponential.as_str())
    }
}

} // verus!
