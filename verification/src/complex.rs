//! Complex numbers in Cartesian and polar form, and the guard that keeps
//! non-finite results of arithmetic out of them.

use vstd::prelude::*;
use vstd::std_specs::cmp::PartialEqSpecImpl;
use crate::binary64::{Binary64, ONE_BITS, SIGN_BIT};
use crate::format::{format_f64, formatted, Rendering};
use crate::token::Operator;

verus! {

/// A complex number by its real and imaginary part.
#[derive(Copy, Clone, Debug)]
pub struct Complex {
    pub re: Binary64,
    pub im: Binary64,
}

/// A complex number by its modulus and its angle in radians.
#[derive(Copy, Clone, Debug)]
pub struct PolarComplex {
    pub r: Binary64,
    pub theta: Binary64,
}

impl View for Complex {
    type V = Complex;

    open spec fn view(&self) -> Complex {
        *self
    }
}

impl PolarComplex {
    pub fn new(r: Binary64, theta: Binary64) -> (p: PolarComplex)
        ensures
            p.r == r,
            p.theta == theta,
    {
        PolarComplex { r, theta }
    }

    /// Shows the number as `@{r, theta}`, each coordinate within the given
    /// budgets. `r` and `theta` are the renderings of the modulus and of the
    /// angle.
    pub fn to_std_string(
        &self,
        r: &Rendering,
        theta: &Rendering,
        magnitude: usize,
        precision: usize,
    ) -> (text: String)
        ensures
            text@ == polar_text(
                formatted(self.r, *r, magnitude, precision),
                formatted(self.theta, *theta, magnitude, precision),
            ),
    {
        let modulus = format_f64(self.r, r, magnitude, precision);
        let angle = format_f64(self.theta, theta, magnitude, precision);
        polar_string(modulus.as_str(), angle.as_str())
    }
}

/// How an imaginary part is written: `i` for one, `-i` for minus one, and
/// otherwise its digits followed by `i`.
pub open spec fn imaginary_text(im: Binary64, digits: Seq<char>) -> Seq<char> {
    if im.bits == ONE_BITS {
        seq!['i']
    } else if im.bits == ONE_BITS + SIGN_BIT {
        seq!['-', 'i']
    } else {
        digits.push('i')
    }
}

/// How a complex number is written, given the digits of its real part and
/// of the imaginary part as shown: the real part alone if the imaginary
/// part is zero; the imaginary part alone if the real part is zero; else
/// both, with the sign of the imaginary part as the operator between them.
pub open spec fn standard_text(c: Complex, re: Seq<char>, im: Seq<char>) -> Seq<char> {
    if c.im.is_zero() {
        seq!['{'] + re + seq!['}']
    } else if c.re.is_zero() {
        seq!['{'] + imaginary_text(c.im, im) + seq!['}']
    } else if c.im.is_negative() {
        seq!['{'] + re + seq![' ', '-', ' '] + imaginary_text(c.im.negated(), im) + seq!['}']
    } else {
        seq!['{'] + re + seq![' ', '+', ' '] + imaginary_text(c.im, im) + seq!['}']
    }
}

/// How a number in polar form is written, given the digits of its modulus
/// and of its angle.
pub open spec fn polar_text(r: Seq<char>, theta: Seq<char>) -> Seq<char> {
    seq!['@', '{'] + r + seq![',', ' '] + theta + seq!['}']
}

/// Writes an imaginary part.
pub fn im_to_string(im: Binary64, digits: &str) -> (text: String)
    ensures
        text@ == imaginary_text(im, digits@),
{
    let mut text = String::new();
    if im.bits == ONE_BITS {
        text.push('i');
    } else if im.bits == ONE_BITS + SIGN_BIT {
        text.push('-');
        text.push('i');
    } else {
        text.append(digits);
        text.push('i');
    }
    proof {
        assert(text@ =~= imaginary_text(im, digits@));
    }
    text
}

/// Writes a complex number from the digits of its real part and of its
/// imaginary part as shown.
pub fn standard_string(c: Complex, re: &str, im: &str) -> (text: String)
    ensures
        text@ == standard_text(c, re@, im@),
{
    let mut text = String::new();
    text.push('{');
    if c.im.is_zero() {
        text.append(re);
    } else if c.re.is_zero() {
        let imaginary = im_to_string(c.im, im);
        text.append(imaginary.as_str());
    } else if c.im.is_negative() {
        let imaginary = im_to_string(c.im.negated(), im);
        text.append(re);
        text.push(' ');
        text.push('-');
        text.push(' ');
        text.append(imaginary.as_str());
    } else {
        let imaginary = im_to_string(c.im, im);
        text.append(re);
        text.push(' ');
        text.push('+');
        text.push(' ');
        text.append(imaginary.as_str());
    }
    text.push('}');
    proof {
        assert(text@ =~= standard_text(c, re@, im@));
    }
    text
}

/// Writes a number in polar form from the digits of its modulus and of its
/// angle.
pub fn polar_string(r: &str, theta: &str) -> (text: String)
    ensures
        text@ == polar_text(r@, theta@),
{
    let mut text = String::new();
    text.push('@');
    text.push('{');
    text.append(r);
    text.push(',');
    text.push(' ');
    text.append(theta);
    text.push('}');
    proof {
        assert(text@ =~= polar_text(r@, theta@));
    }
    text
}

impl Complex {
    /// Both parts are finite.
    pub open spec fn spec_is_finite(self) -> bool {
        self.re.is_finite() && self.im.is_finite()
    }

    /// Both parts are zero, of either sign.
    pub open spec fn spec_is_zero(self) -> bool {
        self.re.is_zero() && self.im.is_zero()
    }

    /// The imaginary part as it is shown: where both parts are written and
    /// the imaginary part is negative, its sign becomes the operator between
    /// them and the part itself is shown without it.
    pub open spec fn spec_shown_imaginary(self) -> Binary64 {
        if !self.im.is_zero() && !self.re.is_zero() && self.im.is_negative() {
            self.im.negated()
        } else {
            self.im
        }
    }

    /// Equality part by part, as numbers.
    pub open spec fn equals(self, other: Complex) -> bool {
        self.re.equals(other.re) && self.im.equals(other.im)
    }

    pub fn new(re: Binary64, im: Binary64) -> (c: Complex)
        ensures
            c.re == re,
            c.im == im,
    {
        Complex { re, im }
    }

    #[verifier::when_used_as_spec(spec_is_finite)]
    pub fn is_finite(self) -> (b: bool)
        ensures
            b == self.spec_is_finite(),
    {
        self.re.is_finite() && self.im.is_finite()
    }

    #[verifier::when_used_as_spec(spec_is_zero)]
    pub fn is_zero(self) -> (b: bool)
        ensures
            b == self.spec_is_zero(),
    {
        self.re.is_zero() && self.im.is_zero()
    }

    /// The sum of this number and `other`, given what the hardware computed
    /// for it: that value, unless [`outcome`] rules it out.
    pub fn add(&self, other: Complex, computed: Complex) -> (c: Option<Complex>)
        ensures
            c == outcome(Operator::Plus, *self, other, computed),
    {
        checked_result(Operator::Plus, *self, other, computed)
    }

    /// The difference of this number and `other`, given what the hardware
    /// computed for it.
    pub fn sub(&self, other: Complex, computed: Complex) -> (c: Option<Complex>)
        ensures
            c == outcome(Operator::Minus, *self, other, computed),
    {
        checked_result(Operator::Minus, *self, other, computed)
    }

    /// The product of this number and `other`, given what the hardware
    /// computed for it.
    pub fn mul(&self, other: Complex, computed: Complex) -> (c: Option<Complex>)
        ensures
            c == outcome(Operator::Multiply, *self, other, computed),
    {
        checked_result(Operator::Multiply, *self, other, computed)
    }

    /// The quotient of this number by `other`, given what the hardware
    /// computed for it.
    pub fn div(&self, other: Complex, computed: Complex) -> (c: Option<Complex>)
        ensures
            c == outcome(Operator::Divide, *self, other, computed),
    {
        checked_result(Operator::Divide, *self, other, computed)
    }

    #[verifier::when_used_as_spec(spec_shown_imaginary)]
    pub fn shown_imaginary(self) -> (im: Binary64)
        ensures
            im == self.spec_shown_imaginary(),
    {
        if !self.im.is_zero() && !self.re.is_zero() && self.im.is_negative() {
            self.im.negated()
        } else {
            self.im
        }
    }

    /// Shows the number as `{re}`, `{im i}`, `{re + im i}` or `{re - im i}`,
    /// each part within the given budgets. `re` is the rendering of the real
    /// part, `im` that of the imaginary part as shown.
    pub fn to_std_string(
        &self,
        re: &Rendering,
        im: &Rendering,
        magnitude: usize,
        precision: usize,
    ) -> (text: String)
        ensures
            text@ == standard_text(
                *self,
                formatted(self.re, *re, magnitude, precision),
                formatted(self.shown_imaginary(), *im, magnitude, precision),
            ),
    {
        let re_digits = format_f64(self.re, re, magnitude, precision);
        let im_digits = format_f64(self.shown_imaginary(), im, magnitude, precision);
        standard_string(*self, re_digits.as_str(), im_digits.as_str())
    }
}

impl PartialEq for Complex {
    fn eq(&self, other: &Complex) -> (b: bool) {
        self.re == other.re && self.im == other.im
    }
}

impl PartialEqSpecImpl for Complex {
    open spec fn obeys_eq_spec() -> bool {
        true
    }

    open spec fn eq_spec(&self, other: &Complex) -> bool {
        self.equals(*other)
    }
}

/// The number with the given parts if both are finite, and nothing otherwise.
pub fn finite_complex_or_none(re: Binary64, im: Binary64) -> (c: Option<Complex>)
    ensures
        c == if re.is_finite() && im.is_finite() {
            Some(Complex { re, im })
        } else {
            None::<Complex>
        },
{
    if re.is_finite() && im.is_finite() {
        Some(Complex::new(re, im))
    } else {
        None
    }
}

/// Whether an operation on these operands can have a usable result at all:
/// the four basic operations need finite operands, and division a divisor
/// that is not zero. Raising to a power accepts every pair.
pub open spec fn admissible(operator: Operator, left: Complex, right: Complex) -> bool {
    match operator {
        Operator::Power => true,
        Operator::Divide => left.is_finite() && right.is_finite() && !right.is_zero(),
        _ => left.is_finite() && right.is_finite(),
    }
}

/// The outcome of an operation, given what the hardware computed for it:
/// that value if the operands were admissible and both of its parts are
/// finite, nothing otherwise.
pub open spec fn outcome(operator: Operator, left: Complex, right: Complex, raw: Complex) -> Option<
    Complex,
> {
    if admissible(operator, left, right) && raw.is_finite() {
        Some(raw)
    } else {
        None
    }
}

/// Addition, subtraction, multiplication and division have no outcome as
/// soon as a part of an operand, or of the value computed, is infinite or
/// NaN.
pub proof fn non_finite_is_rejected(operator: Operator, left: Complex, right: Complex, raw: Complex)
    requires
        operator != Operator::Power,
        !left.is_finite() || !right.is_finite() || !raw.is_finite(),
    ensures
        outcome(operator, left, right, raw) is None,
{
}

/// Division by zero has no outcome, whatever was computed for it.
pub proof fn division_by_zero_is_rejected(left: Complex, right: Complex, raw: Complex)
    requires
        right.is_zero(),
    ensures
        outcome(Operator::Divide, left, right, raw) is None,
{
}

/// An outcome is the value that was computed, and both of its parts are
/// finite.
pub proof fn outcomes_are_finite(operator: Operator, left: Complex, right: Complex, raw: Complex)
    ensures
        outcome(operator, left, right, raw) is Some ==> outcome(operator, left, right, raw)
            == Some(raw) && raw.is_finite(),
{
}

/// Decides whether `raw`, computed for `left operator right`, becomes the
/// result of the operation. Infinity and NaN never pass, neither as an
/// operand of the four basic operations nor as a result, and nothing is
/// divided by zero.
pub fn checked_result(operator: Operator, left: Complex, right: Complex, raw: Complex) -> (c:
    Option<Complex>)
    ensures
        c == outcome(operator, left, right, raw),
{
    let admitted = match operator {
        Operator::Power => true,
        Operator::Divide => left.is_finite() && right.is_finite() && !right.is_zero(),
        _ => left.is_finite() && right.is_finite(),
    };
    if admitted {
        finite_complex_or_none(raw.re, raw.im)
    } else {
        None
    }
}

} // verus!
