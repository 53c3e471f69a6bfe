//! Showing a complex number in standard and in polar notation.

use vstd::prelude::*;
use crate::complex::{polar_string, polar_text, standard_string, standard_text, Complex};

verus! {

/// A value that can be shown as a complex number in both notations.
pub trait ComplexDisplay {
    /// The value in standard notation.
    spec fn std_text(&self) -> Seq<char>;

    /// The value in polar notation.
    spec fn polar_text(&self) -> Seq<char>;

    fn to_std_string(&self) -> (text: String)
        ensures
            text@ == self.std_text(),
    ;

    fn to_polar_string(&self) -> (text: String)
        ensures
            text@ == self.polar_text(),
    ;
}

/// A complex number together with the digits of its parts and of its polar
/// coordinates, each printed in full by the caller: `re` for the real part,
/// `im` for the imaginary part as shown, `r` for the modulus, `theta` for
/// the angle.
#[derive(Clone, Debug)]
pub struct Spelling {
    pub value: Complex,
    pub re: String,
    pub im: String,
    pub r: String,
    pub theta: String,
}

impl ComplexDisplay for Spelling {
    open spec fn std_text(&self) -> Seq<char> {
        standard_text(self.value, self.re@, self.im@)
    }

    open spec fn polar_text(&self) -> Seq<char> {
        polar_text(self.r@, self.theta@)
    }

    fn to_std_string(&self) -> (text: String) {
        standard_string(self.value, self.re.as_str(), self.im.as_str())
    }

    fn to_polar_string(&self) -> (text: String) {
        polar_string(self.r.as_str(), self.theta.as_str())
    }
}

} // verus!
