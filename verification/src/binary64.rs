//! IEEE 754 double-precision numbers, held by their 64-bit encoding.
//!
//! The verifier has no floating-point arithmetic, so a number is carried as
//! the bit pattern of its encoding: one sign bit, eleven exponent bits,
//! fifty-two fraction bits. Everything that can be read off the encoding
//! (sign, zero, finiteness, comparison with zero and one, negation) is
//! decided here and proved; computing with the numbers is left to the
//! caller's hardware.

use vstd::arithmetic::power2::{
    lemma2_to64, lemma2_to64_rest, lemma_pow2_adds, lemma_pow2_pos, lemma_pow2_unfold, pow2,
};
use vstd::prelude::*;
use vstd::std_specs::cmp::PartialEqSpecImpl;

verus! {

/// The sign bit of the encoding.
pub const SIGN_BIT: u64 = 0x8000_0000_0000_0000;

/// The encoding of positive infinity: all exponent bits set, no fraction bit.
pub const INFINITY_BITS: u64 = 0x7FF0_0000_0000_0000;

/// The encoding of the number one.
pub const ONE_BITS: u64 = 0x3FF0_0000_0000_0000;

/// The number of encodings that share one exponent: two to the fifty-two.
pub const FRACTION_SPAN: u64 = 0x10_0000_0000_0000;

/// The absolute value that an encoding without sign bit stands for, counted
/// in units of the smallest positive number, two to the minus 1074. With a
/// zero exponent field the fraction counts units; otherwise the fraction,
/// with the hidden bit before it, counts the units doubled once for each
/// step of the exponent above one.
pub open spec fn size_of(magnitude: nat) -> nat {
    let exponent = magnitude / FRACTION_SPAN as nat;
    let fraction = magnitude % FRACTION_SPAN as nat;
    if exponent == 0 {
        fraction
    } else {
        ((fraction + FRACTION_SPAN) * pow2((exponent - 1) as nat)) as nat
    }
}

/// A double-precision number, given by its encoding.
#[derive(Copy, Clone, Debug)]
pub struct Binary64 {
    pub bits: u64,
}

impl View for Binary64 {
    type V = Binary64;

    open spec fn view(&self) -> Binary64 {
        *self
    }
}

impl Binary64 {
    /// The encoding without its sign bit; it orders the absolute values of
    /// all numbers that are not NaN.
    pub open spec fn magnitude(self) -> u64 {
        if self.bits >= SIGN_BIT {
            (self.bits - SIGN_BIT) as u64
        } else {
            self.bits
        }
    }

    /// The sign bit is set.
    pub open spec fn sign(self) -> bool {
        self.bits >= SIGN_BIT
    }

    /// The absolute value in units of the smallest positive number. For an
    /// infinite number this is two to the 2098, the least size that no
    /// finite number has; for NaN it means nothing.
    pub open spec fn size(self) -> nat {
        size_of(self.magnitude() as nat)
    }

    /// The value in units of the smallest positive number.
    pub open spec fn units(self) -> int {
        if self.sign() {
            -(self.size() as int)
        } else {
            self.size() as int
        }
    }

    /// Not a number: all exponent bits set and some fraction bit.
    pub open spec fn spec_is_nan(self) -> bool {
        self.magnitude() > INFINITY_BITS
    }

    /// Neither infinite nor NaN: some exponent bit is clear.
    pub open spec fn spec_is_finite(self) -> bool {
        self.magnitude() < INFINITY_BITS
    }

    /// Positive or negative zero.
    pub open spec fn spec_is_zero(self) -> bool {
        self.magnitude() == 0
    }

    /// Strictly below zero; false of both zeros and of NaN.
    pub open spec fn spec_is_negative(self) -> bool {
        self.sign() && 0 < self.magnitude() <= INFINITY_BITS
    }

    /// Of absolute value strictly below one; false of NaN.
    pub open spec fn spec_is_below_one(self) -> bool {
        self.magnitude() < ONE_BITS
    }

    /// The same number with the opposite sign, NaN included.
    pub open spec fn spec_negated(self) -> Binary64 {
        if self.bits >= SIGN_BIT {
            Binary64 { bits: (self.bits - SIGN_BIT) as u64 }
        } else {
            Binary64 { bits: (self.bits + SIGN_BIT) as u64 }
        }
    }

    /// Numerical equality: NaN equals nothing, the two zeros equal each
    /// other, and otherwise the encodings must agree.
    pub open spec fn equals(self, other: Binary64) -> bool {
        &&& !self.spec_is_nan()
        &&& !other.spec_is_nan()
        &&& (self.bits == other.bits || (self.spec_is_zero() && other.spec_is_zero()))
    }

    pub fn from_bits(bits: u64) -> (x: Binary64)
        ensures
            x.bits == bits,
    {
        Binary64 { bits }
    }

    pub fn to_bits(self) -> (bits: u64)
        ensures
            bits == self.bits,
    {
        self.bits
    }

    /// Positive zero.
    pub fn zero() -> (x: Binary64)
        ensures
            x.bits == 0,
    {
        Binary64 { bits: 0 }
    }

    /// The number one.
    pub fn one() -> (x: Binary64)
        ensures
            x.bits == ONE_BITS,
    {
        Binary64 { bits: ONE_BITS }
    }

    fn magnitude_bits(self) -> (m: u64)
        ensures
            m == self.magnitude(),
    {
        if self.bits >= SIGN_BIT {
            self.bits - SIGN_BIT
        } else {
            self.bits
        }
    }

    #[verifier::when_used_as_spec(spec_is_nan)]
    pub fn is_nan(self) -> (b: bool)
        ensures
            b == self.spec_is_nan(),
    {
        self.magnitude_bits() > INFINITY_BITS
    }

    #[verifier::when_used_as_spec(spec_is_finite)]
    pub fn is_finite(self) -> (b: bool)
        ensures
            b == self.spec_is_finite(),
    {
        self.magnitude_bits() < INFINITY_BITS
    }

    #[verifier::when_used_as_spec(spec_is_zero)]
    pub fn is_zero(self) -> (b: bool)
        ensures
            b == self.spec_is_zero(),
    {
        self.magnitude_bits() == 0
    }

    #[verifier::when_used_as_spec(spec_is_negative)]
    pub fn is_negative(self) -> (b: bool)
        ensures
            b == self.spec_is_negative(),
    {
        let m = self.magnitude_bits();
        self.bits >= SIGN_BIT && 0 < m && m <= INFINITY_BITS
    }

    #[verifier::when_used_as_spec(spec_is_below_one)]
    pub fn is_below_one(self) -> (b: bool)
        ensures
            b == self.spec_is_below_one(),
    {
        self.magnitude_bits() < ONE_BITS
    }

    #[verifier::when_used_as_spec(spec_negated)]
    pub fn negated(self) -> (x: Binary64)
        ensures
            x == self.spec_negated(),
    {
        if self.bits >= SIGN_BIT {
            Binary64 { bits: self.bits - SIGN_BIT }
        } else {
            Binary64 { bits: self.bits + SIGN_BIT }
        }
    }
}

impl PartialEq for Binary64 {
    fn eq(&self, other: &Binary64) -> (b: bool) {
        !self.is_nan() && !other.is_nan() && (self.bits == other.bits || (self.is_zero()
            && other.is_zero()))
    }
}

impl PartialEqSpecImpl for Binary64 {
    open spec fn obeys_eq_spec() -> bool {
        true
    }

    open spec fn eq_spec(&self, other: &Binary64) -> bool {
        self.equals(*other)
    }
}

/// Negating twice gives the number back, and negation keeps zero, finiteness
/// and NaN while it swaps the sign.
pub proof fn negation_is_an_involution(x: Binary64)
    ensures
        x.spec_negated().spec_negated() == x,
        x.spec_negated().magnitude() == x.magnitude(),
        x.spec_negated().sign() == !x.sign(),
{
}

proof fn size_grows_by_one_step(m: nat)
    ensures
        size_of(m) < size_of(m + 1),
{
    let span = FRACTION_SPAN as nat;
    let exponent = m / span;
    let fraction = m % span;
    if fraction + 1 < span {
        assert((m + 1) / span == exponent && (m + 1) % span == fraction + 1) by {
            vstd::arithmetic::div_mod::lemma_fundamental_div_mod_converse(
                (m + 1) as int,
                span as int,
                exponent as int,
                (fraction + 1) as int,
            );
        }
        if exponent > 0 {
            let p = pow2((exponent - 1) as nat);
            lemma_pow2_pos((exponent - 1) as nat);
            assert((fraction + span) * p < (fraction + 1 + span) * p) by (nonlinear_arith)
                requires
                    p > 0,
            ;
        }
    } else {
        assert((m + 1) / span == exponent + 1 && (m + 1) % span == 0) by {
            vstd::arithmetic::div_mod::lemma_fundamental_div_mod_converse(
                (m + 1) as int,
                span as int,
                (exponent + 1) as int,
                0,
            );
        }
        if exponent > 0 {
            let p = pow2((exponent - 1) as nat);
            lemma_pow2_pos((exponent - 1) as nat);
            lemma_pow2_unfold(exponent);
            assert((fraction + span) * p < span * (2 * p)) by (nonlinear_arith)
                requires
                    p > 0,
                    fraction + 1 == span,
            ;
        } else {
            lemma2_to64();
        }
    }
}

/// A larger encoding stands for a larger absolute value.
pub proof fn size_grows_with_the_encoding(m: nat, n: nat)
    requires
        m < n,
    ensures
        size_of(m) < size_of(n),
    decreases n - m,
{
    size_grows_by_one_step(m);
    if m + 1 < n {
        size_grows_with_the_encoding(m + 1, n);
    }
}

/// What the predicates on encodings say of the values: zero has size
/// nothing; a number is below one in absolute value exactly if its size is
/// below that of one, two to the 1074; it is finite exactly if its size is
/// below two to the 2098; and it is negative exactly if its value is below
/// nothing.
pub proof fn predicates_speak_of_the_value(x: Binary64)
    requires
        !x.is_nan(),
    ensures
        x.is_zero() <==> x.units() == 0,
        x.is_negative() <==> x.units() < 0,
        x.is_below_one() <==> -pow2(1074) < x.units() < pow2(1074),
        x.is_finite() <==> -pow2(2098) < x.units() < pow2(2098),
        x.negated().units() == -x.units(),
{
    let m = x.magnitude() as nat;
    assert(size_of(0) == 0);
    assert(size_of(ONE_BITS as nat) == pow2(1074)) by {
        assert(ONE_BITS as nat / FRACTION_SPAN as nat == 1023);
        assert(ONE_BITS as nat % FRACTION_SPAN as nat == 0);
        lemma2_to64_rest();
        lemma_pow2_adds(52, 1022);
    }
    assert(size_of(INFINITY_BITS as nat) == pow2(2098)) by {
        assert(INFINITY_BITS as nat / FRACTION_SPAN as nat == 2047);
        assert(INFINITY_BITS as nat % FRACTION_SPAN as nat == 0);
        lemma2_to64_rest();
        lemma_pow2_adds(52, 2046);
    }
    if 0 < m {
        size_grows_with_the_encoding(0, m);
    }
    if m < ONE_BITS {
        size_grows_with_the_encoding(m, ONE_BITS as nat);
    }
    if m > ONE_BITS {
        size_grows_with_the_encoding(ONE_BITS as nat, m);
    }
    if m < INFINITY_BITS {
        size_grows_with_the_encoding(m, INFINITY_BITS as nat);
    }
}

/// Two numbers are equal exactly if they have the same value.
pub proof fn equality_is_equality_of_values(x: Binary64, y: Binary64)
    requires
        !x.is_nan(),
        !y.is_nan(),
    ensures
        x.equals(y) <==> x.units() == y.units(),
{
    let m = x.magnitude() as nat;
    let n = y.magnitude() as nat;
    assert(size_of(0) == 0);
    if 0 < m {
        size_grows_with_the_encoding(0, m);
    }
    if 0 < n {
        size_grows_with_the_encoding(0, n);
    }
    if m < n {
        size_grows_with_the_encoding(m, n);
    }
    if n < m {
        size_grows_with_the_encoding(n, m);
    }
}

} // verus!
