//! Real and complex numbers, held by their single-precision encoding.
//!
//! A real number is kept as the 32 bits of its IEEE 754 binary32 encoding:
//! one sign bit, eight exponent bits, twenty-three fraction bits. Nothing is
//! computed with these numbers; they are stored, compared and handed back.
//! Two encodings are the same number when they agree bit for bit, or when
//! both encode zero (which has a sign); an encoding that is not a number
//! equals nothing, itself included.

use crate::frequency::same;
use vstd::laws_eq::{obeys_eq, obeys_eq_spec_properties};
use vstd::prelude::*;
use vstd::std_specs::cmp::PartialEqSpecImpl;
use vstd::string::StringExecFns;

verus! {

/// The exponent field of an encoding.
pub open spec fn exponent_field(bits: u32) -> u32 {
    (bits >> 23) & 0xff
}

/// The fraction field of an encoding.
pub open spec fn fraction_field(bits: u32) -> u32 {
    bits & 0x7f_ffff
}

/// The encoding is not a number: all exponent bits set, and a fraction that
/// is not zero.
pub open spec fn encodes_nan(bits: u32) -> bool {
    exponent_field(bits) == 0xff && fraction_field(bits) != 0
}

/// The encoding is that of zero, of either sign.
pub open spec fn encodes_zero(bits: u32) -> bool {
    exponent_field(bits) == 0 && fraction_field(bits) == 0
}

/// The two encodings are the same number.
pub open spec fn same_number(a: u32, b: u32) -> bool {
    &&& !encodes_nan(a)
    &&& !encodes_nan(b)
    &&& (a == b || (encodes_zero(a) && encodes_zero(b)))
}

/// A real number.
#[derive(Clone, Copy, Debug)]
pub struct Real {
    /// The IEEE 754 binary32 encoding of the number.
    pub bits: u32,
}

impl Real {
    /// Whether this is an encoding that is not a number.
    pub fn is_nan(&self) -> (nan: bool)
        ensures
            nan == encodes_nan(self.bits),
    {
        let bits: u32 = self.bits;
        assert(((bits & 0x7fff_ffff) > 0x7f80_0000) == (((bits >> 23) & 0xff) == 0xff && (bits
            & 0x7f_ffff) != 0)) by (bit_vector);
        (bits & 0x7fff_ffff) > 0x7f80_0000
    }

    /// Whether this is zero, of either sign.
    pub fn is_zero(&self) -> (zero: bool)
        ensures
            zero == encodes_zero(self.bits),
    {
        let bits: u32 = self.bits;
        assert(((bits & 0x7fff_ffff) == 0) == (((bits >> 23) & 0xff) == 0 && (bits & 0x7f_ffff)
            == 0)) by (bit_vector);
        (bits & 0x7fff_ffff) == 0
    }
}

impl PartialEq for Real {
    fn eq(&self, other: &Real) -> (equal: bool) {
        !self.is_nan() && !other.is_nan() && (self.bits == other.bits || (self.is_zero()
            && other.is_zero()))
    }
}

impl PartialEqSpecImpl for Real {
    open spec fn obeys_eq_spec() -> bool {
        true
    }

    open spec fn eq_spec(&self, other: &Real) -> bool {
        same_number(self.bits, other.bits)
    }
}

/// Equality of real numbers is symmetric and transitive.
pub proof fn lemma_real_obeys_eq()
    ensures
        obeys_eq::<Real>(),
{
    reveal(obeys_eq_spec_properties);
}

/// A real number equals itself, unless it is not a number.
pub proof fn lemma_real_equals_itself(x: Real)
    ensures
        same(x, x) <==> !encodes_nan(x.bits),
{
}

/// The two zeros are equal, although their encodings differ.
pub proof fn lemma_zeros_are_equal()
    ensures
        same(Real { bits: 0 }, Real { bits: 0x8000_0000 }),
{
    assert(encodes_zero(0u32) && !encodes_nan(0u32)) by (bit_vector);
    assert(encodes_zero(0x8000_0000u32) && !encodes_nan(0x8000_0000u32)) by (bit_vector);
}

/// A complex number: a real part and an imaginary part.
#[derive(Clone, Copy, Debug)]
pub struct Complex {
    /// The real part.
    pub re: Real,
    /// The imaginary part.
    pub im: Real,
}

impl PartialEq for Complex {
    fn eq(&self, other: &Complex) -> (equal: bool) {
        self.re == other.re && self.im == other.im
    }
}

impl PartialEqSpecImpl for Complex {
    open spec fn obeys_eq_spec() -> bool {
        true
    }

    open spec fn eq_spec(&self, other: &Complex) -> bool {
        same_number(self.re.bits, other.re.bits) && same_number(self.im.bits, other.im.bits)
    }
}

/// Equality of complex numbers is symmetric and transitive.
pub proof fn lemma_complex_obeys_eq()
    ensures
        obeys_eq::<Complex>(),
{
    reveal(obeys_eq_spec_properties);
}

/// The label of a complex number, made of the texts of its two parts: the
/// real part, a plus sign between blanks, the imaginary part and the letter
/// `i`. The sign of the imaginary part is inside its text and the plus sign
/// stays, so a negative imaginary part reads `1 + -2i`.
pub open spec fn complex_text(re: Seq<char>, im: Seq<char>) -> Seq<char> {
    re + seq![' ', '+', ' '] + im + seq!['i']
}

/// Puts the label of a complex number together from the texts of its parts.
pub fn complex_label(re: &str, im: &str) -> (text: String)
    ensures
        text@ == complex_text(re@, im@),
{
    proof {
        reveal_strlit(" + ");
        reveal_strlit("i");
    }
    let mut text = String::new();
    text.append(re);
    text.append(" + ");
    text.append(im);
    text.append("i");
    assert(text@ =~= complex_text(re@, im@));
    text
}

impl Complex {
    /// `text` is a label of this number under `render`: put together, as
    /// `complex_text` says, from texts that `render` gives for the two parts.
    pub open spec fn is_label<F: Fn(Real) -> String>(self, render: F, text: Seq<char>) -> bool {
        exists|re: String, im: String|
            {
                &&& #[trigger] call_ensures(render, (self.re,), re)
                &&& #[trigger] call_ensures(render, (self.im,), im)
                &&& text == complex_text(re@, im@)
            }
    }

    /// The label of the number, with each part written out by `render`.
    pub fn label<F: Fn(Real) -> String>(&self, render: &F) -> (text: String)
        requires
            call_requires(*render, (self.re,)),
            call_requires(*render, (self.im,)),
        ensures
            self.is_label(*render, text@),
    {
        let re = render(self.re);
        let im = render(self.im);
        complex_label(re.as_str(), im.as_str())
    }
}

} // verus!
