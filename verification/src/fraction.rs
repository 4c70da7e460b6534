//! Fractions: a numerator over a denominator that is never zero.
//!
//! A fraction is kept as it was entered. It is not reduced, so `2/4` and
//! `1/2` are different fractions.

use crate::decimal::{decimal, push_decimal};
use crate::frequency::same;
use vstd::laws_eq::{obeys_eq, obeys_eq_spec_properties};
use vstd::prelude::*;
use vstd::std_specs::cmp::PartialEqSpecImpl;
use vstd::string::StringExecFns;

verus! {

/// A fraction as a pair of integers.
pub ghost struct Ratio {
    pub numerator: int,
    pub denominator: int,
}

/// The label of a fraction: numerator, a slash, denominator.
pub open spec fn fraction_text(ratio: Ratio) -> Seq<char> {
    decimal(ratio.numerator) + seq!['/'] + decimal(ratio.denominator)
}

/// A fraction. Its denominator is not zero.
#[derive(Clone, Copy, Debug)]
pub struct Fraction {
    numerator: i32,
    denominator: u32,
}

impl View for Fraction {
    type V = Ratio;

    closed spec fn view(&self) -> Ratio {
        Ratio { numerator: self.numerator as int, denominator: self.denominator as int }
    }
}

impl Fraction {
    #[verifier::type_invariant]
    spec fn denominator_not_zero(self) -> bool {
        self.denominator != 0
    }

    /// The fraction with this numerator and this denominator.
    pub closed spec fn of(numerator: i32, denominator: u32) -> Fraction {
        Fraction { numerator, denominator }
    }

    /// What `new` makes of a numerator and a denominator: nothing where the
    /// denominator is zero, and else the fraction of the two.
    pub open spec fn spec_new(numerator: i32, denominator: u32) -> Option<Fraction> {
        if denominator == 0 {
            None
        } else {
            Some(Fraction::of(numerator, denominator))
        }
    }

    /// The fraction `numerator/denominator`, unless the denominator is zero.
    #[verifier::when_used_as_spec(spec_new)]
    pub fn new(numerator: i32, denominator: u32) -> (made: Option<Fraction>)
        ensures
            made == Fraction::spec_new(numerator, denominator),
            made is None <==> denominator == 0,
            made matches Some(fraction) ==> fraction@ == (Ratio {
                numerator: numerator as int,
                denominator: denominator as int,
            }),
    {
        if denominator == 0 {
            None
        } else {
            Some(Fraction { numerator, denominator })
        }
    }

    /// The numerator.
    pub fn numerator(&self) -> (numerator: i32)
        ensures
            numerator == self@.numerator,
    {
        self.numerator
    }

    /// The denominator, which is not zero.
    pub fn denominator(&self) -> (denominator: u32)
        ensures
            denominator == self@.denominator,
            denominator != 0,
    {
        proof {
            use_type_invariant(self);
        }
        self.denominator
    }

    /// The label of the fraction, such as `-3/4`.
    pub fn label(&self) -> (text: String)
        ensures
            text@ == fraction_text(self@),
    {
        let mut text = String::new();
        push_decimal(&mut text, self.numerator as i64);
        proof {
            reveal_strlit("/");
        }
        text.append("/");
        push_decimal(&mut text, self.denominator as i64);
        assert(text@ =~= fraction_text(self@));
        text
    }
}

impl PartialEq for Fraction {
    fn eq(&self, other: &Fraction) -> (equal: bool) {
        self.numerator == other.numerator && self.denominator == other.denominator
    }
}

impl PartialEqSpecImpl for Fraction {
    open spec fn obeys_eq_spec() -> bool {
        true
    }

    open spec fn eq_spec(&self, other: &Fraction) -> bool {
        self@ == other@
    }
}

/// Equality of fractions is symmetric and transitive.
pub proof fn lemma_fraction_obeys_eq()
    ensures
        obeys_eq::<Fraction>(),
{
    reveal(obeys_eq_spec_properties);
}

/// The fraction of a numerator and a denominator has that numerator and that
/// denominator, as they stand.
pub proof fn lemma_of(numerator: i32, denominator: u32)
    ensures
        Fraction::of(numerator, denominator)@ == (Ratio {
            numerator: numerator as int,
            denominator: denominator as int,
        }),
{
}

/// A fraction is its numerator and denominator and nothing else.
pub proof fn lemma_view_injective(a: Fraction, b: Fraction)
    requires
        a@ == b@,
    ensures
        a == b,
{
}

/// Fractions are not reduced: two fractions are equal only when they have
/// the same numerator and the same denominator.
pub proof fn lemma_not_reduced(a: Fraction, b: Fraction)
    ensures
        same(a, b) <==> a@.numerator == b@.numerator && a@.denominator == b@.denominator,
{
}

} // verus!
