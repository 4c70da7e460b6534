//! The three kinds of number, and what each does with the value store:
//! adding the waiting input to its list, removing an entry, labelling the
//! entries, and finding the most occurring one.
//!
//! Real numbers are written out by a function that the caller hands in
//! (`render`): how a real number reads as text is not decided here. What is
//! returned is stated for whatever `render` gives.

use crate::fraction::{fraction_text, lemma_fraction_obeys_eq, Fraction};
use crate::frequency::{is_most_occurring_at, most_occurring_item, most_occurring_position};
use crate::number::{lemma_complex_obeys_eq, lemma_real_obeys_eq, Complex, Real};
use crate::state::{remove_at, remove_entry, Error, State, StateView};
use vstd::prelude::*;

verus! {

/// A kind of number.
#[derive(Clone, Copy, Debug, PartialEq, Eq, Structural)]
pub enum NumbersStrategy {
    RealNumbers,
    Fractions,
    ComplexNumbers,
}

impl NumbersStrategy {
    /// How many entries the list of this kind has.
    pub open spec fn count(self, v: StateView) -> nat {
        match self {
            NumbersStrategy::RealNumbers => v.real_numbers.len(),
            NumbersStrategy::Fractions => v.fractions.len(),
            NumbersStrategy::ComplexNumbers => v.complex_numbers.len(),
        }
    }

    /// Whether the input that waits for this kind can be added: always, but
    /// for a fraction whose denominator is zero.
    pub open spec fn accepts_input(self, v: StateView) -> bool {
        self == NumbersStrategy::Fractions ==> v.denominator != 0
    }

    /// The store after the waiting input of this kind was added to the end
    /// of its list; the store as it is where the input is not accepted.
    pub open spec fn after_add(self, v: StateView) -> StateView {
        match self {
            NumbersStrategy::RealNumbers => StateView {
                real_numbers: v.real_numbers.push(v.real_number),
                ..v
            },
            NumbersStrategy::Fractions => match Fraction::new(v.numerator, v.denominator) {
                Some(fraction) => StateView { fractions: v.fractions.push(fraction), ..v },
                None => v,
            },
            NumbersStrategy::ComplexNumbers => StateView {
                complex_numbers: v.complex_numbers.push(
                    Complex { re: v.real_part, im: v.imaginary_part },
                ),
                ..v
            },
        }
    }

    /// The store after the entry at `index` was taken out of the list of
    /// this kind; the store as it is where the list has no such entry.
    pub open spec fn after_remove(self, v: StateView, index: int) -> StateView {
        match self {
            NumbersStrategy::RealNumbers => StateView {
                real_numbers: remove_at(v.real_numbers, index),
                ..v
            },
            NumbersStrategy::Fractions => StateView {
                fractions: remove_at(v.fractions, index),
                ..v
            },
            NumbersStrategy::ComplexNumbers => StateView {
                complex_numbers: remove_at(v.complex_numbers, index),
                ..v
            },
        }
    }

    /// `text` is a label of the entry at position `i` of the list of this
    /// kind: for a real number what `render` gives, for a fraction its
    /// numerator and denominator with a slash between them, for a complex
    /// number what `Complex::is_label` says.
    pub open spec fn is_label_at<F: Fn(Real) -> String>(
        self,
        v: StateView,
        i: int,
        render: F,
        text: String,
    ) -> bool {
        match self {
            NumbersStrategy::RealNumbers => call_ensures(render, (v.real_numbers[i],), text),
            NumbersStrategy::Fractions => text@ == fraction_text(v.fractions[i]@),
            NumbersStrategy::ComplexNumbers => v.complex_numbers[i].is_label(render, text@),
        }
    }

    /// Position `i` holds the most occurring entry of the list of this kind.
    pub open spec fn is_most_occurring_at(self, v: StateView, i: int) -> bool {
        match self {
            NumbersStrategy::RealNumbers => is_most_occurring_at(v.real_numbers, i),
            NumbersStrategy::Fractions => is_most_occurring_at(v.fractions, i),
            NumbersStrategy::ComplexNumbers => is_most_occurring_at(v.complex_numbers, i),
        }
    }

    /// The position of the most occurring entry of the list of this kind,
    /// where the list has entries.
    pub open spec fn most_occurring_entry(self, v: StateView) -> int {
        match self {
            NumbersStrategy::RealNumbers => most_occurring_position(v.real_numbers),
            NumbersStrategy::Fractions => most_occurring_position(v.fractions),
            NumbersStrategy::ComplexNumbers => most_occurring_position(v.complex_numbers),
        }
    }

    /// The name of this kind, as shown to the user.
    pub fn ui_name(&self) -> (name: &'static str)
        ensures
            name@ == match self {
                NumbersStrategy::RealNumbers => "Real Numbers"@,
                NumbersStrategy::Fractions => "Fractions"@,
                NumbersStrategy::ComplexNumbers => "Complex Numbers"@,
            },
    {
        match self {
            NumbersStrategy::RealNumbers => "Real Numbers",
            NumbersStrategy::Fractions => "Fractions",
            NumbersStrategy::ComplexNumbers => "Complex Numbers",
        }
    }

    /// How many entries the list of this kind has.
    pub fn len(&self, state: &State) -> (len: usize)
        ensures
            len == self.count(state@),
    {
        match self {
            NumbersStrategy::RealNumbers => state.real_numbers.len(),
            NumbersStrategy::Fractions => state.fractions.len(),
            NumbersStrategy::ComplexNumbers => state.complex_numbers.len(),
        }
    }

    /// Adds the input that waits for this kind to the end of its list. A
    /// fraction with the denominator zero is turned down and nothing
    /// changes; everything else is accepted.
    pub fn add(&self, state: &mut State) -> (added: Result<(), Error>)
        ensures
            added == if self.accepts_input(old(state)@) {
                Ok::<(), Error>(())
            } else {
                Err::<(), Error>(Error::ZeroDenominator)
            },
            final(state)@ == self.after_add(old(state)@),
            !self.accepts_input(old(state)@) ==> final(state)@ == old(state)@,
    {
        match self {
            NumbersStrategy::RealNumbers => {
                state.real_numbers.push(state.real_number);
                Ok(())
            },
            NumbersStrategy::Fractions => {
                match Fraction::new(state.numerator, state.denominator) {
                    Some(fraction) => {
                        state.fractions.push(fraction);
                        Ok(())
                    },
                    None => Err(Error::ZeroDenominator),
                }
            },
            NumbersStrategy::ComplexNumbers => {
                state.complex_numbers.push(
                    Complex { re: state.real_part, im: state.imaginary_part },
                );
                Ok(())
            },
        }
    }

    /// Takes the entry at `index` out of the list of this kind. A position
    /// that the list does not have is turned down and nothing changes.
    pub fn remove(&self, state: &mut State, index: usize) -> (removed: Result<(), Error>)
        ensures
            removed == if index < self.count(old(state)@) {
                Ok::<(), Error>(())
            } else {
                Err::<(), Error>(Error::OutOfRange)
            },
            final(state)@ == self.after_remove(old(state)@, index as int),
            index >= self.count(old(state)@) ==> final(state)@ == old(state)@,
    {
        match self {
            NumbersStrategy::RealNumbers => remove_entry(&mut state.real_numbers, index),
            NumbersStrategy::Fractions => remove_entry(&mut state.fractions, index),
            NumbersStrategy::ComplexNumbers => remove_entry(&mut state.complex_numbers, index),
        }
    }

    /// The labels of the entries of the list of this kind, in their order.
    pub fn ui_list<F: Fn(Real) -> String>(&self, state: &State, render: &F) -> (labels: Vec<
        String,
    >)
        requires
            forall|x: Real| call_requires(*render, (x,)),
        ensures
            labels@.len() == self.count(state@),
            forall|i: int|
                0 <= i < labels@.len() ==> self.is_label_at(
                    state@,
                    i,
                    *render,
                    #[trigger] labels@[i],
                ),
    {
        let mut labels: Vec<String> = Vec::new();
        let n: usize = self.len(state);
        let mut i: usize = 0;
        while i < n
            invariant
                forall|x: Real| call_requires(*render, (x,)),
                n == self.count(state@),
                i <= n,
                labels@.len() == i,
                forall|k: int|
                    0 <= k < i ==> self.is_label_at(state@, k, *render, #[trigger] labels@[k]),
            decreases n - i,
        {
            let text = self.label_at(state, i, render);
            labels.push(text);
            i += 1;
        }
        labels
    }

    /// The label of the entry at position `i` of the list of this kind.
    fn label_at<F: Fn(Real) -> String>(&self, state: &State, i: usize, render: &F) -> (text:
        String)
        requires
            i < self.count(state@),
            forall|x: Real| call_requires(*render, (x,)),
        ensures
            self.is_label_at(state@, i as int, *render, text),
    {
        match self {
            NumbersStrategy::RealNumbers => render(state.real_numbers[i]),
            NumbersStrategy::Fractions => state.fractions[i].label(),
            NumbersStrategy::ComplexNumbers => state.complex_numbers[i].label(render),
        }
    }

    /// The label of the most occurring entry of the list of this kind, or
    /// `None` where the list is empty.
    pub fn most_occurring<F: Fn(Real) -> String>(&self, state: &State, render: &F) -> (found:
        Option<String>)
        requires
            forall|x: Real| call_requires(*render, (x,)),
        ensures
            found is None <==> self.count(state@) == 0,
            found matches Some(text) ==> self.is_most_occurring_at(
                state@,
                self.most_occurring_entry(state@),
            ) && self.is_label_at(state@, self.most_occurring_entry(state@), *render, text),
    {
        match self {
            NumbersStrategy::RealNumbers => {
                proof {
                    lemma_real_obeys_eq();
                }
                match most_occurring_item(state.real_numbers.as_slice()) {
                    None => None,
                    Some(number) => Some(render(number)),
                }
            },
            NumbersStrategy::Fractions => {
                proof {
                    lemma_fraction_obeys_eq();
                }
                match most_occurring_item(state.fractions.as_slice()) {
                    None => None,
                    Some(fraction) => Some(fraction.label()),
                }
            },
            NumbersStrategy::ComplexNumbers => {
                proof {
                    lemma_complex_obeys_eq();
                }
                match most_occurring_item(state.complex_numbers.as_slice()) {
                    None => None,
                    Some(number) => Some(number.label(render)),
                }
            },
        }
    }
}

/// Removing at a position that the list does not have leaves the store as it
/// is.
pub proof fn lemma_remove_out_of_range(strategy: NumbersStrategy, v: StateView, index: int)
    requires
        index >= strategy.count(v),
    ensures
        strategy.after_remove(v, index) == v,
{
}

/// Removing at a position that the list has makes that list one shorter and
/// leaves the lists of the other kinds as they are.
pub proof fn lemma_remove_in_range(strategy: NumbersStrategy, v: StateView, index: int)
    requires
        0 <= index < strategy.count(v),
    ensures
        strategy.count(strategy.after_remove(v, index)) == strategy.count(v) - 1,
        forall|other: NumbersStrategy|
            other != strategy ==> other.count(strategy.after_remove(v, index)) == other.count(v),
{
}

} // verus!
