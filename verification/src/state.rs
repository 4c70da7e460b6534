//! The value store: one list of entered values for each kind of number, the
//! inputs that are waiting to be added, and the result that is on display.

use crate::fraction::Fraction;
use crate::number::{Complex, Real};
use vstd::prelude::*;

verus! {

/// Why an operation on the store was turned down.
#[derive(Clone, Copy, Debug, PartialEq, Eq, Structural)]
pub enum Error {
    /// A fraction was to be made with the denominator zero.
    ZeroDenominator,
    /// A position was named that the list does not have.
    OutOfRange,
}

/// The value store.
#[derive(Debug)]
pub struct State {
    /// The real number that waits to be added.
    pub real_number: Real,
    /// The real numbers entered so far, in the order in which they came.
    pub real_numbers: Vec<Real>,
    /// The numerator that waits to be added.
    pub numerator: i32,
    /// The denominator that waits to be added.
    pub denominator: u32,
    /// The fractions entered so far, in the order in which they came.
    pub fractions: Vec<Fraction>,
    /// The real part that waits to be added.
    pub real_part: Real,
    /// The imaginary part that waits to be added.
    pub imaginary_part: Real,
    /// The complex numbers entered so far, in the order in which they came.
    pub complex_numbers: Vec<Complex>,
    /// The result on display, where one was asked for since the kind of
    /// number was last chosen.
    pub most_occurring: Option<String>,
}

/// The value store as a mathematical value.
pub ghost struct StateView {
    pub real_number: Real,
    pub real_numbers: Seq<Real>,
    pub numerator: i32,
    pub denominator: u32,
    pub fractions: Seq<Fraction>,
    pub real_part: Real,
    pub imaginary_part: Real,
    pub complex_numbers: Seq<Complex>,
    pub most_occurring: Option<String>,
}

impl View for State {
    type V = StateView;

    open spec fn view(&self) -> StateView {
        StateView {
            real_number: self.real_number,
            real_numbers: self.real_numbers@,
            numerator: self.numerator,
            denominator: self.denominator,
            fractions: self.fractions@,
            real_part: self.real_part,
            imaginary_part: self.imaginary_part,
            complex_numbers: self.complex_numbers@,
            most_occurring: self.most_occurring,
        }
    }
}

/// The store that a session starts with: every list empty, nothing on
/// display, and `0`, `0/1` and `0 + 0i` waiting to be added.
pub open spec fn initial_state() -> StateView {
    StateView {
        real_number: Real { bits: 0 },
        real_numbers: Seq::empty(),
        numerator: 0,
        denominator: 1,
        fractions: Seq::empty(),
        real_part: Real { bits: 0 },
        imaginary_part: Real { bits: 0 },
        complex_numbers: Seq::empty(),
        most_occurring: None,
    }
}

impl State {
    /// The store that a session starts with.
    pub fn new() -> (state: State)
        ensures
            state@ == initial_state(),
    {
        State {
            real_number: Real { bits: 0 },
            real_numbers: Vec::new(),
            numerator: 0,
            denominator: 1,
            fractions: Vec::new(),
            real_part: Real { bits: 0 },
            imaginary_part: Real { bits: 0 },
            complex_numbers: Vec::new(),
            most_occurring: None,
        }
    }
}

/// The list without the entry at `index`; the list itself where it has no
/// such entry.
pub open spec fn remove_at<T>(s: Seq<T>, index: int) -> Seq<T> {
    if 0 <= index < s.len() {
        s.remove(index)
    } else {
        s
    }
}

/// Takes the entry at `index` out of the list. A position that the list does
/// not have is turned down, and the list stays as it is.
pub fn remove_entry<T>(list: &mut Vec<T>, index: usize) -> (removed: Result<(), Error>)
    ensures
        removed == if index < old(list)@.len() {
            Ok::<(), Error>(())
        } else {
            Err::<(), Error>(Error::OutOfRange)
        },
        final(list)@ == remove_at(old(list)@, index as int),
{
    if index < list.len() {
        let _ = list.remove(index);
        Ok(())
    } else {
        Err(Error::OutOfRange)
    }
}

/// The list after the entries at the positions `indexes` were taken out one
/// by one, the last of `indexes` first and the first of them last. A position
/// that the list does not have when its turn comes is passed over.
pub open spec fn remove_each<T>(s: Seq<T>, indexes: Seq<usize>) -> Seq<T>
    decreases indexes.len(),
{
    if indexes.len() == 0 {
        s
    } else {
        remove_at(remove_each(s, indexes.drop_first()), indexes.first() as int)
    }
}

/// The entries of `s` whose positions are not in `gone`, in their order.
pub open spec fn without<T>(s: Seq<T>, gone: Set<int>) -> Seq<T>
    decreases s.len(),
{
    if s.len() == 0 {
        s
    } else if gone.contains(s.len() - 1) {
        without(s.drop_last(), gone)
    } else {
        without(s.drop_last(), gone).push(s.last())
    }
}

/// The positions that `indexes` names.
pub open spec fn positions(indexes: Seq<usize>) -> Set<int> {
    Set::new(|p: int| exists|k: int| 0 <= k < indexes.len() && #[trigger] indexes[k] == p)
}

/// Each of `indexes` is larger than the one before it.
pub open spec fn ascending(indexes: Seq<usize>) -> bool {
    forall|a: int, b: int| 0 <= a < b < indexes.len() ==> indexes[a] < indexes[b]
}

/// Where none of its positions is in `gone`, the whole list stays.
proof fn lemma_without_nothing<T>(s: Seq<T>, gone: Set<int>)
    requires
        forall|p: int| 0 <= p < s.len() ==> !gone.contains(p),
    ensures
        without(s, gone) == s,
    decreases s.len(),
{
    if s.len() > 0 {
        lemma_without_nothing(s.drop_last(), gone);
        assert(s.drop_last().push(s.last()) =~= s);
    }
}

/// Taking out the entry at a position below all those that are gone already
/// gives the list without that position as well.
proof fn lemma_without_one_more<T>(s: Seq<T>, gone: Set<int>, a: int)
    requires
        0 <= a < s.len(),
        forall|p: int| gone.contains(p) ==> a < p,
    ensures
        a < without(s, gone).len(),
        remove_at(without(s, gone), a) == without(s, gone.insert(a)),
    decreases s.len(),
{
    let m = s.len() - 1;
    let front = s.drop_last();
    if m == a {
        lemma_without_nothing(s, gone);
        lemma_without_nothing(front, gone.insert(a));
        assert(s.remove(a) =~= front);
    } else {
        lemma_without_one_more(front, gone, a);
        if !gone.contains(m) {
            let kept = without(front, gone);
            assert(kept.push(s.last()).remove(a) =~= kept.remove(a).push(s.last()));
        }
    }
}

/// Worked off from the last to the first, clicks at ascending positions of
/// the list take out exactly the entries that were clicked: no removal moves
/// an entry that is still to go.
pub proof fn lemma_remove_each_ascending<T>(s: Seq<T>, indexes: Seq<usize>)
    requires
        ascending(indexes),
        forall|k: int| 0 <= k < indexes.len() ==> indexes[k] < s.len(),
    ensures
        remove_each(s, indexes) == without(s, positions(indexes)),
        remove_each(s, indexes).len() == s.len() - indexes.len(),
    decreases indexes.len(),
{
    if indexes.len() == 0 {
        lemma_without_nothing(s, positions(indexes));
    } else {
        let a = indexes.first() as int;
        let rest = indexes.drop_first();
        assert forall|k: int| 0 <= k < rest.len() implies a < #[trigger] rest[k] < s.len() by {
            assert(rest[k] == indexes[k + 1]);
        }
        assert(ascending(rest)) by {
            assert forall|c: int, d: int| 0 <= c < d < rest.len() implies rest[c] < rest[d] by {
                assert(rest[c] == indexes[c + 1] && rest[d] == indexes[d + 1]);
            }
        }
        lemma_remove_each_ascending(s, rest);
        lemma_without_one_more(s, positions(rest), a);
        assert(positions(indexes) =~= positions(rest).insert(a)) by {
            assert forall|p: int| positions(indexes).contains(p) implies positions(rest).insert(
                a,
            ).contains(p) by {
                let k = choose|k: int| 0 <= k < indexes.len() && #[trigger] indexes[k] == p;
                if k > 0 {
                    assert(rest[k - 1] == p);
                }
            }
            assert forall|p: int| positions(rest).insert(a).contains(p) implies positions(
                indexes,
            ).contains(p) by {
                if p == a {
                    assert(indexes[0] == p);
                } else {
                    let k = choose|k: int| 0 <= k < rest.len() && #[trigger] rest[k] == p;
                    assert(indexes[k + 1] == p);
                }
            }
        }
    }
}

} // verus!
