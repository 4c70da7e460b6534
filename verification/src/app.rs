//! The session: the value store together with the kind of number that is
//! selected, and what each action of the user does to them.
//!
//! The window itself is drawn elsewhere. Whoever draws it tells this module
//! what the user did, as an [`Event`], and shows what the store then holds.

use crate::number::Real;
use crate::state::{initial_state, remove_each, Error, State, StateView};
use crate::strategy::NumbersStrategy;
use vstd::prelude::*;

verus! {

/// Something the user did.
#[derive(Debug)]
pub enum Event {
    /// A kind of number was picked in the selector.
    StrategySelected(NumbersStrategy),
    /// "Add" was clicked.
    AddClicked,
    /// Entries of the list on display were clicked, at these positions.
    EntriesClicked(Vec<usize>),
    /// "Find most occurring" was clicked.
    FindClicked,
}

/// The session.
#[derive(Debug)]
pub struct App {
    /// The value store.
    pub state: State,
    /// The kind of number that is selected.
    pub strategy: NumbersStrategy,
}

/// The session as a mathematical value.
pub ghost struct AppView {
    pub state: StateView,
    pub strategy: NumbersStrategy,
}

impl View for App {
    type V = AppView;

    open spec fn view(&self) -> AppView {
        AppView { state: self.state@, strategy: self.strategy }
    }
}

impl Default for App {
    /// A fresh session: the store as it starts, and real numbers selected.
    fn default() -> (app: App)
        ensures
            app@ == (AppView { state: initial_state(), strategy: NumbersStrategy::RealNumbers }),
    {
        App { state: State::new(), strategy: NumbersStrategy::RealNumbers }
    }
}

/// The store after the entries at the positions `indexes` of the list of
/// kind `strategy` were taken out, the last of `indexes` first.
pub open spec fn after_clicks(strategy: NumbersStrategy, v: StateView, indexes: Seq<usize>) -> StateView {
    match strategy {
        NumbersStrategy::RealNumbers => StateView {
            real_numbers: remove_each(v.real_numbers, indexes),
            ..v
        },
        NumbersStrategy::Fractions => StateView {
            fractions: remove_each(v.fractions, indexes),
            ..v
        },
        NumbersStrategy::ComplexNumbers => StateView {
            complex_numbers: remove_each(v.complex_numbers, indexes),
            ..v
        },
    }
}

/// `text` is what goes on display when the most occurring entry of the list
/// of kind `strategy` is asked for: a label of that entry, or the word `none`
/// where the list is empty.
pub open spec fn is_display<F: Fn(Real) -> String>(
    strategy: NumbersStrategy,
    v: StateView,
    render: F,
    text: String,
) -> bool {
    if strategy.count(v) == 0 {
        text@ == "none"@
    } else {
        strategy.is_label_at(v, strategy.most_occurring_entry(v), render, text)
    }
}

impl App {
    /// Selects a kind of number. The result on display is cleared; the
    /// lists, also those of the other kinds, stay as they are.
    pub fn select(&mut self, strategy: NumbersStrategy)
        ensures
            final(self)@ == (AppView {
                state: StateView { most_occurring: None, ..old(self)@.state },
                strategy,
            }),
    {
        self.strategy = strategy;
        self.state.most_occurring = None;
    }

    /// Adds the waiting input of the selected kind to its list.
    pub fn add(&mut self) -> (added: Result<(), Error>)
        ensures
            added == if old(self).strategy.accepts_input(old(self)@.state) {
                Ok::<(), Error>(())
            } else {
                Err::<(), Error>(Error::ZeroDenominator)
            },
            final(self)@ == (AppView {
                state: old(self).strategy.after_add(old(self)@.state),
                ..old(self)@
            }),
    {
        let strategy = self.strategy;
        strategy.add(&mut self.state)
    }

    /// Takes the clicked entries out of the list of the selected kind. The
    /// positions are worked off from the last to the first, so that with
    /// ascending positions no removal moves an entry that is still to go.
    pub fn remove_clicked(&mut self, indexes: &[usize])
        ensures
            final(self)@ == (AppView {
                state: after_clicks(old(self).strategy, old(self)@.state, indexes@),
                ..old(self)@
            }),
    {
        let strategy = self.strategy;
        let mut k: usize = indexes.len();
        assert(indexes@.subrange(k as int, indexes@.len() as int) =~= Seq::<usize>::empty());
        while k > 0
            invariant
                k <= indexes@.len(),
                strategy == old(self).strategy,
                self@ == (AppView {
                    state: after_clicks(
                        strategy,
                        old(self)@.state,
                        indexes@.subrange(k as int, indexes@.len() as int),
                    ),
                    ..old(self)@
                }),
            decreases k,
        {
            k -= 1;
            let _ = strategy.remove(&mut self.state, indexes[k]);
            assert(indexes@.subrange(k as int, indexes@.len() as int).drop_first()
                =~= indexes@.subrange(k + 1, indexes@.len() as int));
        }
        assert(indexes@.subrange(0, indexes@.len() as int) =~= indexes@);
    }

    /// Puts the most occurring entry of the list of the selected kind on
    /// display, or the word `none` where the list is empty.
    pub fn find_most_occurring<F: Fn(Real) -> String>(&mut self, render: &F)
        requires
            forall|x: Real| call_requires(*render, (x,)),
        ensures
            final(self)@ == (AppView {
                state: StateView {
                    most_occurring: final(self)@.state.most_occurring,
                    ..old(self)@.state
                },
                ..old(self)@
            }),
            final(self)@.state.most_occurring matches Some(text) && is_display(
                old(self).strategy,
                old(self)@.state,
                *render,
                text,
            ),
    {
        let text = match self.strategy.most_occurring(&self.state, render) {
            Some(label) => label,
            None => "none".to_owned(),
        };
        self.state.most_occurring = Some(text);
    }

    /// `after` and `outcome` are what `update` leaves for `event`.
    pub open spec fn updates_to<F: Fn(Real) -> String>(
        before: AppView,
        event: Event,
        render: F,
        after: AppView,
        outcome: Result<(), Error>,
    ) -> bool {
        match event {
            Event::StrategySelected(strategy) => {
                &&& outcome is Ok
                &&& after == (AppView {
                    state: StateView { most_occurring: None, ..before.state },
                    strategy,
                })
            },
            Event::AddClicked => {
                &&& outcome is Ok <==> before.strategy.accepts_input(before.state)
                &&& outcome is Err ==> outcome == Err::<(), Error>(Error::ZeroDenominator)
                &&& after == (AppView { state: before.strategy.after_add(before.state), ..before })
            },
            Event::EntriesClicked(indexes) => {
                &&& outcome is Ok
                &&& after == (AppView {
                    state: after_clicks(before.strategy, before.state, indexes@),
                    ..before
                })
            },
            Event::FindClicked => {
                &&& outcome is Ok
                &&& after == (AppView {
                    state: StateView {
                        most_occurring: after.state.most_occurring,
                        ..before.state
                    },
                    ..before
                })
                &&& after.state.most_occurring matches Some(text) && is_display(
                    before.strategy,
                    before.state,
                    render,
                    text,
                )
            },
        }
    }

    /// Takes in one action of the user.
    pub fn update<F: Fn(Real) -> String>(&mut self, event: Event, render: &F) -> (outcome: Result<
        (),
        Error,
    >)
        requires
            forall|x: Real| call_requires(*render, (x,)),
        ensures
            App::updates_to(old(self)@, event, *render, final(self)@, outcome),
    {
        match event {
            Event::StrategySelected(strategy) => {
                self.select(strategy);
                Ok(())
            },
            Event::AddClicked => self.add(),
            Event::EntriesClicked(indexes) => {
                self.remove_clicked(indexes.as_slice());
                Ok(())
            },
            Event::FindClicked => {
                self.find_most_occurring(render);
                Ok(())
            },
        }
    }
}

} // verus!
