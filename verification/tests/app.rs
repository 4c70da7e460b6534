use lab2::app::{App, Event};
use lab2::number::Real;
use lab2::state::Error;
use lab2::strategy::NumbersStrategy;

fn shown(x: Real) -> String {
    f32::from_bits(x.bits).to_string()
}

fn session_with_reals(values: &[f32]) -> App {
    let mut app = App::default();
    for value in values {
        app.state.real_number = Real { bits: value.to_bits() };
        assert_eq!(app.add(), Ok(()));
    }
    app
}

fn labels(app: &App) -> Vec<String> {
    app.strategy.ui_list(&app.state, &shown)
}

#[test]
fn fresh_session() {
    let app = App::default();
    assert_eq!(app.strategy, NumbersStrategy::RealNumbers);
    assert!(app.state.real_numbers.is_empty());
    assert!(app.state.fractions.is_empty());
    assert!(app.state.complex_numbers.is_empty());
    assert_eq!(app.state.denominator, 1);
    assert_eq!(app.state.most_occurring, None);
}

#[test]
fn selecting_clears_the_display_and_keeps_the_lists() {
    let mut app = session_with_reals(&[1.0, 1.0, 2.0]);
    app.find_most_occurring(&shown);
    assert_eq!(app.state.most_occurring, Some("1".to_string()));
    app.select(NumbersStrategy::Fractions);
    assert_eq!(app.strategy, NumbersStrategy::Fractions);
    assert_eq!(app.state.most_occurring, None);
    assert_eq!(app.state.real_numbers.len(), 3);
    app.state.numerator = 1;
    app.state.denominator = 2;
    assert_eq!(app.add(), Ok(()));
    app.select(NumbersStrategy::RealNumbers);
    assert_eq!(labels(&app), vec!["1", "1", "2"]);
    app.select(NumbersStrategy::Fractions);
    assert_eq!(labels(&app), vec!["1/2"]);
}

#[test]
fn selecting_the_selected_kind_clears_the_display_too() {
    let mut app = session_with_reals(&[3.0]);
    app.find_most_occurring(&shown);
    assert_eq!(app.state.most_occurring, Some("3".to_string()));
    app.select(NumbersStrategy::RealNumbers);
    assert_eq!(app.state.most_occurring, None);
    assert_eq!(labels(&app), vec!["3"]);
}

#[test]
fn adding_goes_to_the_selected_kind() {
    let mut app = App::default();
    app.select(NumbersStrategy::ComplexNumbers);
    app.state.real_part = Real { bits: 1.0f32.to_bits() };
    app.state.imaginary_part = Real { bits: (-2.0f32).to_bits() };
    assert_eq!(app.add(), Ok(()));
    assert_eq!(app.add(), Ok(()));
    assert_eq!(labels(&app), vec!["1 + -2i", "1 + -2i"]);
    assert!(app.state.real_numbers.is_empty());
    app.select(NumbersStrategy::Fractions);
    app.state.denominator = 0;
    assert_eq!(app.add(), Err(Error::ZeroDenominator));
    assert!(app.state.fractions.is_empty());
}

#[test]
fn finding_on_an_empty_list_shows_none() {
    let mut app = App::default();
    app.find_most_occurring(&shown);
    assert_eq!(app.state.most_occurring, Some("none".to_string()));
    app.select(NumbersStrategy::Fractions);
    assert_eq!(app.state.most_occurring, None);
    app.find_most_occurring(&shown);
    assert_eq!(app.state.most_occurring, Some("none".to_string()));
}

#[test]
fn finding_shows_the_label_of_the_most_occurring_entry() {
    let mut app = session_with_reals(&[1.0, 2.0, 1.0, 3.0, 1.0]);
    app.find_most_occurring(&shown);
    assert_eq!(app.state.most_occurring, Some("1".to_string()));
    assert_eq!(labels(&app), vec!["1", "2", "1", "3", "1"]);
    assert_eq!(app.strategy, NumbersStrategy::RealNumbers);
}

#[test]
fn display_stays_until_asked_again() {
    let mut app = session_with_reals(&[1.0, 1.0, 2.0]);
    app.find_most_occurring(&shown);
    app.remove_clicked(&[0, 1]);
    assert_eq!(labels(&app), vec!["2"]);
    assert_eq!(app.state.most_occurring, Some("1".to_string()));
    app.find_most_occurring(&shown);
    assert_eq!(app.state.most_occurring, Some("2".to_string()));
}

#[test]
fn clicked_entries_are_removed() {
    let mut app = session_with_reals(&[10.0, 11.0, 12.0, 13.0, 14.0]);
    app.remove_clicked(&[0, 2, 4]);
    assert_eq!(labels(&app), vec!["11", "13"]);
    app.remove_clicked(&[]);
    assert_eq!(labels(&app), vec!["11", "13"]);
    app.remove_clicked(&[1]);
    assert_eq!(labels(&app), vec!["11"]);
    app.remove_clicked(&[0]);
    assert!(labels(&app).is_empty());
}

#[test]
fn all_entries_clicked_at_once() {
    let mut app = session_with_reals(&[1.0, 2.0, 3.0]);
    app.remove_clicked(&[0, 1, 2]);
    assert!(labels(&app).is_empty());
}

#[test]
fn stale_clicks_are_passed_over() {
    let mut app = session_with_reals(&[1.0, 2.0, 3.0]);
    app.remove_clicked(&[1, 7]);
    assert_eq!(labels(&app), vec!["1", "3"]);
    app.remove_clicked(&[5]);
    assert_eq!(labels(&app), vec!["1", "3"]);
}

#[test]
fn clicks_are_worked_off_from_the_last() {
    let mut app = session_with_reals(&[1.0, 2.0, 3.0, 4.0]);
    app.remove_clicked(&[2, 0, 2]);
    assert_eq!(labels(&app), vec!["2", "4"]);
    let mut other = session_with_reals(&[1.0, 2.0, 3.0, 4.0]);
    other.remove_clicked(&[3, 0]);
    assert_eq!(labels(&other), vec!["2", "3", "4"]);
}

#[test]
fn events_do_what_the_methods_do() {
    let mut app = App::default();
    app.state.real_number = Real { bits: 7.0f32.to_bits() };
    assert_eq!(app.update(Event::AddClicked, &shown), Ok(()));
    assert_eq!(app.update(Event::AddClicked, &shown), Ok(()));
    app.state.real_number = Real { bits: 8.0f32.to_bits() };
    assert_eq!(app.update(Event::AddClicked, &shown), Ok(()));
    assert_eq!(labels(&app), vec!["7", "7", "8"]);
    assert_eq!(app.update(Event::FindClicked, &shown), Ok(()));
    assert_eq!(app.state.most_occurring, Some("7".to_string()));
    assert_eq!(app.update(Event::EntriesClicked(vec![0, 1]), &shown), Ok(()));
    assert_eq!(labels(&app), vec!["8"]);
    assert_eq!(
        app.update(Event::StrategySelected(NumbersStrategy::Fractions), &shown),
        Ok(())
    );
    assert_eq!(app.strategy, NumbersStrategy::Fractions);
    assert_eq!(app.state.most_occurring, None);
    app.state.denominator = 0;
    assert_eq!(app.update(Event::AddClicked, &shown), Err(Error::ZeroDenominator));
    app.state.denominator = 3;
    assert_eq!(app.update(Event::AddClicked, &shown), Ok(()));
    assert_eq!(labels(&app), vec!["0/3"]);
    assert_eq!(app.update(Event::FindClicked, &shown), Ok(()));
    assert_eq!(app.state.most_occurring, Some("0/3".to_string()));
}
