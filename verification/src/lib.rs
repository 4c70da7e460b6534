//! Lists of numbers of three kinds (real numbers, fractions, complex
//! numbers) and the most occurring entry of such a list.
//!
//! [`frequency`] finds the most occurring item of any list. [`number`] and
//! [`fraction`] hold the three kinds of number, [`state`] the lists, and
//! [`strategy`] what each kind does with them. [`app`] is the session that a
//! window is drawn from.

// The modules stand from the bottom up: Verus proves the `==` of `number` and
// `fraction` only where these two come before the modules that use them.
pub mod decimal;
pub mod fraction;
pub mod frequency;
pub mod number;
pub mod state;
pub mod strategy;
pub mod app;
