//! Technical-analysis indicators over binary64 series, in a batch form and
//! in an incremental form that continues a batch from its state.
//!
//! A sample is a [`float::Float`]: a binary64 value held by its bit pattern.
//! What can be read off the bits (whether a value is finite, how two values
//! compare) is decided in this crate. What needs rounding (sums, products,
//! quotients, roots) comes from an [`arith::Arith`] that the caller passes
//! in; the crate decides what is computed from what, in which order, and
//! what is checked on the way.
//!
//! Each indicator has in `indicators` a module of its own with
//! - spec functions that say which value is due at each position,
//! - a batch function that returns one value for each sample, NaN before
//!   the lookback, and the state after the last sample,
//! - a step that moves a state on by one sample.
//!
//! The contracts have two layers. What holds whatever the arithmetic
//! returns is stated outright: which parameters are refused and with which
//! text, where the output holds NaN and where finite values, what the state
//! holds of the input, and that a failure over finite samples is an
//! overflow. What the values are is stated for an arithmetic that is a
//! function of its arguments ([`arith::exact`]): the output is then the
//! sequence that the spec functions name, and a calculation ends at the
//! first position whose sample or value is not finite
//! ([`series::decided`]).
//!
//! For each indicator two laws are proved over these spec functions: the
//! values of a prefix are a prefix of the values (no lookahead), and one
//! step from the state after a prefix gives the value that is due at the
//! next position (streaming consistency). Each is proved a second time of
//! what the functions return: where the batch over a series comes out, the
//! batch over a prefix comes out with the prefix of its values, and the
//! state after a prefix takes the next sample and steps to the next value.
//! A step tests the values that a state stores; where the batch does not
//! test one of them, the law asks that it is finite.
pub mod arith;
pub mod errors;
pub mod float;
pub mod helper;
pub mod indicators;
pub mod series;
pub mod traits;
