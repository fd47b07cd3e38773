//! Two compile-time passes over a small model of Rust syntax.
//!
//! The builder synthesizer plans, for a record with named fields, a builder
//! type with one member and one setter per field ([`builder`]), after
//! matching the types of the fields against the wrappers it knows
//! ([`wrapper`]) and reading their directives ([`directive`]). What the
//! planned builder does is stated on values in [`behaviour`].
//!
//! The order checker reports the first pair of names out of lexical order
//! ([`order`], [`text`]): among the cases of an enumeration ([`sorted`]), and
//! among the arms of every marked match that a walk through a function
//! reaches ([`check`]).
//!
//! The passes read and write the model in [`syntax`]; a driver parses the
//! input into it and emits tokens from what the passes return.

pub mod syntax;
pub mod text;
pub mod order;
pub mod wrapper;
pub mod directive;
pub mod builder;
pub mod behaviour;
pub mod sorted;
pub mod check;
