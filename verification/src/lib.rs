//! Exact rational numbers for recipe quantities.
//!
//! The core of the crate is [`rational::Rational`]: a canonicalized
//! fraction over 64-bit integers, together with a deterministic
//! finite-state parser for the small grammar of human-typed quantity
//! notations (plain integers, simple fractions, mixed numbers and
//! Unicode vulgar-fraction glyphs such as `½`) and a formatter that
//! renders a canonical fraction back into the most natural of the
//! equivalent textual forms.

pub mod format;
pub mod handler;
pub mod parse;
pub mod rational;
pub mod repository;
pub mod roundtrip;
pub mod vulgar;

pub use parse::MixedFraction;
pub use parse::RationalParseError;
pub use rational::Rational;
pub use rational::RationalError;
