//! Combinators that cut a fixed-width text record into typed fields.
//!
//! A [`parser::Parser`] tree partitions a buffer into consecutive slices; each
//! leaf hands its slice to a [`chain::Chain`] of operations that trim, test,
//! convert and finally store the value in a destination held by
//! [`slots::Slots`].
//!
//! - [`utils`]: the slicing primitives that the leaves are made of;
//! - [`number`]: the decimal numerals that the conversions read;
//! - [`chain`]: operations and the builders of chains;
//! - [`slots`]: the destinations;
//! - [`evaluator`]: what a chain does to a slice and to the destinations;
//! - [`parser`]: the tree and its walk;
//! - [`inspect`]: a rendering of a tree as text;
//! - [`runs`] and [`text`]: the mathematics of lexical runs and of UTF-8 that
//!   the contracts rest on.
//!
//! Texts are modelled by the bytes of their UTF-8 encoding. The library
//! holds no floating-point value: a real number is carried as the numeral
//! that denotes it.
pub mod chain;
pub mod evaluator;
pub mod inspect;
pub mod number;
pub mod parser;
pub mod runs;
pub mod slots;
pub mod text;
pub mod utils;
