//! A line-oriented text transformer. A list of command tokens is compiled into a
//! pipeline of units; each input line is sent through the units in their order,
//! and comes out changed, unchanged, or not at all.
//!
//! [`parse::parse_args`] compiles the tokens, and [`program::Program::run`] sends
//! one line through the pipeline. [`model`] says what the units and the pipeline
//! do, and holds the laws that follow from it.

pub mod grammar;
pub mod model;
pub mod parse;
pub mod pattern;
pub mod program;
pub mod range;
pub mod text;
