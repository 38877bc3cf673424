//! UltraFXR: an offline sound-effects compiler.
//!
//! The library covers the synthesis pipeline from source text to a scheduled
//! audio program: a unit-aware S-expression tokenizer and parser, a typed and
//! unit-checked evaluator that emits an acyclic dataflow graph of DSP node
//! descriptions, and a topological scheduler that turns the graph into an
//! execution plan. Floating-point rendering and file I/O live outside the
//! library; everything here works on plain values and is verified.

pub mod args;
pub mod color;
pub mod config;
pub mod diag;
pub mod evaluate;
pub mod graph;
pub mod note;
pub mod number;
pub mod parser;
pub mod rand;
pub mod schedule;
pub mod sexpr;
pub mod sourcepos;
pub mod sourcetext;
pub mod token;
pub mod wave;
pub mod units;
pub mod utf8;

use vstd::prelude::*;

verus! {

} // verus!
