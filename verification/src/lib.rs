//! Self-relocation logic for a statically linked position-independent
//! executable, verified over an explicit model of the process image.
//!
//! The code that runs at process entry must patch every load-bias-relative
//! pointer in the image before anything else can work. This crate states and
//! proves that logic: [`memory`] models a span of the process image as plain
//! words, [`engine`] scans the dynamic table and applies the two relocation
//! encodings, [`bootstrap`] walks the initial stack and the program headers
//! to compute the load bias, and [`laws`] proves the properties the engine
//! guarantees.

pub mod bootstrap;
pub mod engine;
pub mod laws;
pub mod memory;
