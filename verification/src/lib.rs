//! A programming-by-example synthesizer for a small string language: given
//! input/output examples, a best-first worklist search enumerates candidate
//! programs, prunes them through abstract interpretation over a string-length
//! lattice, and returns the programs consistent with every example.

pub mod abstraction;
pub mod concrete;
pub mod environment;
pub mod interpreter;
pub mod linear;
pub mod pythonlang;
pub mod render;
pub mod strlenlat;
pub mod syguslang;
pub mod synthesizer;
pub mod types;
pub mod values;
