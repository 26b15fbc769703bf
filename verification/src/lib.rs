//! Mojikun: a small tape-based language whose programs are written in emoji.
//!
//! A program is a sequence of single-character instructions that move a data
//! pointer over a tape of 30000 signed 8-bit cells, change the cell under it,
//! read and print, and loop. The crate turns source text into instructions
//! (`lexer`, `parser`), resolves the loops of a program (`loops`) and runs it
//! (`interpreter`) on a tape (`runtime`).
//!
//! What a program means is stated as a mathematical model: the nesting depth
//! that pairs loop begins with loop ends, and a transition function on tape
//! states. Every function of the crate is proved against that model.

pub mod error;
pub mod interpreter;
pub mod lexer;
pub mod loops;
pub mod parser;
pub mod runtime;
pub mod text;
