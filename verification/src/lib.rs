//! A single-pass bytecode compiler and a stack machine for a small
//! dynamically typed scripting language, with machine-checked contracts.
//!
//! Program text, lexemes, interned strings and output are byte sequences.
//! A number is an IEEE-754 double carried as its 64-bit pattern: comparing
//! and negating are done here, on the pattern; what needs floating-point
//! hardware (reading a literal, arithmetic, printing) is asked of the host
//! through [`vm::Request`] and answered with a [`vm::Reply`].
//!
//! - [`strings`]: the interner.
//! - [`value`], [`chunk`]: values, instructions and the compiled program.
//! - [`scanner`], [`token`], [`lexer`]: from bytes to tokens.
//! - [`precedence`], [`model`], [`compiler`]: from tokens to a chunk. The
//!   model says what the compiler emits; [`progress`] bounds its recursion.
//! - [`typing`]: the stack discipline that every compiled chunk keeps.
//! - [`idle`]: the one loop that does not jump back.
//! - [`vm`]: the machine, one instruction at a time.
//! - [`shortcircuit`]: `and` and `or` skip the operand that does not count.
//! - [`session`]: a source from its first byte to the end of its run.
//! - [`error`]: diagnostics.

pub mod chunk;
pub mod compiler;
pub mod error;
pub mod idle;
pub mod lexer;
pub mod model;
pub mod precedence;
pub mod progress;
pub mod scanner;
pub mod session;
pub mod shortcircuit;
pub mod strings;
pub mod token;
pub mod typing;
pub mod value;
pub mod vm;

pub use crate::session::{evaluate, Session};
