//! A small assembly-like language and its stack machine.
//!
//! Source text is cut into tokens ([`lexer`]), the tokens are assembled
//! into a program of resolved instructions in two passes ([`assembler`],
//! [`compiler`]), a program is written as and read from a flat run of
//! 8-byte words ([`instr`], [`codec`]), and a program is run on a stack of
//! 64-bit integers ([`interpreter`]). The opcodes are listed in [`op`], and
//! [`number`] reads and writes integers in decimal.
//!
//! Every function states what it computes over a mathematical model of its
//! data, and is proved to compute just that.

pub mod assembler;
pub mod codec;
pub mod compiler;
pub mod instr;
pub mod interpreter;
pub mod lexer;
pub mod number;
pub mod op;
