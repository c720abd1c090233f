//! A small register-based bytecode virtual machine and the single-pass
//! assembler that compiles mnemonic text into its binary instruction format.
//!
//! The pipeline: source text is split into whitespace-delimited words
//! ([`text`], [`utf8`]), the assembler turns the words into a flat byte
//! buffer ([`assembler`]), and the machine loads that buffer into memory and
//! executes it with a fetch-decode-execute loop ([`vm`]). The instruction
//! encoding and the mathematical semantics of one execution step live in
//! [`isa`] and [`sem`]; [`laws`] proves the encoder and the decoder agree.

pub mod assembler;
pub mod isa;
pub mod laws;
pub mod sem;
pub mod utf8;
pub mod vm;
pub mod text;
