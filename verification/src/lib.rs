//! The execution core of a small scripting language: a scanner that turns
//! source text into tokens, a bytecode container with a constant pool, and
//! a stack machine that runs the bytecode.
pub mod chunk;
pub mod compiler;
pub mod debug;
pub mod encoding;
pub mod error;
pub mod grammar;
pub mod scanner;
pub mod vm;
