//! Eval-R-Us: a small Lisp-like language with a lexer, parser, bytecode
//! compiler and register virtual machine, all working on a managed heap.
pub mod error;
pub mod lexer;
pub mod rawarray;
pub mod array;
pub mod rawptr;
pub mod symbolmap;
pub mod taggedptr;
pub mod bytecode;
pub mod function;
pub mod pair;
pub mod memory;
pub mod parser;
pub mod dict;
pub mod printer;
pub mod compiler;
pub mod vm;
pub mod roundtrip;
pub mod repl;
