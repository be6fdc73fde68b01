//! A translator from the eight-symbol tape language to assembly text.
//!
//! The pipeline is: drop everything that is not a command symbol, parse
//! the commands into a tree of nested loops, generate assembly lines with
//! unique jump labels for each loop, and splice them into a template.

pub mod token;
pub mod filter;
pub mod parser;
pub mod codegen;
pub mod template;
pub mod compiler;
