//! Editing-session core for a line-oriented interpreter front end: a byte-offset
//! lexer, a symbol dictionary with completion and hover lookup, the decisions of
//! the process bridge, and the session controller that ties them to text buffers.

pub mod utf8_text;
pub mod lexer;
pub mod assoc;
pub mod whitespace;
pub mod completions_and_hints;
pub mod lines;
pub mod bridge;
pub mod app;
