//! The configuration plane.

pub mod answers;
pub mod ast;
pub mod compiled;
pub mod cursor;
pub mod directives;
pub mod dns;
pub mod equivalences;
pub mod expand;
pub mod guarantees;
pub mod joining;
pub mod lexer;
pub mod lines;
pub mod listeners;
pub mod options;
pub mod origins;
pub mod parser;
pub mod pieces;
pub mod proxy;
pub mod readings;
pub mod snapshot;
pub mod splicing;
pub mod template;
pub mod upstreams;
pub mod validate;
pub mod values;
