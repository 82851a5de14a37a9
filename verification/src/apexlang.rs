//! ApexLang: a small expression language. The lexer turns source text into
//! tokens, the parser builds the syntax tree, and the visualizer draws the
//! tree as a Graphviz graph.

pub mod assembly;
pub mod binary;
pub mod bits;
pub mod csv;
pub mod digits;
pub mod ast;
pub mod error;
pub mod factors;
pub mod formats;
pub mod fractions;
pub mod grammar;
pub mod lexer;
pub mod mem;
pub mod nats;
pub mod net;
pub mod parser;
pub mod scopes;
pub mod sequences;
pub mod tables;
pub mod toml;
pub mod visualize;
pub mod xml;
