//! A Common-Lisp-FORMAT-style control-string formatter.
//!
//! A control string is parsed once into a tree of directives; the tree is
//! then rendered any number of times against a sequence of argument
//! values, streaming text to a sink.

pub mod decimal;
pub mod directive;
pub mod errors;
pub mod fixedpoint;
pub mod laws;
pub mod num;
pub mod params;
pub mod parse;
pub mod render;
pub mod ruler;
pub mod semantics;
pub mod text;
pub mod value;
