//! Search and replace over text: literal, regular-expression and
//! lookaround-capable patterns, applied to one string or to the content of
//! files line by line, with every line terminator kept as it was read.

pub mod args;
pub mod engine;
pub mod error;
pub mod line_reader;
pub mod paths;
pub mod replace;
pub mod rewrite;
pub mod run;
pub mod search;
pub mod text;
pub mod utils;
pub mod validation;
