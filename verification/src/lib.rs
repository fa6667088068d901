//! A YAML toolkit: scanner, event parser and lossless syntax tree.
#![allow(unused_imports)]

pub mod text;
pub mod diagnostic;
pub mod loader;
pub mod token;
pub mod reader;
pub mod scan_text;
pub mod scanner;
pub mod inputs;
pub mod compare;
pub mod input;
pub mod harness;
pub mod parser;
pub mod cst;
pub mod lines;
pub mod tree_format;
pub mod test_case;
pub mod resolve;
pub mod c_baseline;
pub mod peers;
pub mod observability;
pub mod config;
pub mod value_tree;
pub mod compose;
pub mod tag_resolution;
