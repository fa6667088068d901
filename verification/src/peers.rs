//! This crate's entry points for throughput measurement: each parses its
//! input to completion and discards the result.
use vstd::prelude::*;

use crate::parser::Parser;
use crate::reader::max_input_chars;
use crate::scanner::Scanner;

verus! {

/// Scans the input to its end (or its first error), keeping nothing.
pub fn yamalgam_scan(input: &str)
    requires
        input@.len() <= max_input_chars(),
{
    let mut scanner = Scanner::new(input);
    loop
        invariant
            scanner.inv(),
        decreases scanner.remaining(),
    {
        match scanner.next() {
            Some(Ok(_)) => {},
            _ => break,
        }
    }
}

/// Parses the input into events to its end (or its first error), keeping
/// nothing.
pub fn yamalgam_parse(input: &str)
    requires
        input@.len() <= max_input_chars(),
{
    let mut parser = Parser::new(input);
    loop
        invariant
            parser.wf(),
        decreases parser.remaining(),
    {
        match parser.next() {
            Some(Ok(_)) => {},
            _ => break,
        }
    }
}

} // verus!
