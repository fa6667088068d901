//! Source positions and diagnostics shared across the pipeline.
use vstd::prelude::*;

use crate::text::{push_decimal, push_string, decimal};

verus! {

/// Severity level for a diagnostic.
#[derive(Debug, Clone, Copy, PartialEq, Eq, PartialOrd, Ord, Hash, Structural)]
pub enum Severity {
    /// Informational hint.
    Hint,
    /// Informational message.
    Info,
    /// Non-fatal warning.
    Warning,
    /// Fatal error.
    Error,
}

/// A source position in the input.
#[derive(Debug, Clone, Copy, PartialEq, Eq, Hash, Structural)]
pub struct Mark {
    /// Zero-indexed line number.
    pub line: u32,
    /// Zero-indexed column number (in characters).
    pub column: u32,
    /// Byte offset from start of input.
    pub offset: usize,
}

/// The position at the very start of the input.
pub open spec fn mark_zero() -> Mark {
    Mark { line: 0, column: 0, offset: 0 }
}

impl Default for Mark {
    fn default() -> (r: Mark)
        ensures
            r == mark_zero(),
    {
        Mark { line: 0, column: 0, offset: 0 }
    }
}

/// A source range (start..end) in the input.
#[derive(Debug, Clone, Copy, PartialEq, Eq, Hash, Structural)]
pub struct Span {
    /// Start position (inclusive).
    pub start: Mark,
    /// End position (exclusive).
    pub end: Mark,
}

/// The empty span at the start of the input.
pub open spec fn span_zero() -> Span {
    Span { start: mark_zero(), end: mark_zero() }
}

impl Default for Span {
    fn default() -> (r: Span)
        ensures
            r == span_zero(),
    {
        Span { start: Mark::default(), end: Mark::default() }
    }
}

/// A labeled region of source code within a diagnostic.
#[derive(Debug, Clone, PartialEq, Eq)]
pub struct Label {
    /// The source range this label covers.
    pub span: Span,
    /// Human-readable message for this label.
    pub message: String,
}

/// A diagnostic message with source location and severity.
#[derive(Debug, Clone, PartialEq, Eq)]
pub struct Diagnostic {
    /// Severity of this diagnostic.
    pub severity: Severity,
    /// Machine-readable error code (e.g., "E001").
    pub code: String,
    /// Human-readable message.
    pub message: String,
    /// Primary source location (if applicable).
    pub span: Option<Span>,
    /// Additional labeled spans for context.
    pub labels: Vec<Label>,
}

/// The lower-case name of a severity.
pub open spec fn severity_name(s: Severity) -> Seq<char> {
    match s {
        Severity::Hint => seq!['h', 'i', 'n', 't'],
        Severity::Info => seq!['i', 'n', 'f', 'o'],
        Severity::Warning => seq!['w', 'a', 'r', 'n', 'i', 'n', 'g'],
        Severity::Error => seq!['e', 'r', 'r', 'o', 'r'],
    }
}

/// The human-readable rendering of a diagnostic:
/// `severity[code]: message`, followed by ` (line L, column C)` with
/// one-indexed numbers when a span is present.
pub open spec fn diagnostic_text(d: Diagnostic) -> Seq<char> {
    let head = severity_name(d.severity) + seq!['['] + d.code@ + seq![']', ':', ' '] + d.message@;
    match d.span {
        Some(span) => head + seq![' ', '(', 'l', 'i', 'n', 'e', ' '] + decimal(
            span.start.line as nat + 1,
        ) + seq![',', ' ', 'c', 'o', 'l', 'u', 'm', 'n', ' '] + decimal(
            span.start.column as nat + 1,
        ) + seq![')'],
        None => head,
    }
}

fn push_severity(s: &mut String, sev: Severity)
    ensures
        final(s)@ == old(s)@ + severity_name(sev),
{
    let ghost start = s@;
    match sev {
        Severity::Hint => {
            s.push('h');
            s.push('i');
            s.push('n');
            s.push('t');
        },
        Severity::Info => {
            s.push('i');
            s.push('n');
            s.push('f');
            s.push('o');
        },
        Severity::Warning => {
            s.push('w');
            s.push('a');
            s.push('r');
            s.push('n');
            s.push('i');
            s.push('n');
            s.push('g');
        },
        Severity::Error => {
            s.push('e');
            s.push('r');
            s.push('r');
            s.push('o');
            s.push('r');
        },
    }
    assert(s@ =~= start + severity_name(sev));
}

impl Diagnostic {
    /// Renders the diagnostic for humans (positions are one-indexed).
    pub fn display(&self) -> (r: String)
        ensures
            r@ == diagnostic_text(*self),
    {
        let mut s = String::new();
        push_severity(&mut s, self.severity);
        s.push('[');
        push_string(&mut s, &self.code);
        s.push(']');
        s.push(':');
        s.push(' ');
        push_string(&mut s, &self.message);
        let ghost head = s@;
        assert(head =~= severity_name(self.severity) + seq!['['] + self.code@ + seq![
            ']',
            ':',
            ' ',
        ] + self.message@);
        match self.span {
            Some(span) => {
                s.push(' ');
                s.push('(');
                s.push('l');
                s.push('i');
                s.push('n');
                s.push('e');
                s.push(' ');
                push_decimal(&mut s, span.start.line as u64 + 1);
                s.push(',');
                s.push(' ');
                s.push('c');
                s.push('o');
                s.push('l');
                s.push('u');
                s.push('m');
                s.push('n');
                s.push(' ');
                push_decimal(&mut s, span.start.column as u64 + 1);
                s.push(')');
                assert(s@ =~= diagnostic_text(*self));
            },
            None => {},
        }
        s
    }
}

} // verus!
