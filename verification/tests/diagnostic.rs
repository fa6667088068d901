use yamalgam::diagnostic::{Diagnostic, Mark, Severity, Span};

#[test]
fn display_with_span_uses_one_indexed_position() {
    let d = Diagnostic {
        severity: Severity::Error,
        code: "E001".to_string(),
        message: "unexpected character".to_string(),
        span: Some(Span {
            start: Mark {
                line: 3,
                column: 6,
                offset: 42,
            },
            end: Mark::default(),
        }),
        labels: Vec::new(),
    };
    assert_eq!(
        d.display(),
        "error[E001]: unexpected character (line 4, column 7)"
    );
}

#[test]
fn display_without_span_omits_position() {
    let d = Diagnostic {
        severity: Severity::Warning,
        code: "W010".to_string(),
        message: "tab used for indentation".to_string(),
        span: None,
        labels: Vec::new(),
    };
    assert_eq!(d.display(), "warning[W010]: tab used for indentation");
}

