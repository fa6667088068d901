//! Running this crate's scanner over raw input and converting its output to
//! implementation-neutral snapshots.
use vstd::prelude::*;

use crate::compare::{opt_view, EventSnapshot, SpanSnapshot, TokenSnapshot};
use crate::parser::{parse_error_text, Event, ParseError, Parser};
use crate::scan_text::string_from_utf8;
use crate::input::Input;
use crate::reader::max_input_chars;
use crate::scanner::{span_ok, Scanner};
use crate::lines::{contains_seq, contains_v};
use crate::text::{concat2, str_to_string, to_chars};
use crate::token::{Token, TokenKind};

verus! {

/// The name of a token kind, as the variant is written.
pub open spec fn token_kind_name(k: TokenKind) -> Seq<char> {
    match k {
        TokenKind::StreamStart => "StreamStart"@,
        TokenKind::StreamEnd => "StreamEnd"@,
        TokenKind::VersionDirective => "VersionDirective"@,
        TokenKind::TagDirective => "TagDirective"@,
        TokenKind::DocumentStart => "DocumentStart"@,
        TokenKind::DocumentEnd => "DocumentEnd"@,
        TokenKind::BlockSequenceStart => "BlockSequenceStart"@,
        TokenKind::BlockMappingStart => "BlockMappingStart"@,
        TokenKind::BlockEnd => "BlockEnd"@,
        TokenKind::FlowSequenceStart => "FlowSequenceStart"@,
        TokenKind::FlowSequenceEnd => "FlowSequenceEnd"@,
        TokenKind::FlowMappingStart => "FlowMappingStart"@,
        TokenKind::FlowMappingEnd => "FlowMappingEnd"@,
        TokenKind::BlockEntry => "BlockEntry"@,
        TokenKind::FlowEntry => "FlowEntry"@,
        TokenKind::Key => "Key"@,
        TokenKind::Value => "Value"@,
        TokenKind::Anchor => "Anchor"@,
        TokenKind::Alias => "Alias"@,
        TokenKind::Tag => "Tag"@,
        TokenKind::Scalar => "Scalar"@,
        TokenKind::Comment => "Comment"@,
    }
}

/// The name of a token kind.
pub fn token_kind_string(k: TokenKind) -> (s: String)
    ensures
        s@ == token_kind_name(k),
{
    match k {
        TokenKind::StreamStart => str_to_string("StreamStart"),
        TokenKind::StreamEnd => str_to_string("StreamEnd"),
        TokenKind::VersionDirective => str_to_string("VersionDirective"),
        TokenKind::TagDirective => str_to_string("TagDirective"),
        TokenKind::DocumentStart => str_to_string("DocumentStart"),
        TokenKind::DocumentEnd => str_to_string("DocumentEnd"),
        TokenKind::BlockSequenceStart => str_to_string("BlockSequenceStart"),
        TokenKind::BlockMappingStart => str_to_string("BlockMappingStart"),
        TokenKind::BlockEnd => str_to_string("BlockEnd"),
        TokenKind::FlowSequenceStart => str_to_string("FlowSequenceStart"),
        TokenKind::FlowSequenceEnd => str_to_string("FlowSequenceEnd"),
        TokenKind::FlowMappingStart => str_to_string("FlowMappingStart"),
        TokenKind::FlowMappingEnd => str_to_string("FlowMappingEnd"),
        TokenKind::BlockEntry => str_to_string("BlockEntry"),
        TokenKind::FlowEntry => str_to_string("FlowEntry"),
        TokenKind::Key => str_to_string("Key"),
        TokenKind::Value => str_to_string("Value"),
        TokenKind::Anchor => str_to_string("Anchor"),
        TokenKind::Alias => str_to_string("Alias"),
        TokenKind::Tag => str_to_string("Tag"),
        TokenKind::Scalar => str_to_string("Scalar"),
        TokenKind::Comment => str_to_string("Comment"),
    }
}

/// The snapshot of a token: its kind's name, its text (for scalars, and for
/// any token with text), no style, and its span.
pub open spec fn token_snapshot_of(t: Token, s: TokenSnapshot) -> bool {
    &&& s.kind@ == token_kind_name(t.kind)
    &&& s.value == (if t.kind == TokenKind::Scalar || t.atom.data@.len() > 0 {
        Some(t.atom.data)
    } else {
        None
    })
    &&& s.style is None
    &&& s.span == (SpanSnapshot {
        line: t.atom.span.start.line,
        column: t.atom.span.start.column,
        offset: t.atom.span.start.offset,
        end_line: t.atom.span.end.line,
        end_column: t.atom.span.end.column,
        end_offset: t.atom.span.end.offset,
    })
}

/// Convert a token to its snapshot.
pub fn token_to_snapshot(token: &Token) -> (s: TokenSnapshot)
    ensures
        token_snapshot_of(*token, s),
{
    let value = if token.kind == TokenKind::Scalar || token.atom.data.as_str().unicode_len() > 0 {
        Some(token.atom.data.clone())
    } else {
        None
    };
    TokenSnapshot {
        kind: token_kind_string(token.kind),
        value,
        style: None,
        span: SpanSnapshot {
            line: token.atom.span.start.line,
            column: token.atom.span.start.column,
            offset: token.atom.span.start.offset,
            end_line: token.atom.span.end.line,
            end_column: token.atom.span.end.column,
            end_offset: token.atom.span.end.offset,
        },
    }
}

/// Decode `input`, scan it, and convert every token to a snapshot. Fails
/// with `input decode error: ...` when the input cannot be decoded, and
/// with the rendering of the first scan error.
pub fn run_rust_scanner(input: &[u8]) -> (r: Result<Vec<TokenSnapshot>, String>)
    requires
        input@.len() <= usize::MAX / 4,
    ensures
        r is Ok ==> crate::input::spec_decodes(input@),
        !crate::input::spec_decodes(input@) ==> (r matches Err(m) && crate::lines::starts_with(
            m@,
            "input decode error: "@,
        )),
        r matches Ok(v) ==> v@.len() >= 1 && v@[0].kind@ == token_kind_name(TokenKind::StreamStart),
        r matches Ok(v) ==> forall|i: int| 0 <= i < v@.len() ==> #[trigger] v@[i].span.offset <= v@[i].span.end_offset,
        crate::input::spec_decodes(input@) ==> (r is Ok || (r matches Err(m) && (crate::lines::starts_with(
            m@,
            seq!['s', 'c', 'a', 'n', ' ', 'e', 'r', 'r', 'o', 'r', ':', ' '],
        ) || m@ == "input decode error: input too long"@))),
{
    let decoded = match Input::from_bytes(input) {
        Ok(d) => d,
        Err(diag) => {
            let m = concat2("input decode error: ", diag.message.as_str());
            proof {
                reveal_strlit("input decode error: ");
                assert(m@.subrange(0, "input decode error: "@.len() as int) =~= "input decode error: "@);
            }
            return Err(m);
        },
    };
    let text = decoded.as_str();
    if text.unicode_len() > 0x7FFF_FFFE {
        return Err(str_to_string("input decode error: input too long"));
    }
    let mut scanner = Scanner::new(text);
    let mut tokens: Vec<TokenSnapshot> = Vec::new();
    loop
        invariant
            crate::input::spec_decodes(input@),
            scanner.inv(),
            tokens@.len() == 0 ==> scanner.fresh(),
            tokens@.len() > 0 ==> tokens@[0].kind@ == token_kind_name(TokenKind::StreamStart),
            forall|i: int| 0 <= i < tokens@.len() ==> #[trigger] tokens@[i].span.offset <= tokens@[i].span.end_offset,
        ensures
            tokens@.len() > 0,
            tokens@[0].kind@ == token_kind_name(TokenKind::StreamStart),
            forall|i: int| 0 <= i < tokens@.len() ==> #[trigger] tokens@[i].span.offset <= tokens@[i].span.end_offset,
        decreases scanner.remaining(),
    {
        match scanner.next() {
            None => {
                break;
            },
            Some(Ok(t)) => {
                let snap = token_to_snapshot(&t);
                tokens.push(snap);
            },
            Some(Err(e)) => {
                let m = e.display();
                assert(m@.subrange(0, 12) =~= seq!['s', 'c', 'a', 'n', ' ', 'e', 'r', 'r', 'o', 'r', ':', ' ']);
                return Err(m);
            },
        }
    }
    Ok(tokens)
}

/// What snapshot an event has: `None` for directives and for the
/// comment and indicator events, which the test-suite tree format has no
/// place for; otherwise the event's name and its anchor, tag, value and
/// implicit flag where it has them.
pub open spec fn event_snapshot_rel(e: Event, r: Option<EventSnapshot>) -> bool {
    match e {
        Event::VersionDirective { .. } | Event::TagDirective { .. } | Event::Comment { .. }
        | Event::BlockEntry { .. } | Event::KeyIndicator { .. } | Event::ValueIndicator { .. } => r is None,
        _ => r matches Some(s) && s.kind@ == event_kind_name(e) && match e {
            Event::DocumentStart { implicit, .. } | Event::DocumentEnd { implicit, .. } => s.anchor is None
                && s.tag is None && s.value is None && s.implicit == Some(implicit),
            Event::SequenceStart { anchor, tag, .. } | Event::MappingStart { anchor, tag, .. } => opt_view(
                s.anchor,
            ) == opt_view(anchor) && opt_view(s.tag) == opt_view(tag) && s.value is None && s.implicit is None,
            Event::Scalar { anchor, tag, value, .. } => opt_view(s.anchor) == opt_view(anchor) && opt_view(s.tag)
                == opt_view(tag) && opt_view(s.value) == Some(value@) && s.implicit is None,
            Event::Alias { name, .. } => s.anchor is None && s.tag is None && opt_view(s.value) == Some(name@)
                && s.implicit is None,
            _ => s.anchor is None && s.tag is None && s.value is None && s.implicit is None,
        },
    }
}

/// The name of an event kind, as the variant is written.
pub open spec fn event_kind_name(e: Event) -> Seq<char> {
    match e {
        Event::StreamStart => "StreamStart"@,
        Event::StreamEnd => "StreamEnd"@,
        Event::VersionDirective { .. } => "VersionDirective"@,
        Event::TagDirective { .. } => "TagDirective"@,
        Event::DocumentStart { .. } => "DocumentStart"@,
        Event::DocumentEnd { .. } => "DocumentEnd"@,
        Event::SequenceStart { .. } => "SequenceStart"@,
        Event::SequenceEnd { .. } => "SequenceEnd"@,
        Event::MappingStart { .. } => "MappingStart"@,
        Event::MappingEnd { .. } => "MappingEnd"@,
        Event::Scalar { .. } => "Scalar"@,
        Event::Alias { .. } => "Alias"@,
        Event::Comment { .. } => "Comment"@,
        Event::BlockEntry { .. } => "BlockEntry"@,
        Event::KeyIndicator { .. } => "KeyIndicator"@,
        Event::ValueIndicator { .. } => "ValueIndicator"@,
    }
}

fn clone_opt(o: &Option<String>) -> (r: Option<String>)
    ensures
        opt_view(r) == opt_view(*o),
{
    match o {
        Some(s) => Some(s.clone()),
        None => None,
    }
}

fn bare_snapshot(kind: &str) -> (s: EventSnapshot)
    ensures
        s.kind@ == kind@,
        s.anchor is None && s.tag is None && s.value is None && s.implicit is None,
{
    EventSnapshot { kind: str_to_string(kind), anchor: None, tag: None, value: None, implicit: None }
}

/// Convert an event to its snapshot, or `None` for events the test-suite
/// tree format has no place for.
pub fn event_to_snapshot(event: &Event) -> (r: Option<EventSnapshot>)
    ensures
        event_snapshot_rel(*event, r),
{
    match event {
        Event::StreamStart => Some(bare_snapshot("StreamStart")),
        Event::StreamEnd => Some(bare_snapshot("StreamEnd")),
        Event::VersionDirective { .. } => None,
        Event::TagDirective { .. } => None,
        Event::DocumentStart { implicit, .. } => {
            let mut s = bare_snapshot("DocumentStart");
            s.implicit = Some(*implicit);
            Some(s)
        },
        Event::DocumentEnd { implicit, .. } => {
            let mut s = bare_snapshot("DocumentEnd");
            s.implicit = Some(*implicit);
            Some(s)
        },
        Event::SequenceStart { anchor, tag, .. } => {
            let mut s = bare_snapshot("SequenceStart");
            s.anchor = clone_opt(anchor);
            s.tag = clone_opt(tag);
            Some(s)
        },
        Event::SequenceEnd { .. } => Some(bare_snapshot("SequenceEnd")),
        Event::MappingStart { anchor, tag, .. } => {
            let mut s = bare_snapshot("MappingStart");
            s.anchor = clone_opt(anchor);
            s.tag = clone_opt(tag);
            Some(s)
        },
        Event::MappingEnd { .. } => Some(bare_snapshot("MappingEnd")),
        Event::Scalar { anchor, tag, value, .. } => {
            let mut s = bare_snapshot("Scalar");
            s.anchor = clone_opt(anchor);
            s.tag = clone_opt(tag);
            s.value = Some(value.clone());
            Some(s)
        },
        Event::Alias { name, .. } => {
            let mut s = bare_snapshot("Alias");
            s.value = Some(name.clone());
            Some(s)
        },
        Event::Comment { .. } | Event::BlockEntry { .. } | Event::KeyIndicator { .. }
        | Event::ValueIndicator { .. } => None,
    }
}

/// Parse `input` (which must be UTF-8) and convert every event to a
/// snapshot, leaving out directives and structural events. Fails with
/// `input is not valid UTF-8: ...` or with the rendering of the first parse
/// error.
pub fn run_rust_parser(input: &[u8]) -> (r: Result<Vec<EventSnapshot>, String>)
    ensures
        r is Ok ==> vstd::utf8::valid_utf8(input@),
        !vstd::utf8::valid_utf8(input@) ==> (r matches Err(m) && crate::lines::starts_with(
            m@,
            "input is not valid UTF-8: "@,
        )),
        r matches Ok(v) ==> v@.len() >= 1 && v@[0].kind@ == "StreamStart"@,
        vstd::utf8::valid_utf8(input@) ==> (r is Ok || (r matches Err(m) && (m@ == "input is too long"@ || exists|
            e: ParseError,
        | m@ == #[trigger] parse_error_text(e)))),
{
    let bytes = crate::input::slice_from(input, 0);
    let text = match string_from_utf8(bytes) {
        Ok(t) => t,
        Err(e) => {
            let m = concat2("input is not valid UTF-8: ", e.as_str());
            proof {
                reveal_strlit("input is not valid UTF-8: ");
                assert(input@.subrange(0, input@.len() as int) =~= input@);
                assert(m@.subrange(0, "input is not valid UTF-8: "@.len() as int) =~= "input is not valid UTF-8: "@);
            }
            return Err(m);
        },
    };
    proof {
        assert(input@.subrange(0, input@.len() as int) =~= input@);
    }
    if text.as_str().unicode_len() > 0x7FFF_FFFE {
        return Err(str_to_string("input is too long"));
    }
    let mut parser = Parser::new(text.as_str());
    let mut events: Vec<EventSnapshot> = Vec::new();
    loop
        invariant_except_break
            events@.len() == 0 ==> parser.fresh(),
        invariant
            vstd::utf8::valid_utf8(input@),
            parser.wf(),
            events@.len() > 0 ==> events@[0].kind@ == "StreamStart"@,
        ensures
            events@.len() > 0,
            events@[0].kind@ == "StreamStart"@,
        decreases parser.remaining(),
    {
        let ghost was_fresh = parser.fresh();
        match parser.next() {
            None => {
                break;
            },
            Some(Ok(e)) => {
                proof {
                    if events@.len() == 0 {
                        assert(e == Event::StreamStart);
                    }
                }
                match event_to_snapshot(&e) {
                    Some(s) => events.push(s),
                    None => {},
                }
            },
            Some(Err(e)) => {
                let m = e.display();
                assert(m@ == parse_error_text(e));
                return Err(m);
            },
        }
    }
    Ok(events)
}

/// `s` in lower case, as `str::to_lowercase` gives it (full Unicode case
/// mapping).
pub uninterp spec fn lowercase(s: Seq<char>) -> Seq<char>;

/// `str::to_lowercase`: the result is named by `lowercase` of the text.
#[verifier::external_body]
fn to_lower(s: &str) -> (r: String)
    ensures
        r@ == lowercase(s@),
{
    s.to_lowercase()
}

/// Whether `text` contains `pattern` when both are lower-cased (the match
/// that the tools' filters use).
pub fn contains_ignoring_case(text: &str, pattern: &str) -> (r: bool)
    ensures
        r == contains_seq(lowercase(text@), lowercase(pattern@)),
{
    let t = to_lower(text);
    let p = to_lower(pattern);
    let tc = to_chars(t.as_str());
    contains_v(tc.as_slice(), p.as_str())
}

} // verus!
