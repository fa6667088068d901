//! Tokens produced by the scanner: kinds, atoms, styles and content flags.
use vstd::prelude::*;

use crate::diagnostic::Span;

verus! {

/// Presentation style for YAML scalar values.
#[derive(Debug, Clone, Copy, PartialEq, Eq, Hash, Structural)]
pub enum ScalarStyle {
    /// Unquoted scalar — no quoting indicators.
    Plain,
    /// Single-quoted scalar (`'...'`).
    SingleQuoted,
    /// Double-quoted scalar (`"..."`), supports escape sequences.
    DoubleQuoted,
    /// Literal block scalar (`|`) — preserves newlines.
    Literal,
    /// Folded block scalar (`>`) — folds newlines to spaces.
    Folded,
}

/// Block scalar chomping mode — controls trailing newline handling.
#[derive(Debug, Clone, Copy, PartialEq, Eq, Hash, Structural)]
pub enum Chomp {
    /// Strip (`-`): remove all trailing newlines.
    Strip,
    /// Clip (default): keep a single trailing newline.
    Clip,
    /// Keep (`+`): preserve all trailing newlines.
    Keep,
}

impl Default for Chomp {
    fn default() -> (r: Chomp)
        ensures
            r == Chomp::Clip,
    {
        Chomp::Clip
    }
}

/// Content property flags for an [`Atom`], one bit per property; each
/// named flag is a constructor returning the set holding just that flag.
#[derive(Debug, Clone, Copy, PartialEq, Eq, Hash, Structural)]
pub struct AtomFlags {
    bits: u32,
}

impl AtomFlags {
    /// Atom contains at least one line break.
    pub fn has_lb() -> (r: AtomFlags)
        ensures
            r.spec_bits() == 1,
    {
        AtomFlags { bits: 1 }
    }
    /// Atom contains at least one whitespace character.
    pub fn has_ws() -> (r: AtomFlags)
        ensures
            r.spec_bits() == 2,
    {
        AtomFlags { bits: 2 }
    }
    /// Atom starts with a whitespace character.
    pub fn starts_with_ws() -> (r: AtomFlags)
        ensures
            r.spec_bits() == 4,
    {
        AtomFlags { bits: 4 }
    }
    /// Atom starts with a line break.
    pub fn starts_with_lb() -> (r: AtomFlags)
        ensures
            r.spec_bits() == 8,
    {
        AtomFlags { bits: 8 }
    }
    /// Atom ends with a whitespace character.
    pub fn ends_with_ws() -> (r: AtomFlags)
        ensures
            r.spec_bits() == 16,
    {
        AtomFlags { bits: 16 }
    }
    /// Atom ends with a line break.
    pub fn ends_with_lb() -> (r: AtomFlags)
        ensures
            r.spec_bits() == 32,
    {
        AtomFlags { bits: 32 }
    }
    /// Atom has trailing line breaks (more than one at the end).
    pub fn trailing_lb() -> (r: AtomFlags)
        ensures
            r.spec_bits() == 64,
    {
        AtomFlags { bits: 64 }
    }
    /// Atom contains only whitespace and line breaks (if length > 0).
    pub fn empty_text() -> (r: AtomFlags)
        ensures
            r.spec_bits() == 128,
    {
        AtomFlags { bits: 128 }
    }
    /// Atom contains absolutely nothing (zero size).
    pub fn size0() -> (r: AtomFlags)
        ensures
            r.spec_bits() == 256,
    {
        AtomFlags { bits: 256 }
    }
    /// Atom contains escape sequences (double-quoted scalars).
    pub fn has_esc() -> (r: AtomFlags)
        ensures
            r.spec_bits() == 512,
    {
        AtomFlags { bits: 512 }
    }
    /// Atom can be emitted verbatim without re-encoding.
    pub fn direct_output() -> (r: AtomFlags)
        ensures
            r.spec_bits() == 1024,
    {
        AtomFlags { bits: 1024 }
    }
    /// Atom spans multiple lines.
    pub fn is_multiline() -> (r: AtomFlags)
        ensures
            r.spec_bits() == 2048,
    {
        AtomFlags { bits: 2048 }
    }
    /// Atom is a valid anchor name (without `&` prefix).
    pub fn valid_anchor() -> (r: AtomFlags)
        ensures
            r.spec_bits() == 4096,
    {
        AtomFlags { bits: 4096 }
    }
    /// Atom was read in JSON compatibility mode.
    pub fn json_mode() -> (r: AtomFlags)
        ensures
            r.spec_bits() == 8192,
    {
        AtomFlags { bits: 8192 }
    }
    /// Atom ends at EOF of input.
    pub fn ends_with_eof() -> (r: AtomFlags)
        ensures
            r.spec_bits() == 16384,
    {
        AtomFlags { bits: 16384 }
    }
    /// Atom is the merge key `<<`.
    pub fn is_merge_key() -> (r: AtomFlags)
        ensures
            r.spec_bits() == 32768,
    {
        AtomFlags { bits: 32768 }
    }
    /// Atom allows a simple key.
    pub fn simple_key_allowed() -> (r: AtomFlags)
        ensures
            r.spec_bits() == 65536,
    {
        AtomFlags { bits: 65536 }
    }
    /// Atom contains high ASCII (UTF-8 code points >= 0x80).
    pub fn high_ascii() -> (r: AtomFlags)
        ensures
            r.spec_bits() == 131072,
    {
        AtomFlags { bits: 131072 }
    }
    /// Block scalar chomp indicator was explicit in the source.
    pub fn chomp_explicit() -> (r: AtomFlags)
        ensures
            r.spec_bits() == 262144,
    {
        AtomFlags { bits: 262144 }
    }

    /// The raw bit set.
    pub closed spec fn spec_bits(self) -> u32 {
        self.bits
    }

    /// No flags set.
    pub fn empty() -> (r: AtomFlags)
        ensures
            r.spec_bits() == 0,
    {
        AtomFlags { bits: 0 }
    }

    /// The raw bit set.
    pub fn bits(&self) -> (r: u32)
        ensures
            r == self.spec_bits(),
    {
        self.bits
    }

    /// Whether no flag is set.
    pub fn is_empty(&self) -> (r: bool)
        ensures
            r == (self.spec_bits() == 0),
    {
        self.bits == 0
    }

    /// Whether every flag of `other` is also set in `self`.
    pub fn contains(&self, other: AtomFlags) -> (r: bool)
        ensures
            r == (self.spec_bits() & other.spec_bits() == other.spec_bits()),
    {
        (self.bits & other.bits) == other.bits
    }
}

impl std::ops::BitOr for AtomFlags {
    type Output = AtomFlags;

    fn bitor(self, rhs: AtomFlags) -> (r: AtomFlags) {
        AtomFlags { bits: self.bits | rhs.bits }
    }
}

impl vstd::std_specs::ops::BitOrSpecImpl for AtomFlags {
    open spec fn obeys_bitor_spec() -> bool {
        true
    }

    open spec fn bitor_req(self, rhs: AtomFlags) -> bool {
        true
    }

    closed spec fn bitor_spec(self, rhs: AtomFlags) -> AtomFlags {
        AtomFlags { bits: self.bits | rhs.bits }
    }
}

/// The type of a YAML token.
#[derive(Debug, Clone, Copy, PartialEq, Eq, Hash, Structural)]
pub enum TokenKind {
    /// Beginning of a YAML stream.
    StreamStart,
    /// End of a YAML stream.
    StreamEnd,
    /// `%YAML x.y` version directive.
    VersionDirective,
    /// `%TAG !prefix! uri` tag directive.
    TagDirective,
    /// `---` document start marker.
    DocumentStart,
    /// `...` document end marker.
    DocumentEnd,
    /// Start of a block-style sequence (indentation-based).
    BlockSequenceStart,
    /// Start of a block-style mapping (indentation-based).
    BlockMappingStart,
    /// Implicit end of a block collection (dedent).
    BlockEnd,
    /// `[` — start of a flow sequence.
    FlowSequenceStart,
    /// `]` — end of a flow sequence.
    FlowSequenceEnd,
    /// `{` — start of a flow mapping.
    FlowMappingStart,
    /// `}` — end of a flow mapping.
    FlowMappingEnd,
    /// `- ` block sequence entry indicator.
    BlockEntry,
    /// `,` flow collection entry separator.
    FlowEntry,
    /// `?` explicit key indicator.
    Key,
    /// `:` value indicator.
    Value,
    /// `&name` anchor definition.
    Anchor,
    /// `*name` alias reference.
    Alias,
    /// `!tag` or `!!tag` tag handle.
    Tag,
    /// Scalar content (plain, quoted, or block).
    Scalar,
    /// `# ...` comment (text includes the `#` prefix).
    Comment,
}

/// Content tokens are the block/flow structure and data tokens; stream
/// markers, directives, document markers and comments are not.
pub open spec fn kind_is_content(k: TokenKind) -> bool {
    !(k is StreamStart || k is StreamEnd || k is VersionDirective || k is TagDirective
        || k is DocumentStart || k is DocumentEnd || k is Comment)
}

impl TokenKind {
    /// Returns `true` if this is a YAML content token (block/flow structure or data).
    pub fn is_content(self) -> (r: bool)
        ensures
            r == kind_is_content(self),
    {
        matches!(
            self,
            TokenKind::BlockSequenceStart | TokenKind::BlockMappingStart | TokenKind::BlockEnd
                | TokenKind::FlowSequenceStart | TokenKind::FlowSequenceEnd
                | TokenKind::FlowMappingStart | TokenKind::FlowMappingEnd | TokenKind::BlockEntry
                | TokenKind::FlowEntry | TokenKind::Key | TokenKind::Value | TokenKind::Anchor
                | TokenKind::Alias | TokenKind::Tag | TokenKind::Scalar
        )
    }
}

/// Text chunk with presentation metadata.
#[derive(Debug, Clone, PartialEq, Eq)]
pub struct Atom {
    /// The text content of this atom.
    pub data: String,
    /// Source location of this atom in the input.
    pub span: Span,
    /// Presentation style (only meaningful for scalar tokens).
    pub style: ScalarStyle,
    /// Block scalar chomping mode (only meaningful for literal/folded scalars).
    pub chomp: Chomp,
    /// Content property flags.
    pub flags: AtomFlags,
}

/// A single YAML token with source tracking and content metadata.
#[derive(Debug, Clone, PartialEq, Eq)]
pub struct Token {
    /// The type of this token.
    pub kind: TokenKind,
    /// Content and metadata for this token.
    pub atom: Atom,
}

} // verus!
