//! Token values produced by the lexer.
//!
//! A token is an immutable record of a `kind` and a `span`.  The span carries
//! the half-open character-offset range `[start, end)` of the lexical unit,
//! the 1-based line number at which the unit starts, and a `literal` string:
//! the recognized text for ordinary tokens, the contents between the
//! delimiters for quoted strings, and a human-readable diagnostic message for
//! `Error` tokens.

use vstd::prelude::*;

verus! {

/// The closed set of token classifications.
///
/// `Data` is the case-insensitive keyword `data`; `Literal` is any other
/// identifier or the decoded contents of a quoted string; `Error` carries a
/// diagnostic message in its span's `literal` field.
#[derive(Clone, Copy, Debug, PartialEq, Eq, Structural)]
pub enum TokenKind {
    Data,
    Literal,
    LeftParen,
    RightParen,
    Equals,
    Error,
}

/// Source-position metadata of a token: character offsets `[start, end)`,
/// the 1-based line number at the token's start, and the literal text.
///
/// Invariant: `start <= end` and `line >= 1`.
#[derive(Debug)]
pub struct TextSpan {
    pub start: usize,
    pub end: usize,
    pub line: usize,
    pub literal: String,
}

/// The mathematical value of a span: the same record over `int` offsets and
/// a `Seq<char>` literal.
pub ghost struct SpecSpan {
    pub start: int,
    pub end: int,
    pub line: int,
    pub literal: Seq<char>,
}

impl TextSpan {
    /// Builds a span.  The arguments must satisfy the span invariant.
    pub fn new(start: usize, end: usize, line: usize, literal: String) -> (s: TextSpan)
        requires
            start <= end,
            1 <= line,
        ensures
            s.start == start,
            s.end == end,
            s.line == line,
            s.literal == literal,
    {
        TextSpan { start, end, line, literal }
    }

    /// The number of characters the span covers.
    pub fn len(&self) -> (n: usize)
        requires
            self.start <= self.end,
        ensures
            n == self.end - self.start,
    {
        self.end - self.start
    }
}

impl View for TextSpan {
    type V = SpecSpan;

    open spec fn view(&self) -> SpecSpan {
        SpecSpan {
            start: self.start as int,
            end: self.end as int,
            line: self.line as int,
            literal: self.literal@,
        }
    }
}

impl DeepView for TextSpan {
    type V = SpecSpan;

    open spec fn deep_view(&self) -> SpecSpan {
        self.view()
    }
}

/// A classified lexical unit together with its source span.
#[derive(Debug)]
pub struct Token {
    pub kind: TokenKind,
    pub span: TextSpan,
}

/// The mathematical value of a token.
pub ghost struct SpecToken {
    pub kind: TokenKind,
    pub span: SpecSpan,
}

impl Token {
    /// Builds a token from its kind and span.
    pub fn new(kind: TokenKind, span: TextSpan) -> (t: Token)
        ensures
            t.kind == kind,
            t.span == span,
    {
        Token { kind, span }
    }
}

impl View for Token {
    type V = SpecToken;

    open spec fn view(&self) -> SpecToken {
        SpecToken { kind: self.kind, span: self.span@ }
    }
}

impl DeepView for Token {
    type V = SpecToken;

    open spec fn deep_view(&self) -> SpecToken {
        self.view()
    }
}

} // verus!
