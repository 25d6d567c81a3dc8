//! The mathematical model of the lexer.
//!
//! `spec_tokens` defines, over a `Seq<char>`, exactly which token sequence the
//! lexer produces from any scan position.  The executable scanner in
//! `crate::lexer` is proved to return precisely this sequence.

use vstd::prelude::*;
use crate::token::{TokenKind, SpecSpan, SpecToken};

verus! {

/// The whitespace characters the scanner skips between tokens.
pub open spec fn is_space_char(c: char) -> bool {
    c == ' ' || c == '\t' || c == '\n' || c == '\r' || c == '\u{b}' || c == '\u{c}'
}

/// The characters that may start an identifier.
pub open spec fn is_alpha_char(c: char) -> bool {
    ('a' <= c && c <= 'z') || ('A' <= c && c <= 'Z')
}

/// The characters that may continue an identifier: alphanumeric or underscore.
pub open spec fn is_ident_char(c: char) -> bool {
    is_alpha_char(c) || ('0' <= c && c <= '9') || c == '_'
}

/// Case-insensitive match against the keyword `data`.
pub open spec fn is_data_word(s: Seq<char>) -> bool {
    s.len() == 4
    && (s[0] == 'd' || s[0] == 'D')
    && (s[1] == 'a' || s[1] == 'A')
    && (s[2] == 't' || s[2] == 'T')
    && (s[3] == 'a' || s[3] == 'A')
}

/// The number of newline characters strictly before `pos`.
pub open spec fn newlines_before(s: Seq<char>, pos: int) -> int
    decreases pos,
{
    if pos <= 0 {
        0
    } else {
        newlines_before(s, pos - 1) + (if s[pos - 1] == '\n' { 1int } else { 0int })
    }
}

/// The 1-based line number of the character at `pos`.
pub open spec fn line_at(s: Seq<char>, pos: int) -> int {
    1 + newlines_before(s, pos)
}

/// The position one past the next newline at or after `pos`, or the end of
/// input if no newline remains.  This is where scanning resumes after a line
/// comment.
pub open spec fn skip_line(s: Seq<char>, pos: int) -> int
    decreases s.len() - pos,
{
    if pos < 0 || pos >= s.len() {
        s.len() as int
    } else if s[pos] == '\n' {
        pos + 1
    } else {
        skip_line(s, pos + 1)
    }
}

/// The position where comment skipping comes to rest: past every line
/// comment that starts at `pos`, each consumed up to and including its
/// newline (or to the end of input), repeating for consecutive comment
/// lines.
pub open spec fn comments_end(s: Seq<char>, pos: int) -> int
    decreases s.len() - pos
        when 0 <= pos <= s.len()
        via comments_end_decreases
{
    if at_comment(s, pos) {
        comments_end(s, skip_line(s, pos))
    } else {
        pos
    }
}

#[via_fn]
proof fn comments_end_decreases(s: Seq<char>, pos: int) {
    if at_comment(s, pos) {
        lemma_skip_line_bounds(s, pos);
    }
}

/// The end of the identifier-character run starting at `pos`.
pub open spec fn ident_end(s: Seq<char>, pos: int) -> int
    decreases s.len() - pos,
{
    if 0 <= pos < s.len() && is_ident_char(s[pos]) {
        ident_end(s, pos + 1)
    } else {
        pos
    }
}

/// Whether a line comment (`//`) starts at `pos`.
pub open spec fn at_comment(s: Seq<char>, pos: int) -> bool {
    0 <= pos && pos + 1 < s.len() && s[pos] == '/' && s[pos + 1] == '/'
}

/// The delimiter length of the quoted string opening at `pos`: the number of
/// consecutive `"` characters found looking ahead, floor 1 and cap 3.
pub open spec fn delim_len(s: Seq<char>, pos: int) -> int {
    if pos + 1 < s.len() && s[pos + 1] == '"' {
        if pos + 2 < s.len() && s[pos + 2] == '"' {
            3
        } else {
            2
        }
    } else {
        1
    }
}

/// Whether the `q` characters from `pos` are all `"`, closing a string whose
/// delimiter length is `q`.
pub open spec fn closes(s: Seq<char>, pos: int, q: int) -> bool {
    0 <= pos && pos + q <= s.len() && (forall|i: int| pos <= i < pos + q ==> s[i] == '"')
}

/// The position where the body scan of a quoted string stops: at the closing
/// delimiter, at a raw newline when the delimiter length is 1, or at the end
/// of input.
pub open spec fn string_body_end(s: Seq<char>, pos: int, q: int) -> int
    decreases s.len() - pos,
{
    if pos < 0 || pos >= s.len() {
        s.len() as int
    } else if closes(s, pos, q) {
        pos
    } else if q == 1 && s[pos] == '\n' {
        pos
    } else {
        string_body_end(s, pos + 1, q)
    }
}

/// The diagnostic message of an unterminated single-quote string.
pub open spec fn unterminated_msg() -> Seq<char> {
    "Unterminated string"@
}

/// The diagnostic message for a character no rule matches.
pub open spec fn unexpected_char_msg(c: char) -> Seq<char> {
    "Unexpected character: '"@ + seq![c] + "'"@
}

/// A single-character token (`(`, `)` or `=`) at `pos`.
pub open spec fn punct_token(kind: TokenKind, s: Seq<char>, pos: int) -> SpecToken {
    SpecToken {
        kind: kind,
        span: SpecSpan {
            start: pos,
            end: pos + 1,
            line: line_at(s, pos),
            literal: s.subrange(pos, pos + 1),
        },
    }
}

/// The `Error` token emitted for an unmatched character at `pos`.
pub open spec fn error_token(s: Seq<char>, pos: int) -> SpecToken {
    SpecToken {
        kind: TokenKind::Error,
        span: SpecSpan {
            start: pos,
            end: pos + 1,
            line: line_at(s, pos),
            literal: unexpected_char_msg(s[pos]),
        },
    }
}

/// The identifier or keyword token starting at `pos`.  The literal preserves
/// the original casing; classification against `data` is case-insensitive.
pub open spec fn ident_token(s: Seq<char>, pos: int) -> SpecToken {
    let end = ident_end(s, pos);
    let lit = s.subrange(pos, end);
    SpecToken {
        kind: if is_data_word(lit) { TokenKind::Data } else { TokenKind::Literal },
        span: SpecSpan { start: pos, end: end, line: line_at(s, pos), literal: lit },
    }
}

/// The token produced by the quoted string opening at `pos`: a `Literal`
/// holding the contents between the delimiters when the closing delimiter is
/// found, an `Error` when a single-quote string reaches a raw newline, and a
/// `Literal` holding everything accumulated when the input ends first.
pub open spec fn string_token(s: Seq<char>, pos: int) -> SpecToken {
    let q = delim_len(s, pos);
    let b = string_body_end(s, pos + q, q);
    if closes(s, b, q) {
        SpecToken {
            kind: TokenKind::Literal,
            span: SpecSpan {
                start: pos,
                end: b + q,
                line: line_at(s, pos),
                literal: s.subrange(pos + q, b),
            },
        }
    } else if b < s.len() && s[b] == '\n' {
        SpecToken {
            kind: TokenKind::Error,
            span: SpecSpan { start: pos, end: b, line: line_at(s, pos), literal: unterminated_msg() },
        }
    } else {
        SpecToken {
            kind: TokenKind::Literal,
            span: SpecSpan {
                start: pos,
                end: s.len() as int,
                line: line_at(s, pos),
                literal: s.subrange(pos + q, s.len() as int),
            },
        }
    }
}

/// The position where scanning resumes after the quoted string opening at
/// `pos`.
pub open spec fn string_resume(s: Seq<char>, pos: int) -> int {
    let q = delim_len(s, pos);
    let b = string_body_end(s, pos + q, q);
    if closes(s, b, q) {
        b + q
    } else if b < s.len() && s[b] == '\n' {
        b
    } else {
        s.len() as int
    }
}

/// The token sequence the lexer produces from scan position `pos` onward.
///
/// Each step either skips a whitespace character or a line comment, or emits
/// one token and resumes after it; every step advances the position, so the
/// sequence is finite.
pub open spec fn spec_tokens(s: Seq<char>, pos: int) -> Seq<SpecToken>
    decreases s.len() - pos
        when 0 <= pos <= s.len()
        via spec_tokens_decreases
{
    if pos >= s.len() {
        Seq::empty()
    } else if is_space_char(s[pos]) {
        spec_tokens(s, pos + 1)
    } else if s[pos] == '(' {
        seq![punct_token(TokenKind::LeftParen, s, pos)] + spec_tokens(s, pos + 1)
    } else if s[pos] == ')' {
        seq![punct_token(TokenKind::RightParen, s, pos)] + spec_tokens(s, pos + 1)
    } else if s[pos] == '=' {
        seq![punct_token(TokenKind::Equals, s, pos)] + spec_tokens(s, pos + 1)
    } else if s[pos] == '"' {
        seq![string_token(s, pos)] + spec_tokens(s, string_resume(s, pos))
    } else if at_comment(s, pos) {
        spec_tokens(s, skip_line(s, pos))
    } else if is_alpha_char(s[pos]) {
        seq![ident_token(s, pos)] + spec_tokens(s, ident_end(s, pos))
    } else {
        seq![error_token(s, pos)] + spec_tokens(s, pos + 1)
    }
}

#[via_fn]
proof fn spec_tokens_decreases(s: Seq<char>, pos: int) {
    if 0 <= pos && pos < s.len() {
        if s[pos] == '"' {
            lemma_string_resume_bounds(s, pos);
        }
        if at_comment(s, pos) {
            lemma_skip_line_bounds(s, pos);
        }
        if is_alpha_char(s[pos]) {
            lemma_ident_end_bounds(s, pos + 1);
        }
    }
}

/// The newline count of a prefix lies between 0 and the prefix length.
pub proof fn lemma_newlines_bounds(s: Seq<char>, pos: int)
    requires
        0 <= pos,
    ensures
        0 <= newlines_before(s, pos) <= pos,
    decreases pos,
{
    if pos > 0 {
        lemma_newlines_bounds(s, pos - 1);
    }
}

/// `skip_line` stays within the input and always advances past `pos`.
pub proof fn lemma_skip_line_bounds(s: Seq<char>, pos: int)
    requires
        0 <= pos <= s.len(),
    ensures
        pos <= skip_line(s, pos) <= s.len(),
        pos < s.len() ==> pos + 1 <= skip_line(s, pos),
    decreases s.len() - pos,
{
    if pos < s.len() && s[pos] != '\n' {
        lemma_skip_line_bounds(s, pos + 1);
    }
}

/// `ident_end` stays within the input and does not move backwards.
pub proof fn lemma_ident_end_bounds(s: Seq<char>, pos: int)
    requires
        0 <= pos <= s.len(),
    ensures
        pos <= ident_end(s, pos) <= s.len(),
    decreases s.len() - pos,
{
    if pos < s.len() && is_ident_char(s[pos]) {
        lemma_ident_end_bounds(s, pos + 1);
    }
}

/// The body scan of a quoted string stays within the input.
pub proof fn lemma_string_body_end_bounds(s: Seq<char>, pos: int, q: int)
    requires
        0 <= pos <= s.len(),
    ensures
        pos <= string_body_end(s, pos, q) <= s.len(),
    decreases s.len() - pos,
{
    if pos < s.len() && !closes(s, pos, q) && !(q == 1 && s[pos] == '\n') {
        lemma_string_body_end_bounds(s, pos + 1, q);
    }
}

/// The delimiter length of a string opening at `pos` never reaches past the
/// end of the input.
pub proof fn lemma_delim_len_bounds(s: Seq<char>, pos: int)
    requires
        0 <= pos < s.len(),
        s[pos] == '"',
    ensures
        1 <= delim_len(s, pos) <= 3,
        pos + delim_len(s, pos) <= s.len(),
{
}

/// Scanning a quoted string always advances past its opening position.
pub proof fn lemma_string_resume_bounds(s: Seq<char>, pos: int)
    requires
        0 <= pos < s.len(),
        s[pos] == '"',
    ensures
        pos < string_resume(s, pos) <= s.len(),
        string_token(s, pos).span.start == pos,
        pos < string_token(s, pos).span.end <= s.len(),
        string_token(s, pos).span.end == string_resume(s, pos),
{
    let q = delim_len(s, pos);
    lemma_delim_len_bounds(s, pos);
    lemma_string_body_end_bounds(s, pos + q, q);
}

} // verus!
