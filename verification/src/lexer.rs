//! The executable scanner.
//!
//! `Lexer` owns the input text and a cursor (character offset plus 1-based
//! line counter).  `tokenize` drains it into the token sequence that
//! `crate::model::spec_tokens` defines.

use vstd::prelude::*;
use crate::token::{Token, TokenKind, TextSpan};
use crate::token::SpecToken;
use crate::model::{
    is_space_char, is_alpha_char, is_ident_char, is_data_word, line_at, skip_line, comments_end,
    ident_end, at_comment, delim_len, closes, string_body_end, unexpected_char_msg, punct_token,
    error_token, ident_token, string_token, string_resume, spec_tokens, lemma_newlines_bounds,
    lemma_skip_line_bounds, lemma_ident_end_bounds, lemma_delim_len_bounds,
    lemma_string_body_end_bounds, lemma_string_resume_bounds,
};

verus! {

/// Whether `c` is one of the whitespace characters the scanner skips.
pub fn is_space(c: char) -> (b: bool)
    ensures
        b == is_space_char(c),
{
    c == ' ' || c == '\t' || c == '\n' || c == '\r' || c == '\u{b}' || c == '\u{c}'
}

/// Whether `c` may start an identifier.
pub fn is_alpha(c: char) -> (b: bool)
    ensures
        b == is_alpha_char(c),
{
    ('a' <= c && c <= 'z') || ('A' <= c && c <= 'Z')
}

/// Whether `c` may continue an identifier.
pub fn is_ident(c: char) -> (b: bool)
    ensures
        b == is_ident_char(c),
{
    is_alpha(c) || ('0' <= c && c <= '9') || c == '_'
}

/// The mathematical state of a lexer: the input text and the cursor.
pub ghost struct SpecLexer {
    pub input: Seq<char>,
    pub pos: int,
    pub line: int,
}

/// A single-use scanner over one input text.
///
/// Constructed from the input, consumed by `tokenize`.  The cursor holds the
/// current character offset and the 1-based line number at that offset.
pub struct Lexer {
    input: String,
    current_pos: usize,
    current_line: usize,
}

impl View for Lexer {
    type V = SpecLexer;

    closed spec fn view(&self) -> SpecLexer {
        SpecLexer {
            input: self.input@,
            pos: self.current_pos as int,
            line: self.current_line as int,
        }
    }
}

impl Lexer {
    /// The cursor sits inside the input and the line counter agrees with the
    /// newlines consumed so far.
    pub open spec fn wf(&self) -> bool {
        &&& 0 <= self@.pos <= self@.input.len()
        &&& self@.input.len() < usize::MAX
        &&& self@.line == line_at(self@.input, self@.pos)
    }

    /// Builds a lexer whose cursor sits at the start of `input`, on line 1.
    pub fn new(input: String) -> (lx: Lexer)
        requires
            input@.len() < usize::MAX,
        ensures
            lx.wf(),
            lx@.input == input@,
            lx@.pos == 0,
            lx@.line == 1,
    {
        Lexer { input, current_pos: 0, current_line: 1 }
    }

    /// The character at the cursor, without advancing; nothing at end of
    /// input.
    pub fn current_char(&self) -> (r: Option<char>)
        requires
            self.wf(),
        ensures
            r == (if self@.pos < self@.input.len() {
                Some(self@.input[self@.pos])
            } else {
                None::<char>
            }),
    {
        if self.current_pos < self.input.as_str().unicode_len() {
            Some(self.input.as_str().get_char(self.current_pos))
        } else {
            None
        }
    }

    /// The character one past the cursor, without advancing; nothing past the
    /// end of input.
    pub fn peek_char(&self) -> (r: Option<char>)
        requires
            self.wf(),
        ensures
            r == (if self@.pos + 1 < self@.input.len() {
                Some(self@.input[self@.pos + 1])
            } else {
                None::<char>
            }),
    {
        self.peek_char_by(1)
    }

    /// The character `by` places past the cursor, without advancing; nothing
    /// past the end of input.
    pub fn peek_char_by(&self, by: usize) -> (r: Option<char>)
        requires
            self.wf(),
        ensures
            r == (if self@.pos + by < self@.input.len() {
                Some(self@.input[self@.pos + by])
            } else {
                None::<char>
            }),
    {
        let len = self.input.as_str().unicode_len();
        if by < len - self.current_pos {
            Some(self.input.as_str().get_char(self.current_pos + by))
        } else {
            None
        }
    }

    /// Returns the character at the cursor and advances by one character,
    /// incrementing the line counter when that character is a newline; at end
    /// of input it returns nothing and leaves the state unchanged.
    pub fn consume(&mut self) -> (r: Option<char>)
        requires
            old(self).wf(),
        ensures
            final(self).wf(),
            final(self)@.input == old(self)@.input,
            old(self)@.pos < old(self)@.input.len() ==> {
                &&& r == Some(old(self)@.input[old(self)@.pos])
                &&& final(self)@.pos == old(self)@.pos + 1
            },
            old(self)@.pos >= old(self)@.input.len() ==> {
                &&& r == None::<char>
                &&& final(self)@ == old(self)@
            },
    {
        let ghost s = self@.input;
        let len = self.input.as_str().unicode_len();
        if self.current_pos >= len {
            return None;
        }
        let c = self.input.as_str().get_char(self.current_pos);
        proof {
            lemma_newlines_bounds(s, self.current_pos as int);
        }
        if c == '\n' {
            self.current_line = self.current_line + 1;
        }
        self.current_pos = self.current_pos + 1;
        Some(c)
    }

    /// Advances the cursor by exactly `n` characters, or not at all when
    /// fewer than `n` characters remain.
    pub fn consume_n_chars(&mut self, n: usize)
        requires
            old(self).wf(),
        ensures
            final(self).wf(),
            final(self)@.input == old(self)@.input,
            old(self)@.pos + n <= old(self)@.input.len() ==> final(self)@.pos == old(self)@.pos
                + n,
            old(self)@.pos + n > old(self)@.input.len() ==> final(self)@ == old(self)@,
    {
        let len = self.input.as_str().unicode_len();
        if n > len - self.current_pos {
            return ;
        }
        let mut i: usize = 0;
        while i < n
            invariant
                self.wf(),
                self@.input == old(self)@.input,
                i <= n,
                self@.pos == old(self)@.pos + i,
                old(self)@.pos + n <= self@.input.len(),
            decreases n - i,
        {
            self.consume();
            i = i + 1;
        }
    }

    /// Consumes characters for as long as `pred` accepts them, returning the
    /// accumulated text; stops at the first rejected character or at the end
    /// of input, consuming nothing extra.
    pub fn consume_while<F: Fn(char) -> bool>(&mut self, pred: F) -> (r: String)
        requires
            old(self).wf(),
            forall|c: char| #[trigger] call_requires(pred, (c,)),
        ensures
            final(self).wf(),
            final(self)@.input == old(self)@.input,
            old(self)@.pos <= final(self)@.pos <= final(self)@.input.len(),
            r@ == final(self)@.input.subrange(old(self)@.pos, final(self)@.pos),
            forall|i: int|
                old(self)@.pos <= i < final(self)@.pos ==> call_ensures(
                    pred,
                    (final(self)@.input[i],),
                    true,
                ),
            final(self)@.pos < final(self)@.input.len() ==> call_ensures(
                pred,
                (final(self)@.input[final(self)@.pos],),
                false,
            ),
    {
        let ghost s = self@.input;
        let ghost p0 = self@.pos;
        let start = self.current_pos;
        loop
            invariant
                self.wf(),
                self@.input == s,
                p0 <= self@.pos <= s.len(),
                forall|c: char| #[trigger] call_requires(pred, (c,)),
                forall|i: int| p0 <= i < self@.pos ==> call_ensures(pred, (s[i],), true),
            ensures
                self.wf(),
                self@.input == s,
                p0 <= self@.pos <= s.len(),
                forall|i: int| p0 <= i < self@.pos ==> call_ensures(pred, (s[i],), true),
                self@.pos < s.len() ==> call_ensures(pred, (s[self@.pos],), false),
            decreases s.len() - self@.pos,
        {
            match self.current_char() {
                Some(c) => {
                    if pred(c) {
                        self.consume();
                    } else {
                        break ;
                    }
                },
                None => {
                    break ;
                },
            }
        }
        let end = self.current_pos;
        self.input.as_str().substring_char(start, end).to_owned()
    }

    /// Consumes characters for as long as `pred` rejects them, returning the
    /// accumulated text; the complement of `consume_while`.
    pub fn consume_until<F: Fn(char) -> bool>(&mut self, pred: F) -> (r: String)
        requires
            old(self).wf(),
            forall|c: char| #[trigger] call_requires(pred, (c,)),
        ensures
            final(self).wf(),
            final(self)@.input == old(self)@.input,
            old(self)@.pos <= final(self)@.pos <= final(self)@.input.len(),
            r@ == final(self)@.input.subrange(old(self)@.pos, final(self)@.pos),
            forall|i: int|
                old(self)@.pos <= i < final(self)@.pos ==> call_ensures(
                    pred,
                    (final(self)@.input[i],),
                    false,
                ),
            final(self)@.pos < final(self)@.input.len() ==> call_ensures(
                pred,
                (final(self)@.input[final(self)@.pos],),
                true,
            ),
    {
        let ghost s = self@.input;
        let ghost p0 = self@.pos;
        let start = self.current_pos;
        loop
            invariant
                self.wf(),
                self@.input == s,
                p0 <= self@.pos <= s.len(),
                forall|c: char| #[trigger] call_requires(pred, (c,)),
                forall|i: int| p0 <= i < self@.pos ==> call_ensures(pred, (s[i],), false),
            ensures
                self.wf(),
                self@.input == s,
                p0 <= self@.pos <= s.len(),
                forall|i: int| p0 <= i < self@.pos ==> call_ensures(pred, (s[i],), false),
                self@.pos < s.len() ==> call_ensures(pred, (s[self@.pos],), true),
            decreases s.len() - self@.pos,
        {
            match self.current_char() {
                Some(c) => {
                    if !pred(c) {
                        self.consume();
                    } else {
                        break ;
                    }
                },
                None => {
                    break ;
                },
            }
        }
        let end = self.current_pos;
        self.input.as_str().substring_char(start, end).to_owned()
    }

    /// Whether the `q` characters at the cursor are all `"`.
    fn closes_here(&self, q: usize) -> (b: bool)
        requires
            self.wf(),
            1 <= q <= 3,
        ensures
            b == closes(self@.input, self@.pos, q as int),
    {
        let len = self.input.as_str().unicode_len();
        if q > len - self.current_pos {
            return false;
        }
        let mut i: usize = 0;
        let mut all: bool = true;
        while i < q
            invariant
                self.wf(),
                i <= q,
                self@.pos + q <= self@.input.len(),
                all == (forall|j: int|
                    self@.pos <= j < self@.pos + i ==> self@.input[j] == '"'),
            decreases q - i,
        {
            let c = self.input.as_str().get_char(self.current_pos + i);
            if c != '"' {
                all = false;
            }
            i = i + 1;
        }
        all
    }

    /// Consumes exactly the run of whitespace characters at the cursor,
    /// leaving it at the first non-whitespace character or at the end of
    /// input.  Skipping whitespace does not change the token sequence that
    /// remains to be produced.
    pub fn skip_whitespace(&mut self)
        requires
            old(self).wf(),
        ensures
            final(self).wf(),
            final(self)@.input == old(self)@.input,
            old(self)@.pos <= final(self)@.pos <= final(self)@.input.len(),
            forall|i: int|
                old(self)@.pos <= i < final(self)@.pos ==> is_space_char(old(self)@.input[i]),
            final(self)@.pos == final(self)@.input.len() || !is_space_char(
                final(self)@.input[final(self)@.pos],
            ),
            spec_tokens(final(self)@.input, final(self)@.pos) == spec_tokens(
                old(self)@.input,
                old(self)@.pos,
            ),
    {
        let ghost s = self@.input;
        loop
            invariant
                self.wf(),
                self@.input == s,
                old(self)@.pos <= self@.pos <= s.len(),
                forall|i: int| old(self)@.pos <= i < self@.pos ==> is_space_char(s[i]),
                spec_tokens(s, self@.pos) == spec_tokens(s, old(self)@.pos),
            ensures
                self.wf(),
                self@.input == s,
                old(self)@.pos <= self@.pos <= s.len(),
                forall|i: int| old(self)@.pos <= i < self@.pos ==> is_space_char(s[i]),
                self@.pos == s.len() || !is_space_char(s[self@.pos]),
                spec_tokens(s, self@.pos) == spec_tokens(s, old(self)@.pos),
            decreases s.len() - self@.pos,
        {
            match self.current_char() {
                Some(c) => {
                    if is_space(c) {
                        proof {
                            assert(spec_tokens(s, self@.pos) == spec_tokens(s, self@.pos + 1));
                        }
                        self.consume();
                    } else {
                        break ;
                    }
                },
                None => {
                    break ;
                },
            }
        }
    }

    /// Consumes line comments (`//` up to and including the next newline, or
    /// to the end of input) for as long as one starts at the cursor, and
    /// nothing else: the cursor comes to rest exactly at `comments_end`, so
    /// when no comment starts at the cursor nothing is consumed.  Skipping
    /// comments does not change the token sequence that remains to be
    /// produced.
    pub fn skip_comments(&mut self)
        requires
            old(self).wf(),
        ensures
            final(self).wf(),
            final(self)@.input == old(self)@.input,
            old(self)@.pos <= final(self)@.pos <= final(self)@.input.len(),
            final(self)@.pos == comments_end(old(self)@.input, old(self)@.pos),
            !at_comment(final(self)@.input, final(self)@.pos),
            spec_tokens(final(self)@.input, final(self)@.pos) == spec_tokens(
                old(self)@.input,
                old(self)@.pos,
            ),
    {
        let ghost s = self@.input;
        loop
            invariant
                self.wf(),
                self@.input == s,
                old(self)@.pos <= self@.pos <= s.len(),
                comments_end(s, self@.pos) == comments_end(s, old(self)@.pos),
                spec_tokens(s, self@.pos) == spec_tokens(s, old(self)@.pos),
            ensures
                self.wf(),
                self@.input == s,
                old(self)@.pos <= self@.pos <= s.len(),
                self@.pos == comments_end(s, old(self)@.pos),
                !at_comment(s, self@.pos),
                spec_tokens(s, self@.pos) == spec_tokens(s, old(self)@.pos),
            decreases s.len() - self@.pos,
        {
            let slash_here = match self.current_char() {
                Some(c) => c == '/',
                None => false,
            };
            let slash_next = match self.peek_char() {
                Some(c) => c == '/',
                None => false,
            };
            if !(slash_here && slash_next) {
                proof {
                    assert(comments_end(s, self@.pos) == self@.pos);
                }
                break ;
            }
            let ghost c0 = self@.pos;
            proof {
                assert(at_comment(s, c0));
                lemma_skip_line_bounds(s, c0);
                assert(spec_tokens(s, c0) == spec_tokens(s, skip_line(s, c0)));
                assert(comments_end(s, c0) == comments_end(s, skip_line(s, c0)));
            }
            loop
                invariant_except_break
                    skip_line(s, self@.pos) == skip_line(s, c0),
                invariant
                    self.wf(),
                    self@.input == s,
                    c0 <= self@.pos <= s.len(),
                ensures
                    self.wf(),
                    self@.input == s,
                    c0 <= self@.pos <= s.len(),
                    self@.pos == skip_line(s, c0),
                decreases s.len() - self@.pos,
            {
                let ghost p = self@.pos;
                match self.consume() {
                    None => {
                        proof {
                            assert(skip_line(s, p) == s.len());
                        }
                        break ;
                    },
                    Some(c) => {
                        if c == '\n' {
                            proof {
                                assert(skip_line(s, p) == p + 1);
                            }
                            break ;
                        }
                        proof {
                            assert(skip_line(s, p) == skip_line(s, p + 1));
                        }
                    },
                }
            }
        }
    }

    /// Emits the single-character token (`(`, `)` or `=`) at the cursor and
    /// advances past it.
    fn single_char(&mut self, kind: TokenKind) -> (t: Token)
        requires
            old(self).wf(),
            old(self)@.pos < old(self)@.input.len(),
        ensures
            final(self).wf(),
            final(self)@.input == old(self)@.input,
            final(self)@.pos == old(self)@.pos + 1,
            t@ == punct_token(kind, old(self)@.input, old(self)@.pos),
    {
        let ghost s = self@.input;
        let start = self.current_pos;
        let line0 = self.current_line;
        proof {
            lemma_newlines_bounds(s, start as int);
        }
        let lit = self.input.as_str().substring_char(start, start + 1).to_owned();
        self.consume();
        Token::new(kind, TextSpan::new(start, start + 1, line0, lit))
    }

    /// Emits the `Error` token for a character no rule matches, carrying the
    /// diagnostic `Unexpected character: '<c>'`, and advances one character
    /// so that scanning always makes forward progress.
    fn unexpected_char(&mut self) -> (t: Token)
        requires
            old(self).wf(),
            old(self)@.pos < old(self)@.input.len(),
        ensures
            final(self).wf(),
            final(self)@.input == old(self)@.input,
            final(self)@.pos == old(self)@.pos + 1,
            t@ == error_token(old(self)@.input, old(self)@.pos),
    {
        let ghost s = self@.input;
        let ghost p = self@.pos;
        let start = self.current_pos;
        let line0 = self.current_line;
        proof {
            lemma_newlines_bounds(s, start as int);
        }
        let mut msg = String::from_str("Unexpected character: '");
        msg.append(self.input.as_str().substring_char(start, start + 1));
        msg.append("'");
        proof {
            assert(s.subrange(p, p + 1) =~= seq![s[p]]);
            assert(msg@ =~= unexpected_char_msg(s[p]));
        }
        self.consume();
        Token::new(TokenKind::Error, TextSpan::new(start, start + 1, line0, msg))
    }

    /// Scans the identifier starting at the cursor: consumes while the
    /// character is alphanumeric or an underscore, then classifies the text
    /// case-insensitively (`data` gives `Data`, anything else `Literal`).
    /// The token's literal preserves the original casing.
    pub fn greedy_tokenize(&mut self) -> (t: Token)
        requires
            old(self).wf(),
            old(self)@.pos < old(self)@.input.len(),
            is_alpha_char(old(self)@.input[old(self)@.pos]),
        ensures
            final(self).wf(),
            final(self)@.input == old(self)@.input,
            final(self)@.pos == ident_end(old(self)@.input, old(self)@.pos),
            t@ == ident_token(old(self)@.input, old(self)@.pos),
    {
        let ghost s = self@.input;
        let ghost p0 = self@.pos;
        let start = self.current_pos;
        let line0 = self.current_line;
        proof {
            lemma_newlines_bounds(s, p0);
        }
        loop
            invariant
                self.wf(),
                self@.input == s,
                p0 <= self@.pos <= s.len(),
                ident_end(s, self@.pos) == ident_end(s, p0),
            ensures
                self.wf(),
                self@.input == s,
                p0 <= self@.pos <= s.len(),
                self@.pos == ident_end(s, p0),
            decreases s.len() - self@.pos,
        {
            let keep_going = match self.current_char() {
                Some(c) => is_ident(c),
                None => false,
            };
            if !keep_going {
                break ;
            }
            proof {
                assert(ident_end(s, self@.pos) == ident_end(s, self@.pos + 1));
            }
            self.consume();
        }
        let end = self.current_pos;
        let lit = self.input.as_str().substring_char(start, end).to_owned();
        let is_kw: bool;
        if end - start == 4 {
            let c0 = self.input.as_str().get_char(start);
            let c1 = self.input.as_str().get_char(start + 1);
            let c2 = self.input.as_str().get_char(start + 2);
            let c3 = self.input.as_str().get_char(start + 3);
            is_kw = (c0 == 'd' || c0 == 'D') && (c1 == 'a' || c1 == 'A') && (c2 == 't' || c2
                == 'T') && (c3 == 'a' || c3 == 'A');
        } else {
            is_kw = false;
        }
        proof {
            assert(is_kw == is_data_word(s.subrange(p0, end as int)));
        }
        let kind = if is_kw {
            TokenKind::Data
        } else {
            TokenKind::Literal
        };
        Token::new(kind, TextSpan::new(start, end, line0, lit))
    }

    /// Scans the quoted string opening at the cursor.
    ///
    /// The number of consecutive `"` characters found looking ahead (floor 1,
    /// cap 3) fixes the delimiter length `q`.  The body runs until `q`
    /// consecutive `"` characters close the string; a raw newline inside a
    /// single-quote string stops the scan with an `Error` token carrying
    /// `Unterminated string`, and reaching the end of input yields a
    /// `Literal` token holding whatever was accumulated.
    pub fn string_literal_tokenize(&mut self) -> (t: Token)
        requires
            old(self).wf(),
            old(self)@.pos < old(self)@.input.len(),
            old(self)@.input[old(self)@.pos] == '"',
        ensures
            final(self).wf(),
            final(self)@.input == old(self)@.input,
            final(self)@.pos == string_resume(old(self)@.input, old(self)@.pos),
            t@ == string_token(old(self)@.input, old(self)@.pos),
    {
        let ghost s = self@.input;
        let ghost p0 = self@.pos;
        let start = self.current_pos;
        let line0 = self.current_line;
        proof {
            lemma_newlines_bounds(s, p0);
            lemma_delim_len_bounds(s, p0);
        }
        let one_ahead = match self.peek_char() {
            Some(c) => c == '"',
            None => false,
        };
        let two_ahead = match self.peek_char_by(2) {
            Some(c) => c == '"',
            None => false,
        };
        let q: usize = if one_ahead {
            if two_ahead {
                3
            } else {
                2
            }
        } else {
            1
        };
        proof {
            assert(q as int == delim_len(s, p0));
        }
        self.consume_n_chars(q);
        let ghost from = p0 + q;
        proof {
            lemma_string_body_end_bounds(s, from, q as int);
        }
        loop
            invariant
                self.wf(),
                self@.input == s,
                from <= self@.pos <= s.len(),
                1 <= q <= 3,
                string_body_end(s, self@.pos, q as int) == string_body_end(s, from, q as int),
            ensures
                self.wf(),
                self@.input == s,
                from <= self@.pos <= s.len(),
                self@.pos == string_body_end(s, from, q as int),
                self@.pos == s.len() || closes(s, self@.pos, q as int) || (q == 1
                    && s[self@.pos] == '\n'),
            decreases s.len() - self@.pos,
        {
            let at_end = match self.current_char() {
                Some(_) => false,
                None => true,
            };
            if at_end {
                break ;
            }
            if self.closes_here(q) {
                break ;
            }
            let is_newline = match self.current_char() {
                Some(c) => c == '\n',
                None => false,
            };
            if q == 1 && is_newline {
                break ;
            }
            proof {
                assert(string_body_end(s, self@.pos, q as int) == string_body_end(
                    s,
                    self@.pos + 1,
                    q as int,
                ));
            }
            self.consume();
        }
        let b = self.current_pos;
        let ghost bb = b as int;
        if self.closes_here(q) {
            let lit = self.input.as_str().substring_char(start + q, b).to_owned();
            self.consume_n_chars(q);
            Token::new(TokenKind::Literal, TextSpan::new(start, self.current_pos, line0, lit))
        } else {
            let is_newline = match self.current_char() {
                Some(c) => c == '\n',
                None => false,
            };
            if q == 1 && is_newline {
                let msg = String::from_str("Unterminated string");
                Token::new(TokenKind::Error, TextSpan::new(start, b, line0, msg))
            } else {
                proof {
                    assert(bb == s.len());
                }
                let len = self.input.as_str().unicode_len();
                let lit = self.input.as_str().substring_char(start + q, len).to_owned();
                self.consume_n_chars(q);
                Token::new(TokenKind::Literal, TextSpan::new(start, len, line0, lit))
            }
        }
    }

    /// Tokenizes the entire input into a finite ordered token sequence: the
    /// sequence `crate::model::spec_tokens` defines from the cursor's
    /// position.  Lexing never aborts on malformed input; `Error` tokens
    /// stand at each point of failure.
    pub fn tokenize(self) -> (r: Vec<Token>)
        requires
            self.wf(),
        ensures
            r.deep_view() == spec_tokens(self@.input, self@.pos),
    {
        let ghost s = self@.input;
        let ghost p0 = self@.pos;
        let mut lx = self;
        let mut tokens: Vec<Token> = Vec::new();
        proof {
            assert(tokens.deep_view() + spec_tokens(s, p0) =~= spec_tokens(s, p0));
        }
        loop
            invariant
                lx.wf(),
                lx@.input == s,
                p0 <= lx@.pos <= s.len(),
                tokens.deep_view() + spec_tokens(s, lx@.pos) == spec_tokens(s, p0),
            ensures
                tokens.deep_view() == spec_tokens(s, p0),
            decreases s.len() - lx@.pos,
        {
            lx.skip_whitespace();
            let ghost p = lx@.pos;
            let copt = lx.current_char();
            if copt.is_none() {
                proof {
                    assert(spec_tokens(s, p) =~= Seq::<SpecToken>::empty());
                    assert(tokens.deep_view() + spec_tokens(s, p) =~= tokens.deep_view());
                }
                break ;
            }
            let c = copt.unwrap();
            let ghost dv0 = tokens.deep_view();
            if c == '(' {
                let t = lx.single_char(TokenKind::LeftParen);
                tokens.push(t);
                proof {
                    assert(spec_tokens(s, p) == seq![t@] + spec_tokens(s, p + 1));
                    assert(tokens.deep_view() =~= dv0.push(t@));
                    assert(tokens.deep_view() + spec_tokens(s, lx@.pos) =~= spec_tokens(s, p0));
                }
            } else if c == ')' {
                let t = lx.single_char(TokenKind::RightParen);
                tokens.push(t);
                proof {
                    assert(spec_tokens(s, p) == seq![t@] + spec_tokens(s, p + 1));
                    assert(tokens.deep_view() =~= dv0.push(t@));
                    assert(tokens.deep_view() + spec_tokens(s, lx@.pos) =~= spec_tokens(s, p0));
                }
            } else if c == '=' {
                let t = lx.single_char(TokenKind::Equals);
                tokens.push(t);
                proof {
                    assert(spec_tokens(s, p) == seq![t@] + spec_tokens(s, p + 1));
                    assert(tokens.deep_view() =~= dv0.push(t@));
                    assert(tokens.deep_view() + spec_tokens(s, lx@.pos) =~= spec_tokens(s, p0));
                }
            } else if c == '"' {
                proof {
                    lemma_string_resume_bounds(s, p);
                }
                let t = lx.string_literal_tokenize();
                tokens.push(t);
                proof {
                    assert(spec_tokens(s, p) == seq![t@] + spec_tokens(s, string_resume(s, p)));
                    assert(tokens.deep_view() =~= dv0.push(t@));
                    assert(tokens.deep_view() + spec_tokens(s, lx@.pos) =~= spec_tokens(s, p0));
                }
            } else {
                let slash_next = match lx.peek_char() {
                    Some(c2) => c2 == '/',
                    None => false,
                };
                if c == '/' && slash_next {
                    proof {
                        assert(at_comment(s, p));
                        lemma_skip_line_bounds(s, p);
                        assert(spec_tokens(s, p) == spec_tokens(s, skip_line(s, p)));
                    }
                    lx.skip_comments();
                } else if is_alpha(c) {
                    proof {
                        lemma_ident_end_bounds(s, p + 1);
                    }
                    let t = lx.greedy_tokenize();
                    tokens.push(t);
                    proof {
                        assert(spec_tokens(s, p) == seq![t@] + spec_tokens(s, ident_end(s, p)));
                        assert(tokens.deep_view() =~= dv0.push(t@));
                        assert(tokens.deep_view() + spec_tokens(s, lx@.pos) =~= spec_tokens(
                            s,
                            p0,
                        ));
                    }
                } else {
                    let t = lx.unexpected_char();
                    tokens.push(t);
                    proof {
                        assert(spec_tokens(s, p) == seq![t@] + spec_tokens(s, p + 1));
                        assert(tokens.deep_view() =~= dv0.push(t@));
                        assert(tokens.deep_view() + spec_tokens(s, lx@.pos) =~= spec_tokens(
                            s,
                            p0,
                        ));
                    }
                }
            }
        }
        tokens
    }
}

} // verus!
