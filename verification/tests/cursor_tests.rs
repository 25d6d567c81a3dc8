use datalex::lexer::Lexer;
use datalex::token::{TextSpan, Token, TokenKind};

#[test]
fn current_char_does_not_advance() {
    let lx = Lexer::new("ab".to_string());
    assert_eq!(lx.current_char(), Some('a'));
    assert_eq!(lx.current_char(), Some('a'));
}

#[test]
fn peek_looks_ahead_without_advancing() {
    let lx = Lexer::new("abc".to_string());
    assert_eq!(lx.peek_char(), Some('b'));
    assert_eq!(lx.peek_char_by(2), Some('c'));
    assert_eq!(lx.peek_char_by(3), None);
    assert_eq!(lx.current_char(), Some('a'));
}

#[test]
fn consume_advances_one_character() {
    let mut lx = Lexer::new("ab".to_string());
    assert_eq!(lx.consume(), Some('a'));
    assert_eq!(lx.current_char(), Some('b'));
    assert_eq!(lx.consume(), Some('b'));
    assert_eq!(lx.consume(), None);
    assert_eq!(lx.current_char(), None);
}

#[test]
fn consume_n_chars_does_nothing_when_too_few_remain() {
    let mut lx = Lexer::new("ab".to_string());
    lx.consume_n_chars(3);
    assert_eq!(lx.current_char(), Some('a'));
    lx.consume_n_chars(2);
    assert_eq!(lx.current_char(), None);
}

#[test]
fn consume_while_stops_at_first_rejected_character() {
    let mut lx = Lexer::new("abc123".to_string());
    let taken = lx.consume_while(|c| c.is_alphabetic());
    assert_eq!(taken, "abc");
    assert_eq!(lx.current_char(), Some('1'));
}

#[test]
fn consume_until_stops_at_first_accepted_character() {
    let mut lx = Lexer::new("abc\ndef".to_string());
    let taken = lx.consume_until(|c| c == '\n');
    assert_eq!(taken, "abc");
    assert_eq!(lx.current_char(), Some('\n'));
}

#[test]
fn consume_while_runs_to_end_of_input() {
    let mut lx = Lexer::new("xyz".to_string());
    let taken = lx.consume_while(|c| c != ' ');
    assert_eq!(taken, "xyz");
    assert_eq!(lx.current_char(), None);
}

#[test]
fn positions_count_characters_not_bytes() {
    // a two-byte character occupies one position
    let toks = Lexer::new("é".to_string()).tokenize();
    assert_eq!(toks.len(), 1);
    assert_eq!(toks[0].kind, TokenKind::Error);
    assert_eq!(toks[0].span.start, 0);
    assert_eq!(toks[0].span.end, 1);
    assert_eq!(toks[0].span.literal, "Unexpected character: 'é'");
}

#[test]
fn text_span_length() {
    let span = TextSpan::new(3, 7, 1, "abcd".to_string());
    assert_eq!(span.len(), 4);
    assert_eq!(span.start, 3);
    assert_eq!(span.end, 7);
    assert_eq!(span.line, 1);
    assert_eq!(span.literal, "abcd");
}

#[test]
fn token_holds_kind_and_span() {
    let t = Token::new(TokenKind::Equals, TextSpan::new(0, 1, 2, "=".to_string()));
    assert_eq!(t.kind, TokenKind::Equals);
    assert_eq!(t.span.start, 0);
    assert_eq!(t.span.end, 1);
    assert_eq!(t.span.line, 2);
}

#[test]
fn tokenize_skips_leading_whitespace_and_comments() {
    let toks = Lexer::new("  // note\n  (".to_string()).tokenize();
    assert_eq!(toks.len(), 1);
    assert_eq!(toks[0].kind, TokenKind::LeftParen);
    assert_eq!(toks[0].span.line, 2);
}
