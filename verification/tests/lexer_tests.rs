use datalex::lexer::Lexer;
use datalex::token::{Token, TokenKind};

fn lex(input: &str) -> Vec<Token> {
    Lexer::new(input.to_string()).tokenize()
}

#[test]
fn empty_input_gives_no_tokens() {
    let toks = lex("");
    assert_eq!(toks.len(), 0);
}

#[test]
fn whitespace_only_gives_no_tokens() {
    let toks = lex("  \t\r\n   ");
    assert_eq!(toks.len(), 0);
}

#[test]
fn keyword_lowercase() {
    let toks = lex("data");
    assert_eq!(toks.len(), 1);
    assert_eq!(toks[0].kind, TokenKind::Data);
    assert_eq!(toks[0].span.literal, "data");
    assert_eq!(toks[0].span.start, 0);
    assert_eq!(toks[0].span.end, 4);
    assert_eq!(toks[0].span.line, 1);
}

#[test]
fn keyword_capitalized() {
    let toks = lex("Data");
    assert_eq!(toks.len(), 1);
    assert_eq!(toks[0].kind, TokenKind::Data);
    assert_eq!(toks[0].span.literal, "Data");
}

#[test]
fn keyword_uppercase() {
    let toks = lex("DATA");
    assert_eq!(toks.len(), 1);
    assert_eq!(toks[0].kind, TokenKind::Data);
    assert_eq!(toks[0].span.literal, "DATA");
}

#[test]
fn keyword_mixed_case() {
    let toks = lex("dAtA");
    assert_eq!(toks.len(), 1);
    assert_eq!(toks[0].kind, TokenKind::Data);
    assert_eq!(toks[0].span.literal, "dAtA");
}

#[test]
fn longer_identifier_is_not_keyword() {
    let toks = lex("database");
    assert_eq!(toks.len(), 1);
    assert_eq!(toks[0].kind, TokenKind::Literal);
    assert_eq!(toks[0].span.literal, "database");
}

#[test]
fn identifier_with_digits_and_underscore() {
    let toks = lex("ab_1c");
    assert_eq!(toks.len(), 1);
    assert_eq!(toks[0].kind, TokenKind::Literal);
    assert_eq!(toks[0].span.literal, "ab_1c");
}

#[test]
fn end_to_end_example() {
    let toks = lex("data wow()");
    assert_eq!(toks.len(), 4);
    assert_eq!(toks[0].kind, TokenKind::Data);
    assert_eq!(toks[0].span.literal, "data");
    assert_eq!(toks[0].span.start, 0);
    assert_eq!(toks[0].span.end, 4);
    assert_eq!(toks[1].kind, TokenKind::Literal);
    assert_eq!(toks[1].span.literal, "wow");
    assert_eq!(toks[1].span.start, 5);
    assert_eq!(toks[1].span.end, 8);
    assert_eq!(toks[2].kind, TokenKind::LeftParen);
    assert_eq!(toks[2].span.literal, "(");
    assert_eq!(toks[2].span.start, 8);
    assert_eq!(toks[2].span.end, 9);
    assert_eq!(toks[3].kind, TokenKind::RightParen);
    assert_eq!(toks[3].span.literal, ")");
    assert_eq!(toks[3].span.start, 9);
    assert_eq!(toks[3].span.end, 10);
    for t in &toks {
        assert!(t.kind != TokenKind::Error);
        assert_eq!(t.span.line, 1);
    }
    // the last token ends exactly at the input's length: the cursor drained it
    assert_eq!(toks[3].span.end, "data wow()".len());
}

#[test]
fn equals_token() {
    let toks = lex("a = b");
    assert_eq!(toks.len(), 3);
    assert_eq!(toks[0].kind, TokenKind::Literal);
    assert_eq!(toks[1].kind, TokenKind::Equals);
    assert_eq!(toks[1].span.literal, "=");
    assert_eq!(toks[1].span.start, 2);
    assert_eq!(toks[1].span.end, 3);
    assert_eq!(toks[2].kind, TokenKind::Literal);
    assert_eq!(toks[2].span.literal, "b");
}

#[test]
fn comment_elision() {
    let toks = lex("// hello\ndata");
    assert_eq!(toks.len(), 1);
    assert_eq!(toks[0].kind, TokenKind::Data);
    assert_eq!(toks[0].span.literal, "data");
    assert_eq!(toks[0].span.line, 2);
}

#[test]
fn comment_at_end_of_input_without_newline() {
    let toks = lex("// trailing");
    assert_eq!(toks.len(), 0);
}

#[test]
fn consecutive_comment_lines() {
    let toks = lex("//a\n//b\ndata");
    assert_eq!(toks.len(), 1);
    assert_eq!(toks[0].kind, TokenKind::Data);
    assert_eq!(toks[0].span.line, 3);
}

#[test]
fn lone_slash_is_unexpected() {
    let toks = lex("/");
    assert_eq!(toks.len(), 1);
    assert_eq!(toks[0].kind, TokenKind::Error);
    assert_eq!(toks[0].span.literal, "Unexpected character: '/'");
}

#[test]
fn unexpected_character() {
    let toks = lex("#");
    assert_eq!(toks.len(), 1);
    assert_eq!(toks[0].kind, TokenKind::Error);
    assert_eq!(toks[0].span.literal, "Unexpected character: '#'");
    assert_eq!(toks[0].span.start, 0);
    assert_eq!(toks[0].span.end, 1);
    assert_eq!(toks[0].span.line, 1);
}

#[test]
fn digit_cannot_start_a_token() {
    let toks = lex("1");
    assert_eq!(toks.len(), 1);
    assert_eq!(toks[0].kind, TokenKind::Error);
    assert_eq!(toks[0].span.literal, "Unexpected character: '1'");
}

#[test]
fn scanning_resumes_after_unexpected_character() {
    let toks = lex("# data");
    assert_eq!(toks.len(), 2);
    assert_eq!(toks[0].kind, TokenKind::Error);
    assert_eq!(toks[1].kind, TokenKind::Data);
}

#[test]
fn single_quote_string() {
    let toks = lex("\"hi\" data");
    assert_eq!(toks.len(), 2);
    assert_eq!(toks[0].kind, TokenKind::Literal);
    assert_eq!(toks[0].span.literal, "hi");
    assert_eq!(toks[0].span.start, 0);
    assert_eq!(toks[0].span.end, 4);
    assert_eq!(toks[1].kind, TokenKind::Data);
}

#[test]
fn triple_quote_string_spans_lines() {
    let toks = lex("\"\"\"multi\nline\"\"\"");
    assert_eq!(toks.len(), 1);
    assert_eq!(toks[0].kind, TokenKind::Literal);
    assert_eq!(toks[0].span.literal, "multi\nline");
    assert_eq!(toks[0].span.start, 0);
    assert_eq!(toks[0].span.end, 16);
    assert_eq!(toks[0].span.line, 1);
}

#[test]
fn line_counter_tracks_newlines_inside_triple_quote_strings() {
    let toks = lex("\"\"\"a\nb\"\"\"\ndata");
    assert_eq!(toks.len(), 2);
    assert_eq!(toks[0].kind, TokenKind::Literal);
    assert_eq!(toks[0].span.literal, "a\nb");
    assert_eq!(toks[0].span.line, 1);
    assert_eq!(toks[1].kind, TokenKind::Data);
    assert_eq!(toks[1].span.line, 3);
}

#[test]
fn double_quote_delimiter() {
    let toks = lex("\"\"x\"\"");
    assert_eq!(toks.len(), 1);
    assert_eq!(toks[0].kind, TokenKind::Literal);
    assert_eq!(toks[0].span.literal, "x");
    assert_eq!(toks[0].span.start, 0);
    assert_eq!(toks[0].span.end, 5);
}

#[test]
fn empty_double_quote_string_at_end_of_input() {
    let toks = lex("\"\"");
    assert_eq!(toks.len(), 1);
    assert_eq!(toks[0].kind, TokenKind::Literal);
    assert_eq!(toks[0].span.literal, "");
    assert_eq!(toks[0].span.end, 2);
}

#[test]
fn unterminated_string_at_end_of_input_is_accepted() {
    let toks = lex("\"abc");
    assert_eq!(toks.len(), 1);
    assert_eq!(toks[0].kind, TokenKind::Literal);
    assert_eq!(toks[0].span.literal, "abc");
    assert_eq!(toks[0].span.start, 0);
    assert_eq!(toks[0].span.end, 4);
}

#[test]
fn unterminated_string_with_newline_is_an_error() {
    let toks = lex("\"abc\ndef\"");
    assert_eq!(toks.len(), 3);
    assert_eq!(toks[0].kind, TokenKind::Error);
    assert_eq!(toks[0].span.literal, "Unterminated string");
    assert_eq!(toks[0].span.start, 0);
    assert_eq!(toks[0].span.end, 4);
    assert_eq!(toks[0].span.line, 1);
    // scanning resumes at the newline; the rest is tokenized normally
    assert_eq!(toks[1].kind, TokenKind::Literal);
    assert_eq!(toks[1].span.literal, "def");
    assert_eq!(toks[1].span.line, 2);
    assert_eq!(toks[2].kind, TokenKind::Literal);
    assert_eq!(toks[2].span.literal, "");
    let errors: Vec<&Token> = toks.iter().filter(|t| t.kind == TokenKind::Error).collect();
    assert_eq!(errors.len(), 1);
}

#[test]
fn newline_inside_triple_quote_string_is_not_an_error() {
    let toks = lex("\"\"\"a\nb\"\"\"");
    assert_eq!(toks.len(), 1);
    assert!(toks[0].kind != TokenKind::Error);
}

#[test]
fn spans_partition_the_input() {
    let input = "data x = \"v\" // c\ndata y";
    let toks = lex(input);
    let mut last_end = 0;
    for t in &toks {
        assert!(t.span.start >= last_end);
        assert!(t.span.end > t.span.start);
        last_end = t.span.end;
    }
    assert!(last_end <= input.len());
}

#[test]
fn non_error_literals_match_their_span_substring() {
    let input = "data wow() = abc";
    let toks = lex(input);
    for t in &toks {
        if t.kind != TokenKind::Error && t.kind != TokenKind::Literal {
            assert_eq!(t.span.literal, &input[t.span.start..t.span.end]);
        }
    }
    // identifiers equal their span substring too
    assert_eq!(toks[1].span.literal, &input["data ".len().."data wow".len()]);
}
