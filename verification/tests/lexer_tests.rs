use marlang::lexer::{Lexer, TextSpan, Token, TokenKind};

fn lex(input: &str) -> Vec<Token> {
    let text = String::from(input);
    let mut lexer = Lexer::new(&text);
    lexer.tokenize()
}

#[test]
fn number_token_basic() {
    let tokens = lex("12345");
    assert_eq!(tokens.len(), 1);
    assert_eq!(tokens[0].kind, TokenKind::Number(12345));
    assert_eq!(tokens[0].span.start, 0);
    assert_eq!(tokens[0].span.end, 5);
    assert_eq!(tokens[0].span.literal, "12345");
}

#[test]
fn number_value_accumulates_base_ten() {
    let tokens = lex("907");
    assert_eq!(tokens[0].kind, TokenKind::Number(907));
    let tokens = lex("0");
    assert_eq!(tokens[0].kind, TokenKind::Number(0));
    let tokens = lex("0042");
    assert_eq!(tokens[0].kind, TokenKind::Number(42));
}

#[test]
fn number_saturates_at_isize_max() {
    let tokens = lex("999999999999999999999999999999");
    assert_eq!(tokens.len(), 1);
    assert_eq!(tokens[0].kind, TokenKind::Number(isize::MAX));
}

#[test]
fn span_literal_equals_input_substring() {
    let input = "12 + foo(7)";
    let text = String::from(input);
    let mut lexer = Lexer::new(&text);
    let tokens = lexer.tokenize();
    for token in &tokens {
        assert_eq!(token.span.literal, &input[token.span.start..token.span.end]);
    }
    assert_eq!(tokens[0].span.end, tokens[1].span.start);
    assert_eq!(tokens.last().unwrap().span.end, input.len());
}

#[test]
fn whitespace_run_in_the_middle_is_one_whitespace_token() {
    let tokens = lex("1 \t 2");
    assert_eq!(tokens.len(), 3);
    assert_eq!(tokens[0].kind, TokenKind::Number(1));
    assert_eq!(tokens[1].kind, TokenKind::Whitespace);
    assert_eq!(tokens[1].span.literal, " \t ");
    assert_eq!(tokens[2].kind, TokenKind::Number(2));
}

#[test]
fn trailing_whitespace_run_is_eof() {
    let tokens = lex("1  ");
    assert_eq!(tokens.len(), 2);
    assert_eq!(tokens[0].kind, TokenKind::Number(1));
    assert_eq!(tokens[1].kind, TokenKind::Eof);
    assert_eq!(tokens[1].span.literal, "  ");
}

#[test]
fn pure_whitespace_input_is_a_single_eof_token() {
    let tokens = lex("   \n\t");
    assert_eq!(tokens.len(), 1);
    assert_eq!(tokens[0].kind, TokenKind::Eof);
    assert_eq!(tokens[0].span.start, 0);
    assert_eq!(tokens[0].span.end, 5);
}

#[test]
fn keyword_and_identifier_classification() {
    let tokens = lex("return foo");
    assert_eq!(tokens.len(), 3);
    assert_eq!(tokens[0].kind, TokenKind::Return);
    assert_eq!(tokens[0].span.literal, "return");
    assert_eq!(tokens[1].kind, TokenKind::Whitespace);
    assert_eq!(tokens[2].kind, TokenKind::Identifier);
    assert_eq!(tokens[2].span.literal, "foo");
}

#[test]
fn identifier_absorbs_punctuation_until_whitespace() {
    let tokens = lex("foo;bar baz");
    assert_eq!(tokens.len(), 3);
    assert_eq!(tokens[0].kind, TokenKind::Identifier);
    assert_eq!(tokens[0].span.literal, "foo;bar");
    assert_eq!(tokens[1].kind, TokenKind::Whitespace);
    assert_eq!(tokens[2].kind, TokenKind::Identifier);
    assert_eq!(tokens[2].span.literal, "baz");
}

#[test]
fn underscore_starts_an_identifier() {
    let tokens = lex("_x");
    assert_eq!(tokens.len(), 1);
    assert_eq!(tokens[0].kind, TokenKind::Identifier);
    assert_eq!(tokens[0].span.literal, "_x");
}

#[test]
fn digits_then_letters_split_into_two_tokens() {
    let tokens = lex("12abc");
    assert_eq!(tokens.len(), 2);
    assert_eq!(tokens[0].kind, TokenKind::Number(12));
    assert_eq!(tokens[0].span.literal, "12");
    assert_eq!(tokens[1].kind, TokenKind::Identifier);
    assert_eq!(tokens[1].span.literal, "abc");
}

#[test]
fn single_character_symbol_table() {
    let tokens = lex(";+-*/()");
    let kinds: Vec<&TokenKind> = tokens.iter().map(|t| &t.kind).collect();
    assert_eq!(
        kinds,
        vec![
            &TokenKind::Semicolon,
            &TokenKind::Plus,
            &TokenKind::Minus,
            &TokenKind::Asterisk,
            &TokenKind::Slash,
            &TokenKind::OpenParen,
            &TokenKind::CloseParen,
        ]
    );
}

#[test]
fn unmapped_symbol_becomes_invalid() {
    let tokens = lex("#");
    assert_eq!(tokens.len(), 1);
    assert_eq!(tokens[0].kind, TokenKind::Invalid);
    assert_eq!(tokens[0].span.literal, "#");
}

#[test]
fn empty_input_yields_no_tokens() {
    let tokens = lex("");
    assert_eq!(tokens.len(), 0);
}

#[test]
fn next_token_is_none_after_exhaustion() {
    let text = String::from("7");
    let mut lexer = Lexer::new(&text);
    let first = lexer.next_token();
    assert!(first.is_some());
    assert_eq!(first.unwrap().kind, TokenKind::Number(7));
    assert!(lexer.next_token().is_none());
    assert!(lexer.next_token().is_none());
}

#[test]
fn spans_count_characters_not_bytes() {
    let tokens = lex("\u{e9}x 1");
    assert_eq!(tokens.len(), 3);
    assert_eq!(tokens[0].kind, TokenKind::Identifier);
    assert_eq!(tokens[0].span.literal, "\u{e9}x");
    assert_eq!(tokens[0].span.start, 0);
    assert_eq!(tokens[0].span.end, 2);
    assert_eq!(tokens[2].kind, TokenKind::Number(1));
    assert_eq!(tokens[2].span.start, 3);
    assert_eq!(tokens[2].span.end, 4);
}

#[test]
fn text_span_new_and_length() {
    let span = TextSpan::new(3, 8, String::from("hello"));
    assert_eq!(span.start, 3);
    assert_eq!(span.end, 8);
    assert_eq!(span.literal, "hello");
    assert_eq!(span.length(), 5);
}

#[test]
fn token_new_keeps_kind_and_span() {
    let token = Token::new(TokenKind::Plus, TextSpan::new(0, 1, String::from("+")));
    assert_eq!(token.kind, TokenKind::Plus);
    assert_eq!(token.span.literal, "+");
}
