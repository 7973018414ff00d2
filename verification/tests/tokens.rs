use json_parser::Lexer;
use json_parser::Token;
use json_parser::TokenType;

fn lex(input: &str) -> Vec<Token> {
    let mut lexer = Lexer::new(String::from(input));
    lexer.tokenize();
    let mut out = Vec::new();
    for t in lexer.get_tokens() {
        out.push(Token::new(t.token_type, t.value.clone(), t.position));
    }
    out
}

fn kinds(tokens: &[Token]) -> Vec<TokenType> {
    tokens.iter().map(|t| t.token_type).collect()
}

#[test]
fn minimal_object_token_sequence() {
    let tokens = lex("{\"a\":1 }");
    assert_eq!(
        kinds(&tokens),
        vec![
            TokenType::LeftBrace,
            TokenType::String,
            TokenType::Colon,
            TokenType::Number,
            TokenType::RightBrace,
            TokenType::EndOfFile,
        ]
    );
    assert_eq!(tokens[1].value.as_deref(), Some("a"));
    assert_eq!(tokens[3].value.as_deref(), Some("1"));
}

#[test]
fn empty_array_token_sequence() {
    let tokens = lex("[]");
    assert_eq!(
        kinds(&tokens),
        vec![TokenType::LeftBracket, TokenType::RightBracket, TokenType::EndOfFile]
    );
    assert_eq!(tokens[0].position, 0);
    assert_eq!(tokens[1].position, 1);
    assert_eq!(tokens[2].position, 2);
}

#[test]
fn bare_scalar_followed_by_end_of_file() {
    let tokens = lex("true");
    assert_eq!(kinds(&tokens), vec![TokenType::Boolean, TokenType::EndOfFile]);
    assert_eq!(tokens[0].value.as_deref(), Some("true"));
    assert_eq!(tokens[0].position, 3);
}

#[test]
fn empty_input_yields_single_end_of_file() {
    let tokens = lex("");
    assert_eq!(kinds(&tokens), vec![TokenType::EndOfFile]);
    assert_eq!(tokens[0].position, 0);
}

#[test]
fn tokenize_is_deterministic() {
    let input = "{\"k\":[1 ,true ,null ] }";
    let mut first = Lexer::new(String::from(input));
    first.tokenize();
    let mut second = Lexer::new(String::from(input));
    second.tokenize();
    assert_eq!(first.get_tokens(), second.get_tokens());
}

#[test]
fn closing_brace_terminator_becomes_left_brace_token() {
    // the synthesized token reuses the opening kind, not the closing one
    let tokens = lex("{\"a\":1}");
    assert_eq!(
        kinds(&tokens),
        vec![
            TokenType::LeftBrace,
            TokenType::String,
            TokenType::Colon,
            TokenType::Number,
            TokenType::LeftBrace,
            TokenType::EndOfFile,
        ]
    );
}

#[test]
fn closing_bracket_terminator_becomes_left_bracket_token() {
    let tokens = lex("[1]");
    assert_eq!(
        kinds(&tokens),
        vec![
            TokenType::LeftBracket,
            TokenType::Number,
            TokenType::LeftBracket,
            TokenType::EndOfFile,
        ]
    );
}

#[test]
fn comma_terminator_is_synthesized_at_same_position() {
    let tokens = lex("[1,2 ]");
    assert_eq!(
        kinds(&tokens),
        vec![
            TokenType::LeftBracket,
            TokenType::Number,
            TokenType::Comma,
            TokenType::Number,
            TokenType::RightBracket,
            TokenType::EndOfFile,
        ]
    );
    assert_eq!(tokens[1].position, tokens[2].position);
}

#[test]
fn string_is_truncated_silently_at_newline() {
    let tokens = lex("\"ab\n");
    assert_eq!(kinds(&tokens), vec![TokenType::String, TokenType::EndOfFile]);
    assert_eq!(tokens[0].value.as_deref(), Some("ab"));
}

#[test]
fn escaped_quote_ends_the_string() {
    let tokens = lex("\"a\\\" ");
    assert_eq!(tokens[0].token_type, TokenType::String);
    assert_eq!(tokens[0].value.as_deref(), Some("a\\"));
}

#[test]
fn whitespace_is_skipped_without_advancing_positions() {
    let tokens = lex("   {");
    assert_eq!(kinds(&tokens), vec![TokenType::LeftBrace, TokenType::EndOfFile]);
    assert_eq!(tokens[0].position, 0);
}

#[test]
fn token_positions_point_past_multi_character_spans() {
    let tokens = lex("{\"a\":1 }");
    assert_eq!(tokens[0].position, 0);
    assert_eq!(tokens[1].position, 3);
    assert_eq!(tokens[2].position, 4);
    assert_eq!(tokens[3].position, 6);
    assert_eq!(tokens[4].position, 7);
    assert_eq!(tokens[5].position, 8);
}
