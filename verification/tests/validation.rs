use json_parser::Lexer;
use json_parser::Parser;

fn parse_text(input: &str) -> Result<i32, String> {
    let mut lexer = Lexer::new(String::from(input));
    lexer.tokenize();
    let tokens = lexer.get_tokens();
    let mut parser = Parser::new(tokens);
    parser.parse()
}

#[test]
fn minimal_object_parses() {
    assert_eq!(parse_text("{\"a\":1 }"), Ok(0));
}

#[test]
fn empty_array_parses() {
    assert_eq!(parse_text("[]"), Ok(0));
}

#[test]
fn empty_object_parses() {
    assert_eq!(parse_text("{}"), Ok(0));
}

#[test]
fn empty_document_is_rejected() {
    assert_eq!(parse_text(""), Err(String::from("empty JSON file")));
}

#[test]
fn whitespace_only_document_is_rejected() {
    assert_eq!(parse_text(" \n\t "), Err(String::from("empty JSON file")));
}

#[test]
fn missing_value_is_rejected_at_the_closing_brace() {
    assert_eq!(
        parse_text("{\"a\":}"),
        Err(String::from("Unexpected token at position 5."))
    );
}

#[test]
fn bare_true_parses() {
    assert_eq!(parse_text("true"), Ok(0));
}

#[test]
fn bare_false_and_null_parse() {
    assert_eq!(parse_text("false"), Ok(0));
    assert_eq!(parse_text("null"), Ok(0));
}

#[test]
fn trailing_comma_in_object_is_rejected() {
    assert_eq!(
        parse_text("{\"a\":1,}"),
        Err(String::from("Unexpected token at position 7."))
    );
}

#[test]
fn trailing_content_after_object_is_rejected() {
    assert_eq!(
        parse_text("{\"a\":1 } null"),
        Err(String::from("Unexpected token at position 7."))
    );
}

#[test]
fn trailing_content_after_bare_scalar_is_rejected() {
    assert!(parse_text("true false").is_err());
}

#[test]
fn duplicate_keys_are_syntactically_accepted() {
    assert_eq!(parse_text("{\"a\":1 ,\"a\":2 }"), Ok(0));
}

#[test]
fn nested_structures_parse() {
    assert_eq!(parse_text("{\"a\":{\"b\":[true ,null ] } }"), Ok(0));
}

#[test]
fn top_level_array_with_elements_parses() {
    assert_eq!(parse_text("[1 ,true ,null ,\"x\" ]"), Ok(0));
}

#[test]
fn comma_before_closing_bracket_is_rejected() {
    assert!(parse_text("[1 ,]").is_err());
}

#[test]
fn colon_after_array_comma_is_rejected() {
    assert!(parse_text("[1 ,:]").is_err());
}

#[test]
fn object_key_must_be_a_string() {
    assert!(parse_text("{1:2 }").is_err());
}

#[test]
fn missing_colon_is_rejected() {
    assert!(parse_text("{\"a\" 1 }").is_err());
}

#[test]
fn punctuation_cannot_open_a_document() {
    assert_eq!(parse_text(":"), Err(String::from("Unexpected token at position 0.")));
}

#[test]
fn truncated_string_still_parses_as_bare_scalar() {
    assert_eq!(parse_text("\"ab\n"), Ok(0));
}

#[test]
fn merged_close_brace_token_fails_validation() {
    // the lexer turns the `}` terminator into an opening-brace token, so
    // the object never sees its closing brace
    assert!(parse_text("{\"a\":1}").is_err());
}

#[test]
fn exponent_numbers_parse() {
    assert_eq!(parse_text("1e5"), Ok(0));
    assert_eq!(parse_text("-2.5E-3"), Ok(0));
    assert_eq!(parse_text(".5"), Ok(0));
    assert_eq!(parse_text("7."), Ok(0));
}

#[test]
fn infinity_and_nan_spellings_parse_as_numbers() {
    assert_eq!(parse_text("inf"), Ok(0));
    assert_eq!(parse_text("-Infinity"), Ok(0));
    assert_eq!(parse_text("NaN"), Ok(0));
}

#[test]
fn malformed_numbers_are_rejected_with_their_text() {
    assert_eq!(
        parse_text("1e"),
        Err(String::from("Unexpected token 1e at position 1."))
    );
    assert!(parse_text("--5").is_err());
    assert!(parse_text("1.2.3").is_err());
    assert!(parse_text("+").is_err());
}

#[test]
fn misspelled_null_is_rejected_with_its_text() {
    assert_eq!(
        parse_text("nan"),
        Err(String::from("Unexpected token nan at position 2."))
    );
    assert!(parse_text("nul").is_err());
}

#[test]
fn misspelled_boolean_is_rejected() {
    assert!(parse_text("tru").is_err());
    assert!(parse_text("fals").is_err());
}

#[test]
fn boolean_inside_object_is_checked() {
    assert!(parse_text("{\"a\":tru }").is_err());
    assert_eq!(parse_text("{\"a\":false }"), Ok(0));
}

#[test]
fn parse_error_carries_raw_text_when_present() {
    assert_eq!(
        parse_text("{\"a\":bad }"),
        Err(String::from("Unexpected token bad at position 8."))
    );
}
