use saba_core::token::JsLexer;
use saba_core::token::LexError;
use saba_core::token::Token;

// Compares tokens for as long as the lexer yields them; expected entries
// beyond the lexer's end stay unchecked.
fn assert_lexes_to(input: &str, expected: Vec<Token>) {
    let mut lexer = JsLexer::new(input.to_string());
    let mut i = 0;
    while let Some(t) = lexer.next().unwrap() {
        assert_eq!(expected[i], t);
        i += 1;
    }
    assert!(i <= expected.len());
}

#[test]
fn test_empty() {
    let input = "".to_string();
    let mut lexer = JsLexer::new(input);
    assert!(lexer.next().unwrap().is_none());
}

#[test]
fn token_test_num() {
    let input = "42".to_string();
    assert_lexes_to(&input, vec![Token::Number(42)]);
}

#[test]
fn token_test_add_nums() {
    let input = "1 + 2".to_string();
    assert_lexes_to(
        &input,
        vec![Token::Number(1), Token::Punctuator('+'), Token::Number(2)],
    );
}

#[test]
fn token_test_assign_variable() {
    let input = "var foo=\"bar\";".to_string();
    assert_lexes_to(
        &input,
        vec![
            Token::Keyword("var".to_string()),
            Token::Identifier("foo".to_string()),
            Token::Punctuator('='),
            Token::StringLiteral("bar".to_string()),
            Token::Punctuator(';'),
        ],
    );
}

#[test]
fn test_variable_and_num() {
    let input = "var foo=42; var result=foo+1".to_string();
    assert_lexes_to(
        &input,
        vec![
            Token::Keyword("var".to_string()),
            Token::Identifier("foo".to_string()),
            Token::Punctuator('='),
            Token::Number(42),
            Token::Punctuator(';'),
            Token::Keyword("var".to_string()),
            Token::Identifier("result".to_string()),
            Token::Punctuator('='),
            Token::Identifier("foo".to_string()),
            Token::Punctuator('+'),
            Token::Number(1),
            Token::Punctuator(';'),
        ],
    );
}

#[test]
fn test_add_local_variable_and_num() {
    let input = "function foo() { var a=42; return a; } var result = foo() + 1;".to_string();
    assert_lexes_to(
        &input,
        vec![
            Token::Keyword("function".to_string()),
            Token::Identifier("foo".to_string()),
            Token::Punctuator('('),
            Token::Punctuator(')'),
            Token::Punctuator('{'),
            Token::Keyword("var".to_string()),
            Token::Identifier("a".to_string()),
            Token::Punctuator('='),
            Token::Number(42),
            Token::Punctuator(';'),
            Token::Keyword("return".to_string()),
            Token::Identifier("a".to_string()),
            Token::Punctuator(';'),
            Token::Punctuator('}'),
            Token::Keyword("var".to_string()),
            Token::Identifier("result".to_string()),
            Token::Punctuator('='),
            Token::Identifier("foo".to_string()),
            Token::Punctuator('('),
            Token::Punctuator(')'),
            Token::Punctuator('+'),
            Token::Number(1),
            Token::Punctuator(';'),
        ],
    );
}

#[test]
fn test_reserved_word_has_no_boundary_check() {
    // A reserved word matches as a bare prefix, so a longer identifier that
    // starts with one splits into a keyword and the remainder.
    assert_lexes_to(
        "variable",
        vec![
            Token::Keyword("var".to_string()),
            Token::Identifier("iable".to_string()),
        ],
    );
}

#[test]
fn test_identifier_with_dollar() {
    assert_lexes_to("$a", vec![Token::Identifier("$a".to_string())]);
}

#[test]
fn test_identifier_stops_at_digit() {
    // Digits are not identifier characters, so a digit splits the run.
    assert_lexes_to(
        "ab1",
        vec![Token::Identifier("ab".to_string()), Token::Number(1)],
    );
}

#[test]
fn test_unterminated_string_runs_to_end() {
    assert_lexes_to("\"abc", vec![Token::StringLiteral("abc".to_string())]);
}

#[test]
fn test_number_wraps_around() {
    // 2^64 wraps to zero under the lexer's unsigned accumulation.
    assert_lexes_to("18446744073709551616", vec![Token::Number(0)]);
}

#[test]
fn test_whitespace_only_input_is_empty() {
    let mut lexer = JsLexer::new("  \n \n ".to_string());
    assert!(lexer.next().unwrap().is_none());
}

#[test]
fn test_unsupported_character_is_fatal() {
    let mut lexer = JsLexer::new("1 @ 2".to_string());
    assert_eq!(Some(Token::Number(1)), lexer.next().unwrap());
    assert_eq!(Err(LexError::UnsupportedCharacter('@')), lexer.next());
}

#[test]
fn test_all_punctuators() {
    let mut lexer = JsLexer::new("+-=;(){},.".to_string());
    for c in ['+', '-', '=', ';', '(', ')', '{', '}', ',', '.'] {
        assert_eq!(Some(Token::Punctuator(c)), lexer.next().unwrap());
    }
    assert!(lexer.next().unwrap().is_none());
}
