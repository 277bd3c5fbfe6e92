use sql_expr::ast::{Keyword, Token};
use sql_expr::error::ParseError;
use sql_expr::tokenizer::Tokenizer;

fn lex(input: &str) -> Vec<Token> {
    let mut tokenizer = Tokenizer::new(input);
    tokenizer.tokenize_string().unwrap()
}

#[test]
fn keyword_case_insensitivity() {
    let cases: Vec<(&str, Keyword)> = vec![
        ("select", Keyword::Select),
        ("SELECT", Keyword::Select),
        ("SeLeCt", Keyword::Select),
        ("create", Keyword::Create),
        ("CREATE", Keyword::Create),
        ("cReAtE", Keyword::Create),
        ("table", Keyword::Table),
        ("TABLE", Keyword::Table),
        ("TaBlE", Keyword::Table),
        ("where", Keyword::Where),
        ("WHERE", Keyword::Where),
        ("wHeRe", Keyword::Where),
        ("from", Keyword::From),
        ("FROM", Keyword::From),
        ("FrOm", Keyword::From),
        ("order", Keyword::Order),
        ("ORDER", Keyword::Order),
        ("oRdEr", Keyword::Order),
        ("by", Keyword::By),
        ("BY", Keyword::By),
        ("bY", Keyword::By),
        ("and", Keyword::And),
        ("AND", Keyword::And),
        ("aNd", Keyword::And),
        ("or", Keyword::Or),
        ("OR", Keyword::Or),
        ("oR", Keyword::Or),
        ("not", Keyword::Not),
        ("NOT", Keyword::Not),
        ("nOt", Keyword::Not),
    ];
    for (text, keyword) in cases {
        assert_eq!(
            lex(text),
            vec![Token::Keyword(keyword.clone()), Token::Eof],
            "lexing {:?}",
            text
        );
    }
}

#[test]
fn keyword_lookup_direct() {
    assert_eq!(Keyword::from_str("SeLeCt"), Some(Keyword::Select));
    assert_eq!(Keyword::from_str("BY"), Some(Keyword::By));
    assert_eq!(Keyword::from_str("selects"), None);
    assert_eq!(Keyword::from_str(""), None);
    assert_eq!(Keyword::from_str("sel"), None);
}

#[test]
fn maximal_munch_identifier() {
    assert_eq!(
        lex("abc123_x"),
        vec![Token::Identifier("abc123_x".to_string()), Token::Eof]
    );
}

#[test]
fn identifier_with_keyword_prefix_is_identifier() {
    assert_eq!(
        lex("selection"),
        vec![Token::Identifier("selection".to_string()), Token::Eof]
    );
}

#[test]
fn number_at_u64_max() {
    assert_eq!(
        lex("18446744073709551615"),
        vec![Token::Number(u64::MAX), Token::Eof]
    );
}

#[test]
fn number_above_u64_max_truncates_stream() {
    // The overflowing digit run is a lexical error; tokenization stops
    // at the first error and only the sentinel remains.
    assert_eq!(lex("18446744073709551616"), vec![Token::Eof]);
}

#[test]
fn operator_disambiguation() {
    assert_eq!(lex(">="), vec![Token::GreaterThanOrEqual, Token::Eof]);
    assert_eq!(lex("<="), vec![Token::LessThanOrEqual, Token::Eof]);
    assert_eq!(lex("!="), vec![Token::NotEqual, Token::Eof]);
    assert_eq!(lex(">"), vec![Token::GreaterThan, Token::Eof]);
    assert_eq!(lex("<"), vec![Token::LessThan, Token::Eof]);
    assert_eq!(lex("="), vec![Token::Equal, Token::Eof]);
}

#[test]
fn doubled_equals_still_one_equal() {
    assert_eq!(lex("=="), vec![Token::Equal, Token::Eof]);
}

#[test]
fn bare_bang_is_an_error() {
    assert_eq!(lex("!"), vec![Token::Eof]);
}

#[test]
fn unterminated_string_truncates_stream() {
    assert_eq!(lex("\"abc"), vec![Token::Eof]);
}

#[test]
fn string_literal_content() {
    assert_eq!(
        lex("\"hello world\""),
        vec![Token::StringLiteral("hello world".to_string()), Token::Eof]
    );
    assert_eq!(
        lex("\"\""),
        vec![Token::StringLiteral(String::new()), Token::Eof]
    );
}

#[test]
fn whitespace_is_skipped() {
    assert_eq!(
        lex(" \t1 +\n2\r "),
        vec![Token::Number(1), Token::Plus, Token::Number(2), Token::Eof]
    );
}

#[test]
fn punctuation_tokens() {
    assert_eq!(
        lex("(),;"),
        vec![
            Token::LeftParentheses,
            Token::RightParentheses,
            Token::Comma,
            Token::Semicolon,
            Token::Eof
        ]
    );
}

#[test]
fn arithmetic_tokens() {
    assert_eq!(
        lex("+-*/"),
        vec![
            Token::Plus,
            Token::Minus,
            Token::Multiply,
            Token::Divide,
            Token::Eof
        ]
    );
}

#[test]
fn fail_fast_keeps_tokens_before_the_error() {
    // Tokens scanned before the first error stay; the rest of the input
    // is discarded and the sentinel closes the stream.
    assert_eq!(
        lex("1 + $ 2"),
        vec![Token::Number(1), Token::Plus, Token::Eof]
    );
}

#[test]
fn select_statement_shape() {
    assert_eq!(
        lex("SELECT foo FROM bar;"),
        vec![
            Token::Keyword(Keyword::Select),
            Token::Identifier("foo".to_string()),
            Token::Keyword(Keyword::From),
            Token::Identifier("bar".to_string()),
            Token::Semicolon,
            Token::Eof
        ]
    );
}

#[test]
fn tokenize_string_twice_is_identical() {
    let mut tokenizer = Tokenizer::new("SELECT 1 + x");
    let first = tokenizer.tokenize_string().unwrap();
    let second = tokenizer.tokenize_string().unwrap();
    assert_eq!(first, second);
}

#[test]
fn tokenize_string_twice_after_error_is_identical() {
    let mut tokenizer = Tokenizer::new("\"unterminated");
    let first = tokenizer.tokenize_string().unwrap();
    let second = tokenizer.tokenize_string().unwrap();
    assert_eq!(first, vec![Token::Eof]);
    assert_eq!(first, second);
}

#[test]
fn peek_does_not_consume() {
    let tokenizer = Tokenizer::new("1+2");
    assert_eq!(tokenizer.peek_token(), Some(Token::Number(1)));
    assert_eq!(tokenizer.peek_token(), Some(Token::Number(1)));
}

#[test]
fn next_consumes_and_then_repeats_eof() {
    let mut tokenizer = Tokenizer::new("1+");
    assert_eq!(tokenizer.next(), Some(Token::Number(1)));
    assert_eq!(tokenizer.next(), Some(Token::Plus));
    assert_eq!(tokenizer.next(), Some(Token::Eof));
    // The recorded sequence is exhausted; the sentinel keeps coming.
    assert_eq!(tokenizer.next(), Some(Token::Eof));
    assert_eq!(tokenizer.next(), Some(Token::Eof));
    assert_eq!(tokenizer.peek_token(), None);
}

#[test]
fn empty_input_is_just_the_sentinel() {
    assert_eq!(lex(""), vec![Token::Eof]);
    assert_eq!(lex("   "), vec![Token::Eof]);
}

#[test]
fn error_messages() {
    let e = ParseError::InvalidInput("x".to_string());
    assert_eq!(e.message(), "Invalid input: x");
    let e = ParseError::UnexpectedEndOfInput("oops".to_string());
    assert_eq!(e.message(), "Unexpected end of input: oops");
    let e = ParseError::ExpectedNumber("99999".to_string());
    assert_eq!(e.message(), "Expected number: 99999");
}

#[test]
fn retrieval_leaves_the_cursor_alone() {
    let mut tokenizer = Tokenizer::new("1 2 3");
    assert_eq!(tokenizer.next(), Some(Token::Number(1)));
    let all = tokenizer.tokenize_string().unwrap();
    assert_eq!(
        all,
        vec![Token::Number(1), Token::Number(2), Token::Number(3), Token::Eof]
    );
    // The whole-sequence retrieval did not move the cursor.
    assert_eq!(tokenizer.next(), Some(Token::Number(2)));
}

#[test]
fn mixed_statement_with_string_literal() {
    assert_eq!(
        lex("WHERE name = \"bob\""),
        vec![
            Token::Keyword(Keyword::Where),
            Token::Identifier("name".to_string()),
            Token::Equal,
            Token::StringLiteral("bob".to_string()),
            Token::Eof
        ]
    );
}
