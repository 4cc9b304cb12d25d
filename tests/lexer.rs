use qalo::lexer::Lexer;
use qalo::token::TokenKind;

fn test_tokenization_iter(input: &str, tests: Vec<(TokenKind, &str)>) {
    let mut lexer = Lexer::new(input);

    for (i, (expected_token, expected_literal)) in tests.iter().enumerate() {
        let tok = lexer.next_token();

        assert_eq!(
            &tok.kind, expected_token,
            "Test {} - wrong 'kind'. Expected={:#?}, Got={:#?}",
            i, expected_token, tok.kind
        );

        assert_eq!(
            &tok.literal, expected_literal,
            "Test {} - wrong 'literal'. Expected={}, Got={}",
            i, expected_literal, tok.literal
        );
    }
}

#[test]
fn next_token() {
    let input = "=+(){};,";

    let tests = vec![
        (TokenKind::Assign, "="),
        (TokenKind::Plus, "+"),
        (TokenKind::LeftParen, "("),
        (TokenKind::RightParen, ")"),
        (TokenKind::LeftBrace, "{"),
        (TokenKind::RightBrace, "}"),
        (TokenKind::Semicolon, ";"),
        (TokenKind::Comma, ","),
        (TokenKind::Eof, ""),
    ];

    test_tokenization_iter(input, tests)
}

#[test]
fn next_token2() {
    let input = r#"
        let five = 5;
        let ten = 10;
        let add = fn(x, y) {
            x + y;
        };
        let result = add(five, ten);
    "#;

    let tests = vec![
        (TokenKind::Let, "let"),
        (TokenKind::Identifier, "five"),
        (TokenKind::Assign, "="),
        (TokenKind::Integer, "5"),
        (TokenKind::Semicolon, ";"),
        (TokenKind::Let, "let"),
        (TokenKind::Identifier, "ten"),
        (TokenKind::Assign, "="),
        (TokenKind::Integer, "10"),
        (TokenKind::Semicolon, ";"),
        (TokenKind::Let, "let"),
        (TokenKind::Identifier, "add"),
        (TokenKind::Assign, "="),
        (TokenKind::Function, "fn"),
        (TokenKind::LeftParen, "("),
        (TokenKind::Identifier, "x"),
        (TokenKind::Comma, ","),
        (TokenKind::Identifier, "y"),
        (TokenKind::RightParen, ")"),
        (TokenKind::LeftBrace, "{"),
        (TokenKind::Identifier, "x"),
        (TokenKind::Plus, "+"),
        (TokenKind::Identifier, "y"),
        (TokenKind::Semicolon, ";"),
        (TokenKind::RightBrace, "}"),
        (TokenKind::Semicolon, ";"),
        (TokenKind::Let, "let"),
        (TokenKind::Identifier, "result"),
        (TokenKind::Assign, "="),
        (TokenKind::Identifier, "add"),
        (TokenKind::LeftParen, "("),
        (TokenKind::Identifier, "five"),
        (TokenKind::Comma, ","),
        (TokenKind::Identifier, "ten"),
        (TokenKind::RightParen, ")"),
        (TokenKind::Semicolon, ";"),
        (TokenKind::Eof, ""),
    ];

    test_tokenization_iter(input, tests)
}

#[test]
fn next_token3() {
    let input = r##"
        "foo bar";
        [1, 2];
        {"foo": "bar"}
    "##;

    let tests = vec![
        (TokenKind::String, "foo bar"),
        (TokenKind::Semicolon, ";"),
        (TokenKind::LeftSquare, "["),
        (TokenKind::Integer, "1"),
        (TokenKind::Comma, ","),
        (TokenKind::Integer, "2"),
        (TokenKind::RightSquare, "]"),
        (TokenKind::Semicolon, ";"),
        (TokenKind::LeftBrace, "{"),
        (TokenKind::String, "foo"),
        (TokenKind::Colon, ":"),
        (TokenKind::String, "bar"),
        (TokenKind::RightBrace, "}"),
        (TokenKind::Eof, ""),
    ];

    test_tokenization_iter(input, tests)
}

#[test]
fn two_character_operators() {
    let tests = vec![
        (TokenKind::Equal, "=="),
        (TokenKind::NotEqual, "!="),
        (TokenKind::LessThanEqual, "<="),
        (TokenKind::GreaterThanEqual, ">="),
        (TokenKind::AndAnd, "&&"),
        (TokenKind::OrOr, "||"),
        (TokenKind::LessThan, "<"),
        (TokenKind::GreaterThan, ">"),
        (TokenKind::Bang, "!"),
        (TokenKind::Illegal, "&"),
        (TokenKind::Eof, ""),
    ];
    test_tokenization_iter("== != <= >= && || < > ! &", tests)
}

#[test]
fn keywords_and_unicode_words() {
    let tests = vec![
        (TokenKind::If, "if"),
        (TokenKind::Else, "else"),
        (TokenKind::Return, "return"),
        (TokenKind::True, "true"),
        (TokenKind::False, "false"),
        (TokenKind::Identifier, "über_2"),
        (TokenKind::Identifier, "_x"),
        (TokenKind::Illegal, "@"),
        (TokenKind::Integer, "42"),
        (TokenKind::Eof, ""),
    ];
    test_tokenization_iter("if\telse\nreturn true false über_2 _x @ 42", tests)
}

#[test]
fn unterminated_string_and_repeated_eof() {
    let tests = vec![
        (TokenKind::String, "abc"),
        (TokenKind::Eof, ""),
        (TokenKind::Eof, ""),
    ];
    test_tokenization_iter("\"abc", tests)
}

#[test]
fn lookup_identifier_keywords() {
    assert_eq!(TokenKind::lookup_identifier("fn"), TokenKind::Function);
    assert_eq!(TokenKind::lookup_identifier("let"), TokenKind::Let);
    assert_eq!(TokenKind::lookup_identifier("lets"), TokenKind::Identifier);
    assert_eq!(TokenKind::Plus.text(), "+");
}

#[test]
fn unicode_whitespace_separates_tokens() {
    let tests = vec![
        (TokenKind::Identifier, "a"),
        (TokenKind::Identifier, "b"),
        (TokenKind::Identifier, "c"),
        (TokenKind::Integer, "1"),
        (TokenKind::Eof, ""),
    ];
    test_tokenization_iter("a\u{3000}b\u{a0}c\u{2029}1\u{85}", tests)
}
