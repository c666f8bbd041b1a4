use toy_lexer::{
    CrateError, Keyword, Operator, Paren, ParenKind, ParenType, Symbol, Token, Tokenizer,
    TokenizerError,
};

fn lex(text: &str) -> Result<Vec<Token>, CrateError> {
    let mut tokenizer = Tokenizer::from_chars(text.chars().collect());
    let done = tokenizer.tokenize()?;
    Ok(done.tokens.clone())
}

fn lex_error(text: &str) -> TokenizerError {
    match lex(text) {
        Err(CrateError::TokenizerError(e)) => e,
        other => panic!("expected a tokenizer error, got {:?}", other),
    }
}

fn keyword(s: &str) -> Token {
    Token::Keyword(Keyword(s.to_string()))
}

fn ident(s: &str) -> Token {
    Token::Identifier(s.to_string())
}

fn eof() -> Token {
    Token::Symbol(Symbol::EndOfFile)
}

fn newline() -> Token {
    Token::Symbol(Symbol::NewLine)
}

#[test]
fn let_statement() {
    assert_eq!(
        lex("let x = 5;").unwrap(),
        vec![
            keyword("let"),
            ident("x"),
            Token::Operator(Operator::Assignment),
            Token::IntegerConstant(5),
            Token::Symbol(Symbol::Semicolon),
            eof(),
        ]
    );
}

#[test]
fn function_header_with_arrow() {
    assert_eq!(
        lex("fn f() -> x;").unwrap(),
        vec![
            keyword("fn"),
            ident("f"),
            Token::Paren(Paren(ParenType::Round, ParenKind::Open)),
            Token::Paren(Paren(ParenType::Round, ParenKind::Close)),
            Token::Operator(Operator::Arrow),
            ident("x"),
            Token::Symbol(Symbol::Semicolon),
            eof(),
        ]
    );
}

#[test]
fn double_colon_between_identifiers() {
    assert_eq!(
        lex("x::y").unwrap(),
        vec![ident("x"), Token::Operator(Operator::DoubleColon), ident("y"), eof()]
    );
}

#[test]
fn unterminated_string_is_an_error() {
    match lex_error("\"abc") {
        TokenizerError::UnterminatedString(Token::StringConstant(s)) => assert_eq!(s, "abc"),
        other => panic!("unexpected error {:?}", other),
    }
}

#[test]
fn float_is_refused_with_its_text() {
    match lex_error("3.14") {
        TokenizerError::UnsupportedFloat(s) => assert_eq!(s, "3.14"),
        other => panic!("unexpected error {:?}", other),
    }
    match lex_error("let x = 12.5 + 1;") {
        TokenizerError::UnsupportedFloat(s) => assert_eq!(s, "12.5"),
        other => panic!("unexpected error {:?}", other),
    }
    match lex_error("7.") {
        TokenizerError::UnsupportedFloat(s) => assert_eq!(s, "7."),
        other => panic!("unexpected error {:?}", other),
    }
}

#[test]
fn unterminated_block_comment_is_an_error() {
    match lex_error("/* never closed") {
        TokenizerError::UnterminatedBlockComment(s) => assert_eq!(s, "/* never closed"),
        other => panic!("unexpected error {:?}", other),
    }
}

#[test]
fn blank_file_gives_only_newlines_and_end() {
    assert_eq!(lex("").unwrap(), vec![eof()]);
    assert_eq!(lex("   \t ").unwrap(), vec![eof()]);
    assert_eq!(lex("\n\n\n").unwrap(), vec![newline(), eof()]);
    assert_eq!(lex(" \n\r\n\n \t\n\n").unwrap(), vec![newline(), newline(), eof()]);
}

#[test]
fn blank_lines_collapse_into_one_newline() {
    assert_eq!(
        lex("a\n\n\n\nb").unwrap(),
        vec![ident("a"), newline(), ident("b"), eof()]
    );
    assert_eq!(lex("a\n\r\n\r\nb").unwrap(), vec![ident("a"), newline(), ident("b"), eof()]);
    assert_eq!(lex("a\nb").unwrap(), vec![ident("a"), newline(), ident("b"), eof()]);
}

#[test]
fn carriage_return_outside_a_newline_run_is_unknown() {
    assert!(matches!(lex_error("a\rb"), TokenizerError::UnknownCharacter('\r')));
}

#[test]
fn end_of_file_comes_last_and_once() {
    for text in ["", "a", "let x = 5;\n", "fn f() { }", "// c\n1 2 3"] {
        let tokens = lex(text).unwrap();
        assert_eq!(tokens.last(), Some(&eof()));
        assert_eq!(tokens.iter().filter(|t| **t == eof()).count(), 1);
    }
}

#[test]
fn null_character_gives_an_end_of_file_marker() {
    assert_eq!(lex("a\0b").unwrap(), vec![ident("a"), eof(), ident("b"), eof()]);
}

#[test]
fn strings_with_each_quote() {
    assert_eq!(lex("\"abc\"").unwrap(), vec![Token::StringConstant("abc".to_string()), eof()]);
    assert_eq!(lex("'abc'").unwrap(), vec![Token::StringConstant("abc".to_string()), eof()]);
    assert_eq!(lex("`abc`").unwrap(), vec![Token::StringConstant("abc".to_string()), eof()]);
    assert_eq!(lex("\"\"").unwrap(), vec![Token::StringConstant(String::new()), eof()]);
}

#[test]
fn other_quotes_inside_a_string_are_content() {
    assert_eq!(
        lex("\"it's `x`\" y").unwrap(),
        vec![Token::StringConstant("it's `x`".to_string()), ident("y"), eof()]
    );
}

#[test]
fn escapes_copy_the_next_character() {
    assert_eq!(
        lex(r#""a\"b""#).unwrap(),
        vec![Token::StringConstant("a\"b".to_string()), eof()]
    );
    assert_eq!(
        lex(r#""a\\" x"#).unwrap(),
        vec![Token::StringConstant("a\\".to_string()), ident("x"), eof()]
    );
    assert_eq!(lex(r#""a\nb""#).unwrap(), vec![Token::StringConstant("anb".to_string()), eof()]);
}

#[test]
fn escaped_closing_quote_leaves_the_string_open() {
    match lex_error(r#""abc\""#) {
        TokenizerError::UnterminatedString(Token::StringConstant(s)) => assert_eq!(s, "abc\""),
        other => panic!("unexpected error {:?}", other),
    }
    match lex_error("'abc\\") {
        TokenizerError::UnterminatedString(Token::StringConstant(s)) => assert_eq!(s, "abc"),
        other => panic!("unexpected error {:?}", other),
    }
}

fn escape(content: &str, quote: char) -> String {
    let mut out = String::new();
    for c in content.chars() {
        if c == '\\' || c == quote {
            out.push('\\');
        }
        out.push(c);
    }
    out
}

#[test]
fn escaped_text_reads_back_as_the_content() {
    for quote in ['"', '\'', '`'] {
        for content in ["", "plain", "a\"b'c`d", "back\\slash", "\\\\", "line\nbreak", "\\\""] {
            let text = format!("{}{}{}", quote, escape(content, quote), quote);
            assert_eq!(
                lex(&text).unwrap(),
                vec![Token::StringConstant(content.to_string()), eof()]
            );
        }
    }
}

#[test]
fn backslash_between_tokens_reads_up_to_a_double_quote() {
    assert_eq!(
        lex("\\abc\" x").unwrap(),
        vec![Token::StringConstant("abc".to_string()), ident("x"), eof()]
    );
    match lex_error("\\abc") {
        TokenizerError::UnterminatedString(Token::StringConstant(s)) => assert_eq!(s, "abc"),
        other => panic!("unexpected error {:?}", other),
    }
}

#[test]
fn line_comment_takes_the_newline() {
    assert_eq!(
        lex("a // note\nb").unwrap(),
        vec![ident("a"), Token::Comment("// note".to_string()), ident("b"), eof()]
    );
    assert_eq!(lex("// end").unwrap(), vec![Token::Comment("// end".to_string()), eof()]);
}

#[test]
fn block_comment_runs_to_the_first_close() {
    assert_eq!(
        lex("/* a */ b */").unwrap(),
        vec![
            Token::Comment("/* a */".to_string()),
            ident("b"),
            Token::Operator(Operator::Multiply),
            Token::Operator(Operator::Divide),
            eof(),
        ]
    );
    assert_eq!(
        lex("/* a\nb */x").unwrap(),
        vec![Token::Comment("/* a\nb */".to_string()), ident("x"), eof()]
    );
    assert_eq!(lex("/*/").unwrap(), vec![Token::Comment("/*/".to_string()), eof()]);
}

#[test]
fn slash_alone_divides() {
    assert_eq!(
        lex("a / b").unwrap(),
        vec![ident("a"), Token::Operator(Operator::Divide), ident("b"), eof()]
    );
    assert_eq!(lex("/").unwrap(), vec![Token::Operator(Operator::Divide), eof()]);
}

#[test]
fn every_operator() {
    let cases = [
        ("!", Operator::Not),
        ("&", Operator::And),
        ("|", Operator::Or),
        ("+", Operator::Add),
        ("-", Operator::Subtract),
        ("*", Operator::Multiply),
        ("/", Operator::Divide),
        ("<", Operator::LessThan),
        (">", Operator::GreaterThan),
        ("=", Operator::Assignment),
        ("==", Operator::Equal),
        ("<=", Operator::LessThanOrEqual),
        (">=", Operator::GreaterThanOrEqual),
        ("::", Operator::DoubleColon),
        ("->", Operator::Arrow),
    ];
    for (text, op) in cases {
        assert_eq!(lex(text).unwrap(), vec![Token::Operator(op), eof()]);
    }
}

#[test]
fn longer_operator_wins_with_one_character_of_lookahead() {
    assert_eq!(
        lex("a<=b").unwrap(),
        vec![ident("a"), Token::Operator(Operator::LessThanOrEqual), ident("b"), eof()]
    );
    assert_eq!(
        lex("===").unwrap(),
        vec![Token::Operator(Operator::Equal), Token::Operator(Operator::Assignment), eof()]
    );
    assert_eq!(
        lex("-->").unwrap(),
        vec![Token::Operator(Operator::Subtract), Token::Operator(Operator::Arrow), eof()]
    );
    assert_eq!(
        lex("- >").unwrap(),
        vec![Token::Operator(Operator::Subtract), Token::Operator(Operator::GreaterThan), eof()]
    );
}

#[test]
fn lone_colon_is_unknown() {
    assert!(matches!(lex_error("a : b"), TokenizerError::UnknownCharacter(':')));
    assert!(matches!(lex_error(":"), TokenizerError::UnknownCharacter(':')));
}

#[test]
fn unknown_characters() {
    assert!(matches!(lex_error("a # b"), TokenizerError::UnknownCharacter('#')));
    assert!(matches!(lex_error("_x"), TokenizerError::UnknownCharacter('_')));
    assert!(matches!(lex_error("$x"), TokenizerError::UnknownCharacter('$')));
    assert!(matches!(lex_error("é"), TokenizerError::UnknownCharacter('é')));
}

#[test]
fn every_paren() {
    assert_eq!(
        lex("()[]{}").unwrap(),
        vec![
            Token::Paren(Paren(ParenType::Round, ParenKind::Open)),
            Token::Paren(Paren(ParenType::Round, ParenKind::Close)),
            Token::Paren(Paren(ParenType::Square, ParenKind::Open)),
            Token::Paren(Paren(ParenType::Square, ParenKind::Close)),
            Token::Paren(Paren(ParenType::Curly, ParenKind::Open)),
            Token::Paren(Paren(ParenType::Curly, ParenKind::Close)),
            eof(),
        ]
    );
}

#[test]
fn words_and_keywords() {
    assert_eq!(
        lex("let lets fn f_1 Fn").unwrap(),
        vec![keyword("let"), ident("lets"), keyword("fn"), ident("f_1"), ident("Fn"), eof()]
    );
}

#[test]
fn integers_and_their_limit() {
    assert_eq!(lex("0").unwrap(), vec![Token::IntegerConstant(0), eof()]);
    assert_eq!(lex("007").unwrap(), vec![Token::IntegerConstant(7), eof()]);
    assert_eq!(lex("2147483647").unwrap(), vec![Token::IntegerConstant(i32::MAX), eof()]);
    assert_eq!(
        lex("12abc").unwrap(),
        vec![Token::IntegerConstant(12), ident("abc"), eof()]
    );
    match lex_error("2147483648") {
        TokenizerError::IntegerOverflow(s) => assert_eq!(s, "2147483648"),
        other => panic!("unexpected error {:?}", other),
    }
    match lex_error("x = 99999999999999999999999999;") {
        TokenizerError::IntegerOverflow(s) => assert_eq!(s, "99999999999999999999999999"),
        other => panic!("unexpected error {:?}", other),
    }
}

#[test]
fn error_leaves_the_tokens_as_they_were() {
    let mut tokenizer = Tokenizer::from_chars("a b".chars().collect());
    tokenizer.tokenize().unwrap();
    assert_eq!(tokenizer.tokens.len(), 3);
    let mut failing = Tokenizer::from_chars("a #".chars().collect());
    assert!(failing.tokenize().is_err());
    assert!(failing.tokens.is_empty());
}

#[test]
fn lines_are_joined_with_newlines() {
    assert_eq!(
        toy_lexer::into_chars(vec!["ab".to_string(), String::new(), "c".to_string()]),
        vec!['a', 'b', '\n', '\n', 'c', '\n']
    );
    assert_eq!(toy_lexer::into_chars(Vec::new()), Vec::<char>::new());
    let mut tokenizer = Tokenizer::new(vec!["let x = 5;".to_string(), "x".to_string()]);
    let done = tokenizer.tokenize().unwrap();
    assert_eq!(
        done.tokens,
        vec![
            keyword("let"),
            ident("x"),
            Token::Operator(Operator::Assignment),
            Token::IntegerConstant(5),
            Token::Symbol(Symbol::Semicolon),
            newline(),
            ident("x"),
            newline(),
            eof(),
        ]
    );
}

#[test]
fn tokens_are_read_through_the_getter() {
    let mut tokenizer = Tokenizer::from_chars("a;".chars().collect());
    assert!(tokenizer.tokens().is_empty());
    tokenizer.tokenize().unwrap();
    assert_eq!(
        tokenizer.tokens(),
        &vec![ident("a"), Token::Symbol(Symbol::Semicolon), eof()]
    );
}

#[test]
fn second_scan_replaces_the_tokens() {
    let mut tokenizer = Tokenizer::from_chars("a b".chars().collect());
    tokenizer.tokenize().unwrap();
    tokenizer.tokenize().unwrap();
    assert_eq!(tokenizer.tokens, vec![ident("a"), ident("b"), eof()]);
}

#[test]
fn default_lexer_is_empty() {
    let mut tokenizer = Tokenizer::default();
    assert!(tokenizer.tokens.is_empty());
    assert_eq!(tokenizer.tokenize().unwrap().tokens, vec![eof()]);
}
