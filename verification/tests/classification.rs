use toy_lexer::{
    is_operator, is_valid_identifier, CrateError, Keyword, Operator, Paren, ParenKind, ParenType,
    Symbol, Token, TokenizerError,
};

fn tokenizer_error<T: std::fmt::Debug>(r: Result<T, CrateError>) -> TokenizerError {
    match r {
        Err(CrateError::TokenizerError(e)) => e,
        other => panic!("expected a tokenizer error, got {:?}", other),
    }
}

#[test]
fn keywords_are_fn_and_let() {
    assert_eq!(Keyword::try_from("fn").unwrap(), Keyword("fn".to_string()));
    assert_eq!(Keyword::try_from("let").unwrap(), Keyword("let".to_string()));
    for text in ["", "f", "fnn", "Let", "le", "lets", "if", " let"] {
        match tokenizer_error(Keyword::try_from(text)) {
            TokenizerError::InvalidKeyword(s) => assert_eq!(s, text),
            other => panic!("unexpected error {:?}", other),
        }
    }
}

#[test]
fn operator_spellings() {
    let all = [
        "!", "&", "|", "+", "-", "*", "/", "<", ">", "=", "==", ">=", "<=", "::", "->",
    ];
    for text in all {
        assert!(is_operator(text), "{}", text);
        assert!(Operator::try_from(text).is_ok(), "{}", text);
    }
    for text in ["", ":", "=>", "=<", "+-", "===", "a", "- ", "!=", "é", "éé"] {
        assert!(!is_operator(text), "{}", text);
        match tokenizer_error(Operator::try_from(text)) {
            TokenizerError::UnknownOperator(s) => assert_eq!(s, text),
            other => panic!("unexpected error {:?}", other),
        }
    }
}

#[test]
fn operator_from_text_prefers_two_characters() {
    assert_eq!(Operator::try_from("<=").unwrap(), Operator::LessThanOrEqual);
    assert_eq!(Operator::try_from(">=").unwrap(), Operator::GreaterThanOrEqual);
    assert_eq!(Operator::try_from("==").unwrap(), Operator::Equal);
    assert_eq!(Operator::try_from("::").unwrap(), Operator::DoubleColon);
    assert_eq!(Operator::try_from("->").unwrap(), Operator::Arrow);
    assert_eq!(Operator::try_from("<").unwrap(), Operator::LessThan);
    assert_eq!(Operator::try_from("-").unwrap(), Operator::Subtract);
    assert_eq!(Operator::try_from("=").unwrap(), Operator::Assignment);
}

#[test]
fn operator_from_character() {
    let cases = [
        ('!', Operator::Not),
        ('&', Operator::And),
        ('|', Operator::Or),
        ('+', Operator::Add),
        ('-', Operator::Subtract),
        ('*', Operator::Multiply),
        ('/', Operator::Divide),
        ('<', Operator::LessThan),
        ('>', Operator::GreaterThan),
        ('=', Operator::Assignment),
    ];
    for (c, op) in cases {
        assert_eq!(Operator::try_from(c).unwrap(), op);
    }
    match tokenizer_error(Operator::try_from(':')) {
        TokenizerError::UnknownOperator(s) => assert_eq!(s, ":"),
        other => panic!("unexpected error {:?}", other),
    }
}

#[test]
fn paren_from_character() {
    let cases = [
        ('(', ParenType::Round, ParenKind::Open),
        (')', ParenType::Round, ParenKind::Close),
        ('{', ParenType::Curly, ParenKind::Open),
        ('}', ParenType::Curly, ParenKind::Close),
        ('[', ParenType::Square, ParenKind::Open),
        (']', ParenType::Square, ParenKind::Close),
    ];
    for (c, ty, kind) in cases {
        assert_eq!(Paren::try_from(c).unwrap(), Paren(ty, kind));
    }
    for c in ['<', '>', 'a', ' ', '\0'] {
        assert!(matches!(
            tokenizer_error(Paren::try_from(c)),
            TokenizerError::UnknownParen(x) if x == c
        ));
    }
}

#[test]
fn valid_identifiers() {
    for text in ["a", "_", "$", "_a1", "$x_$", "abc123", "Z9", "a$b"] {
        assert!(is_valid_identifier(text), "{}", text);
    }
    for text in ["", "1a", "a-b", "a b", " a", "é", "aé", "-", "a.b"] {
        assert!(!is_valid_identifier(text), "{}", text);
    }
}

#[test]
fn free_standing_texts() {
    assert_eq!(Token::try_from(";").unwrap(), Token::Symbol(Symbol::Semicolon));
    assert_eq!(
        Token::try_from("{").unwrap(),
        Token::Paren(Paren(ParenType::Curly, ParenKind::Open))
    );
    assert_eq!(Token::try_from("->").unwrap(), Token::Operator(Operator::Arrow));
    assert_eq!(Token::try_from("-").unwrap(), Token::Operator(Operator::Subtract));
    assert_eq!(Token::try_from("42").unwrap(), Token::IntegerConstant(42));
    assert_eq!(Token::try_from("-42").unwrap(), Token::IntegerConstant(-42));
    assert_eq!(Token::try_from("+42").unwrap(), Token::IntegerConstant(42));
    assert_eq!(Token::try_from("-0").unwrap(), Token::IntegerConstant(0));
    assert_eq!(Token::try_from("2147483647").unwrap(), Token::IntegerConstant(i32::MAX));
    assert_eq!(Token::try_from("-2147483648").unwrap(), Token::IntegerConstant(i32::MIN));
    assert_eq!(Token::try_from("let").unwrap(), Token::Keyword(Keyword("let".to_string())));
    assert_eq!(Token::try_from("fn").unwrap(), Token::Keyword(Keyword("fn".to_string())));
    assert_eq!(Token::try_from("lets").unwrap(), Token::Identifier("lets".to_string()));
    assert_eq!(Token::try_from("$x").unwrap(), Token::Identifier("$x".to_string()));
    assert_eq!(Token::try_from("_").unwrap(), Token::Identifier("_".to_string()));
}

#[test]
fn free_standing_texts_that_spell_nothing() {
    for text in ["", "2147483648", "-2147483649", "1a", "a b", "--", "+-", "1-", "#", ";;", "()"] {
        match tokenizer_error(Token::try_from(text)) {
            TokenizerError::InvalidIdentifier(s) => assert_eq!(s, text),
            other => panic!("unexpected error {:?}", other),
        }
    }
}

#[test]
fn integers_are_read_as_std_reads_them() {
    for text in [
        "0", "7", "-7", "+7", "0012", "2147483647", "2147483648", "-2147483648", "-2147483649",
        "", "-", "+", "1_0", "١", "99999999999999999999",
    ] {
        let expected = text.parse::<i32>().ok().map(Token::IntegerConstant);
        let got = match Token::try_from(text) {
            Ok(Token::IntegerConstant(v)) => Some(Token::IntegerConstant(v)),
            _ => None,
        };
        if text != "-" && text != "+" {
            assert_eq!(got, expected, "{}", text);
        }
    }
}
