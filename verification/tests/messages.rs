use toy_lexer::{CrateError, Symbol, Token, Tokenizer, TokenizerError};

#[test]
fn tokenizer_error_messages() {
    assert_eq!(TokenizerError::UnknownCharacter('#').message(), "Invalid character: #");
    assert_eq!(
        TokenizerError::UnknownOperator("=>".to_string()).message(),
        "Unknown operator token: =>"
    );
    assert_eq!(TokenizerError::UnknownParen('<').message(), "Unknown paren character: <");
    assert_eq!(TokenizerError::InvalidKeyword("if".to_string()).message(), "Invalid keyword: if");
    assert_eq!(
        TokenizerError::InvalidIdentifier("1a".to_string()).message(),
        "Invalid identifier: 1a"
    );
    assert_eq!(
        TokenizerError::UnsupportedFloat("3.14".to_string()).message(),
        "Invalid integer: 3.14"
    );
    assert_eq!(
        TokenizerError::UnterminatedBlockComment("/* x".to_string()).message(),
        "Block comment missing closing tag: /* x"
    );
    assert_eq!(
        TokenizerError::IntegerOverflow("2147483648".to_string()).message(),
        "Integer out of range: 2147483648"
    );
}

#[test]
fn unterminated_string_is_shown_quoted() {
    let e = TokenizerError::UnterminatedString(Token::StringConstant("abc".to_string()));
    assert_eq!(e.message(), "Unterminated string: \"abc\"");
    let e = TokenizerError::UnterminatedString(Token::StringConstant("a\"b\n".to_string()));
    assert_eq!(e.message(), "Unterminated string: \"a\\\"b\\n\"");
    let e = TokenizerError::UnterminatedString(Token::Symbol(Symbol::EndOfFile));
    assert_eq!(e.message(), "Unknown lexing error");
}

#[test]
fn unterminated_string_message_takes_the_shown_form() {
    assert_eq!(toy_lexer::tokenizer::unterminated_string_message("'x'"), "Unterminated string: 'x'");
}

#[test]
fn crate_error_messages() {
    let e = CrateError::TokenizerError(TokenizerError::UnknownCharacter('#'));
    assert_eq!(e.message(), "Tokenizer Error: Invalid character: #");
    let io = std::io::Error::new(std::io::ErrorKind::Other, "disk on fire");
    let e = CrateError::from(io);
    assert!(matches!(e, CrateError::IoError(_)));
    assert_eq!(e.message(), "IO Error: disk on fire");
    assert_eq!(toy_lexer::error::io_error_message("gone"), "IO Error: gone");
}

#[test]
fn message_of_a_failed_scan() {
    let mut tokenizer = Tokenizer::from_chars("let s = \"abc".chars().collect());
    let e = tokenizer.tokenize().unwrap_err();
    assert_eq!(e.message(), "Tokenizer Error: Unterminated string: \"abc\"");
}
