mod keyword;
pub(crate) use keyword::keyword_in;
pub use keyword::{is_keyword, Keyword};

mod operator;
pub(crate) use operator::{double_operator, operator_from_chars, single_operator};
pub use operator::{
    is_operator, operator_lexeme, operator_of, operator_of_char, operator_of_pair, Operator,
};

mod paren;
pub use paren::{paren_char, paren_of, paren_of_char, Paren, ParenKind, ParenType};

mod symbol;
pub use symbol::Symbol;

use crate::error::CrateError;
use crate::error::CrateErrorView;
use crate::numbers::integer_of;
use crate::numbers::parse_integer;
use crate::rules::valid_identifier;
use crate::rules::valid_identifier_chars;
use crate::text::chars_of;
use crate::tokenizer::TokenizerError;
use crate::tokenizer::TokenizerErrorView;
use vstd::prelude::*;
use vstd::std_specs::convert::TryFromSpecImpl;

verus! {

/// One lexical unit of the source text.
#[derive(Debug, Clone, PartialEq, Eq)]
pub enum Token {
    Keyword(Keyword),
    Symbol(Symbol),
    Identifier(String),
    IntegerConstant(i32),
    StringConstant(String),
    Comment(String),
    Operator(Operator),
    Paren(Paren),
}

/// The mathematical content of a [`Token`]: texts are sequences of
/// characters.
pub enum TokenView {
    Keyword(Seq<char>),
    Symbol(Symbol),
    Identifier(Seq<char>),
    IntegerConstant(i32),
    StringConstant(Seq<char>),
    Comment(Seq<char>),
    Operator(Operator),
    Paren(Paren),
}

impl View for Token {
    type V = TokenView;

    open spec fn view(&self) -> TokenView {
        match self {
            Token::Keyword(k) => TokenView::Keyword(k.0@),
            Token::Symbol(s) => TokenView::Symbol(*s),
            Token::Identifier(s) => TokenView::Identifier(s@),
            Token::IntegerConstant(n) => TokenView::IntegerConstant(*n),
            Token::StringConstant(s) => TokenView::StringConstant(s@),
            Token::Comment(s) => TokenView::Comment(s@),
            Token::Operator(o) => TokenView::Operator(*o),
            Token::Paren(p) => TokenView::Paren(*p),
        }
    }
}

/// The token that a text standing by itself spells, if it spells one: the
/// semicolon, a parenthesis, an operator, an integer, a keyword or an
/// identifier, tried in this order.
pub open spec fn token_of_text(s: Seq<char>) -> Option<TokenView> {
    if s == seq![';'] {
        Some(TokenView::Symbol(Symbol::Semicolon))
    } else if paren_of(s) is Some {
        Some(TokenView::Paren(paren_of(s)->Some_0))
    } else if operator_of(s) is Some {
        Some(TokenView::Operator(operator_of(s)->Some_0))
    } else if integer_of(s) is Some {
        Some(TokenView::IntegerConstant(integer_of(s)->Some_0))
    } else if is_keyword(s) {
        Some(TokenView::Keyword(s))
    } else if valid_identifier(s) {
        Some(TokenView::Identifier(s))
    } else {
        None
    }
}

impl TryFrom<&str> for Token {
    type Error = CrateError;

    /// Classifies a text that stands by itself. Succeeds exactly where the
    /// text spells a token; any other text comes back in
    /// `InvalidIdentifier`.
    fn try_from(s: &str) -> (r: Result<Token, CrateError>)
        ensures
            match r {
                Ok(t) => token_of_text(s@) == Some(t@),
                Err(e) => token_of_text(s@) is None && e@ == CrateErrorView::Tokenizer(
                    TokenizerErrorView::InvalidIdentifier(s@),
                ),
            },
    {
        let chars = chars_of(s);
        let ghost semicolon = seq![';'];
        assert(semicolon.len() == 1 && semicolon[0] == ';');
        assert(chars@.subrange(0, chars@.len() as int) =~= chars@);
        if chars.len() == 1 && chars[0] == ';' {
            assert(chars@ =~= semicolon);
            return Ok(Token::Symbol(Symbol::Semicolon));
        }
        if chars.len() == 1 {
            if let Ok(paren) = Paren::try_from(chars[0]) {
                return Ok(Token::Paren(paren));
            }
        }
        if let Some(op) = operator_from_chars(&chars) {
            return Ok(Token::Operator(op));
        }
        if let Some(value) = parse_integer(&chars) {
            return Ok(Token::IntegerConstant(value));
        }
        if keyword_in(&chars, 0, chars.len()) {
            return Ok(Token::Keyword(Keyword(s.to_owned())));
        }
        if valid_identifier_chars(&chars) {
            return Ok(Token::Identifier(s.to_owned()));
        }
        Err(CrateError::TokenizerError(TokenizerError::InvalidIdentifier(s.to_owned())))
    }
}

impl TryFromSpecImpl<&str> for Token {
    /// A token may hold a `String`, which ghost code cannot build: what
    /// `try_from` returns is stated in its own contract, over views.
    open spec fn obeys_try_from_spec() -> bool {
        false
    }

    open spec fn try_from_spec(s: &str) -> Result<Token, CrateError> {
        arbitrary()
    }
}

} // verus!
