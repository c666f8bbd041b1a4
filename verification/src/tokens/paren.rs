use crate::error::CrateError;
use crate::error::CrateErrorView;
use crate::tokenizer::TokenizerError;
use crate::tokenizer::TokenizerErrorView;
use vstd::prelude::*;
use vstd::std_specs::convert::TryFromSpecImpl;

verus! {

#[derive(Debug, Clone, Copy, PartialEq, Eq, Structural)]
pub enum ParenType {
    Round,
    Curly,
    Square,
}

#[derive(Debug, Clone, Copy, PartialEq, Eq, Structural)]
pub enum ParenKind {
    Open,
    Close,
}

#[derive(Debug, Clone, Copy, PartialEq, Eq, Structural)]
pub struct Paren(pub ParenType, pub ParenKind);

/// The parenthesis that a character spells, if it spells one.
pub open spec fn paren_of_char(c: char) -> Option<Paren> {
    if c == '(' {
        Some(Paren(ParenType::Round, ParenKind::Open))
    } else if c == ')' {
        Some(Paren(ParenType::Round, ParenKind::Close))
    } else if c == '{' {
        Some(Paren(ParenType::Curly, ParenKind::Open))
    } else if c == '}' {
        Some(Paren(ParenType::Curly, ParenKind::Close))
    } else if c == '[' {
        Some(Paren(ParenType::Square, ParenKind::Open))
    } else if c == ']' {
        Some(Paren(ParenType::Square, ParenKind::Close))
    } else {
        None
    }
}

/// The character that spells a parenthesis.
pub open spec fn paren_char(p: Paren) -> char {
    match p {
        Paren(ParenType::Round, ParenKind::Open) => '(',
        Paren(ParenType::Round, ParenKind::Close) => ')',
        Paren(ParenType::Curly, ParenKind::Open) => '{',
        Paren(ParenType::Curly, ParenKind::Close) => '}',
        Paren(ParenType::Square, ParenKind::Open) => '[',
        Paren(ParenType::Square, ParenKind::Close) => ']',
    }
}

/// What classifying a text as a parenthesis gives: the text must be exactly
/// one parenthesis character.
pub open spec fn paren_of(s: Seq<char>) -> Option<Paren> {
    if s.len() == 1 {
        paren_of_char(s[0])
    } else {
        None
    }
}

impl TryFrom<char> for Paren {
    type Error = CrateError;

    /// Classifies one character. Succeeds exactly on the six parenthesis
    /// characters; any other character comes back in `UnknownParen`.
    fn try_from(c: char) -> (r: Result<Paren, CrateError>)
        ensures
            match r {
                Ok(p) => paren_of_char(c) == Some(p),
                Err(e) => paren_of_char(c) is None && e@ == CrateErrorView::Tokenizer(
                    TokenizerErrorView::UnknownParen(c),
                ),
            },
    {
        let p = match c {
            '(' => Paren(ParenType::Round, ParenKind::Open),
            ')' => Paren(ParenType::Round, ParenKind::Close),
            '{' => Paren(ParenType::Curly, ParenKind::Open),
            '}' => Paren(ParenType::Curly, ParenKind::Close),
            '[' => Paren(ParenType::Square, ParenKind::Open),
            ']' => Paren(ParenType::Square, ParenKind::Close),
            _ => return Err(CrateError::TokenizerError(TokenizerError::UnknownParen(c))),
        };
        Ok(p)
    }
}

impl TryFromSpecImpl<char> for Paren {
    /// What `try_from` returns is stated in its own contract, over the
    /// error's view.
    open spec fn obeys_try_from_spec() -> bool {
        false
    }

    open spec fn try_from_spec(c: char) -> Result<Paren, CrateError> {
        arbitrary()
    }
}

/// Every parenthesis is read back from the character that spells it.
pub proof fn lemma_paren_char_round_trip(p: Paren)
    ensures
        paren_of_char(paren_char(p)) == Some(p),
{
}

} // verus!
