use crate::error::CrateError;
use crate::error::CrateErrorView;
use crate::text::chars_of;
use crate::text::text_of_char;
use crate::tokenizer::TokenizerError;
use crate::tokenizer::TokenizerErrorView;
use vstd::prelude::*;
use vstd::std_specs::convert::TryFromSpecImpl;

verus! {

#[derive(Debug, Clone, Copy, PartialEq, Eq, Structural)]
pub enum Operator {
    Not,
    And,
    Or,
    Assignment,
    DoubleColon,
    Arrow,
    Add,
    Subtract,
    Multiply,
    Divide,
    Equal,
    LessThan,
    LessThanOrEqual,
    GreaterThan,
    GreaterThanOrEqual,
}

/// The operator that one character spells by itself.
pub open spec fn operator_of_char(c: char) -> Option<Operator> {
    if c == '!' {
        Some(Operator::Not)
    } else if c == '&' {
        Some(Operator::And)
    } else if c == '|' {
        Some(Operator::Or)
    } else if c == '+' {
        Some(Operator::Add)
    } else if c == '-' {
        Some(Operator::Subtract)
    } else if c == '*' {
        Some(Operator::Multiply)
    } else if c == '/' {
        Some(Operator::Divide)
    } else if c == '<' {
        Some(Operator::LessThan)
    } else if c == '>' {
        Some(Operator::GreaterThan)
    } else if c == '=' {
        Some(Operator::Assignment)
    } else {
        None
    }
}

/// The operator that two characters spell together.
pub open spec fn operator_of_pair(a: char, b: char) -> Option<Operator> {
    if a == '<' && b == '=' {
        Some(Operator::LessThanOrEqual)
    } else if a == '>' && b == '=' {
        Some(Operator::GreaterThanOrEqual)
    } else if a == '=' && b == '=' {
        Some(Operator::Equal)
    } else if a == ':' && b == ':' {
        Some(Operator::DoubleColon)
    } else if a == '-' && b == '>' {
        Some(Operator::Arrow)
    } else {
        None
    }
}

/// The operator that a text spells: the text is one of the fifteen
/// spellings, matched whole.
pub open spec fn operator_of(s: Seq<char>) -> Option<Operator> {
    if s.len() == 2 {
        operator_of_pair(s[0], s[1])
    } else if s.len() == 1 {
        operator_of_char(s[0])
    } else {
        None
    }
}

/// The spelling of an operator.
pub open spec fn operator_lexeme(op: Operator) -> Seq<char> {
    match op {
        Operator::Not => seq!['!'],
        Operator::And => seq!['&'],
        Operator::Or => seq!['|'],
        Operator::Assignment => seq!['='],
        Operator::DoubleColon => seq![':', ':'],
        Operator::Arrow => seq!['-', '>'],
        Operator::Add => seq!['+'],
        Operator::Subtract => seq!['-'],
        Operator::Multiply => seq!['*'],
        Operator::Divide => seq!['/'],
        Operator::Equal => seq!['=', '='],
        Operator::LessThan => seq!['<'],
        Operator::LessThanOrEqual => seq!['<', '='],
        Operator::GreaterThan => seq!['>'],
        Operator::GreaterThanOrEqual => seq!['>', '='],
    }
}

/// Classifies one character as a single-character operator.
pub(crate) fn single_operator(c: char) -> (r: Option<Operator>)
    ensures
        r == operator_of_char(c),
{
    match c {
        '!' => Some(Operator::Not),
        '&' => Some(Operator::And),
        '|' => Some(Operator::Or),
        '+' => Some(Operator::Add),
        '-' => Some(Operator::Subtract),
        '*' => Some(Operator::Multiply),
        '/' => Some(Operator::Divide),
        '<' => Some(Operator::LessThan),
        '>' => Some(Operator::GreaterThan),
        '=' => Some(Operator::Assignment),
        _ => None,
    }
}

/// Classifies two characters as a two-character operator.
pub(crate) fn double_operator(a: char, b: char) -> (r: Option<Operator>)
    ensures
        r == operator_of_pair(a, b),
{
    if a == '<' && b == '=' {
        Some(Operator::LessThanOrEqual)
    } else if a == '>' && b == '=' {
        Some(Operator::GreaterThanOrEqual)
    } else if a == '=' && b == '=' {
        Some(Operator::Equal)
    } else if a == ':' && b == ':' {
        Some(Operator::DoubleColon)
    } else if a == '-' && b == '>' {
        Some(Operator::Arrow)
    } else {
        None
    }
}

/// Classifies a text held as characters: two-character spellings first,
/// then single characters.
pub(crate) fn operator_from_chars(chars: &Vec<char>) -> (r: Option<Operator>)
    ensures
        r == operator_of(chars@),
{
    if chars.len() == 2 {
        double_operator(chars[0], chars[1])
    } else if chars.len() == 1 {
        single_operator(chars[0])
    } else {
        None
    }
}

/// Whether a text is one of the fifteen operator spellings.
pub fn is_operator(s: &str) -> (r: bool)
    ensures
        r == operator_of(s@).is_some(),
{
    let chars = chars_of(s);
    operator_from_chars(&chars).is_some()
}

impl TryFrom<char> for Operator {
    type Error = CrateError;

    /// Succeeds exactly on the ten single-character operators; any other
    /// character comes back, as a text, in `UnknownOperator`.
    fn try_from(c: char) -> (r: Result<Operator, CrateError>)
        ensures
            match r {
                Ok(op) => operator_of_char(c) == Some(op),
                Err(e) => operator_of_char(c).is_none() && e@ == CrateErrorView::Tokenizer(
                    TokenizerErrorView::UnknownOperator(seq![c]),
                ),
            },
    {
        match single_operator(c) {
            Some(op) => Ok(op),
            None => {
                Err(CrateError::TokenizerError(TokenizerError::UnknownOperator(text_of_char(c))))
            },
        }
    }
}

impl TryFromSpecImpl<char> for Operator {
    /// The error holds a `String`, which ghost code cannot build: what
    /// `try_from` returns is stated in its own contract, over views.
    open spec fn obeys_try_from_spec() -> bool {
        false
    }

    open spec fn try_from_spec(c: char) -> Result<Operator, CrateError> {
        arbitrary()
    }
}

impl TryFrom<&str> for Operator {
    type Error = CrateError;

    /// Succeeds exactly on the fifteen operator spellings; any other text
    /// comes back in `UnknownOperator`.
    fn try_from(s: &str) -> (r: Result<Operator, CrateError>)
        ensures
            match r {
                Ok(op) => operator_of(s@) == Some(op),
                Err(e) => operator_of(s@).is_none() && e@ == CrateErrorView::Tokenizer(
                    TokenizerErrorView::UnknownOperator(s@),
                ),
            },
    {
        let chars = chars_of(s);
        match operator_from_chars(&chars) {
            Some(op) => Ok(op),
            None => Err(
                CrateError::TokenizerError(TokenizerError::UnknownOperator(s.to_owned())),
            ),
        }
    }
}

impl TryFromSpecImpl<&str> for Operator {
    /// As for `char`: what `try_from` returns is stated in its own
    /// contract, over views.
    open spec fn obeys_try_from_spec() -> bool {
        false
    }

    open spec fn try_from_spec(s: &str) -> Result<Operator, CrateError> {
        arbitrary()
    }
}

/// Every operator is read back from its spelling.
pub proof fn lemma_operator_lexeme_round_trip(op: Operator)
    ensures
        operator_of(operator_lexeme(op)) == Some(op),
{
}

} // verus!
