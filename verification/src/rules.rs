use crate::text::chars_of;
use vstd::prelude::*;

verus! {

/// Space or tab: skipped between tokens.
pub open spec fn is_blank(c: char) -> bool {
    c == ' ' || c == '\t'
}

/// An ASCII letter.
pub open spec fn is_alpha(c: char) -> bool {
    ('a' <= c && c <= 'z') || ('A' <= c && c <= 'Z')
}

/// An ASCII decimal digit.
pub open spec fn is_digit(c: char) -> bool {
    '0' <= c && c <= '9'
}

/// A character that may continue a word: a letter, a digit or `_`.
pub open spec fn is_word_char(c: char) -> bool {
    is_alpha(c) || is_digit(c) || c == '_'
}

/// One of the three characters that open and close a string.
pub open spec fn is_quote(c: char) -> bool {
    c == '"' || c == '\'' || c == '`'
}

/// One of the two sigils that an identifier may hold besides letters and
/// digits.
pub open spec fn is_sigil(c: char) -> bool {
    c == '_' || c == '$'
}

/// A text is a valid identifier when it starts with a letter or a sigil and
/// goes on with letters, digits and sigils only.
pub open spec fn valid_identifier(s: Seq<char>) -> bool {
    &&& s.len() > 0
    &&& is_alpha(s[0]) || is_sigil(s[0])
    &&& forall|i: int| 1 <= i < s.len() ==> is_alpha(#[trigger] s[i]) || is_digit(s[i]) || is_sigil(s[i])
}

pub(crate) fn blank(c: char) -> (r: bool)
    ensures
        r == is_blank(c),
{
    c == ' ' || c == '\t'
}

pub(crate) fn alpha(c: char) -> (r: bool)
    ensures
        r == is_alpha(c),
{
    ('a' <= c && c <= 'z') || ('A' <= c && c <= 'Z')
}

pub(crate) fn digit(c: char) -> (r: bool)
    ensures
        r == is_digit(c),
{
    '0' <= c && c <= '9'
}

pub(crate) fn word_char(c: char) -> (r: bool)
    ensures
        r == is_word_char(c),
{
    alpha(c) || digit(c) || c == '_'
}

pub(crate) fn quote(c: char) -> (r: bool)
    ensures
        r == is_quote(c),
{
    c == '"' || c == '\'' || c == '`'
}

pub(crate) fn sigil(c: char) -> (r: bool)
    ensures
        r == is_sigil(c),
{
    c == '_' || c == '$'
}

/// Whether the characters form a valid identifier.
pub(crate) fn valid_identifier_chars(chars: &Vec<char>) -> (r: bool)
    ensures
        r == valid_identifier(chars@),
{
    if chars.len() == 0 {
        return false;
    }
    if !alpha(chars[0]) && !sigil(chars[0]) {
        return false;
    }
    let mut i: usize = 1;
    while i < chars.len()
        invariant
            1 <= i <= chars@.len(),
            forall|j: int| 1 <= j < i ==> is_alpha(#[trigger] chars@[j]) || is_digit(chars@[j]) || is_sigil(chars@[j]),
        decreases chars@.len() - i,
    {
        let c = chars[i];
        if !alpha(c) && !digit(c) && !sigil(c) {
            return false;
        }
        i += 1;
    }
    true
}

/// Whether a text is a valid identifier. The empty text is not.
pub fn is_valid_identifier(s: &str) -> (r: bool)
    ensures
        r == valid_identifier(s@),
{
    let chars = chars_of(s);
    valid_identifier_chars(&chars)
}

} // verus!
