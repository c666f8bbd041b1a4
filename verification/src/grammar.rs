//! The language's lexical grammar, as a function from the source text to
//! its tokens or to the first error. The scanner is proved against it.

use crate::rules::is_alpha;
use crate::rules::is_blank;
use crate::rules::is_digit;
use crate::rules::is_quote;
use crate::rules::is_word_char;
use crate::tokenizer::TokenizerErrorView;
use crate::tokens::Operator;
use crate::tokens::Symbol;
use crate::tokens::TokenView;
use crate::tokens::is_keyword;
use crate::tokens::operator_of_char;
use crate::tokens::operator_of_pair;
use crate::tokens::paren_of_char;
use vstd::prelude::*;

verus! {

/// The character at `i`, or the null sentinel where the text has ended.
pub open spec fn peek(s: Seq<char>, i: int) -> char {
    if 0 <= i < s.len() {
        s[i]
    } else {
        '\0'
    }
}

/// How many word characters stand at `i` and directly after it.
pub open spec fn word_len(s: Seq<char>, i: int) -> nat
    decreases s.len() - i,
{
    if 0 <= i < s.len() && is_word_char(s[i]) {
        (1 + word_len(s, i + 1)) as nat
    } else {
        0
    }
}

/// How many digits stand at `i` and directly after it.
pub open spec fn digits_len(s: Seq<char>, i: int) -> nat
    decreases s.len() - i,
{
    if 0 <= i < s.len() && is_digit(s[i]) {
        (1 + digits_len(s, i + 1)) as nat
    } else {
        0
    }
}

/// How many characters stand between `i` and the next `c`, or the end of
/// the text where no `c` follows.
pub open spec fn distance_to(s: Seq<char>, i: int, c: char) -> nat
    decreases s.len() - i,
{
    if 0 <= i < s.len() && s[i] != c {
        (1 + distance_to(s, i + 1, c)) as nat
    } else {
        0
    }
}

/// Whether `*/` stands at `i`.
pub open spec fn closes_block(s: Seq<char>, i: int) -> bool {
    0 <= i && i + 1 < s.len() && s[i] == '*' && s[i + 1] == '/'
}

/// How many characters stand between `i` and the next `*/`, or the end of
/// the text where none follows.
pub open spec fn block_body_len(s: Seq<char>, i: int) -> nat
    decreases s.len() - i,
{
    if 0 <= i < s.len() && !closes_block(s, i) {
        (1 + block_body_len(s, i + 1)) as nat
    } else {
        0
    }
}

/// The value of one decimal digit.
pub open spec fn digit_value(c: char) -> nat {
    (c as int - '0' as int) as nat
}

/// The number that a run of decimal digits writes.
pub open spec fn decimal_value(digits: Seq<char>) -> nat
    decreases digits.len(),
{
    if digits.len() == 0 {
        0
    } else {
        10 * decimal_value(digits.drop_last()) + digit_value(digits.last())
    }
}

/// What is read of a string from a position inside it.
pub struct StringScan {
    /// The string's characters, each escaping backslash taken out.
    pub content: Seq<char>,
    /// How many characters of the text were read, the closing quote
    /// included.
    pub used: nat,
    /// Whether the closing quote was found.
    pub closed: bool,
}

/// Reads a string's body from `i` to the closing `quote`. A backslash makes
/// the character after it part of the content, whatever it is, and is not
/// itself part of it.
pub open spec fn string_body(s: Seq<char>, i: int, quote: char) -> StringScan
    decreases s.len() - i,
{
    if !(0 <= i < s.len()) {
        StringScan { content: Seq::empty(), used: 0, closed: false }
    } else if s[i] == '\\' {
        if i + 1 < s.len() {
            let rest = string_body(s, i + 2, quote);
            StringScan {
                content: seq![s[i + 1]] + rest.content,
                used: rest.used + 2,
                closed: rest.closed,
            }
        } else {
            StringScan { content: Seq::empty(), used: 1, closed: false }
        }
    } else if s[i] == quote {
        StringScan { content: Seq::empty(), used: 1, closed: true }
    } else {
        let rest = string_body(s, i + 1, quote);
        StringScan { content: seq![s[i]] + rest.content, used: rest.used + 1, closed: rest.closed }
    }
}

/// What the scanner does at one position between tokens.
pub enum Scan {
    /// Nothing is emitted; the scan goes on at `next`.
    Skip { next: int, after_newline: bool },
    /// One token is emitted; the scan goes on at `next`.
    Emit { token: TokenView, next: int, after_newline: bool },
    /// The scan ends with an error.
    Fail { error: TokenizerErrorView },
}

/// The token that starts with `/` at `i`: a line comment, which runs up to
/// the line's end and takes the newline with it; a block comment, which runs
/// to the first `*/` after the opening `/`; or the division operator.
pub open spec fn scan_slash(s: Seq<char>, i: int) -> Scan {
    if peek(s, i + 1) == '/' {
        let end = i + 1 + distance_to(s, i + 1, '\n');
        Scan::Emit {
            token: TokenView::Comment(s.subrange(i, end)),
            next: if end < s.len() {
                end + 1
            } else {
                end
            },
            after_newline: false,
        }
    } else if peek(s, i + 1) == '*' {
        let close = i + 1 + block_body_len(s, i + 1);
        if close < s.len() {
            Scan::Emit {
                token: TokenView::Comment(s.subrange(i, close + 2)),
                next: close + 2,
                after_newline: false,
            }
        } else {
            Scan::Fail {
                error: TokenizerErrorView::UnterminatedBlockComment(s.subrange(i, s.len() as int)),
            }
        }
    } else {
        Scan::Emit {
            token: TokenView::Operator(Operator::Divide),
            next: i + 1,
            after_newline: false,
        }
    }
}

/// A word is a keyword if it is spelled like one, else an identifier.
pub open spec fn word_token(lexeme: Seq<char>) -> TokenView {
    if is_keyword(lexeme) {
        TokenView::Keyword(lexeme)
    } else {
        TokenView::Identifier(lexeme)
    }
}

/// The word that starts with a letter at `i`: the longest run of word
/// characters.
pub open spec fn scan_word(s: Seq<char>, i: int) -> Scan {
    let end = i + 1 + word_len(s, i + 1);
    Scan::Emit { token: word_token(s.subrange(i, end)), next: end, after_newline: false }
}

/// The number that starts with a digit at `i`: the longest run of digits.
/// A `.` directly after it makes it a float, which is refused with the
/// digits, the point and the digits after the point; a value above
/// `i32::MAX` is refused with the digits.
pub open spec fn scan_number(s: Seq<char>, i: int) -> Scan {
    let end = i + 1 + digits_len(s, i + 1);
    let digits = s.subrange(i, end);
    if peek(s, end) == '.' {
        Scan::Fail {
            error: TokenizerErrorView::UnsupportedFloat(
                s.subrange(i, end + 1 + digits_len(s, end + 1)),
            ),
        }
    } else if decimal_value(digits) > i32::MAX {
        Scan::Fail { error: TokenizerErrorView::IntegerOverflow(digits) }
    } else {
        Scan::Emit {
            token: TokenView::IntegerConstant(decimal_value(digits) as i32),
            next: end,
            after_newline: false,
        }
    }
}

/// The string that a quote opens at `i`, closed by the same quote.
pub open spec fn scan_string(s: Seq<char>, i: int) -> Scan {
    let body = string_body(s, i + 1, s[i]);
    if body.closed {
        Scan::Emit {
            token: TokenView::StringConstant(body.content),
            next: i + 1 + body.used,
            after_newline: false,
        }
    } else {
        Scan::Fail {
            error: TokenizerErrorView::UnterminatedString(TokenView::StringConstant(body.content)),
        }
    }
}

/// The string that a backslash between tokens opens at `i`: everything up
/// to the next `"`, copied as it stands.
pub open spec fn scan_bare_string(s: Seq<char>, i: int) -> Scan {
    let close = i + 1 + distance_to(s, i + 1, '"');
    if close < s.len() {
        Scan::Emit {
            token: TokenView::StringConstant(s.subrange(i + 1, close)),
            next: close + 1,
            after_newline: false,
        }
    } else {
        Scan::Fail {
            error: TokenizerErrorView::UnterminatedString(
                TokenView::StringConstant(s.subrange(i + 1, s.len() as int)),
            ),
        }
    }
}

/// What the scanner does at position `i` of the text, a position between
/// tokens. `after_newline` says that a `NewLine` was emitted and only line
/// terminators were passed since.
///
/// The rules are tried in this order. A newline or a carriage return
/// directly after a `NewLine` is swallowed, so that a run of blank lines
/// gives one `NewLine`; blanks are skipped; a null character gives
/// `EndOfFile`; a newline gives `NewLine`; then come comments and division,
/// words, numbers, parentheses, operators (the two-character ones before
/// their one-character prefixes), the semicolon and strings. A carriage
/// return that follows no newline, a lone `:` and every other character
/// are unknown.
pub open spec fn scan(s: Seq<char>, i: int, after_newline: bool) -> Scan
    recommends
        0 <= i < s.len(),
{
    let c = s[i];
    if (c == '\n' || c == '\r') && after_newline {
        Scan::Skip { next: i + 1, after_newline: true }
    } else if is_blank(c) {
        Scan::Skip { next: i + 1, after_newline: false }
    } else if c == '\0' {
        Scan::Emit {
            token: TokenView::Symbol(Symbol::EndOfFile),
            next: i + 1,
            after_newline: false,
        }
    } else if c == '\n' {
        Scan::Emit { token: TokenView::Symbol(Symbol::NewLine), next: i + 1, after_newline: true }
    } else if c == '/' {
        scan_slash(s, i)
    } else if is_alpha(c) {
        scan_word(s, i)
    } else if is_digit(c) {
        scan_number(s, i)
    } else if paren_of_char(c) is Some {
        Scan::Emit {
            token: TokenView::Paren(paren_of_char(c)->Some_0),
            next: i + 1,
            after_newline: false,
        }
    } else if operator_of_pair(c, peek(s, i + 1)) is Some {
        Scan::Emit {
            token: TokenView::Operator(operator_of_pair(c, peek(s, i + 1))->Some_0),
            next: i + 2,
            after_newline: false,
        }
    } else if operator_of_char(c) is Some {
        Scan::Emit {
            token: TokenView::Operator(operator_of_char(c)->Some_0),
            next: i + 1,
            after_newline: false,
        }
    } else if c == ';' {
        Scan::Emit {
            token: TokenView::Symbol(Symbol::Semicolon),
            next: i + 1,
            after_newline: false,
        }
    } else if is_quote(c) {
        scan_string(s, i)
    } else if c == '\\' {
        scan_bare_string(s, i)
    } else {
        Scan::Fail { error: TokenizerErrorView::UnknownCharacter(c) }
    }
}

/// A run of word characters ends inside the text.
pub proof fn lemma_word_len_bound(s: Seq<char>, i: int)
    requires
        0 <= i <= s.len(),
    ensures
        i + word_len(s, i) <= s.len(),
    decreases s.len() - i,
{
    if i < s.len() && is_word_char(s[i]) {
        lemma_word_len_bound(s, i + 1);
    }
}

/// A run of digits ends inside the text.
pub proof fn lemma_digits_len_bound(s: Seq<char>, i: int)
    requires
        0 <= i <= s.len(),
    ensures
        i + digits_len(s, i) <= s.len(),
    decreases s.len() - i,
{
    if i < s.len() && is_digit(s[i]) {
        lemma_digits_len_bound(s, i + 1);
    }
}

/// The search for `c` ends inside the text, and on `c` unless at its end.
pub proof fn lemma_distance_to_bound(s: Seq<char>, i: int, c: char)
    requires
        0 <= i <= s.len(),
    ensures
        i + distance_to(s, i, c) <= s.len(),
        i + distance_to(s, i, c) < s.len() ==> s[i + distance_to(s, i, c)] == c,
    decreases s.len() - i,
{
    if i < s.len() && s[i] != c {
        lemma_distance_to_bound(s, i + 1, c);
    }
}

/// The search for `*/` ends inside the text, and on `*/` unless at its end.
pub proof fn lemma_block_body_len_bound(s: Seq<char>, i: int)
    requires
        0 <= i <= s.len(),
    ensures
        i + block_body_len(s, i) <= s.len(),
        i + block_body_len(s, i) < s.len() ==> closes_block(s, i + block_body_len(s, i)),
    decreases s.len() - i,
{
    if i < s.len() && !closes_block(s, i) {
        lemma_block_body_len_bound(s, i + 1);
    }
}

/// A string's body ends inside the text, and a closed one holds at least
/// its closing quote.
pub proof fn lemma_string_body_bound(s: Seq<char>, i: int, quote: char)
    requires
        0 <= i <= s.len(),
    ensures
        i + string_body(s, i, quote).used <= s.len(),
        string_body(s, i, quote).closed ==> string_body(s, i, quote).used >= 1,
    decreases s.len() - i,
{
    if i < s.len() {
        if s[i] == '\\' {
            if i + 1 < s.len() {
                lemma_string_body_bound(s, i + 2, quote);
            }
        } else if s[i] != quote {
            lemma_string_body_bound(s, i + 1, quote);
        }
    }
}

/// Wherever the scan goes on, it goes on further right and inside the text.
pub proof fn lemma_scan_advances(s: Seq<char>, i: int, after_newline: bool)
    requires
        0 <= i < s.len(),
    ensures
        match scan(s, i, after_newline) {
            Scan::Skip { next, .. } => i < next <= s.len(),
            Scan::Emit { next, .. } => i < next <= s.len(),
            Scan::Fail { .. } => true,
        },
{
    lemma_word_len_bound(s, i + 1);
    lemma_digits_len_bound(s, i + 1);
    lemma_distance_to_bound(s, i + 1, '\n');
    lemma_distance_to_bound(s, i + 1, '"');
    lemma_block_body_len_bound(s, i + 1);
    lemma_string_body_bound(s, i + 1, s[i]);
}

/// `tokens` in front of what a later part of the scan gives.
pub open spec fn prepend(
    tokens: Seq<TokenView>,
    rest: Result<Seq<TokenView>, TokenizerErrorView>,
) -> Result<Seq<TokenView>, TokenizerErrorView> {
    match rest {
        Ok(more) => Ok(tokens + more),
        Err(error) => Err(error),
    }
}

/// The tokens of the text from position `i` on, closed by `EndOfFile`, or
/// the first error met.
pub open spec fn lex_from(s: Seq<char>, i: int, after_newline: bool) -> Result<
    Seq<TokenView>,
    TokenizerErrorView,
>
    decreases s.len() - i,
    via lex_from_decreases
{
    if !(0 <= i < s.len()) {
        Ok(seq![TokenView::Symbol(Symbol::EndOfFile)])
    } else {
        match scan(s, i, after_newline) {
            Scan::Skip { next, after_newline } => lex_from(s, next, after_newline),
            Scan::Emit { token, next, after_newline } => prepend(
                seq![token],
                lex_from(s, next, after_newline),
            ),
            Scan::Fail { error } => Err(error),
        }
    }
}

#[via_fn]
proof fn lex_from_decreases(s: Seq<char>, i: int, after_newline: bool) {
    if 0 <= i < s.len() {
        lemma_scan_advances(s, i, after_newline);
    }
}

/// The tokens of a whole text, or the first error in it.
pub open spec fn tokens_of(s: Seq<char>) -> Result<Seq<TokenView>, TokenizerErrorView> {
    lex_from(s, 0, false)
}

} // verus!
