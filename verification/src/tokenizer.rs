use crate::error::CrateError;
use crate::error::CrateErrorView;
use crate::grammar::Scan;
use crate::grammar::block_body_len;
use crate::grammar::closes_block;
use crate::grammar::distance_to;
use crate::grammar::lemma_scan_advances;
use crate::grammar::lex_from;
use crate::grammar::prepend;
use crate::grammar::scan;
use crate::grammar::scan_bare_string;
use crate::grammar::scan_number;
use crate::grammar::scan_slash;
use crate::grammar::scan_string;
use crate::grammar::scan_word;
use crate::grammar::string_body;
use crate::grammar::tokens_of;
use crate::grammar::word_len;
use crate::numbers::decimal_within;
use crate::numbers::skip_digits;
use crate::rules::alpha;
use crate::rules::blank;
use crate::rules::digit;
use crate::rules::is_digit;
use crate::rules::quote;
use crate::rules::word_char;
use crate::text::into_chars;
use crate::text::joined_lines;
use crate::text::line_views;
use crate::text::prefixed;
use crate::text::text_of_char;
use crate::text::text_of_range;
use crate::tokens::Keyword;
use crate::tokens::Operator;
use crate::tokens::Paren;
use crate::tokens::Symbol;
use crate::tokens::Token;
use crate::tokens::TokenView;
use crate::tokens::double_operator;
use crate::tokens::keyword_in;
use crate::tokens::single_operator;
use vstd::prelude::*;
use vstd::string::*;

verus! {

/// Why a source text has no token sequence. Each of them ends the scan.
#[derive(Debug)]
pub enum TokenizerError {
    /// A character at which no lexical rule starts.
    UnknownCharacter(char),
    /// A text that spells no operator.
    UnknownOperator(String),
    /// A character that is no parenthesis.
    UnknownParen(char),
    /// A text that is no keyword.
    InvalidKeyword(String),
    /// A text that is neither a keyword nor an identifier.
    InvalidIdentifier(String),
    /// A number with a decimal point, with the text that was read of it.
    UnsupportedFloat(String),
    /// The input ended inside a string; holds the string read so far.
    UnterminatedString(Token),
    /// The input ended inside a block comment; holds the comment so far.
    UnterminatedBlockComment(String),
    /// A run of digits whose value does not fit in 32 bits, signed.
    IntegerOverflow(String),
}

/// The mathematical content of a [`TokenizerError`].
pub enum TokenizerErrorView {
    UnknownCharacter(char),
    UnknownOperator(Seq<char>),
    UnknownParen(char),
    InvalidKeyword(Seq<char>),
    InvalidIdentifier(Seq<char>),
    UnsupportedFloat(Seq<char>),
    UnterminatedString(TokenView),
    UnterminatedBlockComment(Seq<char>),
    IntegerOverflow(Seq<char>),
}

impl View for TokenizerError {
    type V = TokenizerErrorView;

    open spec fn view(&self) -> TokenizerErrorView {
        match self {
            TokenizerError::UnknownCharacter(c) => TokenizerErrorView::UnknownCharacter(*c),
            TokenizerError::UnknownOperator(s) => TokenizerErrorView::UnknownOperator(s@),
            TokenizerError::UnknownParen(c) => TokenizerErrorView::UnknownParen(*c),
            TokenizerError::InvalidKeyword(s) => TokenizerErrorView::InvalidKeyword(s@),
            TokenizerError::InvalidIdentifier(s) => TokenizerErrorView::InvalidIdentifier(s@),
            TokenizerError::UnsupportedFloat(s) => TokenizerErrorView::UnsupportedFloat(s@),
            TokenizerError::UnterminatedString(t) => TokenizerErrorView::UnterminatedString(t@),
            TokenizerError::UnterminatedBlockComment(s) => {
                TokenizerErrorView::UnterminatedBlockComment(s@)
            },
            TokenizerError::IntegerOverflow(s) => TokenizerErrorView::IntegerOverflow(s@),
        }
    }
}

/// The views of a sequence of tokens.
pub open spec fn token_views(tokens: Seq<Token>) -> Seq<TokenView> {
    tokens.map_values(|t: Token| t@)
}

/// What the scanner found at one position: the executable form of
/// [`Scan`].
enum Step {
    Skip { next: usize, after_newline: bool },
    Emit { token: Token, next: usize, after_newline: bool },
    Fail { error: TokenizerError },
}

impl Step {
    /// What the step says, over the views of what it holds.
    spec fn outcome(&self) -> Scan {
        match self {
            Step::Skip { next, after_newline } => Scan::Skip {
                next: *next as int,
                after_newline: *after_newline,
            },
            Step::Emit { token, next, after_newline } => Scan::Emit {
                token: token@,
                next: *next as int,
                after_newline: *after_newline,
            },
            Step::Fail { error } => Scan::Fail { error: error@ },
        }
    }
}

/// The position of the next `c` at or after `from`, or the text's length.
fn find_char(chars: &Vec<char>, from: usize, c: char) -> (r: usize)
    requires
        from <= chars.len(),
    ensures
        r == from + distance_to(chars@, from as int, c),
        from <= r <= chars.len(),
{
    let mut j: usize = from;
    while j < chars.len() && chars[j] != c
        invariant
            from <= j <= chars.len(),
            distance_to(chars@, from as int, c) == (j - from) + distance_to(chars@, j as int, c),
        decreases chars.len() - j,
    {
        j += 1;
    }
    j
}

/// Reads the word that starts at `i`.
fn read_word(chars: &Vec<char>, i: usize) -> (r: Step)
    requires
        i < chars.len(),
    ensures
        r.outcome() == scan_word(chars@, i as int),
{
    let mut j: usize = i + 1;
    while j < chars.len() && word_char(chars[j])
        invariant
            i < j <= chars.len(),
            word_len(chars@, i + 1) == (j - (i + 1)) + word_len(chars@, j as int),
        decreases chars.len() - j,
    {
        j += 1;
    }
    let lexeme = text_of_range(chars, i, j);
    let token = if keyword_in(chars, i, j) {
        Token::Keyword(Keyword(lexeme))
    } else {
        Token::Identifier(lexeme)
    };
    Step::Emit { token, next: j, after_newline: false }
}

/// Reads the number that starts at `i`.
fn read_number(chars: &Vec<char>, i: usize) -> (r: Step)
    requires
        i < chars.len(),
        is_digit(chars@[i as int]),
    ensures
        r.outcome() == scan_number(chars@, i as int),
{
    let end = skip_digits(chars, i + 1);
    if end < chars.len() && chars[end] == '.' {
        let stop = skip_digits(chars, end + 1);
        Step::Fail { error: TokenizerError::UnsupportedFloat(text_of_range(chars, i, stop)) }
    } else {
        match decimal_within(chars, i, end, 2147483647) {
            Some(value) => Step::Emit {
                token: Token::IntegerConstant(value as i32),
                next: end,
                after_newline: false,
            },
            None => Step::Fail {
                error: TokenizerError::IntegerOverflow(text_of_range(chars, i, end)),
            },
        }
    }
}

/// Whether `*/` stands at `j`.
fn at_block_close(chars: &Vec<char>, j: usize) -> (r: bool)
    requires
        j < chars.len(),
    ensures
        r == closes_block(chars@, j as int),
{
    chars[j] == '*' && j + 1 < chars.len() && chars[j + 1] == '/'
}

/// Reads the comment or the division operator that starts at `i`.
fn read_slash(chars: &Vec<char>, i: usize) -> (r: Step)
    requires
        i < chars.len(),
    ensures
        r.outcome() == scan_slash(chars@, i as int),
{
    let next: char = if i + 1 < chars.len() {
        chars[i + 1]
    } else {
        '\0'
    };
    if next == '/' {
        let end = find_char(chars, i + 1, '\n');
        let text = text_of_range(chars, i, end);
        let resume: usize = if end < chars.len() {
            end + 1
        } else {
            end
        };
        Step::Emit { token: Token::Comment(text), next: resume, after_newline: false }
    } else if next == '*' {
        let mut j: usize = i + 1;
        while j < chars.len() && !at_block_close(chars, j)
            invariant
                i < j <= chars.len(),
                block_body_len(chars@, i + 1) == (j - (i + 1)) + block_body_len(chars@, j as int),
            decreases chars.len() - j,
        {
            j += 1;
        }
        if j < chars.len() {
            let text = text_of_range(chars, i, j + 2);
            Step::Emit { token: Token::Comment(text), next: j + 2, after_newline: false }
        } else {
            let text = text_of_range(chars, i, chars.len());
            Step::Fail { error: TokenizerError::UnterminatedBlockComment(text) }
        }
    } else {
        Step::Emit { token: Token::Operator(Operator::Divide), next: i + 1, after_newline: false }
    }
}

/// Reads the string that the quote at `i` opens.
fn read_string(chars: &Vec<char>, i: usize) -> (r: Step)
    requires
        i < chars.len(),
    ensures
        r.outcome() == scan_string(chars@, i as int),
{
    let quote = chars[i];
    let ghost body = string_body(chars@, i + 1, quote);
    let mut content = String::new();
    let mut j: usize = i + 1;
    let mut done = false;
    let mut closed = false;
    assert(content@ + body.content =~= body.content);
    while !done
        invariant
            i < j <= chars.len(),
            quote == chars@[i as int],
            body == string_body(chars@, i + 1, quote),
            !done ==> {
                let rest = string_body(chars@, j as int, quote);
                &&& body.content == content@ + rest.content
                &&& body.used == (j - (i + 1)) + rest.used
                &&& body.closed == rest.closed
            },
            !done ==> !closed,
            done ==> body.content == content@ && body.closed == closed,
            done && closed ==> body.used == j - (i + 1),
        decreases chars.len() - j + (if done { 0int } else { 1int }),
    {
        let ghost before = content@;
        let ghost rest = string_body(chars@, j as int, quote);
        if j >= chars.len() {
            done = true;
            assert(before + rest.content =~= before);
        } else if chars[j] == '\\' {
            if j + 1 < chars.len() {
                content.push(chars[j + 1]);
                j += 2;
                assert(before + rest.content =~= content@ + string_body(
                    chars@,
                    j as int,
                    quote,
                ).content);
            } else {
                j += 1;
                done = true;
                assert(before + rest.content =~= before);
                }
        } else if chars[j] == quote {
            j += 1;
            closed = true;
            done = true;
            assert(before + rest.content =~= before);
        } else {
            content.push(chars[j]);
            j += 1;
            assert(before + rest.content =~= content@ + string_body(
                chars@,
                j as int,
                quote,
            ).content);
        }
    }
    if closed {
        Step::Emit { token: Token::StringConstant(content), next: j, after_newline: false }
    } else {
        Step::Fail { error: TokenizerError::UnterminatedString(Token::StringConstant(content)) }
    }
}

/// Reads the string that the backslash at `i` opens.
fn read_bare_string(chars: &Vec<char>, i: usize) -> (r: Step)
    requires
        i < chars.len(),
    ensures
        r.outcome() == scan_bare_string(chars@, i as int),
{
    let close = find_char(chars, i + 1, '"');
    let text = text_of_range(chars, i + 1, close);
    if close < chars.len() {
        Step::Emit { token: Token::StringConstant(text), next: close + 1, after_newline: false }
    } else {
        Step::Fail { error: TokenizerError::UnterminatedString(Token::StringConstant(text)) }
    }
}

/// Scans at position `i`, a position between tokens.
fn scan_at(chars: &Vec<char>, i: usize, after_newline: bool) -> (r: Step)
    requires
        i < chars.len(),
    ensures
        r.outcome() == scan(chars@, i as int, after_newline),
{
    let c = chars[i];
    let next: char = if i + 1 < chars.len() {
        chars[i + 1]
    } else {
        '\0'
    };
    if (c == '\n' || c == '\r') && after_newline {
        Step::Skip { next: i + 1, after_newline: true }
    } else if blank(c) {
        Step::Skip { next: i + 1, after_newline: false }
    } else if c == '\0' {
        Step::Emit { token: Token::Symbol(Symbol::EndOfFile), next: i + 1, after_newline: false }
    } else if c == '\n' {
        Step::Emit { token: Token::Symbol(Symbol::NewLine), next: i + 1, after_newline: true }
    } else if c == '/' {
        read_slash(chars, i)
    } else if alpha(c) {
        read_word(chars, i)
    } else if digit(c) {
        read_number(chars, i)
    } else if let Ok(paren) = Paren::try_from(c) {
        Step::Emit { token: Token::Paren(paren), next: i + 1, after_newline: false }
    } else if let Some(op) = double_operator(c, next) {
        Step::Emit { token: Token::Operator(op), next: i + 2, after_newline: false }
    } else if let Some(op) = single_operator(c) {
        Step::Emit { token: Token::Operator(op), next: i + 1, after_newline: false }
    } else if c == ';' {
        Step::Emit { token: Token::Symbol(Symbol::Semicolon), next: i + 1, after_newline: false }
    } else if quote(c) {
        read_string(chars, i)
    } else if c == '\\' {
        read_bare_string(chars, i)
    } else {
        Step::Fail { error: TokenizerError::UnknownCharacter(c) }
    }
}

/// Nothing in front of a result leaves it as it is.
proof fn lemma_prepend_empty(rest: Result<Seq<TokenView>, TokenizerErrorView>)
    ensures
        prepend(Seq::empty(), rest) == rest,
{
    match rest {
        Ok(more) => {
            assert(Seq::<TokenView>::empty() + more =~= more);
        },
        Err(_) => {},
    }
}

/// Putting a token in front of the rest and then more tokens in front of
/// that is putting them all in front at once.
proof fn lemma_prepend_push(
    tokens: Seq<TokenView>,
    token: TokenView,
    rest: Result<Seq<TokenView>, TokenizerErrorView>,
)
    ensures
        prepend(tokens, prepend(seq![token], rest)) == prepend(tokens.push(token), rest),
{
    match rest {
        Ok(more) => {
            assert(tokens + (seq![token] + more) =~= tokens.push(token) + more);
        },
        Err(_) => {},
    }
}

/// The form in which std's `Debug` writes a text: between double quotes,
/// with the characters that need it escaped.
pub uninterp spec fn debug_form(text: Seq<char>) -> Seq<char>;

/// Formats a text with `{:?}`, std's `Debug` for `str`. The result depends
/// on the text alone.
#[verifier::external_body]
fn debug_text(text: &str) -> (r: String)
    ensures
        r@ == debug_form(text@),
{
    format!("{:?}", text)
}

/// What is said of an error.
pub open spec fn message_of(error: TokenizerErrorView) -> Seq<char> {
    match error {
        TokenizerErrorView::UnknownCharacter(c) => "Invalid character: "@ + seq![c],
        TokenizerErrorView::UnknownOperator(s) => "Unknown operator token: "@ + s,
        TokenizerErrorView::UnknownParen(c) => "Unknown paren character: "@ + seq![c],
        TokenizerErrorView::InvalidKeyword(s) => "Invalid keyword: "@ + s,
        TokenizerErrorView::InvalidIdentifier(s) => "Invalid identifier: "@ + s,
        TokenizerErrorView::UnsupportedFloat(s) => "Invalid integer: "@ + s,
        TokenizerErrorView::UnterminatedString(TokenView::StringConstant(s)) => {
            "Unterminated string: "@ + debug_form(s)
        },
        TokenizerErrorView::UnterminatedString(_) => "Unknown lexing error"@,
        TokenizerErrorView::UnterminatedBlockComment(s) => {
            "Block comment missing closing tag: "@ + s
        },
        TokenizerErrorView::IntegerOverflow(s) => "Integer out of range: "@ + s,
    }
}

/// What is said of a string that was left open, given the form in which
/// the part that was read is shown.
pub fn unterminated_string_message(shown: &str) -> (r: String)
    ensures
        r@ == "Unterminated string: "@ + shown@,
{
    prefixed("Unterminated string: ", shown)
}

impl TokenizerError {
    /// The error in words, for the user.
    pub fn message(&self) -> (r: String)
        ensures
            r@ == message_of(self@),
    {
        match self {
            TokenizerError::UnknownCharacter(c) => {
                let shown = text_of_char(*c);
                prefixed("Invalid character: ", shown.as_str())
            },
            TokenizerError::UnknownOperator(s) => prefixed("Unknown operator token: ", s.as_str()),
            TokenizerError::UnknownParen(c) => {
                let shown = text_of_char(*c);
                prefixed("Unknown paren character: ", shown.as_str())
            },
            TokenizerError::InvalidKeyword(s) => prefixed("Invalid keyword: ", s.as_str()),
            TokenizerError::InvalidIdentifier(s) => prefixed("Invalid identifier: ", s.as_str()),
            TokenizerError::UnsupportedFloat(s) => prefixed("Invalid integer: ", s.as_str()),
            TokenizerError::UnterminatedString(Token::StringConstant(s)) => {
                let shown = debug_text(s.as_str());
                unterminated_string_message(shown.as_str())
            },
            TokenizerError::UnterminatedString(_) => String::from_str("Unknown lexing error"),
            TokenizerError::UnterminatedBlockComment(s) => prefixed(
                "Block comment missing closing tag: ",
                s.as_str(),
            ),
            TokenizerError::IntegerOverflow(s) => prefixed("Integer out of range: ", s.as_str()),
        }
    }
}

/// The lexer: it owns the source text as one buffer of characters and, once
/// the text has been scanned, its tokens.
#[derive(Debug)]
pub struct Tokenizer {
    chars: Vec<char>,
    pub tokens: Vec<Token>,
}

impl Tokenizer {
    /// The source text that the lexer holds.
    pub closed spec fn source(&self) -> Seq<char> {
        self.chars@
    }

    /// The tokens that the lexer holds, by their views.
    pub closed spec fn output(&self) -> Seq<TokenView> {
        token_views(self.tokens@)
    }

    /// The tokens that the lexer holds.
    pub fn tokens(&self) -> (r: &Vec<Token>)
        ensures
            token_views(r@) == self.output(),
    {
        &self.tokens
    }

    /// A lexer for the text made of the given lines, each followed by one
    /// newline. It holds no tokens yet.
    pub fn new(lines: Vec<String>) -> (r: Self)
        ensures
            r.source() == joined_lines(line_views(lines@)),
            r.output() == Seq::<TokenView>::empty(),
    {
        let r = Tokenizer { chars: into_chars(lines), tokens: Vec::new() };
        assert(r.output() =~= Seq::<TokenView>::empty());
        r
    }

    /// A lexer for the text made of the given characters, as they stand.
    /// It holds no tokens yet.
    pub fn from_chars(chars: Vec<char>) -> (r: Self)
        ensures
            r.source() == chars@,
            r.output() == Seq::<TokenView>::empty(),
    {
        let r = Tokenizer { chars, tokens: Vec::new() };
        assert(r.output() =~= Seq::<TokenView>::empty());
        r
    }

    /// Scans the source text once, from left to right. Where the text is
    /// well formed, its tokens replace the ones held and the lexer is handed
    /// back; where it is not, the first error is returned and the lexer is
    /// left as it was.
    pub fn tokenize(&mut self) -> (r: Result<&mut Self, CrateError>)
        ensures
            match r {
                Ok(t) => {
                    &&& tokens_of(old(self).source()) == Ok::<Seq<TokenView>, TokenizerErrorView>(
                        t.output(),
                    )
                    &&& t.source() == old(self).source()
                    &&& *final(self) == *final(t)
                },
                Err(e) => {
                    &&& tokens_of(old(self).source()) is Err
                    &&& e@ == CrateErrorView::Tokenizer(tokens_of(old(self).source())->Err_0)
                    &&& *final(self) == *old(self)
                },
            },
    {
        let mut tokens: Vec<Token> = Vec::new();
        let mut i: usize = 0;
        let mut after_newline = false;
        proof {
            lemma_prepend_empty(lex_from(self.chars@, 0, false));
            assert(token_views(tokens@) =~= Seq::<TokenView>::empty());
        }
        while i < self.chars.len()
            invariant
                *self == *old(self),
                0 <= i <= self.chars.len(),
                tokens_of(self.chars@) == prepend(
                    token_views(tokens@),
                    lex_from(self.chars@, i as int, after_newline),
                ),
            decreases self.chars.len() - i,
        {
            proof {
                lemma_scan_advances(self.chars@, i as int, after_newline);
            }
            match scan_at(&self.chars, i, after_newline) {
                Step::Skip { next, after_newline: newline } => {
                    i = next;
                    after_newline = newline;
                },
                Step::Emit { token, next, after_newline: newline } => {
                    proof {
                        lemma_prepend_push(
                            token_views(tokens@),
                            token@,
                            lex_from(self.chars@, next as int, newline),
                        );
                        assert(token_views(tokens@.push(token)) =~= token_views(tokens@).push(
                            token@,
                        ));
                    }
                    tokens.push(token);
                    i = next;
                    after_newline = newline;
                },
                Step::Fail { error } => {
                    return Err(CrateError::TokenizerError(error));
                },
            }
        }
        proof {
            assert(token_views(tokens@.push(Token::Symbol(Symbol::EndOfFile))) =~= token_views(
                tokens@,
            ) + seq![TokenView::Symbol(Symbol::EndOfFile)]);
        }
        tokens.push(Token::Symbol(Symbol::EndOfFile));
        self.tokens = tokens;
        Ok(self)
    }
}

impl Default for Tokenizer {
    /// A lexer for the empty text, with no tokens.
    fn default() -> (r: Self)
        ensures
            r.source() == Seq::<char>::empty(),
            r.output() == Seq::<TokenView>::empty(),
    {
        let r = Tokenizer { chars: Vec::new(), tokens: Vec::new() };
        assert(r.output() =~= Seq::<TokenView>::empty());
        r
    }
}

} // verus!
