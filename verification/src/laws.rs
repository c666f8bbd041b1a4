//! What holds of the grammar on every text.

use crate::grammar::Scan;
use crate::grammar::StringScan;
use crate::grammar::block_body_len;
use crate::grammar::digits_len;
use crate::grammar::distance_to;
use crate::grammar::lemma_block_body_len_bound;
use crate::grammar::lemma_digits_len_bound;
use crate::grammar::lemma_distance_to_bound;
use crate::grammar::lemma_scan_advances;
use crate::grammar::lemma_word_len_bound;
use crate::grammar::lex_from;
use crate::grammar::peek;
use crate::grammar::prepend;
use crate::grammar::scan;
use crate::grammar::string_body;
use crate::grammar::tokens_of;
use crate::grammar::word_len;
use crate::rules::is_blank;
use crate::rules::is_quote;
use crate::tokenizer::TokenizerErrorView;
use crate::tokens::Symbol;
use crate::tokens::TokenView;
use vstd::prelude::*;

verus! {

/// The end-of-file marker.
pub open spec fn end_of_file() -> TokenView {
    TokenView::Symbol(Symbol::EndOfFile)
}

/// The newline marker.
pub open spec fn new_line() -> TokenView {
    TokenView::Symbol(Symbol::NewLine)
}

/// The text holds no null character.
pub open spec fn null_free(s: Seq<char>) -> bool {
    forall|i: int| 0 <= i < s.len() ==> #[trigger] s[i] != '\0'
}

/// The tokens end with `EndOfFile`.
pub open spec fn ends_with_end_of_file(tokens: Seq<TokenView>) -> bool {
    tokens.len() >= 1 && tokens.last() == end_of_file()
}

/// No token but the last is `EndOfFile`.
pub open spec fn end_of_file_only_last(tokens: Seq<TokenView>) -> bool {
    forall|k: int| 0 <= k < tokens.len() - 1 ==> #[trigger] tokens[k] != end_of_file()
}

/// From every position, a scan that succeeds ends with `EndOfFile`.
pub proof fn lemma_lex_from_ends_with_end_of_file(s: Seq<char>, i: int, after_newline: bool)
    requires
        lex_from(s, i, after_newline) is Ok,
    ensures
        ends_with_end_of_file(lex_from(s, i, after_newline)->Ok_0),
    decreases s.len() - i,
{
    if 0 <= i < s.len() {
        lemma_scan_advances(s, i, after_newline);
        match scan(s, i, after_newline) {
            Scan::Skip { next, after_newline: newline } => {
                lemma_lex_from_ends_with_end_of_file(s, next, newline);
            },
            Scan::Emit { token, next, after_newline: newline } => {
                lemma_lex_from_ends_with_end_of_file(s, next, newline);
            },
            Scan::Fail { .. } => {},
        }
    }
}

/// Whether the scan from position `i` comes upon a null character between
/// tokens. Such a character is read as an end-of-file marker; one inside a
/// string or a comment is not.
pub open spec fn null_between_tokens(s: Seq<char>, i: int, after_newline: bool) -> bool
    decreases s.len() - i,
    via null_between_tokens_decreases
{
    if !(0 <= i < s.len()) {
        false
    } else if s[i] == '\0' {
        true
    } else {
        match scan(s, i, after_newline) {
            Scan::Skip { next, after_newline } => null_between_tokens(s, next, after_newline),
            Scan::Emit { next, after_newline, .. } => null_between_tokens(s, next, after_newline),
            Scan::Fail { .. } => false,
        }
    }
}

#[via_fn]
proof fn null_between_tokens_decreases(s: Seq<char>, i: int, after_newline: bool) {
    if 0 <= i < s.len() {
        lemma_scan_advances(s, i, after_newline);
    }
}

/// On a text without the null character the scan comes upon none.
pub proof fn lemma_null_free_has_no_null_between_tokens(
    s: Seq<char>,
    i: int,
    after_newline: bool,
)
    requires
        null_free(s),
    ensures
        !null_between_tokens(s, i, after_newline),
    decreases s.len() - i,
{
    if 0 <= i < s.len() {
        assert(s[i] != '\0');
        lemma_scan_advances(s, i, after_newline);
        match scan(s, i, after_newline) {
            Scan::Skip { next, after_newline: newline } => {
                lemma_null_free_has_no_null_between_tokens(s, next, newline);
            },
            Scan::Emit { token, next, after_newline: newline } => {
                lemma_null_free_has_no_null_between_tokens(s, next, newline);
            },
            Scan::Fail { .. } => {},
        }
    }
}

/// From every position, a scan that succeeds gives `EndOfFile` before its
/// last token exactly if it comes upon a null character between tokens.
pub proof fn lemma_lex_from_end_of_file_only_last(s: Seq<char>, i: int, after_newline: bool)
    requires
        lex_from(s, i, after_newline) is Ok,
    ensures
        end_of_file_only_last(lex_from(s, i, after_newline)->Ok_0) <==> !null_between_tokens(
            s,
            i,
            after_newline,
        ),
    decreases s.len() - i,
{
    if 0 <= i < s.len() {
        lemma_scan_advances(s, i, after_newline);
        match scan(s, i, after_newline) {
            Scan::Skip { next, after_newline: newline } => {
                assert(s[i] != '\0');
                lemma_lex_from_end_of_file_only_last(s, next, newline);
            },
            Scan::Emit { token, next, after_newline: newline } => {
                lemma_lex_from_end_of_file_only_last(s, next, newline);
                lemma_lex_from_ends_with_end_of_file(s, next, newline);
                let rest = lex_from(s, next, newline)->Ok_0;
                let all = lex_from(s, i, after_newline)->Ok_0;
                assert(all == seq![token] + rest);
                assert(token == end_of_file() <==> s[i] == '\0');
                if s[i] == '\0' {
                    assert(all[0] == end_of_file());
                } else {
                    if end_of_file_only_last(rest) {
                        assert forall|k: int| 0 <= k < all.len() - 1 implies #[trigger] all[k]
                            != end_of_file() by {
                            if k > 0 {
                                assert(all[k] == rest[k - 1]);
                            }
                        }
                    }
                    if end_of_file_only_last(all) {
                        assert forall|k: int| 0 <= k < rest.len() - 1 implies #[trigger] rest[k]
                            != end_of_file() by {
                            assert(all[k + 1] == rest[k]);
                        }
                    }
                }
            },
            Scan::Fail { .. } => {},
        }
    }
}

/// Every text that has tokens has `EndOfFile` as the last of them. No
/// other token is `EndOfFile`, unless the scan comes upon a null character
/// between tokens, which is itself read as an end-of-file marker; on a text
/// that holds no null character it never does.
pub proof fn lemma_end_of_file_last_and_once(s: Seq<char>)
    requires
        tokens_of(s) is Ok,
    ensures
        ends_with_end_of_file(tokens_of(s)->Ok_0),
        end_of_file_only_last(tokens_of(s)->Ok_0) <==> !null_between_tokens(s, 0, false),
        null_free(s) ==> end_of_file_only_last(tokens_of(s)->Ok_0),
{
    lemma_lex_from_ends_with_end_of_file(s, 0, false);
    lemma_lex_from_end_of_file_only_last(s, 0, false);
    if null_free(s) {
        lemma_null_free_has_no_null_between_tokens(s, 0, false);
    }
}

/// The characters from `i` to `i + n` are a run of line terminators: a
/// newline first, then newlines and carriage returns.
pub open spec fn newline_run(s: Seq<char>, i: int, n: int) -> bool {
    &&& 0 <= i
    &&& 1 <= n
    &&& i + n <= s.len()
    &&& s[i] == '\n'
    &&& forall|k: int| i <= k < i + n ==> #[trigger] s[k] == '\n' || s[k] == '\r'
}

/// Line terminators directly after a `NewLine` give no token.
pub proof fn lemma_terminators_after_newline_are_swallowed(s: Seq<char>, i: int, n: int)
    requires
        0 <= i,
        0 <= n,
        i + n <= s.len(),
        forall|k: int| i <= k < i + n ==> #[trigger] s[k] == '\n' || s[k] == '\r',
    ensures
        lex_from(s, i, true) == lex_from(s, i + n, true),
    decreases n,
{
    if n > 0 {
        assert(s[i] == '\n' || s[i] == '\r');
        lemma_terminators_after_newline_are_swallowed(s, i + 1, n - 1);
    }
}

/// A run of blank lines gives one `NewLine`, however long it is: the scan
/// from the run's start is that one token and then the scan from the run's
/// end, which takes up in the state "after a newline".
pub proof fn lemma_blank_lines_collapse(s: Seq<char>, i: int, n: int)
    requires
        newline_run(s, i, n),
    ensures
        lex_from(s, i, false) == prepend(seq![new_line()], lex_from(s, i + n, true)),
        lex_from(s, i, true) == lex_from(s, i + n, true),
{
    assert(s[i] == '\n');
    assert forall|k: int| i + 1 <= k < i + 1 + (n - 1) implies #[trigger] s[k] == '\n' || s[k]
        == '\r' by {}
    lemma_terminators_after_newline_are_swallowed(s, i + 1, n - 1);
    lemma_terminators_after_newline_are_swallowed(s, i, n);
}

/// The text holds only blanks and line terminators, and each carriage
/// return stands directly after another line terminator.
pub open spec fn blank_text(s: Seq<char>) -> bool {
    forall|i: int|
        0 <= i < s.len() ==> {
            ||| is_blank(#[trigger] s[i])
            ||| s[i] == '\n'
            ||| (s[i] == '\r' && i > 0 && (s[i - 1] == '\n' || s[i - 1] == '\r'))
        }
}

/// All tokens but the last are `NewLine`, and the last is `EndOfFile`.
pub open spec fn newlines_then_end_of_file(tokens: Seq<TokenView>) -> bool {
    &&& ends_with_end_of_file(tokens)
    &&& forall|k: int| 0 <= k < tokens.len() - 1 ==> #[trigger] tokens[k] == new_line()
}

/// The scan of a blank text from a position where a carriage return, if
/// one stands there, follows a line terminator.
proof fn lemma_lex_from_blank_text(s: Seq<char>, i: int, after_newline: bool)
    requires
        blank_text(s),
        0 <= i <= s.len(),
        i < s.len() && s[i] == '\r' ==> after_newline,
    ensures
        lex_from(s, i, after_newline) is Ok,
        newlines_then_end_of_file(lex_from(s, i, after_newline)->Ok_0),
    decreases s.len() - i,
{
    if i < s.len() {
        let c = s[i];
        assert(is_blank(c) || c == '\n' || c == '\r');
        if i + 1 < s.len() {
            assert(is_blank(s[i + 1]) || s[i + 1] == '\n' || (s[i + 1] == '\r' && (s[i] == '\n'
                || s[i] == '\r')));
        }
        match scan(s, i, after_newline) {
            Scan::Skip { next, after_newline: newline } => {
                lemma_lex_from_blank_text(s, next, newline);
            },
            Scan::Emit { token, next, after_newline: newline } => {
                assert(token == new_line());
                lemma_lex_from_blank_text(s, next, newline);
                let rest = lex_from(s, next, newline)->Ok_0;
                let all = lex_from(s, i, after_newline)->Ok_0;
                assert(all == seq![token] + rest);
                assert forall|k: int| 0 <= k < all.len() - 1 implies #[trigger] all[k]
                    == new_line() by {
                    if k > 0 {
                        assert(all[k] == rest[k - 1]);
                    }
                }
            },
            Scan::Fail { .. } => {},
        }
    }
}

/// A text of blanks and line terminators only has tokens, and they are
/// `NewLine` markers followed by `EndOfFile`: no token with content.
pub proof fn lemma_blank_text_gives_newlines_only(s: Seq<char>)
    requires
        blank_text(s),
    ensures
        tokens_of(s) is Ok,
        newlines_then_end_of_file(tokens_of(s)->Ok_0),
{
    if s.len() > 0 {
        assert(is_blank(s[0]) || s[0] == '\n' || (s[0] == '\r' && 0 > 0));
    }
    lemma_lex_from_blank_text(s, 0, false);
}

/// The text that writes `content` inside a string closed by `quote`: a
/// backslash goes in front of each backslash and each `quote`.
pub open spec fn escaped(content: Seq<char>, quote: char) -> Seq<char>
    decreases content.len(),
{
    if content.len() == 0 {
        Seq::empty()
    } else {
        let c = content[0];
        let head = if c == '\\' || c == quote {
            seq!['\\', c]
        } else {
            seq![c]
        };
        head + escaped(content.drop_first(), quote)
    }
}

/// Where the escaped form of `content` stands at `i` with `quote` after it,
/// the string body read from `i` is `content`, and it ends on that quote.
pub proof fn lemma_string_body_of_escaped(s: Seq<char>, i: int, content: Seq<char>, quote: char)
    requires
        0 <= i,
        i + escaped(content, quote).len() < s.len(),
        s.subrange(i, i + escaped(content, quote).len()) == escaped(content, quote),
        s[i + escaped(content, quote).len()] == quote,
        quote != '\\',
    ensures
        string_body(s, i, quote) == (StringScan {
            content,
            used: escaped(content, quote).len() + 1,
            closed: true,
        }),
    decreases content.len(),
{
    let text = escaped(content, quote);
    if content.len() == 0 {
        assert(string_body(s, i, quote).content =~= content);
    } else {
        let c = content[0];
        let tail = content.drop_first();
        let tail_text = escaped(tail, quote);
        if c == '\\' || c == quote {
            assert(text == seq!['\\', c] + tail_text);
            assert(text.len() == tail_text.len() + 2);
            assert(s[i] == s.subrange(i, i + text.len())[0]);
            assert(s[i + 1] == s.subrange(i, i + text.len())[1]);
            assert(s[i] == '\\' && s[i + 1] == c);
            assert(s.subrange(i + 2, i + 2 + tail_text.len()) =~= tail_text) by {
                assert forall|k: int| 0 <= k < tail_text.len() implies s[i + 2 + k]
                    == tail_text[k] by {
                    assert(s[i + 2 + k] == s.subrange(i, i + text.len())[k + 2]);
                }
            }
            lemma_string_body_of_escaped(s, i + 2, tail, quote);
            assert(seq![c] + tail =~= content);
        } else {
            assert(text == seq![c] + tail_text);
            assert(text.len() == tail_text.len() + 1);
            assert(s[i] == s.subrange(i, i + text.len())[0]);
            assert(s[i] == c);
            assert(s.subrange(i + 1, i + 1 + tail_text.len()) =~= tail_text) by {
                assert forall|k: int| 0 <= k < tail_text.len() implies s[i + 1 + k]
                    == tail_text[k] by {
                    assert(s[i + 1 + k] == s.subrange(i, i + text.len())[k + 1]);
                }
            }
            lemma_string_body_of_escaped(s, i + 1, tail, quote);
            assert(seq![c] + tail =~= content);
        }
    }
}

/// Wherever a quote is followed by the escaped form of `content` and the
/// same quote again, the scanner reads one string whose content is
/// `content`, and goes on after the closing quote.
pub proof fn lemma_escaped_string_scans_to_content(
    s: Seq<char>,
    i: int,
    content: Seq<char>,
    quote: char,
    after_newline: bool,
)
    requires
        is_quote(quote),
        0 <= i < s.len(),
        s[i] == quote,
        i + 1 + escaped(content, quote).len() < s.len(),
        s.subrange(i + 1, i + 1 + escaped(content, quote).len()) == escaped(content, quote),
        s[i + 1 + escaped(content, quote).len()] == quote,
    ensures
        scan(s, i, after_newline) == (Scan::Emit {
            token: TokenView::StringConstant(content),
            next: i + escaped(content, quote).len() + 2,
            after_newline: false,
        }),
{
    lemma_string_body_of_escaped(s, i + 1, content, quote);
}

/// Escaping and reading back gives the content again: the text made of a
/// quote, the escaped form of `content` and the same quote has exactly the
/// tokens `StringConstant(content)` and `EndOfFile`.
pub proof fn lemma_escape_round_trip(content: Seq<char>, quote: char)
    requires
        is_quote(quote),
    ensures
        tokens_of(seq![quote] + escaped(content, quote) + seq![quote]) == Ok::<
            Seq<TokenView>,
            TokenizerErrorView,
        >(seq![TokenView::StringConstant(content), end_of_file()]),
{
    let text = escaped(content, quote);
    let s = seq![quote] + text + seq![quote];
    assert(s.subrange(1, 1 + text.len() as int) =~= text);
    lemma_escaped_string_scans_to_content(s, 0, content, quote, false);
    assert(s.len() == text.len() + 2);
    assert(lex_from(s, s.len() as int, false) == Ok::<Seq<TokenView>, TokenizerErrorView>(
        seq![end_of_file()],
    ));
    assert(seq![TokenView::StringConstant(content)] + seq![end_of_file()] =~= seq![
        TokenView::StringConstant(content),
        end_of_file(),
    ]);
}

/// The text `s` from `i` on is the text `t` from `j` on.
pub open spec fn same_from(s: Seq<char>, i: int, t: Seq<char>, j: int) -> bool {
    &&& 0 <= i <= s.len()
    &&& 0 <= j <= t.len()
    &&& s.len() - i == t.len() - j
    &&& forall|k: int| i <= k < s.len() ==> #[trigger] s[k] == t[k - i + j]
}

/// The same scan, `by` characters further right.
pub open spec fn moved(step: Scan, by: int) -> Scan {
    match step {
        Scan::Skip { next, after_newline } => Scan::Skip { next: next + by, after_newline },
        Scan::Emit { token, next, after_newline } => Scan::Emit {
            token,
            next: next + by,
            after_newline,
        },
        Scan::Fail { error } => Scan::Fail { error },
    }
}

/// Where two texts are the same from some position on, so are their parts.
proof fn lemma_same_subrange(s: Seq<char>, i: int, t: Seq<char>, j: int, a: int, b: int)
    requires
        same_from(s, i, t, j),
        i <= a <= b <= s.len(),
    ensures
        s.subrange(a, b) == t.subrange(a - i + j, b - i + j),
{
    assert forall|k: int| 0 <= k < b - a implies s.subrange(a, b)[k] == t.subrange(
        a - i + j,
        b - i + j,
    )[k] by {
        assert(s[a + k] == t[a + k - i + j]);
    }
    assert(s.subrange(a, b) =~= t.subrange(a - i + j, b - i + j));
}

/// Where two texts are the same from some position on, the same run of word
/// characters starts there.
proof fn lemma_same_word_len(s: Seq<char>, i: int, t: Seq<char>, j: int)
    requires
        same_from(s, i, t, j),
    ensures
        word_len(s, i) == word_len(t, j),
    decreases s.len() - i,
{
    if i < s.len() {
        assert(s[i] == t[j]);
        lemma_same_word_len(s, i + 1, t, j + 1);
    }
}

/// Where two texts are the same from some position on, the same run of
/// digits starts there.
proof fn lemma_same_digits_len(s: Seq<char>, i: int, t: Seq<char>, j: int)
    requires
        same_from(s, i, t, j),
    ensures
        digits_len(s, i) == digits_len(t, j),
    decreases s.len() - i,
{
    if i < s.len() {
        assert(s[i] == t[j]);
        lemma_same_digits_len(s, i + 1, t, j + 1);
    }
}

/// Where two texts are the same from some position on, the next `c` is as
/// far away in both.
proof fn lemma_same_distance_to(s: Seq<char>, i: int, t: Seq<char>, j: int, c: char)
    requires
        same_from(s, i, t, j),
    ensures
        distance_to(s, i, c) == distance_to(t, j, c),
    decreases s.len() - i,
{
    if i < s.len() {
        assert(s[i] == t[j]);
        lemma_same_distance_to(s, i + 1, t, j + 1, c);
    }
}

/// Where two texts are the same from some position on, the next `*/` is as
/// far away in both.
proof fn lemma_same_block_body_len(s: Seq<char>, i: int, t: Seq<char>, j: int)
    requires
        same_from(s, i, t, j),
    ensures
        block_body_len(s, i) == block_body_len(t, j),
    decreases s.len() - i,
{
    if i < s.len() {
        assert(s[i] == t[j]);
        if i + 1 < s.len() {
            assert(s[i + 1] == t[j + 1]);
        }
        lemma_same_block_body_len(s, i + 1, t, j + 1);
    }
}

/// Where two texts are the same from some position on, the same string
/// body is read there.
proof fn lemma_same_string_body(s: Seq<char>, i: int, t: Seq<char>, j: int, quote: char)
    requires
        same_from(s, i, t, j),
    ensures
        string_body(s, i, quote) == string_body(t, j, quote),
    decreases s.len() - i,
{
    if i < s.len() {
        assert(s[i] == t[j]);
        if s[i] == '\\' {
            if i + 1 < s.len() {
                assert(s[i + 1] == t[j + 1]);
                lemma_same_string_body(s, i + 2, t, j + 2, quote);
            }
        } else if s[i] != quote {
            lemma_same_string_body(s, i + 1, t, j + 1, quote);
        }
    }
}

/// What the scanner does at a position depends only on the text from that
/// position on.
pub proof fn lemma_scan_is_local(s: Seq<char>, i: int, t: Seq<char>, j: int, after_newline: bool)
    requires
        same_from(s, i, t, j),
        i < s.len(),
    ensures
        scan(t, j, after_newline) == moved(scan(s, i, after_newline), j - i),
{
    let len = s.len() as int;
    assert(s[i] == t[j]);
    if i + 1 < len {
        assert(s[i + 1] == t[j + 1]);
    }
    assert(peek(s, i + 1) == peek(t, j + 1));
    lemma_same_word_len(s, i + 1, t, j + 1);
    lemma_word_len_bound(s, i + 1);
    lemma_same_subrange(s, i, t, j, i, i + 1 + word_len(s, i + 1));
    lemma_same_digits_len(s, i + 1, t, j + 1);
    lemma_digits_len_bound(s, i + 1);
    let end = i + 1 + digits_len(s, i + 1);
    lemma_same_subrange(s, i, t, j, i, end);
    if end < len {
        assert(s[end] == t[end - i + j]);
        lemma_same_digits_len(s, end + 1, t, end + 1 - i + j);
        lemma_digits_len_bound(s, end + 1);
        lemma_same_subrange(s, i, t, j, i, end + 1 + digits_len(s, end + 1));
    }
    assert(peek(s, end) == peek(t, end - i + j));
    lemma_same_distance_to(s, i + 1, t, j + 1, '\n');
    lemma_distance_to_bound(s, i + 1, '\n');
    lemma_same_subrange(s, i, t, j, i, i + 1 + distance_to(s, i + 1, '\n'));
    lemma_same_distance_to(s, i + 1, t, j + 1, '"');
    lemma_distance_to_bound(s, i + 1, '"');
    lemma_same_subrange(s, i, t, j, i + 1, i + 1 + distance_to(s, i + 1, '"'));
    lemma_same_subrange(s, i, t, j, i + 1, len);
    lemma_same_block_body_len(s, i + 1, t, j + 1);
    lemma_block_body_len_bound(s, i + 1);
    let close = i + 1 + block_body_len(s, i + 1);
    if close < len {
        lemma_same_subrange(s, i, t, j, i, close + 2);
    }
    lemma_same_subrange(s, i, t, j, i, len);
    lemma_same_string_body(s, i + 1, t, j + 1, s[i]);
}

/// The tokens from a position on depend only on the text from that
/// position on.
pub proof fn lemma_lex_from_is_local(
    s: Seq<char>,
    i: int,
    t: Seq<char>,
    j: int,
    after_newline: bool,
)
    requires
        same_from(s, i, t, j),
    ensures
        lex_from(t, j, after_newline) == lex_from(s, i, after_newline),
    decreases s.len() - i,
{
    if i < s.len() {
        lemma_scan_is_local(s, i, t, j, after_newline);
        lemma_scan_advances(s, i, after_newline);
        match scan(s, i, after_newline) {
            Scan::Skip { next, after_newline: newline } => {
                lemma_lex_from_is_local(s, next, t, next - i + j, newline);
            },
            Scan::Emit { token, next, after_newline: newline } => {
                lemma_lex_from_is_local(s, next, t, next - i + j, newline);
            },
            Scan::Fail { .. } => {},
        }
    }
}

/// A run of `n` newlines.
pub open spec fn newlines(n: nat) -> Seq<char> {
    Seq::new(n, |k: int| '\n')
}

/// However many blank lines a text starts with, its tokens are those of
/// the text that starts with one: the run gives one `NewLine`, not one for
/// each line.
pub proof fn lemma_leading_blank_lines_count_once(n: nat, rest: Seq<char>)
    requires
        n >= 1,
    ensures
        tokens_of(newlines(n) + rest) == tokens_of(newlines(1) + rest),
        tokens_of(newlines(n) + rest) == prepend(
            seq![new_line()],
            lex_from(newlines(n) + rest, n as int, true),
        ),
{
    let many = newlines(n) + rest;
    let one = newlines(1) + rest;
    assert(newline_run(many, 0, n as int));
    assert(newline_run(one, 0, 1));
    lemma_blank_lines_collapse(many, 0, n as int);
    lemma_blank_lines_collapse(one, 0, 1);
    assert(same_from(many, n as int, one, 1));
    lemma_lex_from_is_local(many, n as int, one, 1, true);
}

} // verus!
