use crate::error::CrateError;
use crate::error::CrateErrorView;
use crate::text::chars_of;
use crate::tokenizer::TokenizerError;
use crate::tokenizer::TokenizerErrorView;
use vstd::prelude::*;
use vstd::std_specs::convert::TryFromSpecImpl;

verus! {

/// A reserved word, held as its spelling.
#[derive(Debug, Clone, PartialEq, Eq)]
pub struct Keyword(pub String);

/// The reserved words are `fn` and `let`.
pub open spec fn is_keyword(s: Seq<char>) -> bool {
    s == seq!['f', 'n'] || s == seq!['l', 'e', 't']
}

/// Whether `chars[from..to]` spells a reserved word.
pub(crate) fn keyword_in(chars: &Vec<char>, from: usize, to: usize) -> (r: bool)
    requires
        from <= to <= chars@.len(),
    ensures
        r == is_keyword(chars@.subrange(from as int, to as int)),
{
    let ghost word = chars@.subrange(from as int, to as int);
    let ghost kw_fn = seq!['f', 'n'];
    let ghost kw_let = seq!['l', 'e', 't'];
    assert(kw_fn.len() == 2 && kw_fn[0] == 'f' && kw_fn[1] == 'n');
    assert(kw_let.len() == 3 && kw_let[0] == 'l' && kw_let[1] == 'e' && kw_let[2] == 't');
    if to - from == 2 {
        let r = chars[from] == 'f' && chars[from + 1] == 'n';
        assert(r ==> word =~= kw_fn);
        assert(!r ==> word[0] != kw_fn[0] || word[1] != kw_fn[1]);
        r
    } else if to - from == 3 {
        let r = chars[from] == 'l' && chars[from + 1] == 'e' && chars[from + 2] == 't';
        assert(r ==> word =~= kw_let);
        assert(!r ==> word[0] != kw_let[0] || word[1] != kw_let[1] || word[2] != kw_let[2]);
        r
    } else {
        false
    }
}

impl TryFrom<&str> for Keyword {
    type Error = CrateError;

    /// Succeeds exactly on the reserved words, with the word as it is
    /// spelled; any other text comes back in `InvalidKeyword`.
    fn try_from(s: &str) -> (r: Result<Keyword, CrateError>)
        ensures
            match r {
                Ok(k) => is_keyword(s@) && k.0@ == s@,
                Err(e) => !is_keyword(s@) && e@ == CrateErrorView::Tokenizer(
                    TokenizerErrorView::InvalidKeyword(s@),
                ),
            },
    {
        let chars = chars_of(s);
        assert(chars@.subrange(0, chars@.len() as int) =~= chars@);
        if keyword_in(&chars, 0, chars.len()) {
            Ok(Keyword(s.to_owned()))
        } else {
            Err(CrateError::TokenizerError(TokenizerError::InvalidKeyword(s.to_owned())))
        }
    }
}

impl TryFromSpecImpl<&str> for Keyword {
    /// A keyword holds a `String`, which ghost code cannot build: what
    /// `try_from` returns is stated in its own contract, over views.
    open spec fn obeys_try_from_spec() -> bool {
        false
    }

    open spec fn try_from_spec(s: &str) -> Result<Keyword, CrateError> {
        arbitrary()
    }
}

} // verus!
