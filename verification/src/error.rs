use crate::text::prefixed;
use crate::tokenizer::TokenizerError;
use crate::tokenizer::TokenizerErrorView;
use crate::tokenizer::message_of;
use vstd::prelude::*;
use vstd::std_specs::convert::FromSpecImpl;
use vstd::string::*;

verus! {

/// Declares `std::io::Error` so that it can be carried through the library.
/// Nothing is claimed of what such a value holds.
#[verifier::external_type_specification]
#[verifier::external_body]
pub struct ExIoError(std::io::Error);

/// Everything that can go wrong between a source file and its tokens.
#[derive(Debug)]
pub enum CrateError {
    /// The caller could not read the source.
    IoError(std::io::Error),
    /// The source was read and is not lexically well formed.
    TokenizerError(TokenizerError),
}

/// The mathematical content of a [`CrateError`].
pub enum CrateErrorView {
    Io,
    Tokenizer(TokenizerErrorView),
}

impl View for CrateError {
    type V = CrateErrorView;

    open spec fn view(&self) -> CrateErrorView {
        match self {
            CrateError::IoError(_) => CrateErrorView::Io,
            CrateError::TokenizerError(e) => CrateErrorView::Tokenizer(e@),
        }
    }
}

impl From<std::io::Error> for CrateError {
    fn from(e: std::io::Error) -> (r: CrateError) {
        CrateError::IoError(e)
    }
}

impl FromSpecImpl<std::io::Error> for CrateError {
    open spec fn obeys_from_spec() -> bool {
        true
    }

    open spec fn from_spec(e: std::io::Error) -> CrateError {
        CrateError::IoError(e)
    }
}

/// What std's `Display` writes of an I/O error. It may depend on the
/// machine, so nothing is claimed of it.
#[verifier::external_body]
fn io_error_text(e: &std::io::Error) -> (r: String) {
    e.to_string()
}

/// What is said of an I/O error, given what the system says of it.
pub fn io_error_message(detail: &str) -> (r: String)
    ensures
        r@ == "IO Error: "@ + detail@,
{
    prefixed("IO Error: ", detail)
}

impl CrateError {
    /// The error in words, for the user: where the source could not be
    /// read, `IO Error: ` and what the system says of it; else
    /// `Tokenizer Error: ` and what the lexer says.
    pub fn message(&self) -> (r: String)
        ensures
            match self@ {
                CrateErrorView::Io => exists|detail: Seq<char>| r@ == "IO Error: "@ + detail,
                CrateErrorView::Tokenizer(e) => r@ == "Tokenizer Error: "@ + message_of(e),
            },
    {
        match self {
            CrateError::IoError(e) => {
                let detail = io_error_text(e);
                let r = io_error_message(detail.as_str());
                assert(r@ == "IO Error: "@ + detail@);
                r
            },
            CrateError::TokenizerError(e) => {
                let inner = e.message();
                prefixed("Tokenizer Error: ", inner.as_str())
            },
        }
    }
}

} // verus!
