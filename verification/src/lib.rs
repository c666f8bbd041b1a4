//! A lexer for a small toy language: it turns source text into a flat
//! sequence of tokens, and every function states and proves what it returns.
//!
//! [`grammar`] says, as a mathematical function, which tokens a text has;
//! [`tokenizer`] holds the scanner, proved to compute exactly that; and
//! [`laws`] proves what holds of the grammar on every text.

pub mod error;
pub mod grammar;
pub mod laws;
pub mod numbers;
pub mod rules;
pub mod text;
pub mod tokenizer;
pub mod tokens;

pub use error::{CrateError, CrateErrorView};
pub use rules::is_valid_identifier;
pub use text::into_chars;
pub use tokenizer::{Tokenizer, TokenizerError, TokenizerErrorView};
pub use tokens::{
    is_operator, Keyword, Operator, Paren, ParenKind, ParenType, Symbol, Token, TokenView,
};
