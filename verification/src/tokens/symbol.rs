use vstd::prelude::*;

verus! {

/// A structural marker of the token stream. It carries no payload.
#[derive(Debug, Clone, Copy, PartialEq, Eq, Structural)]
pub enum Symbol {
    Semicolon,
    NewLine,
    EndOfFile,
}

} // verus!
