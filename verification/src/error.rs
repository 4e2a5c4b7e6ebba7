use vstd::prelude::*;

verus! {

/// Why a compilation stopped. Every fault ends the whole compilation: nothing
/// is skipped and no partial module is handed out.
#[derive(Clone, Copy, Debug, PartialEq, Eq, Structural)]
pub enum PlatError {
    /// The source text holds a malformed token.
    LexError,
    /// The tokens do not follow the grammar.
    GrammarError,
    /// A name is used that the enclosing function does not declare.
    UnresolvedSymbol,
    /// A value does not have the type that its place asks for.
    TypeMismatch,
    /// An expression form for which no code can be generated yet.
    Unimplemented,
    /// A count or a length does not fit the single byte that holds it.
    CapacityExceeded,
}

} // verus!
