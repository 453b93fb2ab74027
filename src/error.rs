use vstd::prelude::*;

verus! {

/// What can go wrong while resolving a symbol or reading a command.
#[derive(Debug, Clone, Copy, PartialEq, Eq, Structural)]
pub enum TranslationError {
    /// The name is not in the symbol table.
    UnknownSymbol,
    /// The keyword or the numeric operand of a command does not fit the grammar,
    /// or there is no current command.
    MalformedCommand,
    /// An operand was asked of a command that does not carry it.
    InvalidOperandAccess,
}

} // verus!
