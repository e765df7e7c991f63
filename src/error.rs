use vstd::prelude::*;

verus! {

/// Why assembly stopped. Each of these ends the run at the first line that
/// raises it.
#[derive(Debug, Clone, Copy, PartialEq, Eq, Structural)]
pub enum AsmError {
    /// The mnemonic is not in the instruction catalog.
    UnknownMnemonic,
    /// A register operand is neither a number nor a register name.
    UnknownRegister,
    /// A label reference names no label that the source defines.
    UnknownLabel,
    /// An operand has the wrong count or shape, or a number does not fit its field.
    MalformedOperand,
}

/// An error together with the 1-based number of the source line that raised it.
#[derive(Debug, Clone, Copy, PartialEq, Eq, Structural)]
pub struct LineError {
    pub line: usize,
    pub error: AsmError,
}

} // verus!
