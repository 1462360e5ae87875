use vstd::prelude::*;

verus! {

/// The flat error taxonomy of the assembler. Every error aborts assembly of
/// the whole document; none carries further context.
#[derive(Clone, Copy, Debug, PartialEq, Eq, Structural)]
pub enum AssemblerError {
    /// Reserved for a validation pass that the current pipeline does not run.
    IncorrectInstructionPass,
    /// A line matches no recognized pattern at its start, or carries trailing
    /// non-comment text after an otherwise valid match.
    InvalidSyntaxError,
    /// An operand names a register letter outside the fixed eight-letter set.
    InvalidRegisterError,
    /// A mnemonic is not in the opcode table of its matched shape.
    InvalidInstructionError,
    /// A scaled-memory operand's scale prefix is neither `2` nor `4`.
    InvalidScalarError,
    /// A numeric literal does not fit the native unsigned integer width,
    /// or is not a well-formed number.
    LiteralOverflowError,
    /// A quoted string literal cannot be unescaped.
    InvalidStringError,
}

} // verus!
