use vstd::prelude::*;

verus! {

/// Errors reported while a program source is being loaded.
#[derive(Debug, Clone, Copy, PartialEq, Eq, Structural)]
pub enum UVMError {
    StackUnderflow,
    DivisionByZero,
    InvalidInstructionPointer,
    /// Unknown or malformed opcode, wrong field count or wrong arity.
    IllegalOperation,
    /// An operand that is not a valid signed 64-bit integer.
    IllegalOperand,
}

} // verus!
