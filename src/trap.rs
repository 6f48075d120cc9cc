use vstd::prelude::*;

verus! {

/// Run-time failures: each one stops the run of the engine.
#[derive(Debug, Clone, Copy, PartialEq, Eq, Structural)]
pub enum Trap {
    /// An instruction needed more stack elements than were present.
    StackUnderflow,
    /// `Divide` with a zero divisor.
    DivisionByZero,
    /// A fetch at an index that is not inside the program.
    InvalidInstructionPointer,
    IllegalOperation,
    /// An instruction reached execution without a usable operand.
    IllegalOperand,
}

} // verus!
