//! A minimal stack-based virtual machine: a line-oriented program loader and
//! a fetch-decode-execute engine over a stack of signed 64-bit integers.

mod error;
pub mod instruction;
pub mod laws;
pub mod loader;
pub mod text;
mod trap;
pub mod uvm;

pub use error::UVMError;
pub use instruction::{Instruction, InstructionType, Integer};
pub use loader::parse_program;
pub use trap::Trap;
pub use uvm::UVM;
