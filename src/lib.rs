//! An assembler for a small line-oriented assembly language of a 16-bit
//! register machine: comment stripping, labels, macros with positional
//! parameters, and a per-class bit-layout encoder.

pub mod instruction;
pub mod laws;
pub mod number;
pub mod opcode;
pub mod parser;
pub mod text;

pub use instruction::{EncodeError, Instruction};
pub use opcode::InstructionClass;
pub use parser::{assemble, AsmError, AsmParser, Macro};
