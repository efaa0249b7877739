//! A verified two-pass assembler for the Hack 16-bit platform.
//!
//! The assembler turns symbolic assembly text (address instructions,
//! computation instructions, label declarations) into an ordered sequence
//! of 16-character binary strings, one per non-label instruction.

pub mod scan;
pub mod encode;
pub mod tables;
pub mod instr;
pub mod parse;
pub mod symtab;
pub mod assembler;
pub mod laws;

pub use crate::assembler::HackAssembler;
pub use crate::instr::AsmError;
pub use crate::instr::AsmErrorKind;
