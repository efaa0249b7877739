//! Instruction values, error values, and their mathematical models.

use vstd::prelude::*;

verus! {

/// The kind of a fault that aborts an assembly run.
#[derive(Clone, Copy, Debug, PartialEq, Eq, Structural)]
pub enum AsmErrorKind {
    /// A label declaration without its closing parenthesis.
    MalformedLabel,
    /// A destination mnemonic absent from the destination table.
    UnknownDestination,
    /// A computation mnemonic absent from the computation table.
    UnknownComputation,
    /// A jump mnemonic absent from the jump table.
    UnknownJump,
    /// A computation instruction with an empty computation field.
    /// Any character that cannot begin an instruction flows into the
    /// computation parser and surfaces here or as an unknown mnemonic.
    EmptyComputation,
    /// A numeric address operand, or a resolved symbol address, outside
    /// the 15-bit addressable range.
    AddressOutOfRange,
}

/// A fault, with the offending token (possibly empty).
#[derive(Debug)]
pub struct AsmError {
    pub kind: AsmErrorKind,
    pub token: String,
}

/// The mathematical model of a fault.
pub struct SpecErr {
    pub kind: AsmErrorKind,
    pub token: Seq<char>,
}

/// The model of one structured instruction.
pub enum SpecInstr {
    /// An address instruction with a literal operand, already checked
    /// against the 15-bit range.
    Constant(u16),
    /// An address instruction with a symbolic operand; resolution is
    /// deferred to the second pass.
    Var(Seq<char>),
    /// A label declaration; contributes no output instruction.
    Label(Seq<char>),
    /// A computation instruction: computation, destination and jump
    /// codes, already encoded.
    Compute(u8, u8, u8),
}

/// One structured instruction, as produced by the classifier.
pub enum Instruction {
    Constant(u16),
    AddressVariable(Vec<char>),
    Label(Vec<char>),
    Compute(u8, u8, u8),
}

impl View for Instruction {
    type V = SpecInstr;

    open spec fn view(&self) -> SpecInstr {
        match self {
            Instruction::Constant(w) => SpecInstr::Constant(*w),
            Instruction::AddressVariable(n) => SpecInstr::Var(n@),
            Instruction::Label(n) => SpecInstr::Label(n@),
            Instruction::Compute(c, d, j) => SpecInstr::Compute(*c, *d, *j),
        }
    }
}

/// A structured instruction is well formed when its numeric payloads
/// fit the widths the encoding needs.
pub open spec fn wf_instr(i: SpecInstr) -> bool {
    match i {
        SpecInstr::Constant(w) => w < 32768,
        SpecInstr::Compute(c, d, j) => c < 128 && d < 8 && j < 8,
        _ => true,
    }
}

/// What one step of the instruction classifier yields.
pub enum SpecStep {
    /// End of input: no more instructions.
    Done,
    /// One instruction, and the position just after it.
    Next(SpecInstr, int),
    /// A fault.
    Fail(SpecErr),
}

} // verus!
