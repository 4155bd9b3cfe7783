//! The failure taxonomy shared by the lowering passes and the execution
//! engine. Every malformed program is surfaced to the caller as one of these
//! typed errors; the core never panics and never retries.

use vstd::prelude::*;

verus! {

/// A fatal fault detected while lowering or executing a program.
#[derive(Clone, Copy, Debug, PartialEq, Eq, Structural)]
pub enum MachineError {
    /// An unrecognized mnemonic or a malformed operand.
    Syntax,
    /// A jump referencing a label that was never declared.
    UnresolvedLabel,
    /// A bank index beyond the bank's current length, or an instruction
    /// pointer past the end of the program.
    OutOfRange,
    /// A value outside an operation's domain: a non-0/1 operand to binary
    /// arithmetic, an arithmetic result that no 32-bit value can hold, a
    /// shift amount of 32 or more, or an invalid condition code.
    Domain,
    /// A write to the input bank outside the Input phase, or to the variable
    /// or bit banks outside the Execution phase.
    PhaseViolation,
    /// The execution engine exhausted the step budget it was given before
    /// reaching a terminal instruction.
    StepLimit,
}

impl MachineError {
    /// A short human-readable account of the fault.
    pub fn message(&self) -> (r: &'static str)
        ensures
            r@ == match self {
                MachineError::Syntax => "unrecognized mnemonic or malformed operand"@,
                MachineError::UnresolvedLabel => "jump to an undeclared label"@,
                MachineError::OutOfRange => "bank index or instruction pointer out of range"@,
                MachineError::Domain => "operand or result outside the operation's domain"@,
                MachineError::PhaseViolation => "memory bank written outside its permitted phase"@,
                MachineError::StepLimit => "step budget exhausted before the program ended"@,
            },
    {
        match self {
            MachineError::Syntax => "unrecognized mnemonic or malformed operand",
            MachineError::UnresolvedLabel => "jump to an undeclared label",
            MachineError::OutOfRange => "bank index or instruction pointer out of range",
            MachineError::Domain => "operand or result outside the operation's domain",
            MachineError::PhaseViolation => "memory bank written outside its permitted phase",
            MachineError::StepLimit => "step budget exhausted before the program ended",
        }
    }
}

} // verus!
