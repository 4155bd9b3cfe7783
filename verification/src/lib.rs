//! A tiny instructional toolchain: two line-oriented lowering passes that turn
//! symbolic mnemonics with named jump targets into a linear instruction stream,
//! and a bit-precise execution engine that interprets that stream over three
//! memory banks of variable-width unsigned binary values.
//!
//! Every operation is specified against a mathematical model. A bank slot is
//! a bit sequence with a high-water-mark width ([`bits`]); a program line is
//! a sequence of whitespace-separated tokens ([`text`]) that decodes to an
//! instruction ([`parse`]); the engine's state is the ghost record
//! `device::MState`, one instruction is `device::spec_step`, and a whole run
//! is `device::spec_run`. The lowering passes ([`assembler`], [`compiler`])
//! are specified line by line over the label map of [`labels`].

pub mod assembler;
pub mod bits;
pub mod compiler;
pub mod device;
pub mod error;
pub mod labels;
pub mod parse;
pub mod text;

pub use assembler::Assembler;
pub use bits::Variable;
pub use compiler::Compiler;
pub use device::{Device, DeviceState, Flags};
pub use error::MachineError;
