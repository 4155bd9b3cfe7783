//! The execution engine: three memory banks of variable-width values, a
//! four-flag register, a phase state machine gating which bank may be
//! written, and the fetch/decode/execute loop over a loaded instruction
//! stream.

use crate::bits::{min_width, seq_val, Variable};
use crate::error::MachineError;
use crate::parse::{
    parse_cond, parse_instruction, parse_operand, spec_cond, spec_operand, spec_parse_instr, Cond,
    Instr, Operand,
};
use crate::text::{filter_comment_lines, parse_dec_u32, spec_filter_comments, spec_parse_dec};
use vstd::prelude::*;
use vstd::string::StrSliceExecFns;

verus! {

/// The device's permission mode: writes to the input bank are allowed only
/// in the Input phase, writes to the variable and bit banks only in the
/// Execution phase.
#[derive(Clone, Copy, Debug, PartialEq, Eq, Structural)]
pub enum DeviceState {
    IdlePhase,
    InputPhase,
    ExecutionPhase,
}

/// The four-flag register: Equal, Greater, Carry, Underflow.
#[derive(Clone, Copy, Debug, PartialEq, Eq, Structural)]
pub struct Flags {
    pub equal: bool,
    pub greater: bool,
    pub carry: bool,
    pub underflow: bool,
}

/// The abstract content of one bank slot: its value and its high-water-mark
/// width.
#[verifier::ext_equal]
pub ghost struct Slot {
    pub value: u32,
    pub mark: nat,
}

/// The abstract state of the device: the three banks, the flag register,
/// the instruction pointer, the running flag, the phase, and whether any
/// input was ever loaded. The loaded program is not part of this state; it
/// is read-only during execution.
#[verifier::ext_equal]
pub ghost struct MState {
    pub vars: Seq<Slot>,
    pub bits: Seq<Slot>,
    pub inputs: Seq<Slot>,
    pub flags: Flags,
    pub ip: nat,
    pub running: bool,
    pub phase: DeviceState,
    pub has_input: bool,
}

// ---------------------------------------------------------------------------
// Abstract bank operations
// ---------------------------------------------------------------------------
/// Reading a bank: defined for indexes below the bank's length.
pub open spec fn bank_read(bank: Seq<Slot>, i: nat) -> Result<u32, MachineError> {
    if i < bank.len() {
        Ok(bank[i as int].value)
    } else {
        Err(MachineError::OutOfRange)
    }
}

/// Writing a bank: overwriting an existing slot raises its high-water mark
/// to the new width if larger; writing at the bank's length appends a fresh
/// slot; writing beyond it is invalid.
pub open spec fn bank_write(bank: Seq<Slot>, i: nat, v: u32) -> Result<Seq<Slot>, MachineError> {
    if i < bank.len() {
        Ok(
            bank.update(
                i as int,
                Slot {
                    value: v,
                    mark: if min_width(v as nat) > bank[i as int].mark {
                        min_width(v as nat)
                    } else {
                        bank[i as int].mark
                    },
                },
            ),
        )
    } else if i == bank.len() {
        Ok(bank.push(Slot { value: v, mark: min_width(v as nat) }))
    } else {
        Err(MachineError::OutOfRange)
    }
}

/// Reading an operand against a device state.
pub open spec fn spec_read(m: MState, op: Operand) -> Result<u32, MachineError> {
    match op {
        Operand::Var(i) => bank_read(m.vars, i as nat),
        Operand::Bit(i) => bank_read(m.bits, i as nat),
        Operand::Input(i) => bank_read(m.inputs, i as nat),
        Operand::Imm(v) => Ok(v),
    }
}

/// Writing a destination operand against a device state: the destination
/// must be a bank reference, the phase must permit the bank, and a bit-bank
/// slot only takes 0 or 1.
pub open spec fn spec_write(m: MState, op: Operand, v: u32) -> Result<MState, MachineError> {
    match op {
        Operand::Var(i) => if m.phase != DeviceState::ExecutionPhase {
            Err(MachineError::PhaseViolation)
        } else {
            match bank_write(m.vars, i as nat, v) {
                Ok(b) => Ok(MState { vars: b, ..m }),
                Err(e) => Err(e),
            }
        },
        Operand::Bit(i) => if m.phase != DeviceState::ExecutionPhase {
            Err(MachineError::PhaseViolation)
        } else if v > 1 {
            Err(MachineError::Domain)
        } else {
            match bank_write(m.bits, i as nat, v) {
                Ok(b) => Ok(MState { bits: b, ..m }),
                Err(e) => Err(e),
            }
        },
        Operand::Input(i) => if m.phase != DeviceState::InputPhase {
            Err(MachineError::PhaseViolation)
        } else {
            match bank_write(m.inputs, i as nat, v) {
                Ok(b) => Ok(MState { inputs: b, ..m }),
                Err(e) => Err(e),
            }
        },
        Operand::Imm(_) => Err(MachineError::Syntax),
    }
}

/// Whether a condition code holds of the flag register.
pub open spec fn flow_holds(f: Flags, c: Cond) -> bool {
    match c {
        Cond::Equal => f.equal,
        Cond::NotEqual => !f.equal,
        Cond::Greater => f.greater,
        Cond::GreaterOrEqual => f.equal || f.greater,
        Cond::Less => !f.greater && !f.equal,
        Cond::LessOrEqual => !f.greater,
        Cond::Carry => f.carry,
        Cond::NoCarry => !f.carry,
        Cond::Underflow => f.underflow,
        Cond::NoUnderflow => !f.underflow,
        Cond::Always => true,
    }
}

/// The sum of the high-water marks of a bank's slots.
pub open spec fn marks_sum(bank: Seq<Slot>) -> nat
    decreases bank.len(),
{
    if bank.len() == 0 {
        0
    } else {
        marks_sum(bank.drop_last()) + bank.last().mark
    }
}

// ---------------------------------------------------------------------------
// The device
// ---------------------------------------------------------------------------
/// The execution engine. The caller loads a program once, optionally loads
/// inputs through the Input phase, and runs; the engine is the sole mutator
/// of its banks, flags, phase, and instruction pointer.
pub struct Device {
    pub write_variables: Vec<Variable>,
    pub write_bits: Vec<Variable>,
    pub input_variables: Vec<Variable>,
    pub flags: Flags,
    pub program_lines: Vec<String>,
    pub program_running: bool,
    pub instruction_pointer: usize,
    pub has_loaded_input: bool,
    pub device_state: DeviceState,
}

/// The abstract content of a bank.
pub open spec fn bank_model(bank: Seq<Variable>) -> Seq<Slot> {
    Seq::new(
        bank.len(),
        |i: int| Slot { value: seq_val(bank[i].bits()) as u32, mark: bank[i].max_size as nat },
    )
}

/// Every slot of the bank is well-formed.
pub open spec fn bank_wf(bank: Seq<Variable>) -> bool {
    forall|i: int| 0 <= i < bank.len() ==> (#[trigger] bank[i]).wf()
}

impl Device {
    /// Well-formed: every slot of every bank is well-formed.
    pub open spec fn wf(&self) -> bool {
        &&& bank_wf(self.write_variables@)
        &&& bank_wf(self.write_bits@)
        &&& bank_wf(self.input_variables@)
    }

    /// The abstract state of the device.
    pub open spec fn model(&self) -> MState {
        MState {
            vars: bank_model(self.write_variables@),
            bits: bank_model(self.write_bits@),
            inputs: bank_model(self.input_variables@),
            flags: self.flags,
            ip: self.instruction_pointer as nat,
            running: self.program_running,
            phase: self.device_state,
            has_input: self.has_loaded_input,
        }
    }

    /// A fresh device: empty banks, clear flags, no program, Idle phase.
    pub fn new() -> (r: Self)
        ensures
            r.wf(),
            r.model() == (MState {
                vars: Seq::<Slot>::empty(),
                bits: Seq::<Slot>::empty(),
                inputs: Seq::<Slot>::empty(),
                flags: Flags { equal: false, greater: false, carry: false, underflow: false },
                ip: 0,
                running: false,
                phase: DeviceState::IdlePhase,
                has_input: false,
            }),
            r.program_lines@ =~= Seq::<String>::empty(),
    {
        let r = Self {
            write_variables: Vec::<Variable>::new(),
            write_bits: Vec::<Variable>::new(),
            input_variables: Vec::<Variable>::new(),
            flags: Flags { equal: false, greater: false, carry: false, underflow: false },
            program_lines: Vec::new(),
            program_running: false,
            instruction_pointer: 0,
            has_loaded_input: false,
            device_state: DeviceState::IdlePhase,
        };
        proof {
            assert(bank_model(r.write_variables@) =~= Seq::<Slot>::empty());
            assert(bank_model(r.write_bits@) =~= Seq::<Slot>::empty());
            assert(bank_model(r.input_variables@) =~= Seq::<Slot>::empty());
        }
        r
    }

    /// Read one operand from the device.
    fn read_operand(&self, op: Operand) -> (r: Result<u32, MachineError>)
        requires
            self.wf(),
        ensures
            r == spec_read(self.model(), op),
    {
        match op {
            Operand::Var(i) => {
                let idx = i as usize;
                if idx < self.write_variables.len() {
                    Ok(self.write_variables[idx].get_value())
                } else {
                    Err(MachineError::OutOfRange)
                }
            },
            Operand::Bit(i) => {
                let idx = i as usize;
                if idx < self.write_bits.len() {
                    Ok(self.write_bits[idx].get_value())
                } else {
                    Err(MachineError::OutOfRange)
                }
            },
            Operand::Input(i) => {
                let idx = i as usize;
                if idx < self.input_variables.len() {
                    Ok(self.input_variables[idx].get_value())
                } else {
                    Err(MachineError::OutOfRange)
                }
            },
            Operand::Imm(v) => Ok(v),
        }
    }

    /// Resolve an operand string and read it, as `value(x)` does: a `v`,
    /// `b` or `i` prefix names a bank slot, `0x` a hexadecimal literal,
    /// anything else a decimal literal.
    pub fn get_source_value(&self, operand: &str) -> (r: Result<u32, MachineError>)
        requires
            self.wf(),
        ensures
            r == match spec_operand(operand@) {
                Some(op) => spec_read(self.model(), op),
                None => Err::<u32, MachineError>(MachineError::Syntax),
            },
    {
        match parse_operand(operand) {
            Some(op) => self.read_operand(op),
            None => Err(MachineError::Syntax),
        }
    }

    /// Write one operand of the device, per `spec_write`.
    fn write_operand(&mut self, op: Operand, v: u32) -> (r: Result<(), MachineError>)
        requires
            old(self).wf(),
        ensures
            match spec_write(old(self).model(), op, v) {
                Ok(m2) => {
                    &&& r == Ok::<(), MachineError>(())
                    &&& final(self).wf()
                    &&& final(self).model() == m2
                    &&& final(self).program_lines == old(self).program_lines
                },
                Err(e) => {
                    &&& r == Err::<(), MachineError>(e)
                    &&& *final(self) == *old(self)
                },
            },
    {
        match op {
            Operand::Var(i) => {
                if self.device_state != DeviceState::ExecutionPhase {
                    return Err(MachineError::PhaseViolation);
                }
                let r = bank_store(&mut self.write_variables, i as usize, v);
                proof {
                    if r is Ok {
                        assert(self.model() =~= (MState {
                            vars: bank_write(old(self).model().vars, i as nat, v)->Ok_0,
                            ..old(self).model()
                        }));
                    }
                }
                r
            },
            Operand::Bit(i) => {
                if self.device_state != DeviceState::ExecutionPhase {
                    return Err(MachineError::PhaseViolation);
                }
                if v > 1 {
                    return Err(MachineError::Domain);
                }
                let r = bank_store(&mut self.write_bits, i as usize, v);
                proof {
                    if r is Ok {
                        assert(self.model() =~= (MState {
                            bits: bank_write(old(self).model().bits, i as nat, v)->Ok_0,
                            ..old(self).model()
                        }));
                    }
                }
                r
            },
            Operand::Input(i) => {
                if self.device_state != DeviceState::InputPhase {
                    return Err(MachineError::PhaseViolation);
                }
                let r = bank_store(&mut self.input_variables, i as usize, v);
                proof {
                    if r is Ok {
                        assert(self.model() =~= (MState {
                            inputs: bank_write(old(self).model().inputs, i as nat, v)->Ok_0,
                            ..old(self).model()
                        }));
                    }
                }
                r
            },
            Operand::Imm(_) => Err(MachineError::Syntax),
        }
    }

    /// Resolve a destination operand string and write `value` to it.
    pub fn set_destination(&mut self, operand: &str, value: u32) -> (r: Result<(), MachineError>)
        requires
            old(self).wf(),
        ensures
            match spec_operand(operand@) {
                Some(op) => match spec_write(old(self).model(), op, value) {
                    Ok(m2) => {
                        &&& r == Ok::<(), MachineError>(())
                        &&& final(self).wf()
                        &&& final(self).model() == m2
                        &&& final(self).program_lines == old(self).program_lines
                    },
                    Err(e) => {
                        &&& r == Err::<(), MachineError>(e)
                        &&& *final(self) == *old(self)
                    },
                },
                None => {
                    &&& r == Err::<(), MachineError>(MachineError::Syntax)
                    &&& *final(self) == *old(self)
                },
            },
    {
        match parse_operand(operand) {
            Some(op) => self.write_operand(op, value),
            None => Err(MachineError::Syntax),
        }
    }

    /// Evaluate a condition code against the current flags.
    pub fn check_flow_condition(&self, condition: &str) -> (r: Result<bool, MachineError>)
        ensures
            r == match spec_cond(condition@) {
                Some(c) => Ok::<bool, MachineError>(flow_holds(self.model().flags, c)),
                None => Err::<bool, MachineError>(MachineError::Domain),
            },
    {
        match parse_cond(condition) {
            Some(c) => Ok(eval_cond(&self.flags, c)),
            None => Err(MachineError::Domain),
        }
    }

    /// Replace the stored instruction sequence with the given lines, with
    /// comment lines (first character `;`) excluded. Memory banks, flags and
    /// phase are untouched.
    pub fn load_program(&mut self, lines: Vec<String>)
        requires
            old(self).wf(),
        ensures
            final(self).wf(),
            final(self).model() == old(self).model(),
            final(self).program_lines.deep_view() == spec_filter_comments(lines.deep_view()),
    {
        let filtered = filter_comment_lines(lines);
        self.program_lines = filtered;
    }

    /// Load one caller-supplied input: enters the Input phase, writes the
    /// input bank at the index named by `input_variable` (an optional `i`
    /// prefix followed by a decimal index), and returns to Idle.
    pub fn load_input_variable(&mut self, input_variable: &str, input_value: u32) -> (r: Result<
        (),
        MachineError,
    >)
        requires
            old(self).wf(),
        ensures
            match spec_input_index(input_variable@) {
                Some(i) => match bank_write(old(self).model().inputs, i as nat, input_value) {
                    Ok(b) => {
                        &&& r == Ok::<(), MachineError>(())
                        &&& final(self).wf()
                        &&& final(self).model() == (MState {
                            inputs: b,
                            has_input: true,
                            phase: DeviceState::IdlePhase,
                            ..old(self).model()
                        })
                        &&& final(self).program_lines == old(self).program_lines
                    },
                    Err(e) => {
                        &&& r == Err::<(), MachineError>(e)
                        &&& *final(self) == *old(self)
                    },
                },
                None => {
                    &&& r == Err::<(), MachineError>(MachineError::Syntax)
                    &&& *final(self) == *old(self)
                },
            },
    {
        let idx = match parse_input_index(input_variable) {
            Some(i) => i,
            None => {
                return Err(MachineError::Syntax);
            },
        };
        if idx as usize > self.input_variables.len() {
            return Err(MachineError::OutOfRange);
        }
        self.device_state = DeviceState::InputPhase;
        let r = bank_store(&mut self.input_variables, idx as usize, input_value);
        match r {
            Ok(()) => {},
            Err(e) => {
                proof {
                    assert(false);
                }
                return Err(e);
            },
        }
        self.has_loaded_input = true;
        self.device_state = DeviceState::IdlePhase;
        proof {
            assert(self.model() =~= (MState {
                inputs: bank_write(old(self).model().inputs, idx as nat, input_value)->Ok_0,
                has_input: true,
                phase: DeviceState::IdlePhase,
                ..old(self).model()
            }));
        }
        Ok(())
    }

    /// Clear the variable and bit banks and all flags; inputs are untouched.
    pub fn clear_device_execution_memory(&mut self)
        ensures
            final(self).wf() == bank_wf(final(self).input_variables@),
            final(self).model() == (MState {
                vars: Seq::<Slot>::empty(),
                bits: Seq::<Slot>::empty(),
                flags: Flags { equal: false, greater: false, carry: false, underflow: false },
                ..old(self).model()
            }),
            final(self).input_variables == old(self).input_variables,
            final(self).program_lines == old(self).program_lines,
    {
        self.write_variables = Vec::<Variable>::new();
        self.write_bits = Vec::<Variable>::new();
        self.flags = Flags { equal: false, greater: false, carry: false, underflow: false };
        proof {
            assert(bank_model(self.write_variables@) =~= Seq::<Slot>::empty());
            assert(bank_model(self.write_bits@) =~= Seq::<Slot>::empty());
            assert(self.model() =~= (MState {
                vars: Seq::<Slot>::empty(),
                bits: Seq::<Slot>::empty(),
                flags: Flags { equal: false, greater: false, carry: false, underflow: false },
                ..old(self).model()
            }));
        }
    }

    /// Clear the input bank.
    pub fn clear_device_inputs(&mut self)
        ensures
            final(self).wf() == (bank_wf(final(self).write_variables@) && bank_wf(
                final(self).write_bits@,
            )),
            final(self).model() == (MState { inputs: Seq::<Slot>::empty(), ..old(self).model() }),
            final(self).program_lines == old(self).program_lines,
    {
        self.input_variables = Vec::<Variable>::new();
        proof {
            assert(bank_model(self.input_variables@) =~= Seq::<Slot>::empty());
            assert(self.model() =~= (MState {
                inputs: Seq::<Slot>::empty(),
                ..old(self).model()
            }));
        }
    }

    /// Memory-footprint accounting: the input bank's total high-water
    /// width, the flag-register width (a constant 4), and the combined
    /// high-water width of the variable bank plus one bit per bit-bank slot.
    pub fn count_touched_memory(&self) -> (r: (usize, usize, usize))
        requires
            self.wf(),
            marks_sum(self.model().inputs) <= usize::MAX,
            marks_sum(self.model().vars) + self.model().bits.len() <= usize::MAX,
        ensures
            r.0 as nat == marks_sum(self.model().inputs),
            r.1 == 4usize,
            r.2 as nat == marks_sum(self.model().vars) + self.model().bits.len(),
    {
        let input_space_used = bank_marks_total(&self.input_variables);
        let num_touched_flags: usize = 4;
        let num_touched_bits = self.write_bits.len();
        let num_touched_variables = bank_marks_total(&self.write_variables);
        (input_space_used, num_touched_flags, num_touched_bits + num_touched_variables)
    }
}

/// The index named by an input-variable reference: an optional `i` prefix
/// followed by a decimal index.
pub open spec fn spec_input_index(t: Seq<char>) -> Option<u32> {
    if t.len() >= 1 && t[0] == 'i' {
        spec_parse_dec(t.subrange(1, t.len() as int))
    } else {
        spec_parse_dec(t)
    }
}

fn parse_input_index(t: &str) -> (r: Option<u32>)
    ensures
        r == spec_input_index(t@),
{
    let n = t.unicode_len();
    if n >= 1 && t.get_char(0) == 'i' {
        parse_dec_u32(t.substring_char(1, n))
    } else {
        parse_dec_u32(t)
    }
}

/// Write a bank slot: overwrite an existing index, append at the length,
/// reject anything beyond it.
fn bank_store(bank: &mut Vec<Variable>, idx: usize, v: u32) -> (r: Result<(), MachineError>)
    requires
        bank_wf(old(bank)@),
    ensures
        match bank_write(bank_model(old(bank)@), idx as nat, v) {
            Ok(b) => {
                &&& r == Ok::<(), MachineError>(())
                &&& bank_wf(final(bank)@)
                &&& bank_model(final(bank)@) == b
            },
            Err(e) => {
                &&& r == Err::<(), MachineError>(e)
                &&& *final(bank) == *old(bank)
            },
        },
{
    let n = bank.len();
    if idx < n {
        let old_max = bank[idx].max_size;
        let fresh = Variable::new(v);
        let stored = if fresh.max_size > old_max {
            Variable { value: fresh.value, max_size: fresh.max_size }
        } else {
            Variable { value: fresh.value, max_size: old_max }
        };
        proof {
            assert(stored.wf());
        }
        bank[idx] = stored;
        proof {
            assert(bank_model(bank@) =~= bank_write(bank_model(old(bank)@), idx as nat, v)->Ok_0);
        }
        Ok(())
    } else if idx == n {
        bank.push(Variable::new(v));
        proof {
            assert(bank_model(bank@) =~= bank_write(bank_model(old(bank)@), idx as nat, v)->Ok_0);
        }
        Ok(())
    } else {
        Err(MachineError::OutOfRange)
    }
}

/// Sum the high-water marks of a bank.
fn bank_marks_total(bank: &Vec<Variable>) -> (r: usize)
    requires
        marks_sum(bank_model(bank@)) <= usize::MAX,
    ensures
        r as nat == marks_sum(bank_model(bank@)),
{
    let mut acc: usize = 0;
    let mut i: usize = 0;
    let n = bank.len();
    proof {
        assert(bank_model(bank@).subrange(0, 0) =~= Seq::<Slot>::empty());
    }
    while i < n
        invariant
            i <= n,
            n == bank.len(),
            marks_sum(bank_model(bank@)) <= usize::MAX,
            acc as nat == marks_sum(bank_model(bank@).subrange(0, i as int)),
        decreases n - i,
    {
        let ghost whole = bank_model(bank@);
        proof {
            lemma_marks_sum_extends(whole, (i + 1) as nat);
            assert(whole.subrange(0, i as int + 1).drop_last() =~= whole.subrange(0, i as int));
            assert(whole.subrange(0, i as int + 1).last() == whole[i as int]);
        }
        acc = acc + bank[i].max_size;
        i = i + 1;
    }
    proof {
        assert(bank_model(bank@).subrange(0, n as int) =~= bank_model(bank@));
    }
    acc
}

pub proof fn lemma_marks_sum_extends(bank: Seq<Slot>, k: nat)
    requires
        k <= bank.len(),
    ensures
        marks_sum(bank.subrange(0, k as int)) <= marks_sum(bank),
    decreases bank.len() - k,
{
    if k == bank.len() {
        assert(bank.subrange(0, k as int) =~= bank);
    } else {
        assert(bank.subrange(0, k as int + 1).drop_last() =~= bank.subrange(0, k as int));
        lemma_marks_sum_extends(bank, k + 1);
    }
}

// ---------------------------------------------------------------------------
// Instruction semantics
// ---------------------------------------------------------------------------
/// The effect of one decoded instruction on the device state. Every
/// instruction advances the instruction pointer by one, except `jmp` (which
/// sets it absolutely) and `jon` (which advances by two when its condition
/// holds, else by one). Operands are read in a fixed order: the source
/// before the destination, and for `cmp` the first operand before the
/// second; the first failing read decides the fault.
pub open spec fn spec_step(m: MState, instr: Instr) -> Result<MState, MachineError> {
    match instr {
        Instr::Non => Ok(MState { ip: m.ip + 1, ..m }),
        Instr::Assign(d, s) => match spec_read(m, s) {
            Err(e) => Err(e),
            Ok(sv) => match spec_write(m, d, sv) {
                Err(e) => Err(e),
                Ok(m2) => Ok(MState { ip: m.ip + 1, ..m2 }),
            },
        },
        Instr::StoreLen(d, s) => match spec_read(m, s) {
            Err(e) => Err(e),
            Ok(sv) => match spec_write(m, d, min_width(sv as nat) as u32) {
                Err(e) => Err(e),
                Ok(m2) => Ok(MState { ip: m.ip + 1, ..m2 }),
            },
        },
        Instr::StoreNthBit(d, s, n) => match spec_read(m, s) {
            Err(e) => Err(e),
            Ok(sv) => match spec_read(m, n) {
                Err(e) => Err(e),
                Ok(nv) => {
                    let bit: u32 = if (nv as nat) < min_width(sv as nat) && crate::bits::nth_bit(
                        sv as nat,
                        nv as nat,
                    ) {
                        1
                    } else {
                        0
                    };
                    match spec_write(m, d, bit) {
                        Err(e) => Err(e),
                        Ok(m2) => Ok(MState { ip: m.ip + 1, ..m2 }),
                    }
                },
            },
        },
        Instr::IntAdd(d, s) => match spec_read(m, s) {
            Err(e) => Err(e),
            Ok(sv) => match spec_read(m, d) {
                Err(e) => Err(e),
                Ok(dv) => if sv + dv > u32::MAX {
                    Err(MachineError::Domain)
                } else {
                    match spec_write(m, d, (sv + dv) as u32) {
                        Err(e) => Err(e),
                        Ok(m2) => Ok(MState { ip: m.ip + 1, ..m2 }),
                    }
                },
            },
        },
        Instr::IntSub(d, s) => match spec_read(m, s) {
            Err(e) => Err(e),
            Ok(sv) => match spec_read(m, d) {
                Err(e) => Err(e),
                Ok(dv) => if dv < sv {
                    Err(MachineError::Domain)
                } else {
                    match spec_write(m, d, (dv - sv) as u32) {
                        Err(e) => Err(e),
                        Ok(m2) => Ok(MState { ip: m.ip + 1, ..m2 }),
                    }
                },
            },
        },
        Instr::BitAdd(d, s) => match spec_read(m, s) {
            Err(e) => Err(e),
            Ok(sv) => if sv > 1 {
                Err(MachineError::Domain)
            } else {
                match spec_read(m, d) {
                    Err(e) => Err(e),
                    Ok(dv) => if dv > 1 {
                        Err(MachineError::Domain)
                    } else {
                        let t = sv + dv + (if m.flags.carry {
                            1int
                        } else {
                            0
                        });
                        let rv: u32 = if t >= 2 {
                            (t - 2) as u32
                        } else {
                            t as u32
                        };
                        match spec_write(m, d, rv) {
                            Err(e) => Err(e),
                            Ok(m2) => Ok(
                                MState {
                                    flags: Flags { carry: t >= 2, ..m.flags },
                                    ip: m.ip + 1,
                                    ..m2
                                },
                            ),
                        }
                    },
                }
            },
        },
        Instr::BitSub(d, s) => match spec_read(m, s) {
            Err(e) => Err(e),
            Ok(sv) => if sv > 1 {
                Err(MachineError::Domain)
            } else {
                match spec_read(m, d) {
                    Err(e) => Err(e),
                    Ok(dv) => if dv > 1 {
                        Err(MachineError::Domain)
                    } else {
                        let diff = sv - dv - (if m.flags.underflow {
                            1int
                        } else {
                            0
                        });
                        let under = diff < 0;
                        let rv: u32 = if under {
                            (diff + 2) as u32
                        } else {
                            diff as u32
                        };
                        match spec_write(m, d, rv) {
                            Err(e) => Err(e),
                            Ok(m2) => Ok(
                                MState {
                                    flags: Flags { underflow: under, ..m.flags },
                                    ip: m.ip + 1,
                                    ..m2
                                },
                            ),
                        }
                    },
                }
            },
        },
        Instr::ShiftLeft(d, s) => match spec_read(m, s) {
            Err(e) => Err(e),
            Ok(sv) => match spec_read(m, d) {
                Err(e) => Err(e),
                Ok(dv) => if sv >= 32 {
                    Err(MachineError::Domain)
                } else {
                    match spec_write(m, d, dv << sv) {
                        Err(e) => Err(e),
                        Ok(m2) => Ok(MState { ip: m.ip + 1, ..m2 }),
                    }
                },
            },
        },
        Instr::ShiftRight(d, s) => match spec_read(m, s) {
            Err(e) => Err(e),
            Ok(sv) => match spec_read(m, d) {
                Err(e) => Err(e),
                Ok(dv) => if sv >= 32 {
                    Err(MachineError::Domain)
                } else {
                    match spec_write(m, d, dv >> sv) {
                        Err(e) => Err(e),
                        Ok(m2) => Ok(MState { ip: m.ip + 1, ..m2 }),
                    }
                },
            },
        },
        Instr::ClearFlags => Ok(
            MState {
                flags: Flags { equal: false, greater: false, carry: false, underflow: false },
                ip: m.ip + 1,
                ..m
            },
        ),
        Instr::Compare(a, b) => match spec_read(m, a) {
            Err(e) => Err(e),
            Ok(av) => match spec_read(m, b) {
                Err(e) => Err(e),
                Ok(bv) => Ok(
                    MState {
                        flags: Flags { equal: av == bv, greater: av > bv, ..m.flags },
                        ip: m.ip + 1,
                        ..m
                    },
                ),
            },
        },
        Instr::Jump(t) => match spec_read(m, t) {
            Err(e) => Err(e),
            Ok(tv) => Ok(MState { ip: tv as nat, ..m }),
        },
        Instr::SkipIf(c) => Ok(
            MState {
                ip: m.ip + (if flow_holds(m.flags, c) {
                    2nat
                } else {
                    1
                }),
                ..m
            },
        ),
        Instr::End => Ok(MState { running: false, ip: m.ip + 1, ..m }),
    }
}

/// The effect of one instruction line: decode, then step.
pub open spec fn spec_exec_line(m: MState, line: Seq<char>) -> Result<MState, MachineError> {
    match spec_parse_instr(line) {
        Err(e) => Err(e),
        Ok(instr) => spec_step(m, instr),
    }
}

/// Bit `n` of `v`, as 0 or 1.
fn nth_bit_exec(v: u32, n: u32) -> (r: u32)
    requires
        n <= 32,
    ensures
        r == if crate::bits::nth_bit(v as nat, n as nat) {
            1u32
        } else {
            0u32
        },
{
    let mut cur: u32 = v;
    let mut k: u32 = 0;
    proof {
        vstd::arithmetic::power2::lemma2_to64();
        assert(vstd::arithmetic::power2::pow2(0) == 1);
    }
    while k < n
        invariant
            k <= n <= 32,
            cur as nat == (v as nat) / vstd::arithmetic::power2::pow2(k as nat),
        decreases n - k,
    {
        proof {
            vstd::arithmetic::power2::lemma_pow2_adds(k as nat, 1);
            vstd::arithmetic::power2::lemma_pow2_pos(k as nat);
            vstd::arithmetic::power2::lemma2_to64();
            vstd::arithmetic::div_mod::lemma_div_denominator(
                v as int,
                vstd::arithmetic::power2::pow2(k as nat) as int,
                2,
            );
        }
        cur = cur / 2;
        k = k + 1;
    }
    if cur % 2 == 1 {
        1
    } else {
        0
    }
}

impl Device {
    fn step_non(&mut self) -> (r: Result<(), MachineError>)
        requires
            old(self).wf(),
            old(self).instruction_pointer + 2 <= usize::MAX,
        ensures
            match spec_step(old(self).model(), Instr::Non) {
                Ok(m2) => {
                    &&& r == Ok::<(), MachineError>(())
                    &&& final(self).wf()
                    &&& final(self).model() == m2
                    &&& final(self).program_lines == old(self).program_lines
                },
                Err(e) => {
                    &&& r == Err::<(), MachineError>(e)
                    &&& *final(self) == *old(self)
                },
            },
    {
        self.instruction_pointer = self.instruction_pointer + 1;
        proof {
            assert(self.model() =~= (MState {
                ip: old(self).model().ip + 1,
                ..old(self).model()
            }));
        }
        Ok(())
    }

    fn step_assign(&mut self, d: Operand, s: Operand) -> (r: Result<(), MachineError>)
        requires
            old(self).wf(),
            old(self).instruction_pointer + 2 <= usize::MAX,
        ensures
            match spec_step(old(self).model(), Instr::Assign(d, s)) {
                Ok(m2) => {
                    &&& r == Ok::<(), MachineError>(())
                    &&& final(self).wf()
                    &&& final(self).model() == m2
                    &&& final(self).program_lines == old(self).program_lines
                },
                Err(e) => {
                    &&& r == Err::<(), MachineError>(e)
                    &&& *final(self) == *old(self)
                },
            },
    {
        let sv = match self.read_operand(s) {
            Ok(v) => v,
            Err(e) => {
                return Err(e);
            },
        };
        match self.write_operand(d, sv) {
            Ok(()) => {},
            Err(e) => {
                return Err(e);
            },
        }
        self.instruction_pointer = self.instruction_pointer + 1;
        proof {
            let m2 = spec_write(old(self).model(), d, sv)->Ok_0;
            assert(self.model() =~= (MState { ip: old(self).model().ip + 1, ..m2 }));
        }
        Ok(())
    }

    fn step_store_len(&mut self, d: Operand, s: Operand) -> (r: Result<(), MachineError>)
        requires
            old(self).wf(),
            old(self).instruction_pointer + 2 <= usize::MAX,
        ensures
            match spec_step(old(self).model(), Instr::StoreLen(d, s)) {
                Ok(m2) => {
                    &&& r == Ok::<(), MachineError>(())
                    &&& final(self).wf()
                    &&& final(self).model() == m2
                    &&& final(self).program_lines == old(self).program_lines
                },
                Err(e) => {
                    &&& r == Err::<(), MachineError>(e)
                    &&& *final(self) == *old(self)
                },
            },
    {
        let sv = match self.read_operand(s) {
            Ok(v) => v,
            Err(e) => {
                return Err(e);
            },
        };
        let w = Variable::bit_width(sv);
        match self.write_operand(d, w as u32) {
            Ok(()) => {},
            Err(e) => {
                return Err(e);
            },
        }
        self.instruction_pointer = self.instruction_pointer + 1;
        proof {
            let m2 = spec_write(old(self).model(), d, min_width(sv as nat) as u32)->Ok_0;
            assert(self.model() =~= (MState { ip: old(self).model().ip + 1, ..m2 }));
        }
        Ok(())
    }

    fn step_store_nth_bit(&mut self, d: Operand, s: Operand, n: Operand) -> (r: Result<(), MachineError>)
        requires
            old(self).wf(),
            old(self).instruction_pointer + 2 <= usize::MAX,
        ensures
            match spec_step(old(self).model(), Instr::StoreNthBit(d, s, n)) {
                Ok(m2) => {
                    &&& r == Ok::<(), MachineError>(())
                    &&& final(self).wf()
                    &&& final(self).model() == m2
                    &&& final(self).program_lines == old(self).program_lines
                },
                Err(e) => {
                    &&& r == Err::<(), MachineError>(e)
                    &&& *final(self) == *old(self)
                },
            },
    {
        let sv = match self.read_operand(s) {
            Ok(v) => v,
            Err(e) => {
                return Err(e);
            },
        };
        let nv = match self.read_operand(n) {
            Ok(v) => v,
            Err(e) => {
                return Err(e);
            },
        };
        let w = Variable::bit_width(sv);
        let bit: u32 = if (nv as usize) < w {
            nth_bit_exec(sv, nv)
        } else {
            0
        };
        match self.write_operand(d, bit) {
            Ok(()) => {},
            Err(e) => {
                return Err(e);
            },
        }
        self.instruction_pointer = self.instruction_pointer + 1;
        proof {
            let m2 = spec_write(old(self).model(), d, bit)->Ok_0;
            assert(self.model() =~= (MState { ip: old(self).model().ip + 1, ..m2 }));
        }
        Ok(())
    }

    fn step_int_add(&mut self, d: Operand, s: Operand) -> (r: Result<(), MachineError>)
        requires
            old(self).wf(),
            old(self).instruction_pointer + 2 <= usize::MAX,
        ensures
            match spec_step(old(self).model(), Instr::IntAdd(d, s)) {
                Ok(m2) => {
                    &&& r == Ok::<(), MachineError>(())
                    &&& final(self).wf()
                    &&& final(self).model() == m2
                    &&& final(self).program_lines == old(self).program_lines
                },
                Err(e) => {
                    &&& r == Err::<(), MachineError>(e)
                    &&& *final(self) == *old(self)
                },
            },
    {
        let sv = match self.read_operand(s) {
            Ok(v) => v,
            Err(e) => {
                return Err(e);
            },
        };
        let dv = match self.read_operand(d) {
            Ok(v) => v,
            Err(e) => {
                return Err(e);
            },
        };
        let sum = sv as u64 + dv as u64;
        if sum > u32::MAX as u64 {
            return Err(MachineError::Domain);
        }
        match self.write_operand(d, sum as u32) {
            Ok(()) => {},
            Err(e) => {
                return Err(e);
            },
        }
        self.instruction_pointer = self.instruction_pointer + 1;
        proof {
            let m2 = spec_write(old(self).model(), d, (sv + dv) as u32)->Ok_0;
            assert(self.model() =~= (MState { ip: old(self).model().ip + 1, ..m2 }));
        }
        Ok(())
    }

    fn step_int_sub(&mut self, d: Operand, s: Operand) -> (r: Result<(), MachineError>)
        requires
            old(self).wf(),
            old(self).instruction_pointer + 2 <= usize::MAX,
        ensures
            match spec_step(old(self).model(), Instr::IntSub(d, s)) {
                Ok(m2) => {
                    &&& r == Ok::<(), MachineError>(())
                    &&& final(self).wf()
                    &&& final(self).model() == m2
                    &&& final(self).program_lines == old(self).program_lines
                },
                Err(e) => {
                    &&& r == Err::<(), MachineError>(e)
                    &&& *final(self) == *old(self)
                },
            },
    {
        let sv = match self.read_operand(s) {
            Ok(v) => v,
            Err(e) => {
                return Err(e);
            },
        };
        let dv = match self.read_operand(d) {
            Ok(v) => v,
            Err(e) => {
                return Err(e);
            },
        };
        if dv < sv {
            return Err(MachineError::Domain);
        }
        match self.write_operand(d, dv - sv) {
            Ok(()) => {},
            Err(e) => {
                return Err(e);
            },
        }
        self.instruction_pointer = self.instruction_pointer + 1;
        proof {
            let m2 = spec_write(old(self).model(), d, (dv - sv) as u32)->Ok_0;
            assert(self.model() =~= (MState { ip: old(self).model().ip + 1, ..m2 }));
        }
        Ok(())
    }

    fn step_bit_add(&mut self, d: Operand, s: Operand) -> (r: Result<(), MachineError>)
        requires
            old(self).wf(),
            old(self).instruction_pointer + 2 <= usize::MAX,
        ensures
            match spec_step(old(self).model(), Instr::BitAdd(d, s)) {
                Ok(m2) => {
                    &&& r == Ok::<(), MachineError>(())
                    &&& final(self).wf()
                    &&& final(self).model() == m2
                    &&& final(self).program_lines == old(self).program_lines
                },
                Err(e) => {
                    &&& r == Err::<(), MachineError>(e)
                    &&& *final(self) == *old(self)
                },
            },
    {
        let sv = match self.read_operand(s) {
            Ok(v) => v,
            Err(e) => {
                return Err(e);
            },
        };
        if sv > 1 {
            return Err(MachineError::Domain);
        }
        let dv = match self.read_operand(d) {
            Ok(v) => v,
            Err(e) => {
                return Err(e);
            },
        };
        if dv > 1 {
            return Err(MachineError::Domain);
        }
        let carry_in: u32 = if self.flags.carry {
            1
        } else {
            0
        };
        let t = sv + dv + carry_in;
        let new_carry = t >= 2;
        let rv = if new_carry {
            t - 2
        } else {
            t
        };
        match self.write_operand(d, rv) {
            Ok(()) => {},
            Err(e) => {
                return Err(e);
            },
        }
        self.flags.carry = new_carry;
        self.instruction_pointer = self.instruction_pointer + 1;
        proof {
            let m2 = spec_write(old(self).model(), d, rv)->Ok_0;
            assert(self.model() =~= (MState {
                flags: Flags { carry: new_carry, ..old(self).model().flags },
                ip: old(self).model().ip + 1,
                ..m2
            }));
        }
        Ok(())
    }

    fn step_bit_sub(&mut self, d: Operand, s: Operand) -> (r: Result<(), MachineError>)
        requires
            old(self).wf(),
            old(self).instruction_pointer + 2 <= usize::MAX,
        ensures
            match spec_step(old(self).model(), Instr::BitSub(d, s)) {
                Ok(m2) => {
                    &&& r == Ok::<(), MachineError>(())
                    &&& final(self).wf()
                    &&& final(self).model() == m2
                    &&& final(self).program_lines == old(self).program_lines
                },
                Err(e) => {
                    &&& r == Err::<(), MachineError>(e)
                    &&& *final(self) == *old(self)
                },
            },
    {
        let sv = match self.read_operand(s) {
            Ok(v) => v,
            Err(e) => {
                return Err(e);
            },
        };
        if sv > 1 {
            return Err(MachineError::Domain);
        }
        let dv = match self.read_operand(d) {
            Ok(v) => v,
            Err(e) => {
                return Err(e);
            },
        };
        if dv > 1 {
            return Err(MachineError::Domain);
        }
        let under_in: u32 = if self.flags.underflow {
            1
        } else {
            0
        };
        let rhs = dv + under_in;
        let under = sv < rhs;
        let rv = if under {
            sv + 2 - rhs
        } else {
            sv - rhs
        };
        match self.write_operand(d, rv) {
            Ok(()) => {},
            Err(e) => {
                return Err(e);
            },
        }
        self.flags.underflow = under;
        self.instruction_pointer = self.instruction_pointer + 1;
        proof {
            let m2 = spec_write(old(self).model(), d, rv)->Ok_0;
            assert(self.model() =~= (MState {
                flags: Flags { underflow: under, ..old(self).model().flags },
                ip: old(self).model().ip + 1,
                ..m2
            }));
        }
        Ok(())
    }

    fn step_shift_left(&mut self, d: Operand, s: Operand) -> (r: Result<(), MachineError>)
        requires
            old(self).wf(),
            old(self).instruction_pointer + 2 <= usize::MAX,
        ensures
            match spec_step(old(self).model(), Instr::ShiftLeft(d, s)) {
                Ok(m2) => {
                    &&& r == Ok::<(), MachineError>(())
                    &&& final(self).wf()
                    &&& final(self).model() == m2
                    &&& final(self).program_lines == old(self).program_lines
                },
                Err(e) => {
                    &&& r == Err::<(), MachineError>(e)
                    &&& *final(self) == *old(self)
                },
            },
    {
        let sv = match self.read_operand(s) {
            Ok(v) => v,
            Err(e) => {
                return Err(e);
            },
        };
        let dv = match self.read_operand(d) {
            Ok(v) => v,
            Err(e) => {
                return Err(e);
            },
        };
        if sv >= 32 {
            return Err(MachineError::Domain);
        }
        match self.write_operand(d, dv << sv) {
            Ok(()) => {},
            Err(e) => {
                return Err(e);
            },
        }
        self.instruction_pointer = self.instruction_pointer + 1;
        proof {
            let m2 = spec_write(old(self).model(), d, dv << sv)->Ok_0;
            assert(self.model() =~= (MState { ip: old(self).model().ip + 1, ..m2 }));
        }
        Ok(())
    }

    fn step_shift_right(&mut self, d: Operand, s: Operand) -> (r: Result<(), MachineError>)
        requires
            old(self).wf(),
            old(self).instruction_pointer + 2 <= usize::MAX,
        ensures
            match spec_step(old(self).model(), Instr::ShiftRight(d, s)) {
                Ok(m2) => {
                    &&& r == Ok::<(), MachineError>(())
                    &&& final(self).wf()
                    &&& final(self).model() == m2
                    &&& final(self).program_lines == old(self).program_lines
                },
                Err(e) => {
                    &&& r == Err::<(), MachineError>(e)
                    &&& *final(self) == *old(self)
                },
            },
    {
        let sv = match self.read_operand(s) {
            Ok(v) => v,
            Err(e) => {
                return Err(e);
            },
        };
        let dv = match self.read_operand(d) {
            Ok(v) => v,
            Err(e) => {
                return Err(e);
            },
        };
        if sv >= 32 {
            return Err(MachineError::Domain);
        }
        match self.write_operand(d, dv >> sv) {
            Ok(()) => {},
            Err(e) => {
                return Err(e);
            },
        }
        self.instruction_pointer = self.instruction_pointer + 1;
        proof {
            let m2 = spec_write(old(self).model(), d, dv >> sv)->Ok_0;
            assert(self.model() =~= (MState { ip: old(self).model().ip + 1, ..m2 }));
        }
        Ok(())
    }

    fn step_clear_flags(&mut self) -> (r: Result<(), MachineError>)
        requires
            old(self).wf(),
            old(self).instruction_pointer + 2 <= usize::MAX,
        ensures
            match spec_step(old(self).model(), Instr::ClearFlags) {
                Ok(m2) => {
                    &&& r == Ok::<(), MachineError>(())
                    &&& final(self).wf()
                    &&& final(self).model() == m2
                    &&& final(self).program_lines == old(self).program_lines
                },
                Err(e) => {
                    &&& r == Err::<(), MachineError>(e)
                    &&& *final(self) == *old(self)
                },
            },
    {
        self.flags = Flags { equal: false, greater: false, carry: false, underflow: false };
        self.instruction_pointer = self.instruction_pointer + 1;
        proof {
            assert(self.model() =~= (MState {
                flags: Flags {
                    equal: false,
                    greater: false,
                    carry: false,
                    underflow: false,
                },
                ip: old(self).model().ip + 1,
                ..old(self).model()
            }));
        }
        Ok(())
    }

    fn step_compare(&mut self, a: Operand, b: Operand) -> (r: Result<(), MachineError>)
        requires
            old(self).wf(),
            old(self).instruction_pointer + 2 <= usize::MAX,
        ensures
            match spec_step(old(self).model(), Instr::Compare(a, b)) {
                Ok(m2) => {
                    &&& r == Ok::<(), MachineError>(())
                    &&& final(self).wf()
                    &&& final(self).model() == m2
                    &&& final(self).program_lines == old(self).program_lines
                },
                Err(e) => {
                    &&& r == Err::<(), MachineError>(e)
                    &&& *final(self) == *old(self)
                },
            },
    {
        let av = match self.read_operand(a) {
            Ok(v) => v,
            Err(e) => {
                return Err(e);
            },
        };
        let bv = match self.read_operand(b) {
            Ok(v) => v,
            Err(e) => {
                return Err(e);
            },
        };
        self.flags.equal = av == bv;
        self.flags.greater = av > bv;
        self.instruction_pointer = self.instruction_pointer + 1;
        proof {
            assert(self.model() =~= (MState {
                flags: Flags {
                    equal: av == bv,
                    greater: av > bv,
                    ..old(self).model().flags
                },
                ip: old(self).model().ip + 1,
                ..old(self).model()
            }));
        }
        Ok(())
    }

    fn step_jump(&mut self, t: Operand) -> (r: Result<(), MachineError>)
        requires
            old(self).wf(),
            old(self).instruction_pointer + 2 <= usize::MAX,
        ensures
            match spec_step(old(self).model(), Instr::Jump(t)) {
                Ok(m2) => {
                    &&& r == Ok::<(), MachineError>(())
                    &&& final(self).wf()
                    &&& final(self).model() == m2
                    &&& final(self).program_lines == old(self).program_lines
                },
                Err(e) => {
                    &&& r == Err::<(), MachineError>(e)
                    &&& *final(self) == *old(self)
                },
            },
    {
        let tv = match self.read_operand(t) {
            Ok(v) => v,
            Err(e) => {
                return Err(e);
            },
        };
        self.instruction_pointer = tv as usize;
        proof {
            assert(self.model() =~= (MState { ip: tv as nat, ..old(self).model() }));
        }
        Ok(())
    }

    fn step_skip_if(&mut self, c: Cond) -> (r: Result<(), MachineError>)
        requires
            old(self).wf(),
            old(self).instruction_pointer + 2 <= usize::MAX,
        ensures
            match spec_step(old(self).model(), Instr::SkipIf(c)) {
                Ok(m2) => {
                    &&& r == Ok::<(), MachineError>(())
                    &&& final(self).wf()
                    &&& final(self).model() == m2
                    &&& final(self).program_lines == old(self).program_lines
                },
                Err(e) => {
                    &&& r == Err::<(), MachineError>(e)
                    &&& *final(self) == *old(self)
                },
            },
    {
        let advance: usize = if eval_cond(&self.flags, c) {
            2
        } else {
            1
        };
        self.instruction_pointer = self.instruction_pointer + advance;
        proof {
            assert(self.model() =~= (MState {
                ip: old(self).model().ip + (if flow_holds(old(self).model().flags, c) {
                    2nat
                } else {
                    1
                }),
                ..old(self).model()
            }));
        }
        Ok(())
    }

    fn step_end(&mut self) -> (r: Result<(), MachineError>)
        requires
            old(self).wf(),
            old(self).instruction_pointer + 2 <= usize::MAX,
        ensures
            match spec_step(old(self).model(), Instr::End) {
                Ok(m2) => {
                    &&& r == Ok::<(), MachineError>(())
                    &&& final(self).wf()
                    &&& final(self).model() == m2
                    &&& final(self).program_lines == old(self).program_lines
                },
                Err(e) => {
                    &&& r == Err::<(), MachineError>(e)
                    &&& *final(self) == *old(self)
                },
            },
    {
        self.program_running = false;
        self.instruction_pointer = self.instruction_pointer + 1;
        proof {
            assert(self.model() =~= (MState {
                running: false,
                ip: old(self).model().ip + 1,
                ..old(self).model()
            }));
        }
        Ok(())
    }

    /// Execute one decoded instruction against the device, mutating banks,
    /// flags and instruction pointer exactly as `spec_step` says; on a
    /// fault the device is left unchanged.
    pub fn execute_decoded(&mut self, instr: Instr) -> (r: Result<(), MachineError>)
        requires
            old(self).wf(),
            old(self).instruction_pointer + 2 <= usize::MAX,
        ensures
            match spec_step(old(self).model(), instr) {
                Ok(m2) => {
                    &&& r == Ok::<(), MachineError>(())
                    &&& final(self).wf()
                    &&& final(self).model() == m2
                    &&& final(self).program_lines == old(self).program_lines
                },
                Err(e) => {
                    &&& r == Err::<(), MachineError>(e)
                    &&& *final(self) == *old(self)
                },
            },
    {
        match instr {
            Instr::Non => self.step_non(),
            Instr::Assign(d, s) => self.step_assign(d, s),
            Instr::StoreLen(d, s) => self.step_store_len(d, s),
            Instr::StoreNthBit(d, s, n) => self.step_store_nth_bit(d, s, n),
            Instr::IntAdd(d, s) => self.step_int_add(d, s),
            Instr::IntSub(d, s) => self.step_int_sub(d, s),
            Instr::BitAdd(d, s) => self.step_bit_add(d, s),
            Instr::BitSub(d, s) => self.step_bit_sub(d, s),
            Instr::ShiftLeft(d, s) => self.step_shift_left(d, s),
            Instr::ShiftRight(d, s) => self.step_shift_right(d, s),
            Instr::ClearFlags => self.step_clear_flags(),
            Instr::Compare(a, b) => self.step_compare(a, b),
            Instr::Jump(t) => self.step_jump(t),
            Instr::SkipIf(c) => self.step_skip_if(c),
            Instr::End => self.step_end(),
        }
    }

    /// Decode one instruction line and execute it; on a fault the device is
    /// left unchanged.
    pub fn execute_instruction(&mut self, instruction: &str) -> (r: Result<(), MachineError>)
        requires
            old(self).wf(),
            old(self).instruction_pointer + 2 <= usize::MAX,
        ensures
            match spec_exec_line(old(self).model(), instruction@) {
                Ok(m2) => {
                    &&& r == Ok::<(), MachineError>(())
                    &&& final(self).wf()
                    &&& final(self).model() == m2
                    &&& final(self).program_lines == old(self).program_lines
                },
                Err(e) => {
                    &&& r == Err::<(), MachineError>(e)
                    &&& *final(self) == *old(self)
                },
            },
    {
        match parse_instruction(instruction) {
            Ok(instr) => self.execute_decoded(instr),
            Err(e) => Err(e),
        }
    }
}

/// The outcome of the fetch/execute loop from state `m` over `prog` with a
/// budget of `fuel` steps: the result, and the device state reached. The
/// loop stops when the running flag clears; fetching past the end of the
/// program is a bounds fault; a fault during a step leaves the state as it
/// was before that step.
#[verifier::opaque]
pub open spec fn spec_run(m: MState, prog: Seq<Seq<char>>, fuel: nat) -> (Result<
    (),
    MachineError,
>, MState)
    decreases fuel,
{
    if !m.running {
        (Ok(()), m)
    } else if m.ip >= prog.len() {
        (Err(MachineError::OutOfRange), m)
    } else if fuel == 0 {
        (Err(MachineError::StepLimit), m)
    } else {
        match spec_exec_line(m, prog[m.ip as int]) {
            Err(e) => (Err(e), m),
            Ok(m2) => spec_run(m2, prog, (fuel - 1) as nat),
        }
    }
}


proof fn lemma_run_not_running(m: MState, prog: Seq<Seq<char>>, fuel: nat)
    requires
        !m.running,
    ensures
        spec_run(m, prog, fuel) == (Ok::<(), MachineError>(()), m),
{
    reveal(spec_run);
}

proof fn lemma_run_past_end(m: MState, prog: Seq<Seq<char>>, fuel: nat)
    requires
        m.running,
        m.ip >= prog.len(),
    ensures
        spec_run(m, prog, fuel) == (Err::<(), MachineError>(MachineError::OutOfRange), m),
{
    reveal(spec_run);
}

proof fn lemma_run_out_of_fuel(m: MState, prog: Seq<Seq<char>>)
    requires
        m.running,
        m.ip < prog.len(),
    ensures
        spec_run(m, prog, 0) == (Err::<(), MachineError>(MachineError::StepLimit), m),
{
    reveal(spec_run);
}

proof fn lemma_run_step_ok(m: MState, prog: Seq<Seq<char>>, fuel: nat, m2: MState)
    requires
        m.running,
        m.ip < prog.len(),
        fuel > 0,
        spec_exec_line(m, prog[m.ip as int]) == Ok::<MState, MachineError>(m2),
    ensures
        spec_run(m, prog, fuel) == spec_run(m2, prog, (fuel - 1) as nat),
{
    reveal(spec_run);
}

proof fn lemma_run_step_err(m: MState, prog: Seq<Seq<char>>, fuel: nat, e: MachineError)
    requires
        m.running,
        m.ip < prog.len(),
        fuel > 0,
        spec_exec_line(m, prog[m.ip as int]) == Err::<MState, MachineError>(e),
    ensures
        spec_run(m, prog, fuel) == (Err::<(), MachineError>(e), m),
{
    reveal(spec_run);
}

impl Device {
    /// The fetch/execute loop: raise the running flag, then execute the
    /// instruction under the pointer until a terminal instruction clears
    /// the flag, the budget runs out, or a fault occurs.
    #[verifier::rlimit(100)]
    #[verifier::spinoff_prover]
    fn run_program_lines(&mut self, max_steps: usize) -> (r: Result<(), MachineError>)
        requires
            old(self).wf(),
            old(self).program_lines@.len() + 1 <= usize::MAX,
        ensures
            ({
                let outcome = spec_run(
                    MState { running: true, ..old(self).model() },
                    old(self).program_lines.deep_view(),
                    max_steps as nat,
                );
                &&& r == outcome.0
                &&& final(self).wf()
                &&& final(self).model() == outcome.1
                &&& final(self).program_lines == old(self).program_lines
            }),
    {
        self.program_running = true;
        let ghost prog_vec = self.program_lines;
        let ghost prog = self.program_lines.deep_view();
        let ghost m_start = self.model();
        let ghost fuel0 = max_steps as nat;
        let mut steps_left: usize = max_steps;
        proof {
            assert(m_start =~= (MState { running: true, ..old(self).model() }));
        }
        while self.program_running
            invariant
                self.wf(),
                self.program_lines == prog_vec,
                prog_vec == old(self).program_lines,
                prog == prog_vec.deep_view(),
                prog.len() + 1 <= usize::MAX,
                self.program_lines@.len() == prog.len(),
                m_start == (MState { running: true, ..old(self).model() }),
                fuel0 == max_steps as nat,
                spec_run(self.model(), prog, steps_left as nat) == spec_run(m_start, prog, fuel0),
            decreases steps_left,
        {
            if self.instruction_pointer >= self.program_lines.len() {
                proof {
                    lemma_run_past_end(self.model(), prog, steps_left as nat);
                }
                return Err(MachineError::OutOfRange);
            }
            if steps_left == 0 {
                proof {
                    lemma_run_out_of_fuel(self.model(), prog);
                }
                return Err(MachineError::StepLimit);
            }
            let line = self.program_lines[self.instruction_pointer].clone();
            proof {
                assert(line@ == prog[self.instruction_pointer as int]);
            }
            steps_left = steps_left - 1;
            let ghost pre = self.model();
            match self.execute_instruction(line.as_str()) {
                Ok(()) => {
                    proof {
                        lemma_run_step_ok(pre, prog, (steps_left + 1) as nat, self.model());
                    }
                },
                Err(e) => {
                    proof {
                        lemma_run_step_err(pre, prog, (steps_left + 1) as nat, e);
                    }
                    return Err(e);
                },
            }
        }
        proof {
            lemma_run_not_running(self.model(), prog, steps_left as nat);
        }
        Ok(())
    }

    /// Enter the Execution phase, set the instruction pointer to
    /// `start_point` (or 0), run the program within `max_steps` steps, and
    /// return to Idle with the running flag cleared.
    pub fn execute_program(&mut self, start_point: Option<usize>, max_steps: usize) -> (r: Result<
        (),
        MachineError,
    >)
        requires
            old(self).wf(),
            old(self).program_lines@.len() + 1 <= usize::MAX,
        ensures
            ({
                let m0 = MState {
                    phase: DeviceState::ExecutionPhase,
                    ip: (match start_point {
                        Some(i) => i as nat,
                        None => 0nat,
                    }),
                    running: true,
                    ..old(self).model()
                };
                let outcome = spec_run(
                    m0,
                    old(self).program_lines.deep_view(),
                    max_steps as nat,
                );
                &&& r == outcome.0
                &&& final(self).wf()
                &&& final(self).model() == (MState {
                    running: false,
                    phase: DeviceState::IdlePhase,
                    ..outcome.1
                })
                &&& final(self).program_lines == old(self).program_lines
            }),
    {
        self.device_state = DeviceState::ExecutionPhase;
        self.instruction_pointer = match start_point {
            Some(i) => i,
            None => 0,
        };
        let ghost m0 = MState {
            phase: DeviceState::ExecutionPhase,
            ip: (match start_point {
                Some(i) => i as nat,
                None => 0nat,
            }),
            running: true,
            ..old(self).model()
        };
        proof {
            assert((MState { running: true, ..self.model() }) =~= m0);
        }
        let r = self.run_program_lines(max_steps);
        self.program_running = false;
        self.device_state = DeviceState::IdlePhase;
        proof {
            let outcome = spec_run(m0, old(self).program_lines.deep_view(), max_steps as nat);
            assert(self.model() =~= (MState {
                running: false,
                phase: DeviceState::IdlePhase,
                ..outcome.1
            }));
        }
        r
    }

    /// Like `execute_program`, but in the Input phase: a program run this
    /// way may write the input bank and nothing else.
    pub fn execute_input_program(&mut self, start_point: Option<usize>, max_steps: usize) -> (r:
        Result<(), MachineError>)
        requires
            old(self).wf(),
            old(self).program_lines@.len() + 1 <= usize::MAX,
        ensures
            ({
                let m0 = MState {
                    phase: DeviceState::InputPhase,
                    ip: (match start_point {
                        Some(i) => i as nat,
                        None => 0nat,
                    }),
                    running: true,
                    ..old(self).model()
                };
                let outcome = spec_run(
                    m0,
                    old(self).program_lines.deep_view(),
                    max_steps as nat,
                );
                &&& r == outcome.0
                &&& final(self).wf()
                &&& final(self).model() == (MState {
                    running: false,
                    phase: DeviceState::IdlePhase,
                    ..outcome.1
                })
                &&& final(self).program_lines == old(self).program_lines
            }),
    {
        self.device_state = DeviceState::InputPhase;
        self.instruction_pointer = match start_point {
            Some(i) => i,
            None => 0,
        };
        let ghost m0 = MState {
            phase: DeviceState::InputPhase,
            ip: (match start_point {
                Some(i) => i as nat,
                None => 0nat,
            }),
            running: true,
            ..old(self).model()
        };
        proof {
            assert((MState { running: true, ..self.model() }) =~= m0);
        }
        let r = self.run_program_lines(max_steps);
        self.program_running = false;
        self.device_state = DeviceState::IdlePhase;
        proof {
            let outcome = spec_run(m0, old(self).program_lines.deep_view(), max_steps as nat);
            assert(self.model() =~= (MState {
                running: false,
                phase: DeviceState::IdlePhase,
                ..outcome.1
            }));
        }
        r
    }
}

/// Evaluate a condition against the flags.
fn eval_cond(f: &Flags, c: Cond) -> (r: bool)
    ensures
        r == flow_holds(*f, c),
{
    match c {
        Cond::Equal => f.equal,
        Cond::NotEqual => !f.equal,
        Cond::Greater => f.greater,
        Cond::GreaterOrEqual => f.equal || f.greater,
        Cond::Less => !f.greater && !f.equal,
        Cond::LessOrEqual => !f.greater,
        Cond::Carry => f.carry,
        Cond::NoCarry => !f.carry,
        Cond::Underflow => f.underflow,
        Cond::NoUnderflow => !f.underflow,
        Cond::Always => true,
    }
}

// ---------------------------------------------------------------------------
// Laws
// ---------------------------------------------------------------------------
/// The variable/bit contribution to the memory footprint: the variable
/// bank's total high-water width plus one bit per bit-bank slot.
pub open spec fn exec_footprint(m: MState) -> nat {
    marks_sum(m.vars) + m.bits.len()
}

proof fn lemma_marks_sum_update(bank: Seq<Slot>, i: int, s: Slot)
    requires
        0 <= i < bank.len(),
        s.mark >= bank[i].mark,
    ensures
        marks_sum(bank.update(i, s)) >= marks_sum(bank),
    decreases bank.len(),
{
    let u = bank.update(i, s);
    if i == bank.len() - 1 {
        assert(u.drop_last() =~= bank.drop_last());
        assert(u.last() == s);
    } else {
        assert(u.drop_last() =~= bank.drop_last().update(i, s));
        assert(u.last() == bank.last());
        lemma_marks_sum_update(bank.drop_last(), i, s);
    }
}

proof fn lemma_marks_sum_push(bank: Seq<Slot>, s: Slot)
    ensures
        marks_sum(bank.push(s)) == marks_sum(bank) + s.mark,
{
    assert(bank.push(s).drop_last() =~= bank);
    assert(bank.push(s).last() == s);
}

proof fn lemma_spec_write_footprint(m: MState, op: Operand, v: u32)
    requires
        spec_write(m, op, v) is Ok,
    ensures
        ({
            let m2 = spec_write(m, op, v)->Ok_0;
            &&& exec_footprint(m2) >= exec_footprint(m)
            &&& m.phase != DeviceState::ExecutionPhase ==> exec_footprint(m2) == exec_footprint(m)
            &&& m2.phase == m.phase
        }),
{
    match op {
        Operand::Var(i) => {
            if (i as nat) < m.vars.len() {
                let stored = bank_write(m.vars, i as nat, v)->Ok_0[i as int];
                lemma_marks_sum_update(m.vars, i as int, stored);
            } else {
                lemma_marks_sum_push(m.vars, Slot { value: v, mark: min_width(v as nat) });
            }
        },
        Operand::Bit(i) => {
            if (i as nat) < m.bits.len() {
            } else {
            }
        },
        Operand::Input(_) => {},
        Operand::Imm(_) => {},
    }
}

/// Law: an executed instruction never shrinks the variable/bit memory
/// footprint, never changes the phase, and outside the Execution phase
/// never changes that footprint at all: it grows only through bank writes
/// made during the Execution phase.
pub proof fn lemma_footprint_monotone(m: MState, instr: Instr)
    requires
        spec_step(m, instr) is Ok,
    ensures
        ({
            let m2 = spec_step(m, instr)->Ok_0;
            &&& exec_footprint(m2) >= exec_footprint(m)
            &&& m.phase != DeviceState::ExecutionPhase ==> exec_footprint(m2) == exec_footprint(m)
            &&& m2.phase == m.phase
        }),
{
    match instr {
        Instr::Non => {},
        Instr::Assign(d, s) => {
            lemma_spec_write_footprint(m, d, spec_read(m, s)->Ok_0);
        },
        Instr::StoreLen(d, s) => {
            lemma_spec_write_footprint(m, d, min_width(spec_read(m, s)->Ok_0 as nat) as u32);
        },
        Instr::StoreNthBit(d, s, n) => {
            let sv = spec_read(m, s)->Ok_0;
            let nv = spec_read(m, n)->Ok_0;
            let bit: u32 = if (nv as nat) < min_width(sv as nat) && crate::bits::nth_bit(
                sv as nat,
                nv as nat,
            ) {
                1
            } else {
                0
            };
            lemma_spec_write_footprint(m, d, bit);
        },
        Instr::IntAdd(d, s) => {
            let sv = spec_read(m, s)->Ok_0;
            let dv = spec_read(m, d)->Ok_0;
            lemma_spec_write_footprint(m, d, (sv + dv) as u32);
        },
        Instr::IntSub(d, s) => {
            let sv = spec_read(m, s)->Ok_0;
            let dv = spec_read(m, d)->Ok_0;
            lemma_spec_write_footprint(m, d, (dv - sv) as u32);
        },
        Instr::BitAdd(d, s) => {
            let sv = spec_read(m, s)->Ok_0;
            let dv = spec_read(m, d)->Ok_0;
            let t = sv + dv + (if m.flags.carry {
                1int
            } else {
                0
            });
            let rv: u32 = if t >= 2 {
                (t - 2) as u32
            } else {
                t as u32
            };
            lemma_spec_write_footprint(m, d, rv);
        },
        Instr::BitSub(d, s) => {
            let sv = spec_read(m, s)->Ok_0;
            let dv = spec_read(m, d)->Ok_0;
            let diff = sv - dv - (if m.flags.underflow {
                1int
            } else {
                0
            });
            let rv: u32 = if diff < 0 {
                (diff + 2) as u32
            } else {
                diff as u32
            };
            lemma_spec_write_footprint(m, d, rv);
        },
        Instr::ShiftLeft(d, s) => {
            let sv = spec_read(m, s)->Ok_0;
            let dv = spec_read(m, d)->Ok_0;
            lemma_spec_write_footprint(m, d, dv << sv);
        },
        Instr::ShiftRight(d, s) => {
            let sv = spec_read(m, s)->Ok_0;
            let dv = spec_read(m, d)->Ok_0;
            lemma_spec_write_footprint(m, d, dv >> sv);
        },
        Instr::ClearFlags => {},
        Instr::Compare(_, _) => {},
        Instr::Jump(_) => {},
        Instr::SkipIf(_) => {},
        Instr::End => {},
    }
}

/// Law: across a whole run, the variable/bit footprint never shrinks, the
/// phase never changes, and a run outside the Execution phase leaves the
/// footprint exactly as it was.
pub proof fn lemma_run_footprint(m: MState, prog: Seq<Seq<char>>, fuel: nat)
    ensures
        ({
            let mf = spec_run(m, prog, fuel).1;
            &&& exec_footprint(mf) >= exec_footprint(m)
            &&& m.phase != DeviceState::ExecutionPhase ==> exec_footprint(mf) == exec_footprint(m)
            &&& mf.phase == m.phase
        }),
    decreases fuel,
{
    reveal(spec_run);
    if !m.running || m.ip >= prog.len() || fuel == 0 {
    } else {
        match spec_exec_line(m, prog[m.ip as int]) {
            Err(_) => {},
            Ok(m2) => {
                let instr = spec_parse_instr(prog[m.ip as int])->Ok_0;
                lemma_footprint_monotone(m, instr);
                lemma_run_footprint(m2, prog, (fuel - 1) as nat);
            },
        }
    }
}

/// Law: with both banks cleared, the variable/bit footprint is zero,
/// whatever ran before.
pub proof fn lemma_cleared_footprint(m: MState)
    requires
        m.vars == Seq::<Slot>::empty(),
        m.bits == Seq::<Slot>::empty(),
    ensures
        exec_footprint(m) == 0,
{
}

/// Law: binary addition on 0/1 operands matches the full-adder truth
/// table: for every destination bit `d`, source bit `s` and incoming Carry
/// `c`, the stored result is `(d + s + c) mod 2` and the new Carry is
/// `d + s + c >= 2`.
pub proof fn lemma_bit_add_full_adder(m: MState, i: u32, s: u32)
    requires
        m.phase == DeviceState::ExecutionPhase,
        (i as nat) < m.bits.len(),
        m.bits[i as int].value <= 1,
        s <= 1,
    ensures
        ({
            let d = m.bits[i as int].value;
            let t = d + s + (if m.flags.carry {
                1int
            } else {
                0
            });
            let r = spec_step(m, Instr::BitAdd(Operand::Bit(i), Operand::Imm(s)));
            &&& r is Ok
            &&& r->Ok_0.bits[i as int].value == t % 2
            &&& r->Ok_0.flags.carry == (t >= 2)
            &&& r->Ok_0.ip == m.ip + 1
        }),
{
    let d = m.bits[i as int].value;
    let t = d + s + (if m.flags.carry {
        1int
    } else {
        0
    });
    let rv: u32 = if t >= 2 {
        (t - 2) as u32
    } else {
        t as u32
    };
    assert(rv == t % 2);
    assert(spec_write(m, Operand::Bit(i), rv) is Ok);
}

/// Law: binary subtraction on 0/1 operands matches the full-subtractor
/// truth table: for every destination bit `d`, source bit `s` and incoming
/// Underflow `u`, with `v = s - d - u` the stored result is `v + 2` when
/// `v < 0` (setting Underflow) and `v` otherwise (clearing it); `v` never
/// falls below -2, the representable borrow range.
pub proof fn lemma_bit_sub_full_subtractor(m: MState, i: u32, s: u32)
    requires
        m.phase == DeviceState::ExecutionPhase,
        (i as nat) < m.bits.len(),
        m.bits[i as int].value <= 1,
        s <= 1,
    ensures
        ({
            let d = m.bits[i as int].value;
            let v = s - d - (if m.flags.underflow {
                1int
            } else {
                0
            });
            let r = spec_step(m, Instr::BitSub(Operand::Bit(i), Operand::Imm(s)));
            &&& v >= -2
            &&& r is Ok
            &&& r->Ok_0.bits[i as int].value == (if v < 0 {
                v + 2
            } else {
                v
            })
            &&& r->Ok_0.flags.underflow == (v < 0)
            &&& r->Ok_0.ip == m.ip + 1
        }),
{
    let d = m.bits[i as int].value;
    let v = s - d - (if m.flags.underflow {
        1int
    } else {
        0
    });
    let rv: u32 = if v < 0 {
        (v + 2) as u32
    } else {
        v as u32
    };
    assert(rv <= 1);
    assert(spec_write(m, Operand::Bit(i), rv) is Ok);
}

/// Law: binary arithmetic rejects any operand outside {0, 1} with a domain
/// fault, for addition and subtraction alike.
pub proof fn lemma_bit_arith_rejects(m: MState, i: u32, s: u32)
    requires
        (i as nat) < m.bits.len(),
        s > 1 || m.bits[i as int].value > 1,
    ensures
        spec_step(m, Instr::BitAdd(Operand::Bit(i), Operand::Imm(s))) == Err::<
            MState,
            MachineError,
        >(MachineError::Domain),
        spec_step(m, Instr::BitSub(Operand::Bit(i), Operand::Imm(s))) == Err::<
            MState,
            MachineError,
        >(MachineError::Domain),
{
}

/// Law: when a `jon` condition holds of the flags, the instruction pointer
/// advances by two lines, so the instruction immediately following `jon` is
/// skipped and never executed next; when it does not hold, the pointer
/// advances by one line and that instruction is executed immediately next.
/// Nothing else of the state changes.
pub proof fn lemma_skip_on_condition(m: MState, c: Cond)
    ensures
        ({
            let r = spec_step(m, Instr::SkipIf(c));
            &&& r is Ok
            &&& r->Ok_0 == (MState {
                ip: m.ip + (if flow_holds(m.flags, c) {
                    2nat
                } else {
                    1
                }),
                ..m
            })
        }),
{
}

/// Law: outside the Input phase no instruction can change the input bank,
/// and no instruction ever changes the input-loaded flag. Together with the
/// footprint law this makes repeated runs observably independent: after
/// clearing execution memory, a run's outcome depends only on the loaded
/// program, the input bank, and the start point.
pub proof fn lemma_step_preserves_inputs(m: MState, instr: Instr)
    requires
        spec_step(m, instr) is Ok,
        m.phase != DeviceState::InputPhase,
    ensures
        spec_step(m, instr)->Ok_0.inputs == m.inputs,
        spec_step(m, instr)->Ok_0.has_input == m.has_input,
{
}

/// Law: a whole run outside the Input phase leaves the input bank and the
/// input-loaded flag exactly as they were.
pub proof fn lemma_run_preserves_inputs(m: MState, prog: Seq<Seq<char>>, fuel: nat)
    requires
        m.phase != DeviceState::InputPhase,
    ensures
        spec_run(m, prog, fuel).1.inputs == m.inputs,
        spec_run(m, prog, fuel).1.has_input == m.has_input,
    decreases fuel,
{
    reveal(spec_run);
    if !m.running || m.ip >= prog.len() || fuel == 0 {
    } else {
        match spec_exec_line(m, prog[m.ip as int]) {
            Err(_) => {},
            Ok(m2) => {
                let instr = spec_parse_instr(prog[m.ip as int])->Ok_0;
                lemma_step_preserves_inputs(m, instr);
                lemma_footprint_monotone(m, instr);
                lemma_run_preserves_inputs(m2, prog, (fuel - 1) as nat);
            },
        }
    }
}

} // verus!
