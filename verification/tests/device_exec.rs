//! The execution engine: end-to-end runs, phase gating, the binary
//! arithmetic truth tables, control flow, faults, and footprint accounting.

use munin::{Device, DeviceState, MachineError};

const FUEL: usize = 10_000;

fn program(lines: &[&str]) -> Vec<String> {
    lines.iter().map(|s| s.to_string()).collect()
}

#[test]
fn end_to_end_add_leaves_five() {
    let mut d = Device::new();
    d.load_program(program(&["set v0 3", "set v1 2", "iadd v1 v0", "end"]));
    assert_eq!(d.execute_program(None, FUEL), Ok(()));
    assert_eq!(d.get_source_value("v1"), Ok(5));
    assert!(!d.program_running);
    assert_eq!(d.device_state, DeviceState::IdlePhase);
}

#[test]
fn input_write_outside_input_phase_is_rejected() {
    let mut d = Device::new();
    assert_eq!(d.set_destination("i0", 5), Err(MachineError::PhaseViolation));
    assert_eq!(d.load_input_variable("i0", 5), Ok(()));
    d.load_program(program(&["set v0 i0", "end"]));
    assert_eq!(d.execute_program(None, FUEL), Ok(()));
    assert_eq!(d.get_source_value("v0"), Ok(5));
    assert_eq!(d.get_source_value("i0"), Ok(5));
}

#[test]
fn variable_write_outside_execution_phase_is_rejected() {
    let mut d = Device::new();
    assert_eq!(d.set_destination("v0", 1), Err(MachineError::PhaseViolation));
    assert_eq!(d.set_destination("b0", 1), Err(MachineError::PhaseViolation));
}

#[test]
fn binary_add_matches_full_adder_table() {
    for d_bit in 0u32..2 {
        for s_bit in 0u32..2 {
            for carry_in in [false, true] {
                let mut d = Device::new();
                d.device_state = DeviceState::ExecutionPhase;
                assert_eq!(d.set_destination("b0", d_bit), Ok(()));
                d.flags.carry = carry_in;
                let line = format!("badd b0 {}", s_bit);
                assert_eq!(d.execute_instruction(&line), Ok(()));
                let t = d_bit + s_bit + carry_in as u32;
                assert_eq!(d.get_source_value("b0"), Ok(t % 2));
                assert_eq!(d.flags.carry, t >= 2);
                // badc evaluates identically
                let mut d2 = Device::new();
                d2.device_state = DeviceState::ExecutionPhase;
                assert_eq!(d2.set_destination("b0", d_bit), Ok(()));
                d2.flags.carry = carry_in;
                let line2 = format!("badc b0 {}", s_bit);
                assert_eq!(d2.execute_instruction(&line2), Ok(()));
                assert_eq!(d2.get_source_value("b0"), Ok(t % 2));
                assert_eq!(d2.flags.carry, t >= 2);
            }
        }
    }
}

#[test]
fn binary_sub_matches_full_subtractor_table() {
    for d_bit in 0i32..2 {
        for s_bit in 0i32..2 {
            for under_in in [false, true] {
                for mnemonic in ["bsub", "bsbu"] {
                    let mut d = Device::new();
                    d.device_state = DeviceState::ExecutionPhase;
                    assert_eq!(d.set_destination("b0", d_bit as u32), Ok(()));
                    d.flags.underflow = under_in;
                    let line = format!("{} b0 {}", mnemonic, s_bit);
                    assert_eq!(d.execute_instruction(&line), Ok(()));
                    let v = s_bit - d_bit - under_in as i32;
                    assert!(v >= -2);
                    let expected = if v < 0 { v + 2 } else { v };
                    assert_eq!(d.get_source_value("b0"), Ok(expected as u32));
                    assert_eq!(d.flags.underflow, v < 0);
                }
            }
        }
    }
}

#[test]
fn binary_arithmetic_rejects_non_bit_operands() {
    let mut d = Device::new();
    d.device_state = DeviceState::ExecutionPhase;
    assert_eq!(d.set_destination("v0", 2), Ok(()));
    assert_eq!(d.set_destination("b0", 1), Ok(()));
    assert_eq!(d.execute_instruction("badd b0 v0"), Err(MachineError::Domain));
    assert_eq!(d.execute_instruction("bsub b0 v0"), Err(MachineError::Domain));
    assert_eq!(d.execute_instruction("badd b0 2"), Err(MachineError::Domain));
    assert_eq!(d.set_destination("b0", 2), Err(MachineError::Domain));
}

#[test]
fn skip_on_condition_true_skips_next_instruction() {
    let mut d = Device::new();
    d.load_program(program(&["set v0 1", "cmp 1 1", "jon e", "set v0 9", "end"]));
    assert_eq!(d.execute_program(None, FUEL), Ok(()));
    assert_eq!(d.get_source_value("v0"), Ok(1));
}

#[test]
fn skip_on_condition_false_executes_next_instruction() {
    let mut d = Device::new();
    d.load_program(program(&["set v0 1", "cmp 1 1", "jon ne", "set v0 9", "end"]));
    assert_eq!(d.execute_program(None, FUEL), Ok(()));
    assert_eq!(d.get_source_value("v0"), Ok(9));
}

#[test]
fn unconditional_skip_always_skips() {
    let mut d = Device::new();
    d.load_program(program(&["set v0 1", "jon", "set v0 9", "end"]));
    assert_eq!(d.execute_program(None, FUEL), Ok(()));
    assert_eq!(d.get_source_value("v0"), Ok(1));
}

#[test]
fn jump_is_absolute_and_does_not_advance() {
    let mut d = Device::new();
    d.load_program(program(&["set v0 1", "jmp 3", "set v0 9", "end"]));
    assert_eq!(d.execute_program(None, FUEL), Ok(()));
    assert_eq!(d.get_source_value("v0"), Ok(1));
}

#[test]
fn comparison_and_conditions() {
    let mut d = Device::new();
    d.load_program(program(&["cmp 3 2", "end"]));
    assert_eq!(d.execute_program(None, FUEL), Ok(()));
    assert!(!d.flags.equal);
    assert!(d.flags.greater);
    assert_eq!(d.check_flow_condition("g"), Ok(true));
    assert_eq!(d.check_flow_condition("ge"), Ok(true));
    assert_eq!(d.check_flow_condition("l"), Ok(false));
    assert_eq!(d.check_flow_condition("le"), Ok(false));
    assert_eq!(d.check_flow_condition("e"), Ok(false));
    assert_eq!(d.check_flow_condition("ne"), Ok(true));
    assert_eq!(d.check_flow_condition(""), Ok(true));
    assert_eq!(d.check_flow_condition("sideways"), Err(MachineError::Domain));
}

#[test]
fn clear_flags_resets_all_four() {
    let mut d = Device::new();
    d.flags.equal = true;
    d.flags.greater = true;
    d.flags.carry = true;
    d.flags.underflow = true;
    d.load_program(program(&["clf", "end"]));
    assert_eq!(d.execute_program(None, FUEL), Ok(()));
    assert!(!d.flags.equal && !d.flags.greater && !d.flags.carry && !d.flags.underflow);
}

#[test]
fn store_length_and_nth_bit() {
    let mut d = Device::new();
    d.load_program(program(&[
        "set v0 0x8000",
        "stl v1 v0",
        "stnb b0 5 0",
        "stnb b1 5 1",
        "stnb b2 5 9",
        "end",
    ]));
    assert_eq!(d.execute_program(None, FUEL), Ok(()));
    assert_eq!(d.get_source_value("v1"), Ok(16));
    assert_eq!(d.get_source_value("b0"), Ok(1));
    assert_eq!(d.get_source_value("b1"), Ok(0));
    assert_eq!(d.get_source_value("b2"), Ok(0));
}

#[test]
fn shifts_move_bits() {
    let mut d = Device::new();
    d.load_program(program(&["set v0 5", "bsl v0 2", "set v1 5", "bsr v1 1", "end"]));
    assert_eq!(d.execute_program(None, FUEL), Ok(()));
    assert_eq!(d.get_source_value("v0"), Ok(20));
    assert_eq!(d.get_source_value("v1"), Ok(2));
    let mut d2 = Device::new();
    d2.load_program(program(&["set v0 1", "bsl v0 32", "end"]));
    assert_eq!(d2.execute_program(None, FUEL), Err(MachineError::Domain));
}

#[test]
fn integer_arithmetic_faults_leave_a_typed_error() {
    let mut d = Device::new();
    d.load_program(program(&["set v0 1", "isub v0 2", "end"]));
    assert_eq!(d.execute_program(None, FUEL), Err(MachineError::Domain));
    let mut d2 = Device::new();
    d2.load_program(program(&["set v0 0xffffffff", "iadd v0 1", "end"]));
    assert_eq!(d2.execute_program(None, FUEL), Err(MachineError::Domain));
}

#[test]
fn bank_reads_and_writes_are_bounds_checked() {
    let mut d = Device::new();
    d.load_program(program(&["set v0 v5", "end"]));
    assert_eq!(d.execute_program(None, FUEL), Err(MachineError::OutOfRange));
    let mut d2 = Device::new();
    d2.load_program(program(&["set v3 1", "end"]));
    assert_eq!(d2.execute_program(None, FUEL), Err(MachineError::OutOfRange));
    let mut d3 = Device::new();
    d3.load_program(program(&["set v0 1", "set v1 2", "set v1 3", "end"]));
    assert_eq!(d3.execute_program(None, FUEL), Ok(()));
    assert_eq!(d3.get_source_value("v1"), Ok(3));
}

#[test]
fn running_past_the_end_is_a_bounds_fault() {
    let mut d = Device::new();
    d.load_program(program(&["set v0 1"]));
    assert_eq!(d.execute_program(None, FUEL), Err(MachineError::OutOfRange));
}

#[test]
fn a_program_that_never_ends_exhausts_its_budget() {
    let mut d = Device::new();
    d.load_program(program(&["jmp 0", "end"]));
    assert_eq!(d.execute_program(None, 100), Err(MachineError::StepLimit));
    assert_eq!(d.device_state, DeviceState::IdlePhase);
    assert!(!d.program_running);
}

#[test]
fn start_point_selects_the_first_instruction() {
    let mut d = Device::new();
    d.load_program(program(&["set v0 9", "set v1 1", "end"]));
    // Started at line 1, line 0 never runs, so v0 is never created and v1
    // is appended as the first slot of the bank? No: v1 names index 1, and
    // the bank is empty, so the write is out of range.
    assert_eq!(d.execute_program(Some(1), FUEL), Err(MachineError::OutOfRange));
    let mut d2 = Device::new();
    d2.load_program(program(&["set v0 9", "set v0 1", "end"]));
    assert_eq!(d2.execute_program(Some(1), FUEL), Ok(()));
    assert_eq!(d2.get_source_value("v0"), Ok(1));
}

#[test]
fn comment_lines_are_excluded_on_load() {
    let mut d = Device::new();
    d.load_program(program(&["; a comment", "set v0 1", ";; another", "end"]));
    assert_eq!(d.program_lines.len(), 2);
    assert_eq!(d.execute_program(None, FUEL), Ok(()));
    assert_eq!(d.get_source_value("v0"), Ok(1));
}

#[test]
fn input_loading_appends_and_overwrites() {
    let mut d = Device::new();
    assert_eq!(d.load_input_variable("i0", 5), Ok(()));
    assert_eq!(d.load_input_variable("i1", 7), Ok(()));
    assert_eq!(d.load_input_variable("i5", 1), Err(MachineError::OutOfRange));
    assert_eq!(d.load_input_variable("i0", 2), Ok(()));
    assert_eq!(d.load_input_variable("00", 9), Ok(()));
    assert_eq!(d.get_source_value("i0"), Ok(9));
    assert_eq!(d.get_source_value("i1"), Ok(7));
    assert_eq!(d.load_input_variable("ix", 1), Err(MachineError::Syntax));
    assert!(d.has_loaded_input);
    assert_eq!(d.device_state, DeviceState::IdlePhase);
}

#[test]
fn footprint_counts_high_water_marks() {
    let mut d = Device::new();
    assert_eq!(d.load_input_variable("i0", 5), Ok(()));
    d.load_program(program(&["set v0 3", "set b0 1", "set v0 1", "end"]));
    assert_eq!(d.execute_program(None, FUEL), Ok(()));
    let (input_bits, flag_bits, exec_bits) = d.count_touched_memory();
    assert_eq!(input_bits, 3); // 5 needs three bits
    assert_eq!(flag_bits, 4);
    assert_eq!(exec_bits, 3); // v0 peaked at two bits, plus one bit slot
}

#[test]
fn clearing_execution_memory_zeroes_its_footprint() {
    let mut d = Device::new();
    assert_eq!(d.load_input_variable("i0", 5), Ok(()));
    d.load_program(program(&["set v0 1000", "set b0 1", "end"]));
    assert_eq!(d.execute_program(None, FUEL), Ok(()));
    let (_, _, exec_before) = d.count_touched_memory();
    assert!(exec_before > 0);
    d.clear_device_execution_memory();
    let (input_bits, flag_bits, exec_bits) = d.count_touched_memory();
    assert_eq!(exec_bits, 0);
    assert_eq!(flag_bits, 4);
    assert_eq!(input_bits, 3);
    assert!(!d.flags.carry && !d.flags.equal && !d.flags.greater && !d.flags.underflow);
    d.clear_device_inputs();
    let (input_after, _, _) = d.count_touched_memory();
    assert_eq!(input_after, 0);
}

#[test]
fn runs_are_independent_after_reset_and_reload() {
    let mut d = Device::new();
    d.load_program(program(&["set v0 i0", "iadd v0 v0", "end"]));
    for input in [1u32, 2, 8, 0x80, 0x8000] {
        d.clear_device_execution_memory();
        assert_eq!(d.load_input_variable("i0", input), Ok(()));
        assert_eq!(d.execute_program(None, FUEL), Ok(()));
        assert_eq!(d.get_source_value("v0"), Ok(input + input));
    }
}

#[test]
fn input_program_may_write_inputs_but_not_variables() {
    let mut d = Device::new();
    d.load_program(program(&["set i0 41", "end"]));
    assert_eq!(d.execute_input_program(None, FUEL), Ok(()));
    assert_eq!(d.get_source_value("i0"), Ok(41));
    let mut d2 = Device::new();
    d2.load_program(program(&["set v0 1", "end"]));
    assert_eq!(d2.execute_input_program(None, FUEL), Err(MachineError::PhaseViolation));
}

#[test]
fn unknown_opcode_is_a_syntax_fault() {
    let mut d = Device::new();
    d.load_program(program(&["bogus v0 1", "end"]));
    assert_eq!(d.execute_program(None, FUEL), Err(MachineError::Syntax));
    let mut d2 = Device::new();
    d2.load_program(program(&["set 5 1", "end"]));
    assert_eq!(d2.execute_program(None, FUEL), Err(MachineError::Syntax));
}

#[test]
fn jump_target_may_come_from_a_bank() {
    let mut d = Device::new();
    d.load_program(program(&["set v0 3", "jmp v0", "set v0 9", "end"]));
    assert_eq!(d.execute_program(None, FUEL), Ok(()));
    assert_eq!(d.get_source_value("v0"), Ok(3));
}

#[test]
fn storing_a_wide_length_into_the_bit_bank_is_a_domain_fault() {
    let mut d = Device::new();
    d.load_program(program(&["set v0 4", "stl b0 v0", "end"]));
    assert_eq!(d.execute_program(None, FUEL), Err(MachineError::Domain));
    let mut d2 = Device::new();
    d2.load_program(program(&["set v0 1", "stl b0 v0", "end"]));
    assert_eq!(d2.execute_program(None, FUEL), Ok(()));
    assert_eq!(d2.get_source_value("b0"), Ok(1));
}
