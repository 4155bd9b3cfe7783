//! The bit-value representation and the line-level text handling.

use munin::parse::{parse_instruction, Cond, Instr, Operand};
use munin::text::{parse_dec_u32, parse_hex_u32, to_dec_string, tokenize};
use munin::MachineError;
use munin::Variable;

fn expected_bit_length(n: u32) -> usize {
    if n == 0 {
        1
    } else {
        (32 - n.leading_zeros()) as usize
    }
}

#[test]
fn bit_length_is_floor_log2_plus_one() {
    let samples = [
        0u32,
        1,
        2,
        3,
        4,
        5,
        7,
        8,
        0x80,
        0x81,
        0xff,
        0x8000,
        0x8001,
        65535,
        1 << 20,
        (1 << 31) - 1,
        1 << 31,
        u32::MAX,
    ];
    for &n in samples.iter() {
        let bits = Variable::u32_to_bits(n);
        assert_eq!(bits.len(), expected_bit_length(n));
    }
}

#[test]
fn bit_round_trip_recovers_value() {
    let samples = [0u32, 1, 2, 3, 5, 8, 100, 0x80, 0x8000, 123456789, u32::MAX];
    for &n in samples.iter() {
        let bits = Variable::u32_to_bits(n);
        assert_eq!(Variable::bits_to_u32(bits), n);
    }
}

#[test]
fn bits_are_least_significant_first() {
    let bits = Variable::u32_to_bits(5);
    assert_eq!(bits.len(), 3);
    assert_eq!(bits[0], true);
    assert_eq!(bits[1], false);
    assert_eq!(bits[2], true);

    let zero = Variable::u32_to_bits(0);
    assert_eq!(zero.len(), 1);
    assert_eq!(zero[0], false);
}

#[test]
fn bits_to_u32_reads_any_bit_vector() {
    let mut bv = bit_vec::BitVec::from_elem(4, false);
    bv.set(1, true);
    bv.set(3, true);
    assert_eq!(Variable::bits_to_u32(bv), 10);
}

#[test]
fn tokenize_splits_on_whitespace() {
    let ts = tokenize("  set   v0\t3 ");
    let got: Vec<&str> = ts.iter().map(|s| s.as_str()).collect();
    assert_eq!(got, vec!["set", "v0", "3"]);
    assert_eq!(tokenize("").len(), 0);
    assert_eq!(tokenize("   \t ").len(), 0);
}

#[test]
fn decimal_parsing_accepts_exactly_u32() {
    assert_eq!(parse_dec_u32("0"), Some(0));
    assert_eq!(parse_dec_u32("42"), Some(42));
    assert_eq!(parse_dec_u32("4294967295"), Some(u32::MAX));
    assert_eq!(parse_dec_u32("4294967296"), None);
    assert_eq!(parse_dec_u32(""), None);
    assert_eq!(parse_dec_u32("-1"), None);
    assert_eq!(parse_dec_u32("12x"), None);
}

#[test]
fn hex_parsing_accepts_both_cases() {
    assert_eq!(parse_hex_u32("ff"), Some(255));
    assert_eq!(parse_hex_u32("FF"), Some(255));
    assert_eq!(parse_hex_u32("DeadBeef"), Some(0xdead_beef));
    assert_eq!(parse_hex_u32("ffffffff"), Some(u32::MAX));
    assert_eq!(parse_hex_u32("100000000"), None);
    assert_eq!(parse_hex_u32(""), None);
    assert_eq!(parse_hex_u32("g"), None);
}

#[test]
fn decimal_rendering_round_trips() {
    for &n in [0u32, 1, 9, 10, 99, 100, 12345, u32::MAX].iter() {
        let s = to_dec_string(n as u64);
        assert_eq!(parse_dec_u32(s.as_str()), Some(n));
    }
    assert_eq!(to_dec_string(0).as_str(), "0");
    assert_eq!(to_dec_string(12345).as_str(), "12345");
}

#[test]
fn instruction_decoding_recognizes_the_vocabulary() {
    assert_eq!(
        parse_instruction("set v0 3"),
        Ok(Instr::Assign(Operand::Var(0), Operand::Imm(3)))
    );
    assert_eq!(
        parse_instruction("stnb b1 i2 0x4"),
        Ok(Instr::StoreNthBit(Operand::Bit(1), Operand::Input(2), Operand::Imm(4)))
    );
    assert_eq!(
        parse_instruction("badc b0 b1"),
        Ok(Instr::BitAdd(Operand::Bit(0), Operand::Bit(1)))
    );
    assert_eq!(
        parse_instruction("bsbu b0 b1"),
        Ok(Instr::BitSub(Operand::Bit(0), Operand::Bit(1)))
    );
    assert_eq!(parse_instruction("jon"), Ok(Instr::SkipIf(Cond::Always)));
    assert_eq!(parse_instruction("jon nu"), Ok(Instr::SkipIf(Cond::NoUnderflow)));
    assert_eq!(parse_instruction("non"), Ok(Instr::Non));
    assert_eq!(parse_instruction("end"), Ok(Instr::End));
    assert_eq!(parse_instruction("jmp 7"), Ok(Instr::Jump(Operand::Imm(7))));
}

#[test]
fn instruction_decoding_rejects_malformed_lines() {
    assert_eq!(parse_instruction("frobnicate v0 3"), Err(MachineError::Syntax));
    assert_eq!(parse_instruction(""), Err(MachineError::Syntax));
    assert_eq!(parse_instruction("set v 3"), Err(MachineError::Syntax));
    assert_eq!(parse_instruction("set v0"), Err(MachineError::Syntax));
    assert_eq!(parse_instruction("set v0 0x"), Err(MachineError::Syntax));
    assert_eq!(parse_instruction("jon q"), Err(MachineError::Domain));
}

#[test]
fn error_messages_name_each_fault() {
    let all = [
        MachineError::Syntax,
        MachineError::UnresolvedLabel,
        MachineError::OutOfRange,
        MachineError::Domain,
        MachineError::PhaseViolation,
        MachineError::StepLimit,
    ];
    for (i, a) in all.iter().enumerate() {
        assert!(!a.message().is_empty());
        for (j, b) in all.iter().enumerate() {
            if i != j {
                assert_ne!(a.message(), b.message());
            }
        }
    }
}
