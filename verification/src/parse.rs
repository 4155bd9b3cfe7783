//! Decoding one final-form instruction line: operands, condition codes, and
//! the opcode vocabulary of the execution engine.

use crate::error::MachineError;
use crate::text::{
    parse_dec_u32, parse_hex_u32, spec_parse_dec, spec_parse_hex, spec_tokens, str_eq, tok,
    tokenize,
};
use vstd::prelude::*;
use vstd::string::StrSliceExecFns;

verus! {

/// A resolved operand: a bank reference (`v<N>`, `b<N>`, `i<N>`) or an
/// immediate value (hexadecimal when prefixed `0x`, decimal otherwise).
#[derive(Clone, Copy, Debug, PartialEq, Eq, Structural)]
pub enum Operand {
    Var(u32),
    Bit(u32),
    Input(u32),
    Imm(u32),
}

/// A condition evaluated against the flag register by `jon`.
#[derive(Clone, Copy, Debug, PartialEq, Eq, Structural)]
pub enum Cond {
    Equal,
    NotEqual,
    Greater,
    GreaterOrEqual,
    Less,
    LessOrEqual,
    Carry,
    NoCarry,
    Underflow,
    NoUnderflow,
    Always,
}

/// One decoded instruction of the final vocabulary. `badc` decodes like
/// `badd` and `bsbu` like `bsub`: the source keeps them as distinct
/// mnemonics with identical evaluation.
#[derive(Clone, Copy, Debug, PartialEq, Eq, Structural)]
pub enum Instr {
    /// A no-op line: what a declaration lowers to.
    Non,
    /// `set d s`
    Assign(Operand, Operand),
    /// `stl d s`
    StoreLen(Operand, Operand),
    /// `stnb d s n`
    StoreNthBit(Operand, Operand, Operand),
    /// `iadd d s`
    IntAdd(Operand, Operand),
    /// `isub d s`
    IntSub(Operand, Operand),
    /// `badd d s` / `badc d s`
    BitAdd(Operand, Operand),
    /// `bsub d s` / `bsbu d s`
    BitSub(Operand, Operand),
    /// `bsl d s`
    ShiftLeft(Operand, Operand),
    /// `bsr d s`
    ShiftRight(Operand, Operand),
    /// `clf`
    ClearFlags,
    /// `cmp a b`
    Compare(Operand, Operand),
    /// `jmp target`
    Jump(Operand),
    /// `jon cond`
    SkipIf(Cond),
    /// `end`
    End,
}

/// Reading an operand token, defined exactly when the token is a bank
/// reference with a decimal index or an immediate numeral that fits in 32
/// bits.
pub open spec fn spec_operand(t: Seq<char>) -> Option<Operand> {
    if t.len() == 0 {
        None
    } else if t[0] == 'v' {
        match spec_parse_dec(t.subrange(1, t.len() as int)) {
            Some(i) => Some(Operand::Var(i)),
            None => None,
        }
    } else if t[0] == 'b' {
        match spec_parse_dec(t.subrange(1, t.len() as int)) {
            Some(i) => Some(Operand::Bit(i)),
            None => None,
        }
    } else if t[0] == 'i' {
        match spec_parse_dec(t.subrange(1, t.len() as int)) {
            Some(i) => Some(Operand::Input(i)),
            None => None,
        }
    } else if t.len() >= 2 && t[0] == '0' && t[1] == 'x' {
        match spec_parse_hex(t.subrange(2, t.len() as int)) {
            Some(v) => Some(Operand::Imm(v)),
            None => None,
        }
    } else {
        match spec_parse_dec(t) {
            Some(v) => Some(Operand::Imm(v)),
            None => None,
        }
    }
}

/// Reading a condition token. The empty token means "always".
pub open spec fn spec_cond(t: Seq<char>) -> Option<Cond> {
    if t.len() == 0 {
        Some(Cond::Always)
    } else if t == "e"@ {
        Some(Cond::Equal)
    } else if t == "ne"@ {
        Some(Cond::NotEqual)
    } else if t == "g"@ {
        Some(Cond::Greater)
    } else if t == "ge"@ {
        Some(Cond::GreaterOrEqual)
    } else if t == "l"@ {
        Some(Cond::Less)
    } else if t == "le"@ {
        Some(Cond::LessOrEqual)
    } else if t == "c"@ {
        Some(Cond::Carry)
    } else if t == "nc"@ {
        Some(Cond::NoCarry)
    } else if t == "u"@ {
        Some(Cond::Underflow)
    } else if t == "nu"@ {
        Some(Cond::NoUnderflow)
    } else {
        None
    }
}

/// Pair up to two operand tokens, failing as a unit.
pub open spec fn spec_two_operands(a: Seq<char>, b: Seq<char>) -> Option<(Operand, Operand)> {
    match (spec_operand(a), spec_operand(b)) {
        (Some(x), Some(y)) => Some((x, y)),
        _ => None,
    }
}

/// Decoding one instruction line: the line is split into tokens, missing
/// operand positions read as empty tokens, and the first token selects the
/// opcode. An unknown first token or a malformed operand is a syntax fault;
/// an unknown condition code is a domain fault.
pub open spec fn spec_parse_instr(line: Seq<char>) -> Result<Instr, MachineError> {
    let ts = spec_tokens(line);
    let t0 = tok(ts, 0);
    if ts.len() == 0 {
        Err(MachineError::Syntax)
    } else if t0 == "non"@ {
        Ok(Instr::Non)
    } else if t0 == "set"@ {
        match spec_two_operands(tok(ts, 1), tok(ts, 2)) {
            Some((d, s)) => Ok(Instr::Assign(d, s)),
            None => Err(MachineError::Syntax),
        }
    } else if t0 == "stl"@ {
        match spec_two_operands(tok(ts, 1), tok(ts, 2)) {
            Some((d, s)) => Ok(Instr::StoreLen(d, s)),
            None => Err(MachineError::Syntax),
        }
    } else if t0 == "stnb"@ {
        match (spec_operand(tok(ts, 1)), spec_operand(tok(ts, 2)), spec_operand(tok(ts, 3))) {
            (Some(d), Some(s), Some(n)) => Ok(Instr::StoreNthBit(d, s, n)),
            _ => Err(MachineError::Syntax),
        }
    } else if t0 == "iadd"@ {
        match spec_two_operands(tok(ts, 1), tok(ts, 2)) {
            Some((d, s)) => Ok(Instr::IntAdd(d, s)),
            None => Err(MachineError::Syntax),
        }
    } else if t0 == "isub"@ {
        match spec_two_operands(tok(ts, 1), tok(ts, 2)) {
            Some((d, s)) => Ok(Instr::IntSub(d, s)),
            None => Err(MachineError::Syntax),
        }
    } else if t0 == "badd"@ || t0 == "badc"@ {
        match spec_two_operands(tok(ts, 1), tok(ts, 2)) {
            Some((d, s)) => Ok(Instr::BitAdd(d, s)),
            None => Err(MachineError::Syntax),
        }
    } else if t0 == "bsub"@ || t0 == "bsbu"@ {
        match spec_two_operands(tok(ts, 1), tok(ts, 2)) {
            Some((d, s)) => Ok(Instr::BitSub(d, s)),
            None => Err(MachineError::Syntax),
        }
    } else if t0 == "bsl"@ {
        match spec_two_operands(tok(ts, 1), tok(ts, 2)) {
            Some((d, s)) => Ok(Instr::ShiftLeft(d, s)),
            None => Err(MachineError::Syntax),
        }
    } else if t0 == "bsr"@ {
        match spec_two_operands(tok(ts, 1), tok(ts, 2)) {
            Some((d, s)) => Ok(Instr::ShiftRight(d, s)),
            None => Err(MachineError::Syntax),
        }
    } else if t0 == "clf"@ {
        Ok(Instr::ClearFlags)
    } else if t0 == "cmp"@ {
        match spec_two_operands(tok(ts, 1), tok(ts, 2)) {
            Some((a, b)) => Ok(Instr::Compare(a, b)),
            None => Err(MachineError::Syntax),
        }
    } else if t0 == "jmp"@ {
        match spec_operand(tok(ts, 1)) {
            Some(t) => Ok(Instr::Jump(t)),
            None => Err(MachineError::Syntax),
        }
    } else if t0 == "jon"@ {
        match spec_cond(tok(ts, 1)) {
            Some(c) => Ok(Instr::SkipIf(c)),
            None => Err(MachineError::Domain),
        }
    } else if t0 == "end"@ {
        Ok(Instr::End)
    } else {
        Err(MachineError::Syntax)
    }
}

/// Read an operand token.
pub fn parse_operand(t: &str) -> (r: Option<Operand>)
    ensures
        r == spec_operand(t@),
{
    let n = t.unicode_len();
    if n == 0 {
        return None;
    }
    let c0 = t.get_char(0);
    if c0 == 'v' {
        match parse_dec_u32(t.substring_char(1, n)) {
            Some(i) => Some(Operand::Var(i)),
            None => None,
        }
    } else if c0 == 'b' {
        match parse_dec_u32(t.substring_char(1, n)) {
            Some(i) => Some(Operand::Bit(i)),
            None => None,
        }
    } else if c0 == 'i' {
        match parse_dec_u32(t.substring_char(1, n)) {
            Some(i) => Some(Operand::Input(i)),
            None => None,
        }
    } else if n >= 2 && c0 == '0' && t.get_char(1) == 'x' {
        match parse_hex_u32(t.substring_char(2, n)) {
            Some(v) => Some(Operand::Imm(v)),
            None => None,
        }
    } else {
        match parse_dec_u32(t) {
            Some(v) => Some(Operand::Imm(v)),
            None => None,
        }
    }
}

/// Read a condition token.
pub fn parse_cond(t: &str) -> (r: Option<Cond>)
    ensures
        r == spec_cond(t@),
{
    if t.unicode_len() == 0 {
        Some(Cond::Always)
    } else if str_eq(t, "e") {
        Some(Cond::Equal)
    } else if str_eq(t, "ne") {
        Some(Cond::NotEqual)
    } else if str_eq(t, "g") {
        Some(Cond::Greater)
    } else if str_eq(t, "ge") {
        Some(Cond::GreaterOrEqual)
    } else if str_eq(t, "l") {
        Some(Cond::Less)
    } else if str_eq(t, "le") {
        Some(Cond::LessOrEqual)
    } else if str_eq(t, "c") {
        Some(Cond::Carry)
    } else if str_eq(t, "nc") {
        Some(Cond::NoCarry)
    } else if str_eq(t, "u") {
        Some(Cond::Underflow)
    } else if str_eq(t, "nu") {
        Some(Cond::NoUnderflow)
    } else {
        None
    }
}

/// The token at position `i`, or the empty token beyond the end.
pub(crate) fn get_tok<'a>(ts: &'a Vec<String>, i: usize) -> (r: &'a str)
    ensures
        r@ == tok(ts.deep_view(), i as int),
{
    if i < ts.len() {
        ts[i].as_str()
    } else {
        proof {
            reveal_strlit("");
            assert(""@ =~= Seq::<char>::empty());
        }
        ""
    }
}

fn two_operands(a: &str, b: &str) -> (r: Option<(Operand, Operand)>)
    ensures
        r == spec_two_operands(a@, b@),
{
    match (parse_operand(a), parse_operand(b)) {
        (Some(x), Some(y)) => Some((x, y)),
        _ => None,
    }
}

/// Decode one instruction line.
pub fn parse_instruction(line: &str) -> (r: Result<Instr, MachineError>)
    ensures
        r == spec_parse_instr(line@),
{
    let ts = tokenize(line);
    if ts.len() == 0 {
        return Err(MachineError::Syntax);
    }
    let t0 = get_tok(&ts, 0);
    if str_eq(t0, "non") {
        Ok(Instr::Non)
    } else if str_eq(t0, "set") {
        match two_operands(get_tok(&ts, 1), get_tok(&ts, 2)) {
            Some((d, s)) => Ok(Instr::Assign(d, s)),
            None => Err(MachineError::Syntax),
        }
    } else if str_eq(t0, "stl") {
        match two_operands(get_tok(&ts, 1), get_tok(&ts, 2)) {
            Some((d, s)) => Ok(Instr::StoreLen(d, s)),
            None => Err(MachineError::Syntax),
        }
    } else if str_eq(t0, "stnb") {
        match (parse_operand(get_tok(&ts, 1)), parse_operand(get_tok(&ts, 2)), parse_operand(
            get_tok(&ts, 3),
        )) {
            (Some(d), Some(s), Some(n)) => Ok(Instr::StoreNthBit(d, s, n)),
            _ => Err(MachineError::Syntax),
        }
    } else if str_eq(t0, "iadd") {
        match two_operands(get_tok(&ts, 1), get_tok(&ts, 2)) {
            Some((d, s)) => Ok(Instr::IntAdd(d, s)),
            None => Err(MachineError::Syntax),
        }
    } else if str_eq(t0, "isub") {
        match two_operands(get_tok(&ts, 1), get_tok(&ts, 2)) {
            Some((d, s)) => Ok(Instr::IntSub(d, s)),
            None => Err(MachineError::Syntax),
        }
    } else if str_eq(t0, "badd") || str_eq(t0, "badc") {
        match two_operands(get_tok(&ts, 1), get_tok(&ts, 2)) {
            Some((d, s)) => Ok(Instr::BitAdd(d, s)),
            None => Err(MachineError::Syntax),
        }
    } else if str_eq(t0, "bsub") || str_eq(t0, "bsbu") {
        match two_operands(get_tok(&ts, 1), get_tok(&ts, 2)) {
            Some((d, s)) => Ok(Instr::BitSub(d, s)),
            None => Err(MachineError::Syntax),
        }
    } else if str_eq(t0, "bsl") {
        match two_operands(get_tok(&ts, 1), get_tok(&ts, 2)) {
            Some((d, s)) => Ok(Instr::ShiftLeft(d, s)),
            None => Err(MachineError::Syntax),
        }
    } else if str_eq(t0, "bsr") {
        match two_operands(get_tok(&ts, 1), get_tok(&ts, 2)) {
            Some((d, s)) => Ok(Instr::ShiftRight(d, s)),
            None => Err(MachineError::Syntax),
        }
    } else if str_eq(t0, "clf") {
        Ok(Instr::ClearFlags)
    } else if str_eq(t0, "cmp") {
        match two_operands(get_tok(&ts, 1), get_tok(&ts, 2)) {
            Some((a, b)) => Ok(Instr::Compare(a, b)),
            None => Err(MachineError::Syntax),
        }
    } else if str_eq(t0, "jmp") {
        match parse_operand(get_tok(&ts, 1)) {
            Some(t) => Ok(Instr::Jump(t)),
            None => Err(MachineError::Syntax),
        }
    } else if str_eq(t0, "jon") {
        match parse_cond(get_tok(&ts, 1)) {
            Some(c) => Ok(Instr::SkipIf(c)),
            None => Err(MachineError::Domain),
        }
    } else if str_eq(t0, "end") {
        Ok(Instr::End)
    } else {
        Err(MachineError::Syntax)
    }
}

} // verus!
