//! The lowering pass that emits the execution engine's final vocabulary:
//! two passes over the source lines, the first recording label declarations,
//! the second emitting exactly one final-form line per source line (a no-op
//! for declarations and blank lines, so that line indexes stay stable) with
//! symbolic jump targets replaced by absolute line indexes, and a terminal
//! `end` line appended.

use crate::error::MachineError;
use crate::labels::{collect_labels, is_label_line, label_name, labels_of, lookup_label, table_view};
use crate::text::{dec_str, filter_comment_lines, push_char, spec_filter_comments, spec_tokens, str_eq, to_dec_string, tok, tokenize};
use crate::parse::get_tok;
use vstd::prelude::*;
use vstd::string::{StrSliceExecFns, StringExecFns};

verus! {

/// The condition-code token of a `skip-next-if` line: the written-out flag
/// name becomes the engine's short code; a missing flag means "always".
pub open spec fn asm_flag(t: Seq<char>) -> Option<Seq<char>> {
    if t.len() == 0 {
        Some(Seq::<char>::empty())
    } else if t == "equal"@ {
        Some("e"@)
    } else if t == "not-equal"@ {
        Some("ne"@)
    } else if t == "greater"@ {
        Some("g"@)
    } else if t == "greater-or-equal"@ {
        Some("ge"@)
    } else if t == "less"@ {
        Some("l"@)
    } else if t == "less-or-equal"@ {
        Some("le"@)
    } else if t == "carry"@ {
        Some("c"@)
    } else if t == "no-carry"@ {
        Some("nc"@)
    } else if t == "borrow"@ {
        Some("b"@)
    } else if t == "no-borrow"@ {
        Some("nb"@)
    } else {
        None
    }
}

/// Lowering one source line against the label map. Blank lines and label
/// declarations lower to the no-op; `go-to` resolves its target through the
/// map; an unknown mnemonic is a syntax fault; an unknown flag name is a
/// domain fault.
pub open spec fn lower_asm_line(line: Seq<char>, labels: Map<Seq<char>, nat>) -> Result<
    Seq<char>,
    MachineError,
> {
    let ts = spec_tokens(line);
    let t0 = tok(ts, 0);
    if ts.len() == 0 {
        Ok("non"@)
    } else if t0 == "label"@ {
        Ok("non"@)
    } else if t0 == "set"@ {
        let d = tok(ts, 1);
        let src = tok(ts, 3);
        if src == "length-of"@ {
            Ok("stl "@ + d + " "@ + tok(ts, 4))
        } else if src == "bit"@ {
            Ok("stnb "@ + d + " "@ + tok(ts, 6) + " "@ + tok(ts, 4))
        } else {
            Ok("set "@ + d + " "@ + src)
        }
    } else if t0 == "int-add"@ {
        Ok("iadd "@ + tok(ts, 3) + " "@ + tok(ts, 1))
    } else if t0 == "int-subtract"@ {
        Ok("isub "@ + tok(ts, 3) + " "@ + tok(ts, 1))
    } else if t0 == "bit-add"@ {
        if tok(ts, 4) == "with-carry"@ {
            Ok("badc "@ + tok(ts, 3) + " "@ + tok(ts, 1))
        } else {
            Ok("badd "@ + tok(ts, 3) + " "@ + tok(ts, 1))
        }
    } else if t0 == "bit-subtract"@ {
        if tok(ts, 4) == "with-borrow"@ {
            Ok("bsbu "@ + tok(ts, 3) + " "@ + tok(ts, 1))
        } else {
            Ok("bsub "@ + tok(ts, 3) + " "@ + tok(ts, 1))
        }
    } else if t0 == "shift"@ {
        let dir = tok(ts, 2);
        if dir.len() == 0 {
            Err(MachineError::Syntax)
        } else {
            Ok("bs"@ + seq![dir[0]] + " "@ + tok(ts, 1) + " "@ + tok(ts, 4))
        }
    } else if t0 == "go-to"@ {
        if labels.contains_key(tok(ts, 1)) {
            Ok("jmp "@ + dec_str(labels[tok(ts, 1)]))
        } else {
            Err(MachineError::UnresolvedLabel)
        }
    } else if t0 == "compare"@ {
        Ok("cmp "@ + tok(ts, 1) + " "@ + tok(ts, 3))
    } else if t0 == "clear-flags"@ {
        Ok("clf"@)
    } else if t0 == "skip-next-if"@ {
        match asm_flag(tok(ts, 1)) {
            Some(f) => Ok("jon "@ + f),
            None => Err(MachineError::Domain),
        }
    } else {
        Err(MachineError::Syntax)
    }
}

/// Lowering every line in order; the first fault wins.
pub open spec fn lower_asm_all(lines: Seq<Seq<char>>, labels: Map<Seq<char>, nat>) -> Result<
    Seq<Seq<char>>,
    MachineError,
>
    decreases lines.len(),
{
    if lines.len() == 0 {
        Ok(Seq::empty())
    } else {
        match lower_asm_all(lines.drop_last(), labels) {
            Err(e) => Err(e),
            Ok(acc) => match lower_asm_line(lines.last(), labels) {
                Err(e) => Err(e),
                Ok(l) => Ok(acc.push(l)),
            },
        }
    }
}

/// The whole pass: collect labels over all lines, lower each line against
/// that map, and append the terminal `end` line.
pub open spec fn spec_assemble(lines: Seq<Seq<char>>) -> Result<Seq<Seq<char>>, MachineError> {
    match lower_asm_all(lines, labels_of(lines, "label"@)) {
        Err(e) => Err(e),
        Ok(out) => Ok(out.push("end"@)),
    }
}

pub proof fn lemma_lower_asm_all_err(
    lines: Seq<Seq<char>>,
    labels: Map<Seq<char>, nat>,
    k: nat,
    e: MachineError,
)
    requires
        k <= lines.len(),
        lower_asm_all(lines.subrange(0, k as int), labels) == Err::<Seq<Seq<char>>, MachineError>(
            e,
        ),
    ensures
        lower_asm_all(lines, labels) == Err::<Seq<Seq<char>>, MachineError>(e),
    decreases lines.len() - k,
{
    if k == lines.len() {
        assert(lines.subrange(0, k as int) =~= lines);
    } else {
        assert(lines.subrange(0, k as int + 1).drop_last() =~= lines.subrange(0, k as int));
        lemma_lower_asm_all_err(lines, labels, k + 1, e);
    }
}

/// The lowering front end that targets the engine's final vocabulary.
pub struct Assembler {
    pub jump_points: Vec<(String, usize)>,
    pub program_lines: Vec<String>,
    pub line_number: usize,
}

impl Assembler {
    pub fn new() -> (r: Self)
        ensures
            r.jump_points@ =~= Seq::<(String, usize)>::empty(),
            r.program_lines@ =~= Seq::<String>::empty(),
            r.line_number == 0,
    {
        Self { jump_points: Vec::new(), program_lines: Vec::new(), line_number: 0 }
    }

    /// Take the program text, with comment lines excluded.
    pub fn load_lines(&mut self, lines: Vec<String>)
        ensures
            final(self).program_lines.deep_view() == spec_filter_comments(lines.deep_view()),
            final(self).jump_points == old(self).jump_points,
            final(self).line_number == old(self).line_number,
    {
        let filtered = filter_comment_lines(lines);
        self.program_lines = filtered;
    }

    /// Lower the loaded program: record every label declaration, then emit
    /// one final-form line per source line and the terminal `end` line.
    pub fn compile_program(&mut self) -> (r: Result<Vec<String>, MachineError>)
        ensures
            final(self).program_lines == old(self).program_lines,
            table_view(final(self).jump_points@) == labels_of(
                old(self).program_lines.deep_view(),
                "label"@,
            ),
            match spec_assemble(old(self).program_lines.deep_view()) {
                Ok(out) => r is Ok && r->Ok_0.deep_view() == out,
                Err(e) => r == Err::<Vec<String>, MachineError>(e),
            },
    {
        self.jump_points = collect_labels(&self.program_lines, "label");
        let ghost all = self.program_lines.deep_view();
        let ghost labels = labels_of(all, "label"@);
        let mut out: Vec<String> = Vec::new();
        let mut i: usize = 0;
        let n = self.program_lines.len();
        proof {
            assert(all.subrange(0, 0) =~= Seq::<Seq<char>>::empty());
            assert(out.deep_view() =~= Seq::<Seq<char>>::empty());
        }
        while i < n
            invariant
                i <= n,
                n == self.program_lines.len(),
                self.program_lines == old(self).program_lines,
                all == self.program_lines.deep_view(),
                labels == labels_of(all, "label"@),
                labels == table_view(self.jump_points@),
                lower_asm_all(all.subrange(0, i as int), labels) == Ok::<
                    Seq<Seq<char>>,
                    MachineError,
                >(out.deep_view()),
            decreases n - i,
        {
            let ghost prefix = all.subrange(0, i as int);
            let ghost extended = all.subrange(0, i as int + 1);
            proof {
                assert(extended.drop_last() =~= prefix);
                assert(extended.last() == all[i as int]);
            }
            let lowered = match lower_asm_line_exec(
                self.program_lines[i].as_str(),
                &self.jump_points,
            ) {
                Ok(l) => l,
                Err(e) => {
                    proof {
                        lemma_lower_asm_all_err(all, labels, (i + 1) as nat, e);
                    }
                    return Err(e);
                },
            };
            let ghost before = out.deep_view();
            out.push(lowered);
            proof {
                assert(out.deep_view() =~= before.push(lowered@));
            }
            i = i + 1;
        }
        proof {
            assert(all.subrange(0, n as int) =~= all);
        }
        let ghost before = out.deep_view();
        out.push(end_line());
        proof {
            assert(out.deep_view() =~= before.push("end"@));
        }
        Ok(out)
    }
}

fn end_line() -> (r: String)
    ensures
        r@ == "end"@,
{
    String::from_str("end")
}

/// Emit `op d s` for two operand tokens.
fn emit2(op: &str, a: &str, b: &str) -> (r: String)
    ensures
        r@ == op@ + a@ + " "@ + b@,
{
    let mut s = String::from_str(op);
    s.append(a);
    s.append(" ");
    s.append(b);
    s
}

/// Lower one source line against the collected label table.
fn lower_asm_line_exec(line: &str, labels: &Vec<(String, usize)>) -> (r: Result<
    String,
    MachineError,
>)
    ensures
        match lower_asm_line(line@, table_view(labels@)) {
            Ok(out) => r is Ok && r->Ok_0@ == out,
            Err(e) => r == Err::<String, MachineError>(e),
        },
{
    let ts = tokenize(line);
    if ts.len() == 0 {
        return Ok(String::from_str("non"));
    }
    let t0 = get_tok(&ts, 0);
    if str_eq(t0, "label") {
        Ok(String::from_str("non"))
    } else if str_eq(t0, "set") {
        let d = get_tok(&ts, 1);
        let src = get_tok(&ts, 3);
        if str_eq(src, "length-of") {
            Ok(emit2("stl ", d, get_tok(&ts, 4)))
        } else if str_eq(src, "bit") {
            let mut s = emit2("stnb ", d, get_tok(&ts, 6));
            s.append(" ");
            s.append(get_tok(&ts, 4));
            Ok(s)
        } else {
            Ok(emit2("set ", d, src))
        }
    } else if str_eq(t0, "int-add") {
        Ok(emit2("iadd ", get_tok(&ts, 3), get_tok(&ts, 1)))
    } else if str_eq(t0, "int-subtract") {
        Ok(emit2("isub ", get_tok(&ts, 3), get_tok(&ts, 1)))
    } else if str_eq(t0, "bit-add") {
        if str_eq(get_tok(&ts, 4), "with-carry") {
            Ok(emit2("badc ", get_tok(&ts, 3), get_tok(&ts, 1)))
        } else {
            Ok(emit2("badd ", get_tok(&ts, 3), get_tok(&ts, 1)))
        }
    } else if str_eq(t0, "bit-subtract") {
        if str_eq(get_tok(&ts, 4), "with-borrow") {
            Ok(emit2("bsbu ", get_tok(&ts, 3), get_tok(&ts, 1)))
        } else {
            Ok(emit2("bsub ", get_tok(&ts, 3), get_tok(&ts, 1)))
        }
    } else if str_eq(t0, "shift") {
        let dir = get_tok(&ts, 2);
        if dir.unicode_len() == 0 {
            return Err(MachineError::Syntax);
        }
        let c = dir.get_char(0);
        let mut s = String::from_str("bs");
        push_char(&mut s, c);
        s.append(" ");
        s.append(get_tok(&ts, 1));
        s.append(" ");
        s.append(get_tok(&ts, 4));
        proof {
            assert(s@ =~= "bs"@ + seq![dir@[0]] + " "@ + tok(ts.deep_view(), 1) + " "@ + tok(
                ts.deep_view(),
                4,
            ));
        }
        Ok(s)
    } else if str_eq(t0, "go-to") {
        match lookup_label(labels, get_tok(&ts, 1)) {
            Some(target) => {
                let mut s = String::from_str("jmp ");
                s.append(to_dec_string(target as u64).as_str());
                Ok(s)
            },
            None => Err(MachineError::UnresolvedLabel),
        }
    } else if str_eq(t0, "compare") {
        Ok(emit2("cmp ", get_tok(&ts, 1), get_tok(&ts, 3)))
    } else if str_eq(t0, "clear-flags") {
        Ok(String::from_str("clf"))
    } else if str_eq(t0, "skip-next-if") {
        match asm_flag_exec(get_tok(&ts, 1)) {
            Some(f) => {
                let mut s = String::from_str("jon ");
                s.append(f.as_str());
                Ok(s)
            },
            None => Err(MachineError::Domain),
        }
    } else {
        Err(MachineError::Syntax)
    }
}

fn asm_flag_exec(t: &str) -> (r: Option<String>)
    ensures
        match asm_flag(t@) {
            Some(f) => r is Some && r->0@ == f,
            None => r is None,
        },
{
    if t.unicode_len() == 0 {
        proof {
            reveal_strlit("");
            assert(""@ =~= Seq::<char>::empty());
        }
        Some(String::from_str(""))
    } else if str_eq(t, "equal") {
        Some(String::from_str("e"))
    } else if str_eq(t, "not-equal") {
        Some(String::from_str("ne"))
    } else if str_eq(t, "greater") {
        Some(String::from_str("g"))
    } else if str_eq(t, "greater-or-equal") {
        Some(String::from_str("ge"))
    } else if str_eq(t, "less") {
        Some(String::from_str("l"))
    } else if str_eq(t, "less-or-equal") {
        Some(String::from_str("le"))
    } else if str_eq(t, "carry") {
        Some(String::from_str("c"))
    } else if str_eq(t, "no-carry") {
        Some(String::from_str("nc"))
    } else if str_eq(t, "borrow") {
        Some(String::from_str("b"))
    } else if str_eq(t, "no-borrow") {
        Some(String::from_str("nb"))
    } else {
        None
    }
}

/// Law: a symbolic jump resolves to the index of the line that declares its
/// label, and two references to the same label — one before the declaration
/// (a forward jump) and one after it (a backward jump) — lower to the same
/// absolute target.
pub proof fn lemma_label_resolution(
    lines: Seq<Seq<char>>,
    j: int,
    a: int,
    b: int,
    name: Seq<char>,
)
    requires
        0 <= j < lines.len(),
        is_label_line(lines[j], "label"@),
        label_name(lines[j]) == name,
        forall|k: int|
            j < k < lines.len() ==> !(is_label_line(#[trigger] lines[k], "label"@) && label_name(
                lines[k],
            ) == name),
        0 <= a < lines.len(),
        0 <= b < lines.len(),
        spec_tokens(lines[a]).len() >= 1,
        tok(spec_tokens(lines[a]), 0) == "go-to"@,
        tok(spec_tokens(lines[a]), 1) == name,
        spec_tokens(lines[b]).len() >= 1,
        tok(spec_tokens(lines[b]), 0) == "go-to"@,
        tok(spec_tokens(lines[b]), 1) == name,
    ensures
        lower_asm_line(lines[a], labels_of(lines, "label"@)) == Ok::<Seq<char>, MachineError>(
            "jmp "@ + dec_str(j as nat),
        ),
        lower_asm_line(lines[b], labels_of(lines, "label"@)) == lower_asm_line(
            lines[a],
            labels_of(lines, "label"@),
        ),
{
    crate::labels::lemma_labels_last_decl(lines, "label"@, j, name);
    let labels = labels_of(lines, "label"@);
    reveal_strlit("label");
    reveal_strlit("set");
    reveal_strlit("int-add");
    reveal_strlit("int-subtract");
    reveal_strlit("bit-add");
    reveal_strlit("bit-subtract");
    reveal_strlit("shift");
    reveal_strlit("go-to");
    assert("go-to"@[0] == 'g');
    assert("label"@[0] == 'l');
    assert("set"@[0] == 's');
    assert("int-add"@[0] == 'i');
    assert("int-subtract"@[0] == 'i');
    assert("bit-add"@[0] == 'b');
    assert("bit-subtract"@[0] == 'b');
    assert("shift"@[0] == 's');
    assert(lower_asm_line(lines[a], labels) == Ok::<Seq<char>, MachineError>(
        "jmp "@ + dec_str(j as nat),
    ));
    assert(lower_asm_line(lines[b], labels) == Ok::<Seq<char>, MachineError>(
        "jmp "@ + dec_str(j as nat),
    ));
}

/// Law: the no-op line that a declaration lowers to decodes in the engine
/// as the no-op instruction, so declarations keep line indexes stable
/// without affecting a run.
pub proof fn lemma_noop_line_decodes()
    ensures
        crate::parse::spec_parse_instr("non"@) == Ok::<crate::parse::Instr, MachineError>(
            crate::parse::Instr::Non,
        ),
{
    reveal_strlit("non");
    let s = "non"@;
    assert(s.len() == 3);
    assert forall|i: int| 0 <= i < 3 implies !crate::text::is_space_char(#[trigger] s[i]) by {
        assert(s[0] == 'n' && s[1] == 'o' && s[2] == 'n');
    }
    crate::text::lemma_token_len_at(s, 3);
    assert(s.subrange(0, 3) =~= s);
    assert(spec_tokens(s.subrange(3, 3)) =~= Seq::<Seq<char>>::empty());
    assert(spec_tokens(s) =~= seq![s]);
    assert(tok(spec_tokens(s), 0) == "non"@);
}

/// Law: a resolved jump line decodes in the engine as an absolute jump to
/// the declaring line's index, closing the loop between label resolution
/// and execution: the lowered line `jmp <j>` executes as `Jump(Imm(j))`.
pub proof fn lemma_resolved_jump_decodes(j: nat)
    requires
        j <= u32::MAX,
    ensures
        crate::parse::spec_parse_instr("jmp "@ + dec_str(j)) == Ok::<
            crate::parse::Instr,
            MachineError,
        >(crate::parse::Instr::Jump(crate::parse::Operand::Imm(j as u32))),
{
    crate::text::lemma_dec_str_val(j);
    reveal_strlit("jmp ");
    reveal_strlit("jmp");
    let d = dec_str(j);
    let s = "jmp "@ + d;
    assert("jmp "@.len() == 4);
    assert(s[0] == 'j' && s[1] == 'm' && s[2] == 'p' && s[3] == ' ');
    assert forall|i: int| 0 <= i < d.len() implies !crate::text::is_space_char(
        #[trigger] d[i],
    ) by {
        assert(crate::text::is_digit_char(d[i]));
    }
    assert forall|i: int| 0 <= i < 3 implies !crate::text::is_space_char(#[trigger] s[i]) by {}
    crate::text::lemma_token_len_at(s, 3);
    assert(spec_tokens(s) == seq![s.subrange(0, 3)] + spec_tokens(
        s.subrange(3, s.len() as int),
    ));
    assert(s.subrange(0, 3) =~= "jmp"@);
    let rest = s.subrange(3, s.len() as int);
    assert(crate::text::is_space_char(rest[0]));
    assert(rest.drop_first() =~= d);
    crate::text::lemma_token_len_at(d, d.len());
    assert(d.subrange(0, d.len() as int) =~= d);
    assert(spec_tokens(d.subrange(d.len() as int, d.len() as int)) =~= Seq::<Seq<char>>::empty());
    assert(spec_tokens(d) =~= seq![d]);
    let ts = spec_tokens(s);
    assert(ts =~= seq!["jmp"@, d]);
    reveal_strlit("non");
    reveal_strlit("set");
    reveal_strlit("stl");
    reveal_strlit("stnb");
    reveal_strlit("iadd");
    reveal_strlit("isub");
    reveal_strlit("badd");
    reveal_strlit("badc");
    reveal_strlit("bsub");
    reveal_strlit("bsbu");
    reveal_strlit("bsl");
    reveal_strlit("bsr");
    reveal_strlit("clf");
    reveal_strlit("cmp");
    assert("jmp"@[0] == 'j');
    assert("non"@[0] == 'n' && "set"@[0] == 's' && "stl"@[0] == 's' && "stnb"@[0] == 's');
    assert("iadd"@[0] == 'i' && "isub"@[0] == 'i');
    assert("badd"@[0] == 'b' && "badc"@[0] == 'b' && "bsub"@[0] == 'b' && "bsbu"@[0] == 'b');
    assert("bsl"@[0] == 'b' && "bsr"@[0] == 'b' && "clf"@[0] == 'c' && "cmp"@[0] == 'c');
    assert(crate::text::is_digit_char(d[0]));
    assert(d[0] != 'v' && d[0] != 'b' && d[0] != 'i');
    if d.len() >= 2 {
        assert(crate::text::is_digit_char(d[1]));
        assert(d[1] != 'x');
    }
    assert(crate::parse::spec_operand(d) == Some(crate::parse::Operand::Imm(j as u32)));
}

} // verus!
