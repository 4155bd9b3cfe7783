//! The alternative lowering pass that emits a human-readable intermediate
//! dialect instead of the engine's final vocabulary. It follows the same
//! two-pass shape as the final-form pass: label declarations are collected
//! first (under the `declare-jump-point` keyword), every source line lowers
//! to exactly one output line, and a terminal `end` line is appended.

use crate::error::MachineError;
use crate::labels::{collect_labels, labels_of, lookup_label, table_view};
use crate::parse::get_tok;
use crate::text::{dec_str, filter_comment_lines, spec_filter_comments, spec_tokens, str_eq, to_dec_string, tok, tokenize};
use vstd::prelude::*;
use vstd::string::{StrSliceExecFns, StringExecFns};

verus! {

/// Lowering one source line of the intermediate dialect against the label
/// map. Blank lines and declarations lower to `do-nothing`; this dialect
/// passes `skip-next-if` flags and shift directions through verbatim, and
/// has no clear-flags form.
pub open spec fn lower_cmp_line(line: Seq<char>, labels: Map<Seq<char>, nat>) -> Result<
    Seq<char>,
    MachineError,
> {
    let ts = spec_tokens(line);
    let t0 = tok(ts, 0);
    if ts.len() == 0 {
        Ok("do-nothing"@)
    } else if t0 == "declare-jump-point"@ {
        Ok("do-nothing"@)
    } else if t0 == "set"@ {
        let d = tok(ts, 1);
        let src = tok(ts, 3);
        if src == "length-of"@ {
            Ok("set-to-length-of "@ + d + " "@ + tok(ts, 4))
        } else if src == "bit"@ {
            Ok("set-to-nth-bit "@ + d + " "@ + tok(ts, 6) + " "@ + tok(ts, 4))
        } else {
            Ok("set "@ + d + " "@ + src)
        }
    } else if t0 == "int-add"@ {
        Ok("int-add "@ + tok(ts, 3) + " "@ + tok(ts, 1))
    } else if t0 == "int-subtract"@ {
        Ok("int-subtract "@ + tok(ts, 3) + " "@ + tok(ts, 1))
    } else if t0 == "bit-add"@ {
        if tok(ts, 4) == "with-carry"@ {
            Ok("bit-add-with-carry "@ + tok(ts, 3) + " "@ + tok(ts, 1))
        } else {
            Ok("bit-add "@ + tok(ts, 3) + " "@ + tok(ts, 1))
        }
    } else if t0 == "bit-subtract"@ {
        Ok("bit-subtract "@ + tok(ts, 3) + " "@ + tok(ts, 1))
    } else if t0 == "shift"@ {
        Ok("bit-shift-"@ + tok(ts, 2) + " "@ + tok(ts, 1) + " "@ + tok(ts, 4))
    } else if t0 == "go-to"@ {
        if labels.contains_key(tok(ts, 1)) {
            Ok("jump-to "@ + dec_str(labels[tok(ts, 1)]))
        } else {
            Err(MachineError::UnresolvedLabel)
        }
    } else if t0 == "compare"@ {
        Ok("compare "@ + tok(ts, 1) + " "@ + tok(ts, 3))
    } else if t0 == "skip-next-if"@ {
        Ok("jump-over-next-if "@ + tok(ts, 1))
    } else {
        Err(MachineError::Syntax)
    }
}

/// Lowering every line in order; the first fault wins.
pub open spec fn lower_cmp_all(lines: Seq<Seq<char>>, labels: Map<Seq<char>, nat>) -> Result<
    Seq<Seq<char>>,
    MachineError,
>
    decreases lines.len(),
{
    if lines.len() == 0 {
        Ok(Seq::empty())
    } else {
        match lower_cmp_all(lines.drop_last(), labels) {
            Err(e) => Err(e),
            Ok(acc) => match lower_cmp_line(lines.last(), labels) {
                Err(e) => Err(e),
                Ok(l) => Ok(acc.push(l)),
            },
        }
    }
}

/// The whole pass: collect `declare-jump-point` declarations over all
/// lines, lower each line against that map, and append the terminal `end`.
pub open spec fn spec_compile(lines: Seq<Seq<char>>) -> Result<Seq<Seq<char>>, MachineError> {
    match lower_cmp_all(lines, labels_of(lines, "declare-jump-point"@)) {
        Err(e) => Err(e),
        Ok(out) => Ok(out.push("end"@)),
    }
}

pub proof fn lemma_lower_cmp_all_err(
    lines: Seq<Seq<char>>,
    labels: Map<Seq<char>, nat>,
    k: nat,
    e: MachineError,
)
    requires
        k <= lines.len(),
        lower_cmp_all(lines.subrange(0, k as int), labels) == Err::<Seq<Seq<char>>, MachineError>(
            e,
        ),
    ensures
        lower_cmp_all(lines, labels) == Err::<Seq<Seq<char>>, MachineError>(e),
    decreases lines.len() - k,
{
    if k == lines.len() {
        assert(lines.subrange(0, k as int) =~= lines);
    } else {
        assert(lines.subrange(0, k as int + 1).drop_last() =~= lines.subrange(0, k as int));
        lemma_lower_cmp_all_err(lines, labels, k + 1, e);
    }
}

/// The lowering front end that targets the intermediate dialect.
pub struct Compiler {
    pub jump_points: Vec<(String, usize)>,
    pub program_lines: Vec<String>,
    pub line_number: usize,
}

impl Compiler {
    pub fn new() -> (r: Self)
        ensures
            r.jump_points@ =~= Seq::<(String, usize)>::empty(),
            r.program_lines@ =~= Seq::<String>::empty(),
            r.line_number == 0,
    {
        Self { jump_points: Vec::new(), program_lines: Vec::new(), line_number: 0 }
    }

    /// Take the program text, with comment lines excluded.
    pub fn load_lines(&mut self, lines: Vec<String>)
        ensures
            final(self).program_lines.deep_view() == spec_filter_comments(lines.deep_view()),
            final(self).jump_points == old(self).jump_points,
            final(self).line_number == old(self).line_number,
    {
        let filtered = filter_comment_lines(lines);
        self.program_lines = filtered;
    }

    /// Lower the loaded program to the intermediate dialect.
    pub fn compile_program(&mut self) -> (r: Result<Vec<String>, MachineError>)
        ensures
            final(self).program_lines == old(self).program_lines,
            table_view(final(self).jump_points@) == labels_of(
                old(self).program_lines.deep_view(),
                "declare-jump-point"@,
            ),
            match spec_compile(old(self).program_lines.deep_view()) {
                Ok(out) => r is Ok && r->Ok_0.deep_view() == out,
                Err(e) => r == Err::<Vec<String>, MachineError>(e),
            },
    {
        self.jump_points = collect_labels(&self.program_lines, "declare-jump-point");
        let ghost all = self.program_lines.deep_view();
        let ghost labels = labels_of(all, "declare-jump-point"@);
        let mut out: Vec<String> = Vec::new();
        let mut i: usize = 0;
        let n = self.program_lines.len();
        proof {
            assert(all.subrange(0, 0) =~= Seq::<Seq<char>>::empty());
            assert(out.deep_view() =~= Seq::<Seq<char>>::empty());
        }
        while i < n
            invariant
                i <= n,
                n == self.program_lines.len(),
                self.program_lines == old(self).program_lines,
                all == self.program_lines.deep_view(),
                labels == labels_of(all, "declare-jump-point"@),
                labels == table_view(self.jump_points@),
                lower_cmp_all(all.subrange(0, i as int), labels) == Ok::<
                    Seq<Seq<char>>,
                    MachineError,
                >(out.deep_view()),
            decreases n - i,
        {
            let ghost prefix = all.subrange(0, i as int);
            let ghost extended = all.subrange(0, i as int + 1);
            proof {
                assert(extended.drop_last() =~= prefix);
                assert(extended.last() == all[i as int]);
            }
            let lowered = match lower_cmp_line_exec(
                self.program_lines[i].as_str(),
                &self.jump_points,
            ) {
                Ok(l) => l,
                Err(e) => {
                    proof {
                        lemma_lower_cmp_all_err(all, labels, (i + 1) as nat, e);
                    }
                    return Err(e);
                },
            };
            let ghost before = out.deep_view();
            out.push(lowered);
            proof {
                assert(out.deep_view() =~= before.push(lowered@));
            }
            i = i + 1;
        }
        proof {
            assert(all.subrange(0, n as int) =~= all);
        }
        let ghost before = out.deep_view();
        out.push(String::from_str("end"));
        proof {
            assert(out.deep_view() =~= before.push("end"@));
        }
        Ok(out)
    }
}

/// Emit `op a b` for two operand tokens.
fn emit_pair(op: &str, a: &str, b: &str) -> (r: String)
    ensures
        r@ == op@ + a@ + " "@ + b@,
{
    let mut s = String::from_str(op);
    s.append(a);
    s.append(" ");
    s.append(b);
    s
}

/// Lower one source line of the intermediate dialect.
fn lower_cmp_line_exec(line: &str, labels: &Vec<(String, usize)>) -> (r: Result<
    String,
    MachineError,
>)
    ensures
        match lower_cmp_line(line@, table_view(labels@)) {
            Ok(out) => r is Ok && r->Ok_0@ == out,
            Err(e) => r == Err::<String, MachineError>(e),
        },
{
    let ts = tokenize(line);
    if ts.len() == 0 {
        return Ok(String::from_str("do-nothing"));
    }
    let t0 = get_tok(&ts, 0);
    if str_eq(t0, "declare-jump-point") {
        Ok(String::from_str("do-nothing"))
    } else if str_eq(t0, "set") {
        let d = get_tok(&ts, 1);
        let src = get_tok(&ts, 3);
        if str_eq(src, "length-of") {
            Ok(emit_pair("set-to-length-of ", d, get_tok(&ts, 4)))
        } else if str_eq(src, "bit") {
            let mut s = emit_pair("set-to-nth-bit ", d, get_tok(&ts, 6));
            s.append(" ");
            s.append(get_tok(&ts, 4));
            Ok(s)
        } else {
            Ok(emit_pair("set ", d, src))
        }
    } else if str_eq(t0, "int-add") {
        Ok(emit_pair("int-add ", get_tok(&ts, 3), get_tok(&ts, 1)))
    } else if str_eq(t0, "int-subtract") {
        Ok(emit_pair("int-subtract ", get_tok(&ts, 3), get_tok(&ts, 1)))
    } else if str_eq(t0, "bit-add") {
        if str_eq(get_tok(&ts, 4), "with-carry") {
            Ok(emit_pair("bit-add-with-carry ", get_tok(&ts, 3), get_tok(&ts, 1)))
        } else {
            Ok(emit_pair("bit-add ", get_tok(&ts, 3), get_tok(&ts, 1)))
        }
    } else if str_eq(t0, "bit-subtract") {
        Ok(emit_pair("bit-subtract ", get_tok(&ts, 3), get_tok(&ts, 1)))
    } else if str_eq(t0, "shift") {
        let mut s = String::from_str("bit-shift-");
        s.append(get_tok(&ts, 2));
        s.append(" ");
        s.append(get_tok(&ts, 1));
        s.append(" ");
        s.append(get_tok(&ts, 4));
        Ok(s)
    } else if str_eq(t0, "go-to") {
        match lookup_label(labels, get_tok(&ts, 1)) {
            Some(target) => {
                let mut s = String::from_str("jump-to ");
                s.append(to_dec_string(target as u64).as_str());
                Ok(s)
            },
            None => Err(MachineError::UnresolvedLabel),
        }
    } else if str_eq(t0, "compare") {
        Ok(emit_pair("compare ", get_tok(&ts, 1), get_tok(&ts, 3)))
    } else if str_eq(t0, "skip-next-if") {
        let mut s = String::from_str("jump-over-next-if ");
        s.append(get_tok(&ts, 1));
        Ok(s)
    } else {
        Err(MachineError::Syntax)
    }
}

} // verus!
