//! The label pass shared by the lowering front ends: scan every line, and
//! record each declaration's name against its own line index. Names need
//! not be unique; a later declaration silently replaces an earlier one.

use crate::text::{spec_tokens, str_eq, tok, tokenize};
use vstd::prelude::*;
use vstd::string::StringExecFns;

verus! {

/// The mapping that a declaration table denotes: later entries shadow
/// earlier ones.
pub open spec fn table_view(entries: Seq<(String, usize)>) -> Map<Seq<char>, nat>
    decreases entries.len(),
{
    if entries.len() == 0 {
        Map::empty()
    } else {
        table_view(entries.drop_last()).insert(
            entries.last().0@,
            entries.last().1 as nat,
        )
    }
}

/// Whether a line declares a label: its first token is the declaration
/// keyword.
pub open spec fn is_label_line(line: Seq<char>, keyword: Seq<char>) -> bool {
    let ts = spec_tokens(line);
    ts.len() >= 1 && ts[0] == keyword
}

/// The declared name: the second token, or empty when it is missing.
pub open spec fn label_name(line: Seq<char>) -> Seq<char> {
    tok(spec_tokens(line), 1)
}

/// The label map of a whole program: every declaration's name bound to its
/// own line index, with the last declaration of a name winning.
pub open spec fn labels_of(lines: Seq<Seq<char>>, keyword: Seq<char>) -> Map<Seq<char>, nat>
    decreases lines.len(),
{
    if lines.len() == 0 {
        Map::empty()
    } else {
        let m = labels_of(lines.drop_last(), keyword);
        if is_label_line(lines.last(), keyword) {
            m.insert(label_name(lines.last()), (lines.len() - 1) as nat)
        } else {
            m
        }
    }
}

/// The label map binds a declared name to the index of its declaration
/// when no later line declares the same name.
pub proof fn lemma_labels_last_decl(lines: Seq<Seq<char>>, keyword: Seq<char>, j: int, name: Seq<char>)
    requires
        0 <= j < lines.len(),
        is_label_line(lines[j], keyword),
        label_name(lines[j]) == name,
        forall|k: int|
            j < k < lines.len() ==> !(is_label_line(#[trigger] lines[k], keyword) && label_name(
                lines[k],
            ) == name),
    ensures
        labels_of(lines, keyword).contains_key(name),
        labels_of(lines, keyword)[name] == j as nat,
    decreases lines.len(),
{
    let prefix = lines.drop_last();
    if j == lines.len() - 1 {
    } else {
        assert(lines[j] == prefix[j]);
        assert forall|k: int|
            j < k < prefix.len() implies !(is_label_line(#[trigger] prefix[k], keyword)
            && label_name(prefix[k]) == name) by {
            assert(prefix[k] == lines[k]);
        }
        lemma_labels_last_decl(prefix, keyword, j, name);
        assert(!(is_label_line(lines[lines.len() - 1], keyword) && label_name(
            lines[lines.len() - 1],
        ) == name));
    }
}

/// Collect every label declaration of the program, in order.
pub fn collect_labels(lines: &Vec<String>, keyword: &str) -> (r: Vec<(String, usize)>)
    ensures
        table_view(r@) == labels_of(lines.deep_view(), keyword@),
{
    let mut out: Vec<(String, usize)> = Vec::new();
    let mut i: usize = 0;
    let n = lines.len();
    proof {
        assert(lines.deep_view().subrange(0, 0) =~= Seq::<Seq<char>>::empty());
        assert(table_view(out@) =~= Map::<Seq<char>, nat>::empty());
    }
    while i < n
        invariant
            i <= n,
            n == lines.len(),
            table_view(out@) == labels_of(lines.deep_view().subrange(0, i as int), keyword@),
        decreases n - i,
    {
        let ghost prefix = lines.deep_view().subrange(0, i as int);
        let ghost extended = lines.deep_view().subrange(0, i as int + 1);
        proof {
            assert(extended.drop_last() =~= prefix);
            assert(extended.last() == lines.deep_view()[i as int]);
        }
        let ts = tokenize(lines[i].as_str());
        if ts.len() >= 1 && str_eq(ts[0].as_str(), keyword) {
            let name = if ts.len() >= 2 {
                ts[1].clone()
            } else {
                proof {
                    reveal_strlit("");
                    assert(""@ =~= Seq::<char>::empty());
                }
                String::from_str("")
            };
            proof {
                assert(name@ == label_name(lines.deep_view()[i as int]));
            }
            let ghost before = out@;
            out.push((name, i));
            proof {
                assert(out@.drop_last() =~= before);
            }
        }
        i = i + 1;
    }
    proof {
        assert(lines.deep_view().subrange(0, n as int) =~= lines.deep_view());
    }
    out
}

/// Look a name up in a declaration table: the last matching entry wins.
pub fn lookup_label(entries: &Vec<(String, usize)>, name: &str) -> (r: Option<usize>)
    ensures
        match r {
            Some(v) => table_view(entries@).contains_key(name@) && table_view(entries@)[name@]
                == v as nat,
            None => !table_view(entries@).contains_key(name@),
        },
{
    let mut i: usize = entries.len();
    proof {
        assert(entries@.subrange(0, entries@.len() as int) =~= entries@);
    }
    while i > 0
        invariant
            i <= entries.len(),
            table_view(entries@).contains_key(name@) == table_view(
                entries@.subrange(0, i as int),
            ).contains_key(name@),
            table_view(entries@).contains_key(name@) ==> table_view(entries@)[name@]
                == table_view(entries@.subrange(0, i as int))[name@],
        decreases i,
    {
        i = i - 1;
        let ghost upto = entries@.subrange(0, i as int + 1);
        proof {
            assert(upto.drop_last() =~= entries@.subrange(0, i as int));
            assert(upto.last() == entries@[i as int]);
        }
        if str_eq(entries[i].0.as_str(), name) {
            return Some(entries[i].1);
        }
    }
    proof {
        assert(entries@.subrange(0, 0) =~= Seq::<(String, usize)>::empty());
    }
    None
}

} // verus!
