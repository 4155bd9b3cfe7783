//! Line-level text handling shared by the lowering passes and the execution
//! engine: splitting a line into whitespace-separated tokens, reading and
//! writing decimal numerals, reading hexadecimal numerals, and comparing
//! strings.

use vstd::prelude::*;
use vstd::string::{StrSliceExecFns, StringExecFns};

verus! {

// ---------------------------------------------------------------------------
// Tokenization
// ---------------------------------------------------------------------------
/// The characters that separate tokens within a line.
pub open spec fn is_space_char(c: char) -> bool {
    c == ' ' || c == '\t' || c == '\r' || c == '\n'
}

/// The length of the maximal non-space prefix of `s`.
pub open spec fn token_len(s: Seq<char>) -> nat
    decreases s.len(),
{
    if s.len() == 0 || is_space_char(s[0]) {
        0
    } else {
        1 + token_len(s.drop_first())
    }
}

pub proof fn lemma_token_len_le(s: Seq<char>)
    ensures
        token_len(s) <= s.len(),
    decreases s.len(),
{
    if s.len() == 0 || is_space_char(s[0]) {
    } else {
        lemma_token_len_le(s.drop_first());
    }
}

/// The whitespace-separated tokens of `s`, in order. No token is empty and
/// no token contains a space.
pub open spec fn spec_tokens(s: Seq<char>) -> Seq<Seq<char>>
    decreases s.len(),
{
    if s.len() == 0 {
        Seq::empty()
    } else if is_space_char(s[0]) {
        spec_tokens(s.drop_first())
    } else {
        proof {
            lemma_token_len_le(s);
        }
        seq![s.subrange(0, token_len(s) as int)] + spec_tokens(
            s.subrange(token_len(s) as int, s.len() as int),
        )
    }
}

/// `token_len` is the first index that holds a space (or the length).
pub proof fn lemma_token_len_at(s: Seq<char>, k: nat)
    requires
        k <= s.len(),
        forall|i: int| 0 <= i < k ==> !is_space_char(#[trigger] s[i]),
        k < s.len() ==> is_space_char(s[k as int]),
    ensures
        token_len(s) == k,
    decreases s.len(),
{
    if k == 0 {
    } else {
        let t = s.drop_first();
        assert(!is_space_char(s[0]));
        assert forall|i: int| 0 <= i < k - 1 implies !is_space_char(#[trigger] t[i]) by {
            assert(t[i] == s[i + 1]);
        }
        lemma_token_len_at(t, (k - 1) as nat);
    }
}

/// Padded token access: the empty sequence beyond the last token, matching
/// the way a line is padded with empty tokens before dispatch.
pub open spec fn tok(ts: Seq<Seq<char>>, i: int) -> Seq<char> {
    if 0 <= i < ts.len() {
        ts[i]
    } else {
        Seq::empty()
    }
}

pub(crate) fn is_space(c: char) -> (r: bool)
    ensures
        r == is_space_char(c),
{
    c == ' ' || c == '\t' || c == '\r' || c == '\n'
}

/// Split a line into its whitespace-separated tokens.
pub fn tokenize(line: &str) -> (r: Vec<String>)
    ensures
        r.deep_view() == spec_tokens(line@),
{
    let n = line.unicode_len();
    let mut out: Vec<String> = Vec::new();
    let mut i: usize = 0;
    proof {
        assert(line@.subrange(0, n as int) =~= line@);
        assert(out.deep_view() =~= Seq::<Seq<char>>::empty());
        assert(out.deep_view() + spec_tokens(line@) =~= spec_tokens(line@));
    }
    while i < n
        invariant
            i <= n,
            n == line@.len(),
            out.deep_view() + spec_tokens(line@.subrange(i as int, n as int)) == spec_tokens(
                line@,
            ),
        decreases n - i,
    {
        let c = line.get_char(i);
        if is_space(c) {
            proof {
                let t = line@.subrange(i as int, n as int);
                assert(t.drop_first() =~= line@.subrange(i + 1, n as int));
            }
            i = i + 1;
        } else {
            let start = i;
            let mut j = i + 1;
            while j < n && !is_space(line.get_char(j))
                invariant
                    start < j <= n,
                    n == line@.len(),
                    forall|k: int| start <= k < j ==> !is_space_char(#[trigger] line@[k]),
                decreases n - j,
            {
                j = j + 1;
            }
            let token = line.substring_char(start, j);
            proof {
                let t = line@.subrange(start as int, n as int);
                assert forall|u: int| 0 <= u < j - start implies !is_space_char(
                    #[trigger] t[u],
                ) by {
                    assert(t[u] == line@[u + start]);
                }
                if j < n {
                    assert(t[j - start] == line@[j as int]);
                }
                lemma_token_len_at(t, (j - start) as nat);
                assert(t.subrange(0, (j - start) as int) =~= line@.subrange(
                    start as int,
                    j as int,
                ));
                assert(t.subrange((j - start) as int, t.len() as int) =~= line@.subrange(
                    j as int,
                    n as int,
                ));
                assert(spec_tokens(t) == seq![token@] + spec_tokens(
                    line@.subrange(j as int, n as int),
                ));
            }
            let ghost old_out = out.deep_view();
            out.push(String::from_str(token));
            proof {
                assert(out.deep_view() =~= old_out.push(token@));
                assert(out.deep_view() + spec_tokens(line@.subrange(j as int, n as int))
                    =~= old_out + spec_tokens(line@.subrange(start as int, n as int)));
            }
            i = j;
        }
    }
    proof {
        assert(spec_tokens(line@.subrange(n as int, n as int)) =~= Seq::<Seq<char>>::empty());
        assert(out.deep_view() + Seq::<Seq<char>>::empty() =~= out.deep_view());
    }
    out
}

// ---------------------------------------------------------------------------
// Decimal and hexadecimal numerals
// ---------------------------------------------------------------------------
pub open spec fn is_digit_char(c: char) -> bool {
    48 <= c as int <= 57
}

pub open spec fn digit_val(c: char) -> nat {
    ((c as int) - 48) as nat
}

pub open spec fn all_digit_chars(s: Seq<char>) -> bool {
    forall|i: int| 0 <= i < s.len() ==> is_digit_char(#[trigger] s[i])
}

/// The value of a decimal numeral (most-significant digit first).
pub open spec fn dec_val(s: Seq<char>) -> nat
    decreases s.len(),
{
    if s.len() == 0 {
        0
    } else {
        10 * dec_val(s.drop_last()) + digit_val(s.last())
    }
}

/// Reading a decimal numeral: defined exactly when the text is one or more
/// decimal digits whose value fits in 32 bits.
pub open spec fn spec_parse_dec(s: Seq<char>) -> Option<u32> {
    if s.len() > 0 && all_digit_chars(s) && dec_val(s) <= u32::MAX {
        Some(dec_val(s) as u32)
    } else {
        None
    }
}

pub proof fn lemma_dec_val_extends(s: Seq<char>, k: nat)
    requires
        k <= s.len(),
    ensures
        dec_val(s.subrange(0, k as int)) <= dec_val(s),
    decreases s.len() - k,
{
    if k == s.len() {
        assert(s.subrange(0, k as int) =~= s);
    } else {
        let a = s.subrange(0, k as int);
        let b = s.subrange(0, k as int + 1);
        assert(b.drop_last() =~= a);
        lemma_dec_val_extends(s, k + 1);
    }
}

/// Read a decimal numeral as a 32-bit value.
pub fn parse_dec_u32(s: &str) -> (r: Option<u32>)
    ensures
        r == spec_parse_dec(s@),
{
    let n = s.unicode_len();
    if n == 0 {
        return None;
    }
    let mut acc: u32 = 0;
    let mut i: usize = 0;
    while i < n
        invariant
            i <= n,
            n == s@.len(),
            forall|k: int| 0 <= k < i ==> is_digit_char(#[trigger] s@[k]),
            acc as nat == dec_val(s@.subrange(0, i as int)),
        decreases n - i,
    {
        let c = s.get_char(i);
        let u = c as u32;
        if u < 48 || u > 57 {
            proof {
                assert(!is_digit_char(s@[i as int]));
            }
            return None;
        }
        let d = u - 48;
        let ghost prefix = s@.subrange(0, i as int);
        let ghost extended = s@.subrange(0, i as int + 1);
        proof {
            assert(extended.drop_last() =~= prefix);
            assert(extended.last() == s@[i as int]);
            assert(dec_val(extended) == 10 * (acc as nat) + d as nat);
        }
        if acc > (u32::MAX - d) / 10 {
            proof {
                vstd::arithmetic::div_mod::lemma_fundamental_div_mod((u32::MAX - d) as int, 10);
                assert(dec_val(extended) > u32::MAX);
                lemma_dec_val_extends(s@, (i + 1) as nat);
            }
            return None;
        }
        acc = acc * 10 + d;
        i = i + 1;
    }
    proof {
        assert(s@.subrange(0, n as int) =~= s@);
    }
    Some(acc)
}

pub open spec fn is_hex_digit_char(c: char) -> bool {
    is_digit_char(c) || (97 <= c as int <= 102) || (65 <= c as int <= 70)
}

pub open spec fn hex_digit_val(c: char) -> nat {
    if is_digit_char(c) {
        digit_val(c)
    } else if 97 <= c as int <= 102 {
        ((c as int) - 87) as nat
    } else {
        ((c as int) - 55) as nat
    }
}

pub open spec fn all_hex_digit_chars(s: Seq<char>) -> bool {
    forall|i: int| 0 <= i < s.len() ==> is_hex_digit_char(#[trigger] s[i])
}

/// The value of a hexadecimal numeral (most-significant digit first).
pub open spec fn hex_val(s: Seq<char>) -> nat
    decreases s.len(),
{
    if s.len() == 0 {
        0
    } else {
        16 * hex_val(s.drop_last()) + hex_digit_val(s.last())
    }
}

/// Reading a hexadecimal numeral: defined exactly when the text is one or
/// more hexadecimal digits (either case) whose value fits in 32 bits.
pub open spec fn spec_parse_hex(s: Seq<char>) -> Option<u32> {
    if s.len() > 0 && all_hex_digit_chars(s) && hex_val(s) <= u32::MAX {
        Some(hex_val(s) as u32)
    } else {
        None
    }
}

pub proof fn lemma_hex_val_extends(s: Seq<char>, k: nat)
    requires
        k <= s.len(),
    ensures
        hex_val(s.subrange(0, k as int)) <= hex_val(s),
    decreases s.len() - k,
{
    if k == s.len() {
        assert(s.subrange(0, k as int) =~= s);
    } else {
        let a = s.subrange(0, k as int);
        let b = s.subrange(0, k as int + 1);
        assert(b.drop_last() =~= a);
        lemma_hex_val_extends(s, k + 1);
    }
}

/// Read a hexadecimal numeral as a 32-bit value.
pub fn parse_hex_u32(s: &str) -> (r: Option<u32>)
    ensures
        r == spec_parse_hex(s@),
{
    let n = s.unicode_len();
    if n == 0 {
        return None;
    }
    let mut acc: u32 = 0;
    let mut i: usize = 0;
    while i < n
        invariant
            i <= n,
            n == s@.len(),
            forall|k: int| 0 <= k < i ==> is_hex_digit_char(#[trigger] s@[k]),
            acc as nat == hex_val(s@.subrange(0, i as int)),
        decreases n - i,
    {
        let c = s.get_char(i);
        let u = c as u32;
        let d: u32;
        if 48 <= u && u <= 57 {
            d = u - 48;
        } else if 97 <= u && u <= 102 {
            d = u - 87;
        } else if 65 <= u && u <= 70 {
            d = u - 55;
        } else {
            proof {
                assert(!is_hex_digit_char(s@[i as int]));
            }
            return None;
        }
        let ghost prefix = s@.subrange(0, i as int);
        let ghost extended = s@.subrange(0, i as int + 1);
        proof {
            assert(extended.drop_last() =~= prefix);
            assert(extended.last() == s@[i as int]);
            assert(hex_val(extended) == 16 * (acc as nat) + d as nat);
        }
        if acc > (u32::MAX - d) / 16 {
            proof {
                vstd::arithmetic::div_mod::lemma_fundamental_div_mod((u32::MAX - d) as int, 16);
                assert(hex_val(extended) > u32::MAX);
                lemma_hex_val_extends(s@, (i + 1) as nat);
            }
            return None;
        }
        acc = acc * 16 + d;
        i = i + 1;
    }
    proof {
        assert(s@.subrange(0, n as int) =~= s@);
    }
    Some(acc)
}

// ---------------------------------------------------------------------------
// Decimal rendering
// ---------------------------------------------------------------------------
pub open spec fn digit_char(d: nat) -> char {
    if d == 0 {
        '0'
    } else if d == 1 {
        '1'
    } else if d == 2 {
        '2'
    } else if d == 3 {
        '3'
    } else if d == 4 {
        '4'
    } else if d == 5 {
        '5'
    } else if d == 6 {
        '6'
    } else if d == 7 {
        '7'
    } else if d == 8 {
        '8'
    } else {
        '9'
    }
}

/// The decimal numeral of `v`, most-significant digit first, no leading
/// zeros (a single zero digit for 0).
pub open spec fn dec_str(v: nat) -> Seq<char>
    decreases v,
{
    if v < 10 {
        seq![digit_char(v)]
    } else {
        dec_str(v / 10).push(digit_char(v % 10))
    }
}

/// Rendering then reading a decimal numeral recovers the value.
pub proof fn lemma_dec_str_val(v: nat)
    ensures
        dec_str(v).len() >= 1,
        all_digit_chars(dec_str(v)),
        dec_val(dec_str(v)) == v,
    decreases v,
{
    if v < 10 {
        let s = dec_str(v);
        assert(s.drop_last() =~= Seq::<char>::empty());
        assert(dec_val(s.drop_last()) == 0);
        assert(s.last() == digit_char(v));
        assert(is_digit_char(digit_char(v)) && digit_val(digit_char(v)) == v);
    } else {
        lemma_dec_str_val(v / 10);
        let s = dec_str(v);
        let p = dec_str(v / 10);
        assert(s.drop_last() =~= p);
        assert(s.last() == digit_char((v % 10) as nat));
        assert(is_digit_char(digit_char((v % 10) as nat)) && digit_val(
            digit_char((v % 10) as nat),
        ) == v % 10);
        assert forall|i: int| 0 <= i < s.len() implies is_digit_char(#[trigger] s[i]) by {
            if i < p.len() {
                assert(s[i] == p[i]);
            }
        }
        vstd::arithmetic::div_mod::lemma_fundamental_div_mod(v as int, 10);
    }
}

fn digit_to_char(d: u64) -> (c: char)
    requires
        d < 10,
    ensures
        c == digit_char(d as nat),
{
    match d {
        0 => '0',
        1 => '1',
        2 => '2',
        3 => '3',
        4 => '4',
        5 => '5',
        6 => '6',
        7 => '7',
        8 => '8',
        _ => '9',
    }
}

/// Relies on std's String::push: appends one character.
#[verifier::external_body]
pub(crate) fn push_char(s: &mut String, c: char)
    ensures
        final(s)@ == old(s)@.push(c),
{
    s.push(c)
}

/// Render `v` as its decimal numeral.
pub fn to_dec_string(v: u64) -> (r: String)
    ensures
        r@ == dec_str(v as nat),
{
    let ghost target = dec_str(v as nat);
    let mut digits: Vec<char> = Vec::new();
    let mut m: u64 = v;
    while m >= 10
        invariant
            target == dec_str(v as nat),
            target.len() == dec_str(m as nat).len() + digits@.len(),
            forall|k: int|
                0 <= k < dec_str(m as nat).len() ==> target[k] == dec_str(m as nat)[k],
            forall|k: int|
                0 <= k < digits@.len() ==> target[target.len() - 1 - k] == digits@[k],
        decreases m,
    {
        let d = m % 10;
        let ghost before = dec_str(m as nat);
        proof {
            assert(before == dec_str((m as nat) / 10).push(digit_char((m % 10) as nat)));
        }
        digits.push(digit_to_char(d));
        m = m / 10;
    }
    let ghost before = dec_str(m as nat);
    proof {
        assert(before.len() == 1);
        assert(before[0] == digit_char(m as nat));
    }
    digits.push(digit_to_char(m));
    proof {
        assert(target.len() == digits@.len());
        assert forall|k: int| 0 <= k < digits@.len() implies target[target.len() - 1 - k]
            == digits@[k] by {}
    }
    let mut out = String::new();
    let mut i: usize = digits.len();
    while i > 0
        invariant
            i <= digits.len(),
            target.len() == digits@.len(),
            forall|k: int|
                0 <= k < digits@.len() ==> target[target.len() - 1 - k] == digits@[k],
            out@.len() == digits@.len() - i,
            forall|k: int| 0 <= k < out@.len() ==> out@[k] == digits@[digits@.len() - 1 - k],
        decreases i,
    {
        i = i - 1;
        push_char(&mut out, digits[i]);
    }
    proof {
        assert forall|k: int| 0 <= k < target.len() implies out@[k] == target[k] by {
            assert(out@[k] == digits@[digits@.len() - 1 - k]);
            assert(target[target.len() - 1 - (digits@.len() - 1 - k)] == digits@[digits@.len() - 1
                - k]);
        }
        assert(out@ =~= target);
    }
    out
}

// ---------------------------------------------------------------------------
// Comment filtering
// ---------------------------------------------------------------------------
/// A line is kept unless its first character is the comment marker.
pub open spec fn keeps_line(s: Seq<char>) -> bool {
    !(s.len() >= 1 && s[0] == ';')
}

/// The given lines with comment lines excluded, in order.
pub open spec fn spec_filter_comments(lines: Seq<Seq<char>>) -> Seq<Seq<char>>
    decreases lines.len(),
{
    if lines.len() == 0 {
        Seq::empty()
    } else if keeps_line(lines.last()) {
        spec_filter_comments(lines.drop_last()).push(lines.last())
    } else {
        spec_filter_comments(lines.drop_last())
    }
}

/// Drop the comment lines of a program text.
pub fn filter_comment_lines(lines: Vec<String>) -> (r: Vec<String>)
    ensures
        r.deep_view() == spec_filter_comments(lines.deep_view()),
{
    let mut out: Vec<String> = Vec::new();
    let mut i: usize = 0;
    proof {
        assert(lines.deep_view().subrange(0, 0) =~= Seq::<Seq<char>>::empty());
        assert(out.deep_view() =~= Seq::<Seq<char>>::empty());
    }
    let n = lines.len();
    while i < n
        invariant
            i <= n,
            n == lines.len(),
            out.deep_view() == spec_filter_comments(lines.deep_view().subrange(0, i as int)),
        decreases n - i,
    {
        let line = &lines[i];
        let keep = line.as_str().unicode_len() == 0 || line.as_str().get_char(0) != ';';
        let ghost prefix = lines.deep_view().subrange(0, i as int);
        let ghost extended = lines.deep_view().subrange(0, i as int + 1);
        proof {
            assert(extended.drop_last() =~= prefix);
            assert(extended.last() == lines.deep_view()[i as int]);
            assert(keep == keeps_line(lines.deep_view()[i as int]));
        }
        if keep {
            let ghost before = out.deep_view();
            out.push(line.clone());
            proof {
                assert(out.deep_view() =~= before.push(lines.deep_view()[i as int]));
            }
        }
        i = i + 1;
    }
    proof {
        assert(lines.deep_view().subrange(0, n as int) =~= lines.deep_view());
    }
    out
}

// ---------------------------------------------------------------------------
// String comparison
// ---------------------------------------------------------------------------
/// Character-wise string equality.
pub fn str_eq(a: &str, b: &str) -> (r: bool)
    ensures
        r == (a@ == b@),
{
    let la = a.unicode_len();
    let lb = b.unicode_len();
    if la != lb {
        return false;
    }
    let mut i: usize = 0;
    while i < la
        invariant
            i <= la,
            la == a@.len(),
            la == b@.len(),
            forall|k: int| 0 <= k < i ==> a@[k] == b@[k],
        decreases la - i,
    {
        if a.get_char(i) != b.get_char(i) {
            return false;
        }
        i = i + 1;
    }
    proof {
        assert(a@ =~= b@);
    }
    true
}

} // verus!
