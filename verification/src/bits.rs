//! Variable-width unsigned binary values.
//!
//! A value is stored as the minimal ordered sequence of bits needed to hold
//! it, least-significant bit first: one all-false bit for zero, and otherwise
//! `floor(log2(v)) + 1` bits whose top bit is set. A slot additionally keeps
//! a high-water-mark width, used only for memory-usage accounting.

use vstd::arithmetic::div_mod::{lemma_div_denominator, lemma_fundamental_div_mod};
use vstd::arithmetic::logarithm::log;
use vstd::arithmetic::power2::{lemma2_to64, lemma_pow2_adds, lemma_pow2_pos, pow2};
use vstd::prelude::*;

verus! {

// ---------------------------------------------------------------------------
// Mathematical model
// ---------------------------------------------------------------------------
/// Bit `i` of the natural number `v` (least-significant bit is bit 0).
pub open spec fn nth_bit(v: nat, i: nat) -> bool {
    (v / pow2(i)) % 2 == 1
}

/// The width of the minimal bit representation of `v`: 1 for `v <= 1`,
/// otherwise one more than the width of `v / 2`.
pub open spec fn min_width(v: nat) -> nat
    decreases v,
{
    if v <= 1 {
        1
    } else {
        1 + min_width(v / 2)
    }
}

/// The minimal bit representation of `v`, least-significant bit first.
pub open spec fn bits_of(v: nat) -> Seq<bool> {
    Seq::new(min_width(v), |i: int| nth_bit(v, i as nat))
}

/// The value that a bit sequence denotes: `sum(bit[i] << i)`.
pub open spec fn seq_val(s: Seq<bool>) -> nat
    decreases s.len(),
{
    if s.len() == 0 {
        0
    } else {
        (if s[0] {
            1nat
        } else {
            0
        }) + 2 * seq_val(s.drop_first())
    }
}

pub proof fn lemma_min_width_bounds(v: nat)
    ensures
        min_width(v) >= 1,
        v < pow2(min_width(v)),
        v >= 1 ==> pow2((min_width(v) - 1) as nat) <= v,
    decreases v,
{
    lemma2_to64();
    if v <= 1 {
    } else {
        lemma_min_width_bounds(v / 2);
        let w = min_width(v / 2);
        lemma_pow2_adds(w, 1);
        lemma_pow2_adds((w - 1) as nat, 1);
    }
}

pub proof fn lemma_min_width_le(v: nat, w: nat)
    requires
        w >= 1,
        v < pow2(w),
    ensures
        min_width(v) <= w,
    decreases v,
{
    lemma2_to64();
    if v <= 1 {
    } else {
        lemma_pow2_adds((w - 1) as nat, 1);
        lemma_min_width_le(v / 2, (w - 1) as nat);
    }
}

/// The width of any 32-bit value's representation is at most 32.
pub proof fn lemma_min_width_u32(v: nat)
    requires
        v <= u32::MAX,
    ensures
        1 <= min_width(v) <= 32,
    decreases v,
{
    lemma2_to64();
    lemma_min_width_le(v, 32);
    lemma_min_width_bounds(v);
}

pub proof fn lemma_seq_val_bound(s: Seq<bool>)
    ensures
        seq_val(s) < pow2(s.len()),
    decreases s.len(),
{
    lemma2_to64();
    if s.len() == 0 {
    } else {
        lemma_seq_val_bound(s.drop_first());
        lemma_pow2_adds((s.len() - 1) as nat, 1);
    }
}

/// Round trip: the minimal representation of `v` denotes `v` itself.
pub proof fn lemma_bits_of_val(v: nat)
    ensures
        seq_val(bits_of(v)) == v,
    decreases v,
{
    lemma2_to64();
    let s = bits_of(v);
    assert(pow2(0) == 1);
    if v <= 1 {
        assert(s.len() == 1);
        assert(s.drop_first().len() == 0);
        assert(seq_val(s.drop_first()) == 0);
        assert(s[0] == nth_bit(v, 0));
        assert(nth_bit(v, 0) == (v % 2 == 1));
    } else {
        lemma_bits_of_val(v / 2);
        assert forall|i: int| 0 <= i < s.len() - 1 implies s.drop_first()[i] == bits_of(v / 2)[i] by {
            lemma_pow2_adds(i as nat, 1);
            lemma_pow2_pos(i as nat);
            lemma_div_denominator(v as int, 2, pow2(i as nat) as int);
            assert(nth_bit(v, (i + 1) as nat) == nth_bit(v / 2, i as nat));
        }
        assert(s.drop_first() =~= bits_of(v / 2));
        assert(s[0] == nth_bit(v, 0));
        assert(nth_bit(v, 0) == (v % 2 == 1));
        lemma_fundamental_div_mod(v as int, 2);
    }
}

/// The representation width equals `floor(log2(max(v, 1))) + 1`.
pub proof fn lemma_min_width_is_log(v: nat)
    ensures
        min_width(v) == log(2, if v == 0 { 1int } else { v as int }) + 1,
    decreases v,
{
    reveal(log);
    if v <= 1 {
    } else {
        lemma_min_width_is_log(v / 2);
    }
}

/// Law: for every 32-bit value `n`, the bit representation has length
/// `floor(log2(max(n, 1))) + 1` (never more than 32 bits), and reading the
/// representation back recovers `n` exactly.
pub proof fn lemma_bit_representation(n: u32)
    ensures
        bits_of(n as nat).len() == log(2, if n == 0 { 1int } else { n as int }) + 1,
        seq_val(bits_of(n as nat)) == n as nat,
        bits_of(n as nat).len() <= 32,
{
    lemma_min_width_is_log(n as nat);
    lemma_bits_of_val(n as nat);
    lemma_min_width_u32(n as nat);
}

// ---------------------------------------------------------------------------
// Trusted interface to bit_vec::BitVec
// ---------------------------------------------------------------------------
/// `bit_vec::BitVec` stores the bit sequences; it is declared here so that it
/// can stand in fields and signatures.
#[verifier::external_type_specification]
#[verifier::external_body]
#[verifier::reject_recursive_types(B)]
pub struct ExBitVec<B>(bit_vec::BitVec<B>);

/// The ordered sequence of booleans that a `bit_vec::BitVec` holds.
pub uninterp spec fn bit_vec_bits(bv: bit_vec::BitVec) -> Seq<bool>;

/// Relies on bit_vec::BitVec::from_elem: a vector of `len` copies of `bit`.
#[verifier::external_body]
pub(crate) fn bv_from_elem(len: usize, bit: bool) -> (r: bit_vec::BitVec)
    ensures
        bit_vec_bits(r) == Seq::new(len as nat, |i: int| bit),
{
    bit_vec::BitVec::from_elem(len, bit)
}

/// Relies on bit_vec::BitVec::set: replaces the bit at an in-bounds index.
#[verifier::external_body]
pub(crate) fn bv_set(bv: &mut bit_vec::BitVec, i: usize, x: bool)
    requires
        i < bit_vec_bits(*old(bv)).len(),
    ensures
        bit_vec_bits(*final(bv)) == bit_vec_bits(*old(bv)).update(i as int, x),
{
    bv.set(i, x)
}

/// Relies on bit_vec::BitVec::get: returns the bit at an in-bounds index.
#[verifier::external_body]
pub(crate) fn bv_get(bv: &bit_vec::BitVec, i: usize) -> (r: bool)
    requires
        i < bit_vec_bits(*bv).len(),
    ensures
        r == bit_vec_bits(*bv)[i as int],
{
    match bv.get(i) {
        Some(b) => b,
        None => false,
    }
}

/// Relies on bit_vec::BitVec::len: the number of bits held.
#[verifier::external_body]
pub(crate) fn bv_len(bv: &bit_vec::BitVec) -> (r: usize)
    ensures
        r as nat == bit_vec_bits(*bv).len(),
{
    bv.len()
}

// ---------------------------------------------------------------------------
// Variable: one memory-bank slot
// ---------------------------------------------------------------------------
/// One slot of a memory bank: a variable-width unsigned value together with
/// the largest width ever assigned to the slot.
pub struct Variable {
    pub value: bit_vec::BitVec,
    pub max_size: usize,
}

impl Variable {
    /// The stored bit sequence, least-significant bit first.
    pub open spec fn bits(&self) -> Seq<bool> {
        bit_vec_bits(self.value)
    }

    /// The unsigned value the slot holds.
    pub open spec fn spec_value(&self) -> nat {
        seq_val(self.bits())
    }

    /// Well-formed: the stored bits are the minimal representation of the
    /// stored value, the value fits in 32 bits, and the high-water mark is
    /// at least the current width.
    pub open spec fn wf(&self) -> bool {
        &&& self.bits() == bits_of(self.spec_value())
        &&& self.spec_value() <= u32::MAX
        &&& self.max_size >= self.bits().len()
    }

    pub fn new(uint: u32) -> (r: Self)
        ensures
            r.wf(),
            r.spec_value() == uint as nat,
            r.max_size as nat == min_width(uint as nat),
    {
        let bits = Self::u32_to_bits(uint);
        let size = bv_len(&bits);
        proof {
            lemma_bits_of_val(uint as nat);
        }
        Self { value: bits, max_size: size }
    }

    pub fn set_value(&mut self, uint: u32)
        requires
            old(self).wf(),
        ensures
            final(self).wf(),
            final(self).spec_value() == uint as nat,
            final(self).max_size as nat == if min_width(uint as nat) > old(self).max_size as nat {
                min_width(uint as nat)
            } else {
                old(self).max_size as nat
            },
    {
        let bits = Self::u32_to_bits(uint);
        let size = bv_len(&bits);
        proof {
            lemma_bits_of_val(uint as nat);
        }
        self.value = bits;
        if size > self.max_size {
            self.max_size = size;
        }
    }

    pub fn get_value(&self) -> (r: u32)
        requires
            self.wf(),
        ensures
            r as nat == self.spec_value(),
    {
        proof {
            lemma_min_width_u32(self.spec_value());
        }
        Self::bits_value(&self.value)
    }

    /// The width of the minimal bit representation of `uint`.
    pub fn bit_width(uint: u32) -> (w: usize)
        ensures
            w as nat == min_width(uint as nat),
            1 <= w <= 32,
    {
        proof {
            lemma_min_width_u32(uint as nat);
        }
        let mut m: u32 = uint;
        let mut w: usize = 1;
        while m > 1
            invariant
                min_width(uint as nat) == (w - 1) + min_width(m as nat),
                1 <= w,
                w as nat + min_width(m as nat) <= 33,
            decreases m,
        {
            m = m / 2;
            w = w + 1;
        }
        w
    }

    /// The minimal bit representation of `uint`, least-significant bit first.
    pub fn u32_to_bits(uint: u32) -> (r: bit_vec::BitVec)
        ensures
            bit_vec_bits(r) == bits_of(uint as nat),
    {
        let w = Self::bit_width(uint);
        let mut bits = bv_from_elem(w, false);
        let mut cur: u32 = uint;
        let mut i: usize = 0;
        proof {
            lemma2_to64();
        }
        while i < w
            invariant
                i <= w,
                w as nat == min_width(uint as nat),
                bit_vec_bits(bits).len() == w as nat,
                cur as nat == (uint as nat) / pow2(i as nat),
                forall|j: int|
                    0 <= j < w ==> bit_vec_bits(bits)[j] == (j < i && nth_bit(
                        uint as nat,
                        j as nat,
                    )),
            decreases w - i,
        {
            let b = cur % 2 == 1;
            proof {
                lemma2_to64();
                assert(pow2(0) == 1);
                assert(b == nth_bit(uint as nat, i as nat));
                lemma_pow2_adds(i as nat, 1);
                lemma_pow2_pos(i as nat);
                lemma_div_denominator(uint as int, pow2(i as nat) as int, 2);
            }
            bv_set(&mut bits, i, b);
            cur = cur / 2;
            i = i + 1;
        }
        proof {
            assert(bit_vec_bits(bits) =~= bits_of(uint as nat));
        }
        bits
    }

    /// The value a bit sequence denotes. The sequence must fit in 32 bits.
    pub fn bits_to_u32(bits: bit_vec::BitVec) -> (r: u32)
        requires
            bit_vec_bits(bits).len() <= 32,
        ensures
            r as nat == seq_val(bit_vec_bits(bits)),
    {
        Self::bits_value(&bits)
    }

    fn bits_value(bits: &bit_vec::BitVec) -> (r: u32)
        requires
            bit_vec_bits(*bits).len() <= 32,
        ensures
            r as nat == seq_val(bit_vec_bits(*bits)),
    {
        let s = Ghost(bit_vec_bits(*bits));
        let n = bv_len(bits);
        let mut acc: u32 = 0;
        let mut i: usize = n;
        proof {
            lemma2_to64();
            assert(s@.subrange(n as int, n as int).len() == 0);
        }
        while i > 0
            invariant
                i <= n,
                n as nat == s@.len() <= 32,
                s@ == bit_vec_bits(*bits),
                acc as nat == seq_val(s@.subrange(i as int, n as int)),
                (acc as nat) < pow2((n - i) as nat),
            decreases i,
        {
            i = i - 1;
            let b = bv_get(bits, i);
            proof {
                lemma2_to64();
                lemma_seq_val_bound(s@.subrange(i as int, n as int));
                lemma_pow2_adds((n - i - 1) as nat, 1);
                assert(s@.subrange(i as int, n as int).drop_first() =~= s@.subrange(
                    i as int + 1,
                    n as int,
                ));
                assert(seq_val(s@.subrange(i as int, n as int)) == (if s@[i as int] {
                    1nat
                } else {
                    0
                }) + 2 * seq_val(s@.subrange(i as int + 1, n as int)));
            }
            acc = acc * 2 + (if b {
                1
            } else {
                0
            });
        }
        proof {
            assert(s@.subrange(0, n as int) =~= s@);
        }
        acc
    }
}

} // verus!
