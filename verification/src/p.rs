//! N-byte posits (projective reals), held as their raw little-endian bytes.
use vstd::prelude::*;
use crate::bit_iter::BitIter;
use crate::limbs::seq_bit;
use crate::fixed_bytes::zero_bytes;
use crate::u::small_width;

verus! {

/// The length of the run of bits equal to `b` starting at bit `i` of `s`.
pub open spec fn run_from(s: Seq<u8>, i: nat, b: bool) -> nat
    decreases s.len() * 8 - i,
{
    if i < s.len() * 8 && seq_bit(s, i) == b {
        1 + run_from(s, i + 1, b)
    } else {
        0
    }
}

/// N-byte posit value.
///
/// A posit is similar to a float, in that it forms a computer representation of real numbers,
/// but with several distinctive features:
///
/// - They have no redundant representations
/// - They have only one non-real value: `NaR`, sometimes also called `inf`
///
/// ## Format
///
/// This implementation is conformant with the 2022 Posit Standard, where the `n` of a posit
/// is `N * 8` of this type. As such, `P<1> == posit8`, `P<4> == posit32`, etc.
#[derive(Clone, Copy, Debug)]
pub struct P<const N: usize>(pub [u8; N]);

impl<const N: usize> P<N> {
    /// The value zero: all bits clear.
    pub fn new() -> (r: P<N>)
        ensures
            forall|i: int| 0 <= i < N ==> r.0@[i] == 0,
    {
        P(zero_bytes())
    }

    /// The value `NaR`: the lowest bit set, every other bit clear.
    pub fn nar() -> (r: P<N>)
        requires
            N >= 1,
        ensures
            r.0@[0] == 1,
            forall|i: int| 1 <= i < N ==> r.0@[i] == 0,
    {
        let mut out: [u8; N] = zero_bytes();
        out[0] = 1;
        P(out)
    }

    /// Whether the sign bit, the lowest bit of the first byte, is set.
    pub fn is_negative(self) -> (r: bool)
        requires
            N >= 1,
        ensures
            r == (self.0@[0] & 1 != 0),
    {
        self.0[0] & 0x1 != 0
    }

    /// Whether this is `NaR`: the first byte is one and every other byte is zero.
    pub fn is_nar(self) -> (r: bool)
        requires
            N >= 1,
        ensures
            r == (self.0@[0] == 1 && forall|i: int| 1 <= i < N ==> self.0@[i] == 0),
    {
        if self.0[0] != 1 {
            return false;
        }
        let mut i: usize = 1;
        while i < N
            invariant
                1 <= i <= N,
                forall|j: int| 1 <= j < i ==> self.0@[j] == 0,
            decreases N - i,
        {
            if self.0[i] != 0 {
                return false;
            }
            i += 1;
        }
        true
    }

    /// The regime: the bit after the sign bit, and how many bits after it repeat it.
    fn regime(self) -> (r: (bool, usize))
        requires
            N >= 1,
            small_width(N as nat),
        ensures
            r.0 == seq_bit(self.0@, 1),
            r.1 == run_from(self.0@, 2, r.0),
    {
        let mut iter = BitIter::new(self.0.as_slice());
        proof {
            u8_width_facts();
        }
        let _ = iter.next();
        let first = match iter.next() {
            Some(v) => v,
            None => false,
        };
        let mut count: usize = 0;
        let ghost s = self.0@;
        loop
            invariant
                iter.limbs() == s,
                s == self.0@,
                s.len() == N,
                small_width(N as nat),
                first == seq_bit(s, 1),
                2 <= iter.pos() <= s.len() * 8,
                count + run_from(s, iter.pos(), first) == run_from(s, 2, first),
                iter.pos() == 2 + count,
            decreases s.len() * 8 - iter.pos(),
        {
            let ghost p = iter.pos();
            proof {
                assert(run_from(s, p, first) == if p < s.len() * 8 && seq_bit(s, p) == first {
                    1 + run_from(s, p + 1, first)
                } else {
                    0
                });
                lemma_index_in_bytes(p, s.len());
            }
            match iter.next() {
                Some(v) => {
                    if v != first {
                        return (first, count);
                    }
                    count += 1;
                },
                None => {
                    return (first, count);
                },
            }
            proof {
                assert(p < s.len() * 8);
            }
        }
    }
}

/// A bit index lies within `len` bytes exactly when its byte index does.
proof fn lemma_index_in_bytes(p: nat, len: nat)
    ensures
        (p / 8 < len) == (p < len * 8),
{
    vstd::arithmetic::div_mod::lemma_fundamental_div_mod(p as int, 8);
    vstd::arithmetic::div_mod::lemma_mod_bound(p as int, 8);
}

/// A `u8` limb has eight bits.
proof fn u8_width_facts()
    ensures
        <u8 as crate::limb::BitLike>::width() == 8,
{
}

impl<const N: usize> core::ops::Neg for P<N> {
    type Output = P<N>;

    fn neg(self) -> (r: P<N>)
        ensures
            r.0@ == self.0@.update(0, self.0@[0] ^ 1),
    {
        let mut b = self.0;
        b[0] = b[0] ^ 1;
        P(b)
    }
}

impl<const N: usize> vstd::std_specs::ops::NegSpecImpl for P<N> {
    open spec fn obeys_neg_spec() -> bool {
        false
    }

    open spec fn neg_req(self) -> bool {
        N >= 1
    }

    open spec fn neg_spec(self) -> P<N> {
        arbitrary()
    }
}

/// N-byte posit quire value.
///
/// A quire is an intermediate data structure used for performing multiple mathematical operations
/// on posits in succession without incurring precision drift. In other words, a quire allows
/// 'batching' operations before pulling out a result with only one rounding applied, to the final
/// result.
///
/// ## Format
///
/// This implementation is conformant with the 2022 Posit Standard, where `Quire<N>` is the quire
/// for [`P<N>`]. As such, `Quire<1>` is 128 bits, `Quire<4>` is 512 bits, etc.
pub struct Quire<const N: usize>(pub [u128; N]);

/// Whether two byte strings are the same, byte for byte.
fn same_bytes(a: &[u8], b: &[u8]) -> (r: bool)
    ensures
        r == (a@ == b@),
{
    if a.len() != b.len() {
        return false;
    }
    let mut i: usize = 0;
    while i < a.len()
        invariant
            a@.len() == b@.len(),
            i <= a@.len(),
            forall|j: int| 0 <= j < i ==> a@[j] == b@[j],
        decreases a@.len() - i,
    {
        if a[i] != b[i] {
            return false;
        }
        i += 1;
    }
    proof {
        assert(a@ =~= b@);
    }
    true
}

impl<const N: usize> PartialEq for P<N> {
    fn eq(&self, other: &Self) -> (r: bool) {
        same_bytes(self.0.as_slice(), other.0.as_slice())
    }
}

impl<const N: usize> vstd::std_specs::cmp::PartialEqSpecImpl for P<N> {
    open spec fn obeys_eq_spec() -> bool {
        true
    }

    open spec fn eq_spec(&self, other: &P<N>) -> bool {
        self.0@ == other.0@
    }
}

impl<const N: usize> Eq for P<N> {}

} // verus!
