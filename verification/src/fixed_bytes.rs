//! Fixed-length little-endian byte arrays as natural numbers.
use vstd::prelude::*;
use vstd::arithmetic::power2::pow2;
use crate::limb::BitLike;
use crate::limbs::{seq_val, weight, lemma_val_concat, lemma_val_bound, lemma_weight_pos,
    lemma_weight_mono, lemma_val_take, lemma_weight_succ, lemma_weight_zero, all_zero,
    lemma_val_extend_zeros};

verus! {

/// `N` zero bytes.
pub fn zero_bytes<const N: usize>() -> (r: [u8; N])
    ensures
        forall|i: int| 0 <= i < N ==> r@[i] == 0,
        r@.len() == N,
        seq_val(r@) == 0,
{
    proof {
        broadcast use vstd::array::axiom_spec_array_fill_for_copy_type;
    }
    let r: [u8; N] = [0u8; N];
    proof {
        assert(all_zero(r@));
        crate::limbs::lemma_val_zeros(r@);
    }
    r
}

/// The first `n` limbs hold the value modulo `weight(n)`.
pub proof fn lemma_val_take_mod<B: BitLike>(s: Seq<B>, n: nat)
    requires
        n <= s.len(),
    ensures
        seq_val(s.take(n as int)) == seq_val(s) % weight::<B>(n),
{
    let lo = s.take(n as int);
    let hi = s.skip(n as int);
    assert(s =~= lo + hi);
    lemma_val_concat(lo, hi);
    lemma_val_bound(lo);
    lemma_weight_pos::<B>(n);
    vstd::arithmetic::div_mod::lemma_mod_multiples_vanish(seq_val(hi) as int, seq_val(lo) as int,
        weight::<B>(n) as int);
    vstd::arithmetic::div_mod::lemma_small_mod(seq_val(lo), weight::<B>(n));
    assert(seq_val(hi) * weight::<B>(n) + seq_val(lo) == weight::<B>(n) * seq_val(hi) + seq_val(lo)) by (nonlinear_arith);
}

/// The bytes of `v` written into `N` bytes, keeping the value modulo `256^N`.
pub fn truncate_bytes<const N: usize>(v: &[u8]) -> (r: [u8; N])
    ensures
        seq_val(r@) == seq_val(v@) % weight::<u8>(N as nat),
{
    let mut r: [u8; N] = zero_bytes();
    let mut i: usize = 0;
    let n: usize = if v.len() < N {
        v.len()
    } else {
        N
    };
    while i < n
        invariant
            i <= n,
            n <= N,
            n <= v@.len(),
            r@.len() == N,
            forall|j: int| 0 <= j < i ==> r@[j] == v@[j],
            forall|j: int| i <= j < N ==> r@[j] == 0,
        decreases n - i,
    {
        r[i] = v[i];
        i += 1;
    }
    proof {
        let t = v@.take(n as int);
        let z = r@.skip(n as int);
        assert(r@ =~= t + z);
        assert(all_zero(z));
        lemma_val_extend_zeros(t, z);
        if v@.len() < N {
            assert(t =~= v@);
            lemma_val_bound(v@);
            lemma_weight_mono::<u8>(v@.len(), N as nat);
            vstd::arithmetic::div_mod::lemma_small_mod(seq_val(v@), weight::<u8>(N as nat));
        } else {
            lemma_val_take_mod(v@, N as nat);
        }
    }
    r
}

/// The bytes in reverse order.
pub fn reverse_bytes<const N: usize>(b: [u8; N]) -> (r: [u8; N])
    ensures
        r@ == b@.reverse(),
{
    let mut r: [u8; N] = zero_bytes();
    let mut i: usize = 0;
    while i < N
        invariant
            i <= N,
            r@.len() == N,
            b@.len() == N,
            forall|j: int| 0 <= j < i ==> r@[j] == b@[N - 1 - j],
        decreases N - i,
    {
        r[i] = b[N - 1 - i];
        i += 1;
    }
    proof {
        assert(r@ =~= b@.reverse());
    }
    r
}

/// The value of at most sixteen bytes.
pub fn bytes_value(b: &[u8]) -> (r: u128)
    requires
        b@.len() <= 16,
    ensures
        r == seq_val(b@),
{
    let mut acc: u128 = 0;
    let mut mult: u128 = 1;
    let mut i: usize = 0;
    proof {
        lemma_weight_zero::<u8>();
        assert(b@.take(0) =~= Seq::<u8>::empty());
        vstd::arithmetic::power2::lemma2_to64();
        vstd::arithmetic::power2::lemma_pow2_adds(64, 64);
        lemma_weight_mono::<u8>(b@.len() as nat, 16);
    }
    while i < b.len()
        invariant
            i <= b@.len(),
            b@.len() <= 16,
            acc == seq_val(b@.take(i as int)),
            i < b@.len() ==> mult == weight::<u8>(i as nat),
            weight::<u8>(16) == pow2(128),
            weight::<u8>(b@.len() as nat) <= pow2(128),
        decreases b@.len() - i,
    {
        proof {
            lemma_val_take(b@, i as int);
            lemma_val_bound(b@.take(i as int + 1));
            lemma_weight_mono::<u8>(i as nat + 1, b@.len() as nat);
            let x = b@[i as int] as nat;
            lemma_val_bound(b@.take(i as int));
            lemma_weight_succ::<u8>(i as nat);
            vstd::arithmetic::power2::lemma2_to64();
            let m = mult as nat;
            let a = acc as nat;
            assert(a + x * m < 256 * m) by (nonlinear_arith)
                requires
                    x <= 255,
                    a < m,
            ;
            assert(weight::<u8>(i as nat + 1) == m * 256);
            assert(pow2(128) == 0x1_0000_0000_0000_0000_0000_0000_0000_0000nat) by {
                vstd::arithmetic::power2::lemma_pow2_adds(64, 64);
                vstd::arithmetic::power2::lemma2_to64();
            }
            assert(x * m <= 255 * m) by (nonlinear_arith)
                requires
                    x <= 255,
            ;
        }
        acc = acc + (b[i] as u128) * mult;
        if i + 1 < b.len() {
            proof {
                lemma_weight_succ::<u8>(i as nat);
                lemma_weight_mono::<u8>(i as nat + 1, 15);
                vstd::arithmetic::power2::lemma2_to64();
                vstd::arithmetic::power2::lemma_pow2_strictly_increases(120, 128);
                assert(pow2(128) == 0x1_0000_0000_0000_0000_0000_0000_0000_0000nat) by {
                    vstd::arithmetic::power2::lemma_pow2_adds(64, 64);
                }
            }
            mult = mult * 256;
        }
        i += 1;
    }
    proof {
        assert(b@.take(b@.len() as int) =~= b@);
    }
    acc
}

/// The value written as `N` bytes, modulo `256^N`.
pub fn value_bytes<const N: usize>(v: u128) -> (r: [u8; N])
    ensures
        seq_val(r@) == (v as nat) % weight::<u8>(N as nat),
{
    let mut r: [u8; N] = zero_bytes();
    let mut left: u128 = v;
    let mut i: usize = 0;
    proof {
        lemma_weight_zero::<u8>();
        vstd::arithmetic::power2::lemma2_to64();
    }
    while i < N && left > 0
        invariant
            i <= N,
            r@.len() == N,
            forall|j: int| i <= j < N ==> r@[j] == 0,
            seq_val(r@.take(i as int)) + left * weight::<u8>(i as nat) == v,
        decreases N - i,
    {
        let d = (left % 256) as u8;
        let ghost old_left = left;
        let ghost prefix = r@.take(i as int);
        left = left / 256;
        r[i] = d;
        proof {
            assert(r@.take(i as int + 1) =~= prefix.push(d));
            crate::limbs::lemma_val_push(prefix, d);
            lemma_weight_succ::<u8>(i as nat);
            vstd::arithmetic::power2::lemma2_to64();
            let w = weight::<u8>(i as nat);
            let l = left;
            assert(old_left * w == d * w + l * (w * 256)) by (nonlinear_arith)
                requires
                    old_left == 256 * l + d,
            ;
        }
        i += 1;
    }
    proof {
        let t = r@.take(i as int);
        let z = r@.skip(i as int);
        assert(r@ =~= t + z);
        assert(all_zero(z));
        lemma_val_extend_zeros(t, z);
        lemma_val_bound(t);
        lemma_weight_pos::<u8>(i as nat);
        lemma_val_bound(r@);
        if left == 0 {
            let w = weight::<u8>(i as nat);
            assert(left * w == 0) by (nonlinear_arith)
                requires
                    left == 0,
            ;
            vstd::arithmetic::div_mod::lemma_small_mod(v as nat, weight::<u8>(N as nat));
        } else {
            assert(i == N);
            let w = weight::<u8>(N as nat);
            vstd::arithmetic::div_mod::lemma_mod_multiples_vanish(left as int, seq_val(t) as int, w as int);
            vstd::arithmetic::div_mod::lemma_small_mod(seq_val(t), w);
            assert(left * w + seq_val(t) == w * left + seq_val(t)) by (nonlinear_arith);
        }
    }
    r
}


/// Byte-wise complement: each byte `b` becomes `!b`, that is `255 - b`.
pub fn bytes_not<const N: usize>(a: [u8; N]) -> (r: [u8; N])
    ensures
        forall|i: int| 0 <= i < N ==> r@[i] == !a@[i] && r@[i] == 255 - a@[i],
{
    let mut b = a;
    let mut i: usize = 0;
    while i < N
        invariant
            i <= N,
            b@.len() == N,
            forall|j: int| 0 <= j < i ==> b@[j] == !a@[j] && b@[j] == 255 - a@[j],
            forall|j: int| i <= j < N ==> b@[j] == a@[j],
        decreases N - i,
    {
        let x: u8 = b[i];
        let y: u8 = !x;
        assert(y == 255 - x) by (bit_vector)
            requires
                y == !x,
        ;
        b[i] = y;
        i += 1;
    }
    b
}

/// Byte-wise AND of two arrays.
pub fn bytes_and<const N: usize>(a: [u8; N], c: [u8; N]) -> (r: [u8; N])
    ensures
        forall|i: int| 0 <= i < N ==> r@[i] == a@[i] & c@[i],
{
    let mut b = a;
    let mut i: usize = 0;
    while i < N
        invariant
            i <= N,
            b@.len() == N,
            forall|j: int| 0 <= j < i ==> b@[j] == a@[j] & c@[j],
            forall|j: int| i <= j < N ==> b@[j] == a@[j],
        decreases N - i,
    {
        b[i] = b[i] & c[i];
        i += 1;
    }
    b
}

/// Byte-wise OR of two arrays.
pub fn bytes_or<const N: usize>(a: [u8; N], c: [u8; N]) -> (r: [u8; N])
    ensures
        forall|i: int| 0 <= i < N ==> r@[i] == a@[i] | c@[i],
{
    let mut b = a;
    let mut i: usize = 0;
    while i < N
        invariant
            i <= N,
            b@.len() == N,
            forall|j: int| 0 <= j < i ==> b@[j] == a@[j] | c@[j],
            forall|j: int| i <= j < N ==> b@[j] == a@[j],
        decreases N - i,
    {
        b[i] = b[i] | c[i];
        i += 1;
    }
    b
}

/// Byte-wise XOR of two arrays.
pub fn bytes_xor<const N: usize>(a: [u8; N], c: [u8; N]) -> (r: [u8; N])
    ensures
        forall|i: int| 0 <= i < N ==> r@[i] == a@[i] ^ c@[i],
{
    let mut b = a;
    let mut i: usize = 0;
    while i < N
        invariant
            i <= N,
            b@.len() == N,
            forall|j: int| 0 <= j < i ==> b@[j] == a@[j] ^ c@[j],
            forall|j: int| i <= j < N ==> b@[j] == a@[j],
        decreases N - i,
    {
        b[i] = b[i] ^ c[i];
        i += 1;
    }
    b
}

} // verus!
