//! Conversions between machine integers and arrays of limbs, and trimming of top zero limbs.
use vstd::prelude::*;
use vstd::arithmetic::power2::pow2;
use crate::limb::{BitLike, lemma_usize_width};
use crate::limbs::{seq_val, weight, is_normalized, lemma_val_bound};
use crate::element::{shrink_slice, shrink_vec};

verus! {

/// Unsigned machine integers up to 128 bits.
pub trait Prim: Copy + Sized {
    /// Number of bits.
    spec fn bits() -> nat;

    /// The value.
    spec fn value(self) -> nat;

    proof fn lemma_prim(x: Self)
        ensures
            8 <= Self::bits() <= 128,
            x.value() < pow2(Self::bits()),
    ;

    proof fn lemma_bits()
        ensures
            8 <= Self::bits() <= 128,
    ;

    /// The value, widened to a `u128`.
    fn widen(self) -> (r: u128)
        ensures
            r == self.value(),
    ;

    /// A `u128` that fits, narrowed to this type.
    fn narrow(v: u128) -> (r: Self)
        requires
            v < pow2(Self::bits()),
        ensures
            r.value() == v,
    ;

    /// The number of bits, as a `usize`.
    fn bit_count() -> (r: usize)
        ensures
            r == Self::bits(),
    ;

    /// The largest value, widened to a `u128`.
    fn max_wide() -> (r: u128)
        ensures
            r == pow2(Self::bits()) - 1,
    ;
}

impl Prim for u8 {
    open spec fn bits() -> nat {
        8
    }

    open spec fn value(self) -> nat {
        self as nat
    }

    proof fn lemma_prim(x: Self) {
        vstd::arithmetic::power2::lemma2_to64();
        vstd::arithmetic::power2::lemma2_to64_rest();
        vstd::arithmetic::power2::lemma_pow2_adds(64, 64);
        lemma_usize_width();
    }

    proof fn lemma_bits() {
        lemma_usize_width();
    }

    fn widen(self) -> (r: u128) {
        self as u128
    }

    fn narrow(v: u128) -> (r: Self) {
        proof {
            vstd::arithmetic::power2::lemma2_to64();
            vstd::arithmetic::power2::lemma2_to64_rest();
            vstd::arithmetic::power2::lemma_pow2_adds(64, 64);
            lemma_usize_width();
        }
        v as u8
    }

    fn max_wide() -> (r: u128) {
        proof {
            vstd::arithmetic::power2::lemma2_to64();
            vstd::arithmetic::power2::lemma2_to64_rest();
            vstd::arithmetic::power2::lemma_pow2_adds(64, 64);
            lemma_usize_width();
        }
        u8::MAX as u128
    }

    fn bit_count() -> (r: usize) {
        8
    }
}

impl Prim for u16 {
    open spec fn bits() -> nat {
        16
    }

    open spec fn value(self) -> nat {
        self as nat
    }

    proof fn lemma_prim(x: Self) {
        vstd::arithmetic::power2::lemma2_to64();
        vstd::arithmetic::power2::lemma2_to64_rest();
        vstd::arithmetic::power2::lemma_pow2_adds(64, 64);
        lemma_usize_width();
    }

    proof fn lemma_bits() {
        lemma_usize_width();
    }

    fn widen(self) -> (r: u128) {
        self as u128
    }

    fn narrow(v: u128) -> (r: Self) {
        proof {
            vstd::arithmetic::power2::lemma2_to64();
            vstd::arithmetic::power2::lemma2_to64_rest();
            vstd::arithmetic::power2::lemma_pow2_adds(64, 64);
            lemma_usize_width();
        }
        v as u16
    }

    fn max_wide() -> (r: u128) {
        proof {
            vstd::arithmetic::power2::lemma2_to64();
            vstd::arithmetic::power2::lemma2_to64_rest();
            vstd::arithmetic::power2::lemma_pow2_adds(64, 64);
            lemma_usize_width();
        }
        u16::MAX as u128
    }

    fn bit_count() -> (r: usize) {
        16
    }
}

impl Prim for u32 {
    open spec fn bits() -> nat {
        32
    }

    open spec fn value(self) -> nat {
        self as nat
    }

    proof fn lemma_prim(x: Self) {
        vstd::arithmetic::power2::lemma2_to64();
        vstd::arithmetic::power2::lemma2_to64_rest();
        vstd::arithmetic::power2::lemma_pow2_adds(64, 64);
        lemma_usize_width();
    }

    proof fn lemma_bits() {
        lemma_usize_width();
    }

    fn widen(self) -> (r: u128) {
        self as u128
    }

    fn narrow(v: u128) -> (r: Self) {
        proof {
            vstd::arithmetic::power2::lemma2_to64();
            vstd::arithmetic::power2::lemma2_to64_rest();
            vstd::arithmetic::power2::lemma_pow2_adds(64, 64);
            lemma_usize_width();
        }
        v as u32
    }

    fn max_wide() -> (r: u128) {
        proof {
            vstd::arithmetic::power2::lemma2_to64();
            vstd::arithmetic::power2::lemma2_to64_rest();
            vstd::arithmetic::power2::lemma_pow2_adds(64, 64);
            lemma_usize_width();
        }
        u32::MAX as u128
    }

    fn bit_count() -> (r: usize) {
        32
    }
}

impl Prim for u64 {
    open spec fn bits() -> nat {
        64
    }

    open spec fn value(self) -> nat {
        self as nat
    }

    proof fn lemma_prim(x: Self) {
        vstd::arithmetic::power2::lemma2_to64();
        vstd::arithmetic::power2::lemma2_to64_rest();
        vstd::arithmetic::power2::lemma_pow2_adds(64, 64);
        lemma_usize_width();
    }

    proof fn lemma_bits() {
        lemma_usize_width();
    }

    fn widen(self) -> (r: u128) {
        self as u128
    }

    fn narrow(v: u128) -> (r: Self) {
        proof {
            vstd::arithmetic::power2::lemma2_to64();
            vstd::arithmetic::power2::lemma2_to64_rest();
            vstd::arithmetic::power2::lemma_pow2_adds(64, 64);
            lemma_usize_width();
        }
        v as u64
    }

    fn max_wide() -> (r: u128) {
        proof {
            vstd::arithmetic::power2::lemma2_to64();
            vstd::arithmetic::power2::lemma2_to64_rest();
            vstd::arithmetic::power2::lemma_pow2_adds(64, 64);
            lemma_usize_width();
        }
        u64::MAX as u128
    }

    fn bit_count() -> (r: usize) {
        64
    }
}

impl Prim for u128 {
    open spec fn bits() -> nat {
        128
    }

    open spec fn value(self) -> nat {
        self as nat
    }

    proof fn lemma_prim(x: Self) {
        vstd::arithmetic::power2::lemma2_to64();
        vstd::arithmetic::power2::lemma2_to64_rest();
        vstd::arithmetic::power2::lemma_pow2_adds(64, 64);
        lemma_usize_width();
    }

    proof fn lemma_bits() {
        lemma_usize_width();
    }

    fn widen(self) -> (r: u128) {
        self as u128
    }

    fn narrow(v: u128) -> (r: Self) {
        proof {
            vstd::arithmetic::power2::lemma2_to64();
            vstd::arithmetic::power2::lemma2_to64_rest();
            vstd::arithmetic::power2::lemma_pow2_adds(64, 64);
            lemma_usize_width();
        }
        v as u128
    }

    fn max_wide() -> (r: u128) {
        proof {
            vstd::arithmetic::power2::lemma2_to64();
            vstd::arithmetic::power2::lemma2_to64_rest();
            vstd::arithmetic::power2::lemma_pow2_adds(64, 64);
            lemma_usize_width();
        }
        u128::MAX as u128
    }

    fn bit_count() -> (r: usize) {
        128
    }
}

impl Prim for usize {
    open spec fn bits() -> nat {
        usize::BITS as nat
    }

    open spec fn value(self) -> nat {
        self as nat
    }

    proof fn lemma_prim(x: Self) {
        vstd::arithmetic::power2::lemma2_to64();
        vstd::arithmetic::power2::lemma2_to64_rest();
        vstd::arithmetic::power2::lemma_pow2_adds(64, 64);
        lemma_usize_width();
    }

    proof fn lemma_bits() {
        lemma_usize_width();
    }

    fn widen(self) -> (r: u128) {
        self as u128
    }

    fn narrow(v: u128) -> (r: Self) {
        proof {
            vstd::arithmetic::power2::lemma2_to64();
            vstd::arithmetic::power2::lemma2_to64_rest();
            vstd::arithmetic::power2::lemma_pow2_adds(64, 64);
            lemma_usize_width();
        }
        v as usize
    }

    fn max_wide() -> (r: u128) {
        proof {
            vstd::arithmetic::power2::lemma2_to64();
            vstd::arithmetic::power2::lemma2_to64_rest();
            vstd::arithmetic::power2::lemma_pow2_adds(64, 64);
            lemma_usize_width();
        }
        usize::MAX as u128
    }

    fn bit_count() -> (r: usize) {
        usize::BITS as usize
    }
}

/// Sequences of limbs whose top zero limbs can be trimmed.
pub trait IntSlice<T: BitLike>: Sized {
    /// The limbs held, lowest first.
    spec fn int_limbs(&self) -> Seq<T>;

    /// Whether trimming is defined: a slice must hold at least one limb.
    spec fn can_shrink(&self) -> bool;

    /// Remove the zero limbs from the top, keeping at least one limb.
    fn shrink(self) -> (r: Self)
        requires
            self.can_shrink(),
        ensures
            seq_val(r.int_limbs()) == seq_val(self.int_limbs()),
            self.int_limbs().len() >= 1 ==> is_normalized(r.int_limbs()),
            r.int_limbs() == self.int_limbs().take(r.int_limbs().len() as int),
    ;
}

impl<'a, T: BitLike> IntSlice<T> for &'a [T] {
    open spec fn int_limbs(&self) -> Seq<T> {
        self@
    }

    open spec fn can_shrink(&self) -> bool {
        self@.len() >= 1
    }

    fn shrink(self) -> (r: Self) {
        shrink_slice(self)
    }
}

impl<T: BitLike> IntSlice<T> for Vec<T> {
    open spec fn int_limbs(&self) -> Seq<T> {
        self@
    }

    open spec fn can_shrink(&self) -> bool {
        true
    }

    fn shrink(self) -> (r: Self) {
        shrink_vec(self)
    }
}

/// Split `val` into `N` limbs of `U`, lowest first, dropping what does not fit.
pub fn int_to_arr<T: Prim, U: BitLike, const N: usize>(val: T) -> (r: [U; N])
    ensures
        seq_val(r@) == val.value() % weight::<U>(N as nat),
{
    proof {
        broadcast use vstd::array::axiom_spec_array_fill_for_copy_type;
        U::lemma_width();
        T::lemma_prim(val);
        vstd::arithmetic::power2::lemma2_to64();
        vstd::arithmetic::power2::lemma2_to64_rest();
    }
    let z = U::zero();
    let mut out: [U; N] = [z; N];
    let base: u128 = U::max_limb().to_u128() + 1;
    let mut left: u128 = val.widen();
    let mut i: usize = 0;
    let ghost v = val.value();
    proof {
        crate::limbs::lemma_weight_zero::<U>();
        assert(out@.take(0) =~= Seq::<U>::empty());
        let l = left;
        assert(l * 1 == l) by (nonlinear_arith);
        if U::width() < 64 {
            vstd::arithmetic::power2::lemma_pow2_strictly_increases(U::width(), 64);
        }
    }
    while i < N
        invariant
            i <= N,
            out@.len() == N,
            base == pow2(U::width()),
            base >= 2,
            forall|j: int| i <= j < N ==> (#[trigger] out@[j]).to_nat() == 0,
            seq_val(out@.take(i as int)) + left * weight::<U>(i as nat) == v,
        decreases N - i,
    {
        let d = U::from_u128(left % base);
        let ghost old_left = left;
        let ghost prefix = out@.take(i as int);
        left = left / base;
        out[i] = d;
        proof {
            assert(out@.take(i as int + 1) =~= prefix.push(d));
            crate::limbs::lemma_val_push(prefix, d);
            crate::limbs::lemma_weight_succ::<U>(i as nat);
            vstd::arithmetic::div_mod::lemma_fundamental_div_mod(old_left as int, base as int);
            let w = weight::<U>(i as nat);
            let l = left;
            assert(old_left * w == d.to_nat() * w + l * (w * base)) by (nonlinear_arith)
                requires
                    old_left == base * l + d.to_nat(),
            ;
        }
        i += 1;
    }
    proof {
        assert(out@.take(N as int) =~= out@);
        lemma_val_bound(out@);
        let w = weight::<U>(N as nat);
        crate::limbs::lemma_weight_pos::<U>(N as nat);
        vstd::arithmetic::div_mod::lemma_mod_multiples_vanish(left as int, seq_val(out@) as int, w as int);
        vstd::arithmetic::div_mod::lemma_small_mod(seq_val(out@), w);
        assert(left * w + seq_val(out@) == w * left + seq_val(out@)) by (nonlinear_arith);
    }
    out
}

/// Whether every limb of `arr` fits in `bits` bits and every limb above the lowest starts below
/// bit `bits`.
pub open spec fn limbs_fit<T: BitLike>(arr: Seq<T>, bits: nat) -> bool {
    &&& forall|i: int| 0 <= i < arr.len() ==> (#[trigger] arr[i]).to_nat() < pow2(bits)
    &&& forall|i: int| 1 <= i < arr.len() ==> #[trigger] limb_shift::<T>(i) < bits
}

/// The bit at which limb `i` starts.
pub open spec fn limb_shift<T: BitLike>(i: int) -> int {
    T::width() * i
}

/// Normalized limbs whose value fits in `bits` bits fit limb by limb too: each limb and each
/// limb's starting bit lies below `bits`.
pub proof fn lemma_normalized_fit<T: BitLike>(s: Seq<T>, bits: nat)
    requires
        is_normalized(s),
        seq_val(s) < pow2(bits),
    ensures
        limbs_fit(s, bits),
{
    T::lemma_width();
    if s.len() == 1 {
        crate::limbs::lemma_val_single(s);
    } else {
        let top = (s.len() - 1) as nat;
        crate::limbs::lemma_val_top_nonzero(s);
        if T::width() * top >= bits {
            if T::width() * top > bits {
                vstd::arithmetic::power2::lemma_pow2_strictly_increases(bits, T::width() * top);
            }
        }
        assert(T::width() * top < bits);
        assert forall|i: int| 1 <= i < s.len() implies #[trigger] limb_shift::<T>(i) < bits by {
            assert(T::width() * i <= T::width() * top) by (nonlinear_arith)
                requires
                    i <= top,
                    T::width() >= 8,
            ;
        }
        assert(T::width() <= T::width() * top) by (nonlinear_arith)
            requires
                top >= 1,
                T::width() >= 8,
        ;
        vstd::arithmetic::power2::lemma_pow2_strictly_increases(T::width(), bits);
        assert forall|i: int| 0 <= i < s.len() implies (#[trigger] s[i]).to_nat() < pow2(bits) by {
            T::lemma_limb(s[i]);
        }
    }
}

/// Join limbs, lowest first, into one value of `U`, where each limb and the whole value fit.
pub fn arr_to_int<T: BitLike, U: Prim>(arr: &[T]) -> (r: Option<U>)
    ensures
        r is Some <==> limbs_fit(arr@, U::bits()) && seq_val(arr@) < pow2(U::bits()),
        r matches Some(v) ==> v.value() == seq_val(arr@),
{
    let ghost bu = U::bits();
    let bits: usize = U::bit_count();
    proof {
        T::lemma_width();
        U::lemma_bits();
        vstd::arithmetic::power2::lemma2_to64();
        vstd::arithmetic::power2::lemma2_to64_rest();
        vstd::arithmetic::power2::lemma_pow2_adds(64, 64);
        assert(pow2(128) == 0x1_0000_0000_0000_0000_0000_0000_0000_0000nat);
        vstd::arithmetic::power2::lemma_pow2_pos(bu);
        if bu < 128 {
            vstd::arithmetic::power2::lemma_pow2_strictly_increases(bu, 128);
        }
        crate::limbs::lemma_weight_zero::<T>();
        assert(arr@.take(0) =~= Seq::<T>::empty());
    }
    let max: u128 = U::max_wide();
    let wt: usize = T::bit_len();
    let base: u128 = T::max_limb().to_u128() + 1;
    let mut acc: u128 = 0;
    let mut p: u128 = 1;
    let mut idx: usize = 0;
    while idx < arr.len()
        invariant
            idx <= arr@.len(),
            bits == bu,
            bu == U::bits(),
            8 <= bu <= 128,
            wt == T::width(),
            8 <= wt <= 64,
            base == pow2(T::width()),
            max == pow2(bu) - 1,
            pow2(bu) <= pow2(128),
            pow2(128) == 0x1_0000_0000_0000_0000_0000_0000_0000_0000nat,
            acc == seq_val(arr@.take(idx as int)),
            acc <= max,
            idx == 0 ==> p == 1,
            idx >= 1 ==> p == weight::<T>((idx - 1) as nat),
            idx >= 1 ==> T::width() * ((idx - 1) as nat) < bu,
            limbs_fit(arr@.take(idx as int), bu),
        decreases arr@.len() - idx,
    {
        let t = arr[idx].to_u128();
        let ghost prefix = arr@.take(idx as int);
        let ghost next = arr@.take(idx as int + 1);
        proof {
            assert(next =~= prefix.push(arr@[idx as int]));
            assert(next.drop_last() =~= prefix);
        }
        if t > max {
            proof {
                assert(!limbs_fit(arr@, bu)) by {
                    assert(arr@[idx as int].to_nat() >= pow2(bu));
                }
            }
            return None;
        }
        if idx >= 1 {
            if idx > (bits - 1) / wt {
                proof {
                    vstd::arithmetic::div_mod::lemma_fundamental_div_mod((bits - 1) as int, wt as int);
                    vstd::arithmetic::div_mod::lemma_mod_bound((bits - 1) as int, wt as int);
                    let bm = (bits - 1) as int;
                    let w = wt as int;
                    let q = bm / w;
                    let rm = bm % w;
                    assert(w * idx >= bits) by (nonlinear_arith)
                        requires
                            idx >= q + 1,
                            bm == w * q + rm,
                            rm < w,
                            bm == bits - 1,
                            w > 0,
                    ;
                    assert(!limbs_fit(arr@, bu)) by {
                        assert(T::width() == wt);
                        assert(limb_shift::<T>(idx as int) >= bu);
                        assert(1 <= idx < arr@.len());
                    }
                }
                return None;
            }
            proof {
                vstd::arithmetic::div_mod::lemma_fundamental_div_mod((bits - 1) as int, wt as int);
                vstd::arithmetic::div_mod::lemma_mod_bound((bits - 1) as int, wt as int);
                let bm = (bits - 1) as int;
                let w = wt as int;
                let q = bm / w;
                let rm = bm % w;
                assert(w * idx < bits) by (nonlinear_arith)
                    requires
                        idx <= q,
                        bm == w * q + rm,
                        rm >= 0,
                        bm == bits - 1,
                        w > 0,
                ;
                crate::limbs::lemma_weight_succ::<T>((idx - 1) as nat);
                assert(weight::<T>(idx as nat) == pow2((wt * idx) as nat));
                vstd::arithmetic::power2::lemma_pow2_strictly_increases((wt * idx) as nat, 128);
            }
            p = p * base;
        }
        proof {
            crate::limbs::lemma_weight_pos::<T>(idx as nat);
            crate::limbs::lemma_weight_zero::<T>();
        }
        let room = (max - acc) / p;
        proof {
            vstd::arithmetic::div_mod::lemma_fundamental_div_mod((max - acc) as int, p as int);
            vstd::arithmetic::div_mod::lemma_mod_bound((max - acc) as int, p as int);
            crate::limbs::lemma_val_push(prefix, arr@[idx as int]);
        }
        if t > room {
            proof {
                let x = (max - acc) as int;
                let pp = p as int;
                let rm = x % pp;
                assert(t * p > x) by (nonlinear_arith)
                    requires
                        t >= room + 1,
                        x == pp * room + rm,
                        rm < pp,
                        pp == p,
                        p > 0,
                ;
                crate::element::lemma_val_prefix_le(arr@, idx as int + 1);
            }
            return None;
        }
        proof {
            let x = (max - acc) as int;
            let pp = p as int;
            let rm = x % pp;
            assert(t * p <= max - acc) by (nonlinear_arith)
                requires
                    t <= room,
                    x == pp * room + rm,
                    rm >= 0,
                    pp == p,
                    x == max - acc,
                    p > 0,
            ;
        }
        acc = acc + t * p;
        idx += 1;
        proof {
            assert(limbs_fit(next, bu));
        }
    }
    proof {
        assert(arr@.take(arr@.len() as int) =~= arr@);
    }
    Some(U::narrow(acc))
}

} // verus!
