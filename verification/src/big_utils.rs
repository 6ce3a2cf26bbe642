//! Pieces shared by the unbounded integers: the tagged word that holds small values inline, the
//! view of a value as a slice of limbs, and the out-of-range error.
use vstd::prelude::*;
use crate::limb::BitLike;
use vstd::arithmetic::power2::{pow2, lemma_pow2_pos, lemma_pow2_unfold, lemma2_to64};
use vstd::arithmetic::div_mod::{
    lemma_fundamental_div_mod_converse, lemma_fundamental_div_mod, lemma_mod_multiples_vanish,
};
use vstd::bits::{lemma_usize_shr_is_div, lemma_usize_shl_is_mul, lemma_usize_pow2_no_overflow};
use crate::limb::{lemma_usize_width, lemma_nat_bit_split};

verus! {

/// Which side of the target type's range a value fell on.
#[derive(PartialEq, Eq, Debug, Copy, Clone, Hash, Structural)]
pub enum Side {
    Above,
    Below,
}

/// The error for when you try to convert a big integer with a value that is too large or small
/// for the type being converted into.
#[derive(Debug)]
pub struct OutOfRangeError(pub Side);

impl OutOfRangeError {
    pub fn above() -> (r: Self)
        ensures
            r.0 == Side::Above,
    {
        OutOfRangeError(Side::Above)
    }

    pub fn below() -> (r: Self)
        ensures
            r.0 == Side::Below,
    {
        OutOfRangeError(Side::Below)
    }

    pub fn side(self) -> (r: Side)
        ensures
            r == self.0,
    {
        self.0
    }
}

/// What a tagged word holds: a small value directly, or a reference to limbs stored elsewhere.
pub enum TaggedVal {
    Inline(usize),
    Slice,
}

/// A machine word whose lowest bit marks an inline value, whose next `T - 1` bits are tags, and
/// whose remaining bits are the inline value (the offset).
#[derive(Copy, Clone, Debug)]
pub struct TaggedOffset<const T: usize> {
    val: usize,
}

impl<const T: usize> TaggedOffset<T> {
    /// The raw word.
    pub closed spec fn word(self) -> nat {
        self.val as nat
    }

    pub open spec fn spec_inline(self) -> bool {
        self.word() % 2 == 1
    }

    pub open spec fn spec_tags(self) -> nat {
        (self.word() % pow2(T as nat)) / 2
    }

    pub open spec fn spec_offset(self) -> nat {
        self.word() / pow2(T as nat)
    }

    /// A tagged word is determined by its inline bit, its tag bits and its offset.
    pub proof fn lemma_determined(a: Self, b: Self)
        requires
            1 <= T,
            a.spec_inline() == b.spec_inline(),
            a.spec_tags() == b.spec_tags(),
            a.spec_offset() == b.spec_offset(),
        ensures
            a == b,
    {
        let p = pow2(T as nat) as int;
        lemma_pow2_pos(T as nat);
        lemma_pow2_unfold(T as nat);
        let h = pow2((T - 1) as nat) as int;
        lemma_pow2_pos((T - 1) as nat);
        assert(p == 2 * h);
        lemma_fundamental_div_mod(a.val as int, p);
        lemma_fundamental_div_mod(b.val as int, p);
        let ma = a.val as int % p;
        let mb = b.val as int % p;
        lemma_fundamental_div_mod(ma, 2);
        lemma_fundamental_div_mod(mb, 2);
        vstd::arithmetic::div_mod::lemma_mod_mod(a.val as int, 2, h);
        vstd::arithmetic::div_mod::lemma_mod_mod(b.val as int, 2, h);
        assert(ma == mb);
        assert(a.val == b.val);
    }

    /// A word holding `offset` inline with the given tag bits.
    pub fn new(offset: usize, tags: usize) -> (r: Self)
        requires
            1 <= T <= 8,
            offset <= usize::MAX >> T,
            2 * tags + 1 < pow2(T as nat),
        ensures
            r.spec_inline(),
            r.spec_tags() == tags,
            r.spec_offset() == offset,
    {
        proof {
            lemma_usize_width();
            lemma2_to64();
            lemma_usize_pow2_no_overflow(T as nat);
            lemma_usize_shl_is_mul(1, T);
            lemma_usize_shr_is_div(usize::MAX, T);
        }
        let m: usize = 1usize << T;
        proof {
            let mm = m as nat;
            assert(offset * mm <= ((usize::MAX as nat) / mm) * mm) by (nonlinear_arith)
                requires
                    offset <= (usize::MAX as nat) / mm,
            ;
            vstd::arithmetic::div_mod::lemma_fundamental_div_mod(usize::MAX as int, mm as int);
            vstd::arithmetic::power2::lemma_pow2_adds(T as nat, (usize::BITS - T) as nat);
            let k = pow2((usize::BITS - T) as nat);
            lemma_pow2_pos((usize::BITS - T) as nat);
            assert(usize::MAX == (k - 1) * mm + (mm - 1)) by (nonlinear_arith)
                requires
                    usize::MAX + 1 == mm * k,
                    k >= 1,
            ;
            lemma_fundamental_div_mod_converse(usize::MAX as int, mm as int, (k - 1) as int, (mm - 1) as int);
            assert(offset * mm + (tags * 2 + 1) <= usize::MAX);
        }
        let v: usize = offset * m + (tags * 2 + 1);
        proof {
            let mm = m as nat;
            let s = tags * 2 + 1;
            lemma_fundamental_div_mod_converse(v as int, mm as int, offset as int, s as int);
            lemma_pow2_unfold(T as nat);
            let h = pow2((T - 1) as nat);
            assert(v == 2 * (offset * h + tags) + 1) by (nonlinear_arith)
                requires
                    v == offset * mm + (tags * 2 + 1),
                    mm == 2 * h,
            ;
        }
        TaggedOffset { val: v }
    }

    /// A word marking a value held outside the word, with the given tag bits.
    pub fn new_ptr(tags: usize) -> (r: Self)
        requires
            1 <= T <= 8,
            2 * tags + 1 < pow2(T as nat),
        ensures
            !r.spec_inline(),
            r.spec_tags() == tags,
            r.spec_offset() == 0,
    {
        proof {
            lemma_pow2_pos(T as nat);
            vstd::arithmetic::div_mod::lemma_small_mod((2 * tags) as nat, pow2(T as nat));
            vstd::arithmetic::div_mod::lemma_basic_div((2 * tags) as int, pow2(T as nat) as int);
            lemma_usize_width();
            lemma2_to64();
        }
        TaggedOffset { val: tags * 2 }
    }

    /// Whether the word holds its value inline.
    pub fn inline(self) -> (r: bool)
        ensures
            r == self.spec_inline(),
    {
        self.val % 2 == 1
    }

    /// The tag bits.
    pub fn tags(self) -> (r: usize)
        requires
            1 <= T <= 8,
        ensures
            r == self.spec_tags(),
    {
        proof {
            lemma_usize_width();
            lemma2_to64();
            lemma_usize_pow2_no_overflow(T as nat);
            lemma_usize_shl_is_mul(1, T);
        }
        let m: usize = 1usize << T;
        (self.val % m) / 2
    }

    /// The inline value: the bits above the tags.
    pub fn offset_bits(self) -> (r: usize)
        requires
            1 <= T <= 8,
        ensures
            r == self.spec_offset(),
    {
        proof {
            lemma_usize_width();
            lemma2_to64();
            lemma_usize_shr_is_div(self.val, T);
        }
        self.val >> T
    }

    /// What the word holds.
    pub fn offset(self) -> (r: TaggedVal)
        requires
            1 <= T <= 8,
        ensures
            r == if self.spec_inline() {
                TaggedVal::Inline(self.spec_offset() as usize)
            } else {
                TaggedVal::Slice
            },
    {
        if self.inline() {
            TaggedVal::Inline(self.offset_bits())
        } else {
            TaggedVal::Slice
        }
    }

    /// What the word holds, and its tag bits.
    pub fn get(self) -> (r: (TaggedVal, usize))
        requires
            1 <= T <= 8,
        ensures
            r.0 == if self.spec_inline() {
                TaggedVal::Inline(self.spec_offset() as usize)
            } else {
                TaggedVal::Slice
            },
            r.1 == self.spec_tags(),
    {
        (self.offset(), self.tags())
    }

    /// Flip the highest tag bit, which is bit `IDX == T - 1` of the word.
    pub fn invert_tag<const IDX: usize>(self) -> (r: Self)
        requires
            2 <= T <= 8,
            IDX + 1 == T,
        ensures
            r.spec_inline() == self.spec_inline(),
            r.spec_offset() == self.spec_offset(),
            r.spec_tags() == if self.spec_tags() >= pow2((T - 2) as nat) {
                self.spec_tags() - pow2((T - 2) as nat)
            } else {
                self.spec_tags() + pow2((T - 2) as nat) as int
            },
    {
        let cur = self.val.get_bit(IDX);
        let v = self.val.with_bit(IDX, !cur);
        proof {
            lemma_usize_width();
            lemma2_to64();
            let w = self.val as nat;
            let i = IDX as nat;
            let p = pow2(i);
            lemma_pow2_pos(i);
            lemma_pow2_unfold(i);
            lemma_pow2_unfold(T as nat);
            lemma_nat_bit_split(w, i);
            lemma_nat_bit_split(v as nat, i);
            crate::limb::lemma_with_nat_bit(w, i, !cur, i);
            assert(pow2(T as nat) == 2 * p);
            let hp = pow2((T - 2) as nat);
            assert(p == 2 * hp);
            // the word, split at bit IDX: w == 2p * (w / 2p) + bit * p + (w % p)
            vstd::arithmetic::div_mod::lemma_fundamental_div_mod(w as int, (2 * p) as int);
            vstd::arithmetic::div_mod::lemma_fundamental_div_mod(v as int, (2 * p) as int);
            vstd::arithmetic::div_mod::lemma_mod_bound(w as int, p as int);
            vstd::arithmetic::div_mod::lemma_mod_bound(v as int, p as int);
            let lo = w % p;
            assert(v as nat % p == lo) by {
                // only bit IDX changed, so the part below it is the same
                if cur {
                    assert(v as nat == w - p);
                } else {
                    assert(v as nat == w + p);
                }
                lemma_low_part(w, v as nat, p, cur);
            }
            assert(v as nat / (2 * p) == w / (2 * p)) by {
                lemma_high_part(w, v as nat, p, cur);
            }
            assert(w % 2 == lo % 2) by {
                lemma_mod_of_mod(w, hp);
            }
            assert(v as nat % 2 == lo % 2) by {
                lemma_mod_of_mod(v as nat, hp);
            }
        }
        TaggedOffset { val: v }
    }
}

/// `w % 2 == (w % 2k) % 2`.
proof fn lemma_mod_of_mod(w: nat, k: nat)
    requires
        k >= 1,
    ensures
        w % 2 == (w % (2 * k)) % 2,
{
    lemma_fundamental_div_mod(w as int, (2 * k) as int);
    let q = w / (2 * k);
    let r = w % (2 * k);
    assert(w == 2 * (k * q) + r) by (nonlinear_arith)
        requires
            w == (2 * k) * q + r,
    ;
    lemma_mod_multiples_vanish((k * q) as int, r as int, 2);
}

/// Moving bit `p` of `w` (an exact power of two) keeps the part below it.
proof fn lemma_low_part(w: nat, v: nat, p: nat, cur: bool)
    requires
        p > 0,
        cur ==> v == w - p && w >= p,
        !cur ==> v == w + p,
    ensures
        v % p == w % p,
{
    if cur {
        vstd::arithmetic::div_mod::lemma_mod_sub_multiples_vanish(w as int, p as int);
    } else {
        vstd::arithmetic::div_mod::lemma_mod_add_multiples_vanish(w as int, p as int);
    }
}

/// Flipping bit `i` (of weight `p`) keeps the part above bit `i + 1`.
proof fn lemma_high_part(w: nat, v: nat, p: nat, cur: bool)
    requires
        p > 0,
        (w / p) % 2 == (if cur { 1int } else { 0 }),
        cur ==> v == w - p && w >= p,
        !cur ==> v == w + p,
    ensures
        v / (2 * p) == w / (2 * p),
{
    lemma_fundamental_div_mod(w as int, p as int);
    let q = w / p;
    let lo = w % p;
    vstd::arithmetic::div_mod::lemma_mod_bound(w as int, p as int);
    lemma_fundamental_div_mod(q as int, 2);
    let h = q / 2;
    if cur {
        assert(w == (2 * p) * h + (p + lo)) by (nonlinear_arith)
            requires
                w == p * q + lo,
                q == 2 * h + 1,
        ;
        assert(v == (2 * p) * h + lo);
        vstd::arithmetic::div_mod::lemma_div_multiples_vanish_fancy(h as int, (p + lo) as int, (2 * p) as int);
        vstd::arithmetic::div_mod::lemma_div_multiples_vanish_fancy(h as int, lo as int, (2 * p) as int);
    } else {
        assert(w == (2 * p) * h + lo) by (nonlinear_arith)
            requires
                w == p * q + lo,
                q == 2 * h,
        ;
        assert(v == (2 * p) * h + (p + lo));
        vstd::arithmetic::div_mod::lemma_div_multiples_vanish_fancy(h as int, (p + lo) as int, (2 * p) as int);
        vstd::arithmetic::div_mod::lemma_div_multiples_vanish_fancy(h as int, lo as int, (2 * p) as int);
    }
}

/// A value held as one inline limb or as a slice of limbs held elsewhere.
pub enum MaybeInline<'a> {
    Inline([usize; 1]),
    Slice(&'a [usize]),
}

impl MaybeInline<'_> {
    pub open spec fn slice_view(&self) -> Seq<usize> {
        match self {
            MaybeInline::Inline(a) => a@,
            MaybeInline::Slice(s) => s@,
        }
    }

    /// The limbs of the value.
    pub fn slice(&self) -> (r: &[usize])
        ensures
            r@ == self.slice_view(),
    {
        match self {
            MaybeInline::Inline(a) => a.as_slice(),
            MaybeInline::Slice(s) => s,
        }
    }
}

} // verus!
