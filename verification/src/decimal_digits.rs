//! Decimal digits of a value held as limbs.
use vstd::prelude::*;
use crate::limb::BitLike;
use crate::limbs::seq_val;
use crate::element::{div_rem_values, zero_vec};
use crate::decimal::{dec_string, rev_chars, digit_char, lemma_rev_chars_push};

verus! {

/// The decimal digits of the value of `s`, lowest first.
pub fn decimal_digits<B: BitLike>(s: &[B]) -> (r: Vec<u8>)
    requires
        s@.len() * B::width() + 16 <= usize::MAX,
    ensures
        r@.len() >= 1,
        forall|i: int| 0 <= i < r@.len() ==> r@[i] < 10,
        rev_chars(r@) == dec_string(seq_val(s@)),
{
    let ghost n = seq_val(s@);
    let mut digits: Vec<u8> = Vec::new();
    let ten_limb = B::from_u8(10);
    let ten: [B; 1] = [ten_limb];
    let zero: [B; 1] = [B::zero()];
    proof {
        crate::limbs::lemma_val_single(ten@);
        crate::limbs::lemma_val_single(zero@);
        B::lemma_width();
    }
    let mut cur: Vec<B> = zero_vec(s.len());
    let mut i: usize = 0;
    while i < s.len()
        invariant
            i <= s@.len(),
            cur@.len() == s@.len(),
            forall|j: int| 0 <= j < i ==> cur@[j] == s@[j],
        decreases s@.len() - i,
    {
        cur.set(i, s[i]);
        i += 1;
    }
    proof {
        assert(cur@ =~= s@);
    }
    let len = cur.len();
    while !crate::element::equal_values(cur.as_slice(), zero.as_slice())
        invariant
            seq_val(ten@) == 10,
            seq_val(zero@) == 0,
            ten@.len() == 1,
            zero@.len() == 1,
            cur@.len() == len || cur@.len() == 1,
            len == s@.len(),
            len * B::width() + 16 <= usize::MAX,
            B::width() >= 8,
            forall|j: int| 0 <= j < digits@.len() ==> digits@[j] < 10,
            seq_val(cur@) > 0 ==> dec_string(n) == dec_string(seq_val(cur@)) + rev_chars(digits@),
            seq_val(cur@) == 0 ==> (n == 0 && digits@.len() == 0) || (dec_string(n) == rev_chars(
                digits@,
            ) && digits@.len() >= 1),
        decreases seq_val(cur@),
    {
        proof {
            crate::limb::lemma_usize_width();
            vstd::arithmetic::power2::lemma2_to64();
            B::lemma_width();
            assert(cur@.len() * B::width() <= usize::MAX) by (nonlinear_arith)
                requires
                    cur@.len() == len || cur@.len() == 1,
                    len * B::width() + 16 <= usize::MAX,
                    B::width() <= 64,
                    usize::MAX >= 0xffff,
            ;
            assert(cur@.len() + 2 < usize::MAX) by (nonlinear_arith)
                requires
                    cur@.len() == len || cur@.len() == 1,
                    len * B::width() + 16 <= usize::MAX,
                    B::width() >= 8,
            ;
        }
        let (q, rem) = div_rem_values(cur.as_slice(), ten.as_slice());
        let ghost v = seq_val(cur@);
        proof {
            vstd::arithmetic::div_mod::lemma_mod_bound(v as int, 10);
            crate::limbs::lemma_weight_succ::<B>(0);
            crate::limbs::lemma_weight_zero::<B>();
            vstd::arithmetic::power2::lemma_pow2_strictly_increases(4, B::width());
            vstd::arithmetic::power2::lemma2_to64();
            if rem@.len() > 1 {
                crate::element::lemma_normalized_short(rem@, 1);
            }
            crate::limbs::lemma_val_single(rem@);
        }
        let d: u8 = rem[0].to_u128() as u8;
        proof {
            lemma_rev_chars_push(digits@, d);
            assert(d == v % 10);
            if v >= 10 {
                assert(dec_string(v) == dec_string(v / 10).push(digit_char(v % 10)));
                assert(dec_string(v / 10) + rev_chars(digits@.push(d)) =~= dec_string(v) + rev_chars(digits@));
                vstd::arithmetic::div_mod::lemma_div_pos_is_pos(v as int, 10);
            } else {
                vstd::arithmetic::div_mod::lemma_small_mod(v, 10);
                vstd::arithmetic::div_mod::lemma_basic_div(v as int, 10);
                assert(rev_chars(digits@.push(d)) =~= dec_string(v) + rev_chars(digits@));
            }
            vstd::arithmetic::div_mod::lemma_div_decreases(v as int, 10);
        }
        digits.push(d);
        cur = q;
    }
    if digits.len() == 0 {
        digits.push(0);
        proof {
            lemma_rev_chars_push(Seq::<u8>::empty(), 0);
            assert(Seq::<u8>::empty().push(0) =~= digits@);
            assert(rev_chars(Seq::<u8>::empty()) == Seq::<char>::empty());
            assert(seq![digit_char(0)] + Seq::<char>::empty() =~= seq![digit_char(0)]);
        }
    }
    digits
}

} // verus!
