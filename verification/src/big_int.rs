//! A 'big' integer with the tagged-word layout: small values inline, with the sign and the
//! inline flag held in the two low bits of the word.
use vstd::prelude::*;
use vstd::arithmetic::power2::pow2;
use core::cmp::Ordering;
use crate::limbs::seq_val;
use crate::ubig::{fits, limb_cap, inline_max, int_of_i32};
use crate::ibig::{IBig, abs, signed, quotient_toward_zero, remainder_signed, order_of_ints};
use crate::decimal::dec_string;
use crate::radix_text::radix_string;
use crate::radix::{str_value, first_non_digit};
use crate::big_utils::{Side, MaybeInline};
use crate::utils::Prim;

verus! {

/// The tag associated with a `TaggedOffset`
#[derive(Copy, Clone, Debug, PartialEq, Eq, Structural)]
pub enum Tag {
    Interned,
    Neg,
    Inline,
    InlineNeg,
}

/// The number that a tag is stored as.
pub open spec fn tag_bits(t: Tag) -> nat {
    match t {
        Tag::Interned => 0,
        Tag::Neg => 1,
        Tag::Inline => 2,
        Tag::InlineNeg => 3,
    }
}

impl Tag {
    /// The tag held in the low two bits of `val`.
    pub fn from_usize_truncate(val: usize) -> (r: Tag)
        ensures
            tag_bits(r) == val % 4,
    {
        let low = val % 4;
        if low == 0 {
            Tag::Interned
        } else if low == 1 {
            Tag::Neg
        } else if low == 2 {
            Tag::Inline
        } else {
            Tag::InlineNeg
        }
    }

    /// The tag stored as `value`, or an error for a number that is no tag.
    pub fn try_from(value: usize) -> (r: Result<Tag, ()>)
        ensures
            r matches Ok(t) ==> tag_bits(t) == value,
            r is Err <==> value > 3,
    {
        if value == 0 {
            Ok(Tag::Interned)
        } else if value == 1 {
            Ok(Tag::Neg)
        } else if value == 2 {
            Ok(Tag::Inline)
        } else if value == 3 {
            Ok(Tag::InlineNeg)
        } else {
            Err(())
        }
    }

    /// Whether the tag marks an inline value.
    pub fn inline(self) -> (r: bool)
        ensures
            r == (self == Tag::Inline || self == Tag::InlineNeg),
    {
        match self {
            Tag::Inline | Tag::InlineNeg => true,
            _ => false,
        }
    }

    /// Whether the tag marks a negative value.
    pub fn negative(self) -> (r: bool)
        ensures
            r == (self == Tag::Neg || self == Tag::InlineNeg),
    {
        match self {
            Tag::Neg | Tag::InlineNeg => true,
            _ => false,
        }
    }

    fn to_bits(self) -> (r: usize)
        ensures
            r == tag_bits(self),
    {
        match self {
            Tag::Interned => 0,
            Tag::Neg => 1,
            Tag::Inline => 2,
            Tag::InlineNeg => 3,
        }
    }
}

/// An offset containing a `Tag` in its lower two bits
#[derive(Copy, Clone, Debug, PartialEq, Eq, Structural)]
pub struct TaggedOffset(usize);

impl TaggedOffset {
    /// The offset held above the tag.
    pub closed spec fn spec_offset(self) -> nat {
        self.0 as nat / 4
    }

    /// The tag bits.
    pub closed spec fn spec_tag_bits(self) -> nat {
        self.0 as nat % 4
    }

    /// Pack an offset, at most `usize::MAX >> 2`, with a tag.
    pub fn new(offset: usize, tag: Tag) -> (r: TaggedOffset)
        requires
            offset <= usize::MAX >> 2usize,
        ensures
            r.spec_offset() == offset,
            r.spec_tag_bits() == tag_bits(tag),
    {
        proof {
            vstd::bits::lemma_usize_shr_is_div(usize::MAX, 2);
            crate::limb::lemma_usize_width();
            vstd::arithmetic::power2::lemma2_to64();
            vstd::arithmetic::power2::lemma2_to64_rest();
            assert(offset * 4 + 3 <= usize::MAX) by {
                assert(offset <= usize::MAX / 4);
                assert(usize::MAX == 0xffff_ffff || usize::MAX == 0xffff_ffff_ffff_ffff);
            }
        }
        let b = tag.to_bits();
        let w = offset * 4 + b;
        proof {
            vstd::arithmetic::div_mod::lemma_fundamental_div_mod_converse(w as int, 4, offset as int, tag_bits(tag) as int);
        }
        TaggedOffset(w)
    }

    /// A tagged word is determined by its offset and its tag bits.
    pub proof fn lemma_determined(a: TaggedOffset, b: TaggedOffset)
        requires
            a.spec_offset() == b.spec_offset(),
            a.spec_tag_bits() == b.spec_tag_bits(),
        ensures
            a == b,
    {
        vstd::arithmetic::div_mod::lemma_fundamental_div_mod(a.0 as int, 4);
        vstd::arithmetic::div_mod::lemma_fundamental_div_mod(b.0 as int, 4);
    }

    /// Flip the sign bit of the tag.
    pub fn invert_neg(self) -> (r: TaggedOffset)
        ensures
            r.spec_offset() == self.spec_offset(),
            r.spec_tag_bits() == if self.spec_tag_bits() % 2 == 0 {
                self.spec_tag_bits() + 1
            } else {
                (self.spec_tag_bits() - 1) as nat
            },
    {
        let w = self.0;
        let low = w % 2;
        let r = if low == 0 {
            w + 1
        } else {
            w - 1
        };
        proof {
            vstd::arithmetic::div_mod::lemma_fundamental_div_mod(w as int, 4);
            vstd::arithmetic::div_mod::lemma_mod_bound(w as int, 4);
            let q = w as int / 4;
            let t = w as int % 4;
            vstd::arithmetic::div_mod::lemma_fundamental_div_mod(w as int, 2);
            assert(w % 2 == t % 2) by {
                vstd::arithmetic::div_mod::lemma_mod_mod(w as int, 2, 2);
                assert(w as int == 2 * (2 * q) + t);
                vstd::arithmetic::div_mod::lemma_mod_multiples_vanish(2 * q, t, 2);
            }
            if low == 0 {
                assert(r as int == 4 * q + (t + 1));
                vstd::arithmetic::div_mod::lemma_fundamental_div_mod_converse(r as int, 4, q, t + 1);
            } else {
                assert(r as int == 4 * q + (t - 1));
                vstd::arithmetic::div_mod::lemma_fundamental_div_mod_converse(r as int, 4, q, t - 1);
            }
        }
        TaggedOffset(r)
    }

    /// The offset and tag.
    pub fn get(&self) -> (r: (usize, Tag))
        ensures
            r.0 == self.spec_offset(),
            tag_bits(r.1) == self.spec_tag_bits(),
    {
        (self.offset(), self.tag())
    }

    /// The offset held above the tag.
    pub fn offset(&self) -> (r: usize)
        ensures
            r == self.spec_offset(),
    {
        self.0 / 4
    }

    /// The tag in the low bits.
    pub fn tag(&self) -> (r: Tag)
        ensures
            tag_bits(r) == self.spec_tag_bits(),
    {
        Tag::from_usize_truncate(self.0)
    }
}

/// The error for when you try to convert a `BigInt` with a value that is too large or small for
/// the type being converted into.
#[derive(Debug)]
pub struct OutOfRangeError(pub Side);

impl OutOfRangeError {
    /// The side of the range that was exceeded.
    pub fn side(&self) -> (r: Side)
        ensures
            r == self.0,
    {
        self.0
    }
}

/// The error for when you try to create a `BigInt` from a string and either the radix is invalid,
/// or the string contains invalid characters.
#[derive(Debug)]
pub enum FromStrError {
    /// Radix was outside the valid range for conversion
    InvalidRadix(u32),
    /// Character wasn't a valid digit for the provided radix
    InvalidChar(char),
}

/// A 'big' integer - an unbounded signed value, capable of representing any value up to however
/// many bytes the running computer can reasonably hold in memory.
#[derive(Debug)]
pub struct BigInt {
    inner: IBig,
}

impl View for BigInt {
    type V = int;

    closed spec fn view(&self) -> int {
        self.inner@
    }
}

impl BigInt {
    /// The number of limbs of the magnitude.
    pub closed spec fn limb_len(self) -> nat {
        self.inner.limb_len()
    }

    /// The value as an `i64`, where it fits.
    pub fn checked_to_i64(&self) -> (r: Option<i64>)
        ensures
            r is Some <==> i64::MIN <= self@ <= i64::MAX,
            r matches Some(v) ==> v == self@,
    {
        self.inner.checked_to_i64()
    }

    /// The value as the unsigned machine integer `U`, or an error naming the side of its range
    /// that the value lies beyond.
    pub fn to_unsigned<U: Prim>(&self) -> (r: Result<U, OutOfRangeError>)
        ensures
            r is Ok <==> 0 <= self@ < pow2(U::bits()),
            r matches Ok(v) ==> v.value() == self@,
            r matches Err(e) ==> (e.0 == Side::Below <==> self@ < 0),
    {
        match self.inner.to_unsigned::<U>() {
            Ok(v) => Ok(v),
            Err(e) => Err(OutOfRangeError(e.0)),
        }
    }

    /// The value as the machine integer `S` (any of `i8` to `i128` or `u8` to `u64`), or an error
    /// naming the side of its range that the value lies beyond.
    pub fn to_signed<S: crate::machine_int::MachineInt>(&self) -> (r: Result<S, OutOfRangeError>)
        ensures
            r is Ok <==> S::low() <= self@ <= S::high(),
            r matches Ok(v) ==> v.int_of() == self@,
            r matches Err(e) ==> (e.0 == Side::Below <==> self@ < S::low()),
    {
        match self.inner.to_signed::<S>() {
            Ok(v) => Ok(v),
            Err(e) => Err(OutOfRangeError(e.0)),
        }
    }

    /// The value as the unsigned machine integer `U`, where it fits.
    pub fn checked_to_unsigned<U: Prim>(&self) -> (r: Option<U>)
        ensures
            r is Some <==> 0 <= self@ < pow2(U::bits()),
            r matches Some(v) ==> v.value() == self@,
    {
        self.inner.checked_to_unsigned::<U>()
    }

    /// The value as the unsigned machine integer `U`, clamped to its range.
    pub fn saturate_to_unsigned<U: Prim>(&self) -> (r: U)
        ensures
            r.value() == if self@ < 0 {
                0
            } else if self@ < pow2(U::bits()) {
                self@ as nat
            } else {
                (pow2(U::bits()) - 1) as nat
            },
    {
        self.inner.saturate_to_unsigned::<U>()
    }

    /// The magnitude as the unsigned machine integer `U`, or its largest value when it does not
    /// fit; the sign is not looked at.
    pub fn truncate_to_unsigned<U: Prim>(&self) -> (r: U)
        ensures
            r.value() == if abs(self@) < pow2(U::bits()) {
                abs(self@)
            } else {
                (pow2(U::bits()) - 1) as nat
            },
    {
        self.inner.truncate_to_unsigned::<U>()
    }

    /// The limbs of the magnitude, lowest first.
    pub fn val(&self) -> (r: MaybeInline<'_>)
        ensures
            seq_val(r.slice_view()) == abs(self@),
    {
        self.inner.val()
    }

    /// Call `f` on the limbs of the magnitude, lowest first.
    pub fn with_slice<R, F: FnOnce(&[usize]) -> R>(&self, f: F) -> (r: R)
        requires
            forall|s: &[usize]| #[trigger] f.requires((s,)),
        ensures
            exists|s: &[usize]| seq_val(s@) == abs(self@) && f.ensures((s,), r),
    {
        self.inner.with_slice(f)
    }

    /// Create a new `BigInt` with the default value of zero
    pub fn new() -> (r: BigInt)
        ensures
            r@ == 0,
    {
        BigInt { inner: IBig::new() }
    }

    /// The value with magnitude given by limbs, lowest first, and the given sign; a zero
    /// magnitude is never negative.
    pub fn new_slice(val: &[usize], neg: bool) -> (r: BigInt)
        requires
            val@.len() >= 1,
            val@.len() <= limb_cap(),
        ensures
            r@ == signed(neg && seq_val(val@) > 0, seq_val(val@)),
    {
        BigInt { inner: IBig::new_slice(val, neg) }
    }

    /// Check whether this value is stored inline
    pub fn is_inline(&self) -> (r: bool)
        ensures
            r == (abs(self@) <= inline_max()),
    {
        self.inner.is_inline()
    }

    /// Check whether this value is stored in the interned limbs
    pub fn is_interned(&self) -> (r: bool)
        ensures
            r == (abs(self@) > inline_max()),
    {
        self.inner.is_interned()
    }

    /// The value zero.
    pub fn zero() -> (r: BigInt)
        ensures
            r@ == 0,
    {
        BigInt::new()
    }

    /// The value one.
    pub fn one() -> (r: BigInt)
        ensures
            r@ == 1,
    {
        BigInt { inner: IBig::one() }
    }

    /// Whether the value is zero.
    pub fn is_zero(&self) -> (r: bool)
        ensures
            r == (self@ == 0),
    {
        self.inner.is_zero()
    }

    /// Whether the value is one.
    pub fn is_one(&self) -> (r: bool)
        ensures
            r == (self@ == 1),
    {
        self.inner.is_one()
    }

    /// Whether the value is zero or above.
    pub fn is_positive(&self) -> (r: bool)
        ensures
            r == (self@ >= 0),
    {
        self.inner.is_positive()
    }

    /// Whether the value is below zero.
    pub fn is_negative(&self) -> (r: bool)
        ensures
            r == (self@ < 0),
    {
        self.inner.is_negative()
    }

    /// The absolute value.
    pub fn abs(self) -> (r: BigInt)
        ensures
            r@ == abs(self@),
    {
        BigInt { inner: self.inner.abs() }
    }

    /// The value written in `radix`, from 2 to 36, with letters for the digits above nine in
    /// upper or lower case, and a leading `-` when negative.
    pub fn to_string_radix(&self, radix: u32, upper: bool) -> (r: String)
        requires
            2 <= radix <= 36,
        ensures
            r@ == if self@ < 0 {
                seq!['-'] + radix_string(abs(self@), radix as nat, upper)
            } else {
                radix_string(abs(self@), radix as nat, upper)
            },
    {
        self.inner.to_string_radix(radix, upper)
    }

    /// The value written in decimal, with a leading `-` when negative.
    pub fn to_string(&self) -> (r: String)
        ensures
            r@ == if self@ < 0 {
                seq!['-'] + dec_string(abs(self@))
            } else {
                dec_string(abs(self@))
            },
    {
        self.inner.to_string()
    }

    /// Parse digits of `radix` (at most 36), most significant first, without a sign. Fails on
    /// the first character that is not such a digit, or, for a nonempty string, on a radix above
    /// 36.
    pub fn from_str_radix(str: &str, radix: u32) -> (r: Result<BigInt, FromStrError>)
        requires
            str@.len() <= limb_cap(),
        ensures
            radix > 36 && str@.len() > 0 ==> (r matches Err(FromStrError::InvalidRadix(x)) && x == radix),
            radix > 36 && str@.len() == 0 ==> (r matches Ok(v) && v@ == 0),
            radix <= 36 ==> (r is Ok <==> first_non_digit(str@, radix as nat) is None),
            radix <= 36 ==> (r matches Err(FromStrError::InvalidChar(c)) ==> (first_non_digit(
                str@,
                radix as nat,
            ) matches Some(i) && c == str@[i])),
            r matches Ok(v) ==> v@ == str_value(str@, radix as nat),
    {
        match IBig::from_str_radix(str, radix) {
            Ok(v) => Ok(BigInt { inner: v }),
            Err(crate::ibig::FromStrError::InvalidRadix(x)) => Err(FromStrError::InvalidRadix(x)),
            Err(crate::ibig::FromStrError::InvalidChar(c)) => Err(FromStrError::InvalidChar(c)),
        }
    }

    /// The value raised to the power `rhs`: one for a zero exponent, the value itself for a
    /// negative one.
    pub fn pow(self, rhs: BigInt) -> (r: BigInt)
        requires
            rhs@ > 0 ==> fits(vstd::arithmetic::power::pow(abs(self@) as int, abs(rhs@)) as nat),
        ensures
            r@ == if rhs@ == 0 {
                1
            } else if rhs@ < 0 {
                self@
            } else {
                vstd::arithmetic::power::pow(self@, abs(rhs@))
            },
    {
        BigInt { inner: self.inner.pow(rhs.inner) }
    }
}

impl core::ops::Add<BigInt> for BigInt {
    type Output = BigInt;

    fn add(self, rhs: BigInt) -> (r: BigInt)
        ensures
            r@ == self@ + rhs@,
    {
        BigInt { inner: self.inner.plus(&rhs.inner) }
    }
}

impl vstd::std_specs::ops::AddSpecImpl<BigInt> for BigInt {
    open spec fn obeys_add_spec() -> bool {
        false
    }

    open spec fn add_req(self, rhs: BigInt) -> bool {
        fits(abs(self@) + abs(rhs@))
    }

    open spec fn add_spec(self, rhs: BigInt) -> BigInt {
        arbitrary()
    }
}

impl core::ops::Sub<BigInt> for BigInt {
    type Output = BigInt;

    fn sub(self, rhs: BigInt) -> (r: BigInt)
        ensures
            r@ == self@ - rhs@,
    {
        BigInt { inner: self.inner.minus(&rhs.inner) }
    }
}

impl vstd::std_specs::ops::SubSpecImpl<BigInt> for BigInt {
    open spec fn obeys_sub_spec() -> bool {
        false
    }

    open spec fn sub_req(self, rhs: BigInt) -> bool {
        fits(abs(self@) + abs(rhs@))
    }

    open spec fn sub_spec(self, rhs: BigInt) -> BigInt {
        arbitrary()
    }
}

impl core::ops::Mul<BigInt> for BigInt {
    type Output = BigInt;

    fn mul(self, rhs: BigInt) -> (r: BigInt)
        ensures
            r@ == self@ * rhs@,
    {
        BigInt { inner: self.inner.times(&rhs.inner) }
    }
}

impl vstd::std_specs::ops::MulSpecImpl<BigInt> for BigInt {
    open spec fn obeys_mul_spec() -> bool {
        false
    }

    open spec fn mul_req(self, rhs: BigInt) -> bool {
        fits(abs(self@) * abs(rhs@))
    }

    open spec fn mul_spec(self, rhs: BigInt) -> BigInt {
        arbitrary()
    }
}

impl core::ops::Div<BigInt> for BigInt {
    type Output = BigInt;

    fn div(self, rhs: BigInt) -> (r: BigInt)
        ensures
            rhs@ != 0 ==> r@ == quotient_toward_zero(self@, rhs@),
            rhs@ == 0 ==> r@ == signed(self@ < 0, (crate::limbs::weight::<usize>(self.limb_len()) - 1) as nat),
    {
        BigInt { inner: self.inner.div_rem(&rhs.inner).0 }
    }
}

impl vstd::std_specs::ops::DivSpecImpl<BigInt> for BigInt {
    open spec fn obeys_div_spec() -> bool {
        false
    }

    open spec fn div_req(self, rhs: BigInt) -> bool {
        true
    }

    open spec fn div_spec(self, rhs: BigInt) -> BigInt {
        arbitrary()
    }
}

impl core::ops::Rem<BigInt> for BigInt {
    type Output = BigInt;

    fn rem(self, rhs: BigInt) -> (r: BigInt)
        ensures
            rhs@ != 0 ==> r@ == remainder_signed(self@, rhs@),
            rhs@ == 0 ==> r@ == self@,
    {
        BigInt { inner: self.inner.div_rem(&rhs.inner).1 }
    }
}

impl vstd::std_specs::ops::RemSpecImpl<BigInt> for BigInt {
    open spec fn obeys_rem_spec() -> bool {
        false
    }

    open spec fn rem_req(self, rhs: BigInt) -> bool {
        true
    }

    open spec fn rem_spec(self, rhs: BigInt) -> BigInt {
        arbitrary()
    }
}

impl core::ops::Shl<BigInt> for BigInt {
    type Output = BigInt;

    fn shl(self, rhs: BigInt) -> (r: BigInt)
        ensures
            r@ == signed(self@ < 0, abs(self@) * pow2(abs(rhs@))),
    {
        match rhs.inner.to_usize() {
            Some(n) => BigInt { inner: self.inner.shift_left(n) },
            None => BigInt::new(),
        }
    }
}

impl vstd::std_specs::ops::ShlSpecImpl<BigInt> for BigInt {
    open spec fn obeys_shl_spec() -> bool {
        false
    }

    open spec fn shl_req(self, rhs: BigInt) -> bool {
        0 <= rhs@ <= usize::MAX && fits(abs(self@) * pow2(abs(rhs@)))
    }

    open spec fn shl_spec(self, rhs: BigInt) -> BigInt {
        arbitrary()
    }
}

impl core::ops::Shr<BigInt> for BigInt {
    type Output = BigInt;

    fn shr(self, rhs: BigInt) -> (r: BigInt)
        ensures
            r@ == signed(self@ < 0, abs(self@) / pow2(abs(rhs@))),
    {
        match rhs.inner.to_usize() {
            Some(n) => BigInt { inner: self.inner.shift_right(n) },
            None => BigInt::new(),
        }
    }
}

impl vstd::std_specs::ops::ShrSpecImpl<BigInt> for BigInt {
    open spec fn obeys_shr_spec() -> bool {
        false
    }

    open spec fn shr_req(self, rhs: BigInt) -> bool {
        0 <= rhs@ <= usize::MAX
    }

    open spec fn shr_spec(self, rhs: BigInt) -> BigInt {
        arbitrary()
    }
}

impl From<i8> for BigInt {
    fn from(v: i8) -> (r: BigInt)
        ensures
            r@ == v,
    {
        BigInt { inner: IBig::from_i128(v as i128) }
    }
}

impl vstd::std_specs::convert::FromSpecImpl<i8> for BigInt {
    open spec fn obeys_from_spec() -> bool {
        false
    }

    open spec fn from_spec(v: i8) -> BigInt {
        arbitrary()
    }
}

impl From<i16> for BigInt {
    fn from(v: i16) -> (r: BigInt)
        ensures
            r@ == v,
    {
        BigInt { inner: IBig::from_i128(v as i128) }
    }
}

impl vstd::std_specs::convert::FromSpecImpl<i16> for BigInt {
    open spec fn obeys_from_spec() -> bool {
        false
    }

    open spec fn from_spec(v: i16) -> BigInt {
        arbitrary()
    }
}

impl From<i32> for BigInt {
    fn from(v: i32) -> (r: BigInt)
        ensures
            r@ == v,
    {
        BigInt { inner: IBig::from_i128(v as i128) }
    }
}

impl vstd::std_specs::convert::FromSpecImpl<i32> for BigInt {
    open spec fn obeys_from_spec() -> bool {
        false
    }

    open spec fn from_spec(v: i32) -> BigInt {
        arbitrary()
    }
}

impl From<i64> for BigInt {
    fn from(v: i64) -> (r: BigInt)
        ensures
            r@ == v,
    {
        BigInt { inner: IBig::from_i128(v as i128) }
    }
}

impl vstd::std_specs::convert::FromSpecImpl<i64> for BigInt {
    open spec fn obeys_from_spec() -> bool {
        false
    }

    open spec fn from_spec(v: i64) -> BigInt {
        arbitrary()
    }
}

impl From<isize> for BigInt {
    fn from(v: isize) -> (r: BigInt)
        ensures
            r@ == v,
    {
        BigInt { inner: IBig::from_i128(v as i128) }
    }
}

impl vstd::std_specs::convert::FromSpecImpl<isize> for BigInt {
    open spec fn obeys_from_spec() -> bool {
        false
    }

    open spec fn from_spec(v: isize) -> BigInt {
        arbitrary()
    }
}

impl From<i128> for BigInt {
    fn from(v: i128) -> (r: BigInt)
        ensures
            r@ == v,
    {
        BigInt { inner: IBig::from_i128(v) }
    }
}

impl vstd::std_specs::convert::FromSpecImpl<i128> for BigInt {
    open spec fn obeys_from_spec() -> bool {
        false
    }

    open spec fn from_spec(v: i128) -> BigInt {
        arbitrary()
    }
}

impl From<u8> for BigInt {
    fn from(v: u8) -> (r: BigInt)
        ensures
            r@ == v,
    {
        BigInt { inner: IBig::from_u128(v as u128) }
    }
}

impl vstd::std_specs::convert::FromSpecImpl<u8> for BigInt {
    open spec fn obeys_from_spec() -> bool {
        false
    }

    open spec fn from_spec(v: u8) -> BigInt {
        arbitrary()
    }
}

impl From<u16> for BigInt {
    fn from(v: u16) -> (r: BigInt)
        ensures
            r@ == v,
    {
        BigInt { inner: IBig::from_u128(v as u128) }
    }
}

impl vstd::std_specs::convert::FromSpecImpl<u16> for BigInt {
    open spec fn obeys_from_spec() -> bool {
        false
    }

    open spec fn from_spec(v: u16) -> BigInt {
        arbitrary()
    }
}

impl From<u32> for BigInt {
    fn from(v: u32) -> (r: BigInt)
        ensures
            r@ == v,
    {
        BigInt { inner: IBig::from_u128(v as u128) }
    }
}

impl vstd::std_specs::convert::FromSpecImpl<u32> for BigInt {
    open spec fn obeys_from_spec() -> bool {
        false
    }

    open spec fn from_spec(v: u32) -> BigInt {
        arbitrary()
    }
}

impl From<u64> for BigInt {
    fn from(v: u64) -> (r: BigInt)
        ensures
            r@ == v,
    {
        BigInt { inner: IBig::from_u128(v as u128) }
    }
}

impl vstd::std_specs::convert::FromSpecImpl<u64> for BigInt {
    open spec fn obeys_from_spec() -> bool {
        false
    }

    open spec fn from_spec(v: u64) -> BigInt {
        arbitrary()
    }
}

impl From<usize> for BigInt {
    fn from(v: usize) -> (r: BigInt)
        ensures
            r@ == v,
    {
        BigInt { inner: IBig::from_u128(v as u128) }
    }
}

impl vstd::std_specs::convert::FromSpecImpl<usize> for BigInt {
    open spec fn obeys_from_spec() -> bool {
        false
    }

    open spec fn from_spec(v: usize) -> BigInt {
        arbitrary()
    }
}

impl From<u128> for BigInt {
    fn from(v: u128) -> (r: BigInt)
        ensures
            r@ == v,
    {
        BigInt { inner: IBig::from_u128(v) }
    }
}

impl vstd::std_specs::convert::FromSpecImpl<u128> for BigInt {
    open spec fn obeys_from_spec() -> bool {
        false
    }

    open spec fn from_spec(v: u128) -> BigInt {
        arbitrary()
    }
}

impl core::ops::Neg for BigInt {
    type Output = BigInt;

    fn neg(self) -> (r: BigInt)
        ensures
            r@ == -self@,
    {
        BigInt { inner: self.inner.negate() }
    }
}

impl vstd::std_specs::ops::NegSpecImpl for BigInt {
    open spec fn obeys_neg_spec() -> bool {
        false
    }

    open spec fn neg_req(self) -> bool {
        true
    }

    open spec fn neg_spec(self) -> BigInt {
        arbitrary()
    }
}

impl Clone for BigInt {
    fn clone(&self) -> (r: Self)
        ensures
            r@ == self@,
    {
        BigInt { inner: self.inner.clone() }
    }
}

impl Default for BigInt {
    fn default() -> (r: Self)
        ensures
            r@ == 0,
    {
        BigInt::new()
    }
}

impl PartialEq for BigInt {
    fn eq(&self, other: &Self) -> (r: bool) {
        self.inner == other.inner
    }
}

impl vstd::std_specs::cmp::PartialEqSpecImpl for BigInt {
    open spec fn obeys_eq_spec() -> bool {
        true
    }

    open spec fn eq_spec(&self, other: &BigInt) -> bool {
        self@ == other@
    }
}

impl Eq for BigInt {}

impl PartialEq<i32> for BigInt {
    fn eq(&self, other: &i32) -> (r: bool) {
        self.inner == *other
    }
}

impl vstd::std_specs::cmp::PartialEqSpecImpl<i32> for BigInt {
    open spec fn obeys_eq_spec() -> bool {
        true
    }

    open spec fn eq_spec(&self, other: &i32) -> bool {
        self@ == int_of_i32(*other)
    }
}

impl PartialOrd for BigInt {
    fn partial_cmp(&self, other: &Self) -> (r: Option<Ordering>) {
        self.inner.partial_cmp(&other.inner)
    }
}

impl vstd::std_specs::cmp::PartialOrdSpecImpl for BigInt {
    open spec fn obeys_partial_cmp_spec() -> bool {
        true
    }

    open spec fn partial_cmp_spec(&self, other: &BigInt) -> Option<Ordering> {
        Some(order_of_ints(self@, other@))
    }
}

impl PartialOrd<i32> for BigInt {
    fn partial_cmp(&self, other: &i32) -> (r: Option<Ordering>) {
        self.inner.partial_cmp(other)
    }
}

impl vstd::std_specs::cmp::PartialOrdSpecImpl<i32> for BigInt {
    open spec fn obeys_partial_cmp_spec() -> bool {
        true
    }

    open spec fn partial_cmp_spec(&self, other: &i32) -> Option<Ordering> {
        Some(order_of_ints(self@, int_of_i32(*other)))
    }
}

impl crate::traits::Signed for BigInt {
    fn abs(self) -> (r: BigInt)
        ensures
            r@ == abs(self@),
    {
        BigInt::abs(self)
    }

    fn is_positive(&self) -> (r: bool)
        ensures
            r == (self@ >= 0),
    {
        BigInt::is_positive(self)
    }

    fn is_negative(&self) -> (r: bool)
        ensures
            r == (self@ < 0),
    {
        BigInt::is_negative(self)
    }
}

impl crate::traits::Numeric for BigInt {

}

impl crate::traits::Integral for BigInt {

}

} // verus!
