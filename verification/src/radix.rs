//! Digits of a radix up to 36, read from text without regard to case.
use vstd::prelude::*;
use vstd::arithmetic::power2::pow2;

verus! {

/// The value of a digit character, `0`-`9` then `a`-`z` (either case), if it is one.
pub open spec fn digit_value(c: char) -> Option<nat> {
    if '0' <= c && c <= '9' {
        Some((c as nat - '0' as nat) as nat)
    } else if 'a' <= c && c <= 'z' {
        Some((c as nat - 'a' as nat + 10) as nat)
    } else if 'A' <= c && c <= 'Z' {
        Some((c as nat - 'A' as nat + 10) as nat)
    } else {
        None
    }
}

/// Whether `c` is a digit below `radix`.
pub open spec fn is_digit(c: char, radix: nat) -> bool {
    digit_value(c) matches Some(d) && d < radix
}

/// The value of a string of digits in `radix`, most significant first.
pub open spec fn str_value(s: Seq<char>, radix: nat) -> nat
    decreases s.len(),
{
    if s.len() == 0 {
        0
    } else {
        str_value(s.drop_last(), radix) * radix + digit_value(s.last()).unwrap_or(0)
    }
}

/// The position of the first character of `s`, at or after `i`, that is not a digit of `radix`.
pub open spec fn first_non_digit_from(s: Seq<char>, radix: nat, i: int) -> Option<int>
    decreases s.len() - i,
{
    if i < 0 || i >= s.len() {
        None
    } else if !is_digit(s[i], radix) {
        Some(i)
    } else {
        first_non_digit_from(s, radix, i + 1)
    }
}

/// The position of the first character of `s` that is not a digit of `radix`, if any.
pub open spec fn first_non_digit(s: Seq<char>, radix: nat) -> Option<int> {
    first_non_digit_from(s, radix, 0)
}

/// Read one digit of `radix`.
pub fn char_digit(c: char, radix: u32) -> (r: Option<u32>)
    requires
        radix <= 36,
    ensures
        r is Some <==> is_digit(c, radix as nat),
        r matches Some(d) ==> digit_value(c) == Some(d as nat),
{
    let d: u32 = if '0' <= c && c <= '9' {
        (c as u32) - ('0' as u32)
    } else if 'a' <= c && c <= 'z' {
        (c as u32) - ('a' as u32) + 10
    } else if 'A' <= c && c <= 'Z' {
        (c as u32) - ('A' as u32) + 10
    } else {
        return None;
    };
    if d < radix {
        Some(d)
    } else {
        None
    }
}

/// A value held in `k` digits below 37 lies below `2^(6 k)`.
pub proof fn lemma_digit_step(v: nat, k: nat, radix: nat, d: nat)
    requires
        v < pow2(6 * k),
        radix <= 36,
        d < radix,
    ensures
        v * radix + d < pow2(6 * (k + 1)),
{
    vstd::arithmetic::power2::lemma_pow2_adds(6 * k, 6);
    vstd::arithmetic::power2::lemma2_to64();
    let p = pow2(6 * k);
    assert(v * radix + d < p * 64) by (nonlinear_arith)
        requires
            v < p,
            radix <= 36,
            d < radix,
    ;
    assert(6 * (k + 1) == 6 * k + 6);
}

} // verus!
