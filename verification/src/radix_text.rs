//! Text of natural numbers in a radix from 2 to 36, with lower- or upper-case letter digits.
use vstd::prelude::*;
use vstd::string::{StrSliceExecFns, StringExecFns};

verus! {

/// The digit characters, `0`-`9` then `a`-`z`.
pub open spec fn lower_digits() -> Seq<char> {
    seq![
        '0', '1', '2', '3', '4', '5', '6', '7', '8', '9', 'a', 'b', 'c', 'd', 'e', 'f', 'g', 'h',
        'i', 'j', 'k', 'l', 'm', 'n', 'o', 'p', 'q', 'r', 's', 't', 'u', 'v', 'w', 'x', 'y', 'z',
    ]
}

/// The digit characters, `0`-`9` then `A`-`Z`.
pub open spec fn upper_digits() -> Seq<char> {
    seq![
        '0', '1', '2', '3', '4', '5', '6', '7', '8', '9', 'A', 'B', 'C', 'D', 'E', 'F', 'G', 'H',
        'I', 'J', 'K', 'L', 'M', 'N', 'O', 'P', 'Q', 'R', 'S', 'T', 'U', 'V', 'W', 'X', 'Y', 'Z',
    ]
}

/// The character of digit `d`, below 36.
pub open spec fn radix_char(d: nat, upper: bool) -> char {
    if upper {
        upper_digits()[d as int]
    } else {
        lower_digits()[d as int]
    }
}

/// The digits of `n` in `radix`, most significant first, without leading zeros ("0" for zero).
pub open spec fn radix_string(n: nat, radix: nat, upper: bool) -> Seq<char>
    recommends
        2 <= radix <= 36,
    decreases n,
{
    if radix < 2 || n < radix {
        seq![radix_char(n, upper)]
    } else {
        proof {
            vstd::arithmetic::div_mod::lemma_div_decreases(n as int, radix as int);
        }
        radix_string(n / radix, radix, upper).push(radix_char(n % radix, upper))
    }
}

/// The characters of digits held lowest first, written highest first.
pub open spec fn rev_radix_chars(d: Seq<u8>, upper: bool) -> Seq<char>
    decreases d.len(),
{
    if d.len() == 0 {
        seq![]
    } else {
        rev_radix_chars(d.drop_first(), upper).push(radix_char(d[0] as nat, upper))
    }
}

/// Adding a digit on top writes it first.
pub proof fn lemma_rev_radix_chars_push(d: Seq<u8>, x: u8, upper: bool)
    ensures
        rev_radix_chars(d.push(x), upper) == seq![radix_char(x as nat, upper)] + rev_radix_chars(
            d,
            upper,
        ),
    decreases d.len(),
{
    if d.len() == 0 {
        let e: Seq<u8> = seq![];
        assert(d.push(x).drop_first() =~= e);
        assert(rev_radix_chars(e, upper) == Seq::<char>::empty());
        assert(d.push(x)[0] == x);
        assert(rev_radix_chars(d.push(x), upper) =~= seq![radix_char(x as nat, upper)]);
    } else {
        assert(d.push(x).drop_first() =~= d.drop_first().push(x));
        lemma_rev_radix_chars_push(d.drop_first(), x, upper);
        assert(rev_radix_chars(d.push(x), upper) =~= seq![radix_char(x as nat, upper)]
            + rev_radix_chars(d, upper));
    }
}

/// The text of one digit below 36.
pub fn radix_digit_str(d: u8, upper: bool) -> (r: &'static str)
    requires
        d < 36,
    ensures
        r@ == seq![radix_char(d as nat, upper)],
{
    let i = d as usize;
    if upper {
        let all = "0123456789ABCDEFGHIJKLMNOPQRSTUVWXYZ";
        proof {
            reveal_strlit("0123456789ABCDEFGHIJKLMNOPQRSTUVWXYZ");
            assert(all@ =~= upper_digits());
        }
        let r = all.substring_char(i, i + 1);
        proof {
            assert(r@ =~= seq![radix_char(d as nat, upper)]);
        }
        r
    } else {
        let all = "0123456789abcdefghijklmnopqrstuvwxyz";
        proof {
            reveal_strlit("0123456789abcdefghijklmnopqrstuvwxyz");
            assert(all@ =~= lower_digits());
        }
        let r = all.substring_char(i, i + 1);
        proof {
            assert(r@ =~= seq![radix_char(d as nat, upper)]);
        }
        r
    }
}

/// Write digits held lowest first as text, highest first.
pub fn write_radix_digits(digits: &[u8], upper: bool) -> (r: String)
    requires
        forall|i: int| 0 <= i < digits@.len() ==> digits@[i] < 36,
    ensures
        r@ == rev_radix_chars(digits@, upper),
{
    let mut out = String::new();
    let mut i: usize = digits.len();
    proof {
        assert(digits@.subrange(i as int, digits@.len() as int) =~= seq![]);
    }
    while i > 0
        invariant
            i <= digits@.len(),
            forall|j: int| 0 <= j < digits@.len() ==> digits@[j] < 36,
            out@ == rev_radix_chars(digits@.subrange(i as int, digits@.len() as int), upper),
        decreases i,
    {
        i -= 1;
        let s = radix_digit_str(digits[i], upper);
        out.append(s);
        proof {
            let sub = digits@.subrange(i as int, digits@.len() as int);
            assert(sub.drop_first() =~= digits@.subrange(i as int + 1, digits@.len() as int));
            assert(sub[0] == digits@[i as int]);
        }
    }
    proof {
        assert(digits@.subrange(0, digits@.len() as int) =~= digits@);
    }
    out
}

} // verus!
