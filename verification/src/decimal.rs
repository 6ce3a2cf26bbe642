//! Decimal text of natural numbers.
use vstd::prelude::*;

verus! {

/// The character of a decimal digit.
pub open spec fn digit_char(d: nat) -> char {
    if d == 0 {
        '0'
    } else if d == 1 {
        '1'
    } else if d == 2 {
        '2'
    } else if d == 3 {
        '3'
    } else if d == 4 {
        '4'
    } else if d == 5 {
        '5'
    } else if d == 6 {
        '6'
    } else if d == 7 {
        '7'
    } else if d == 8 {
        '8'
    } else {
        '9'
    }
}

/// The decimal digits of `n`, most significant first, without leading zeros ("0" for zero).
pub open spec fn dec_string(n: nat) -> Seq<char>
    decreases n,
{
    if n < 10 {
        seq![digit_char(n)]
    } else {
        dec_string(n / 10).push(digit_char(n % 10))
    }
}

/// The characters of digits held lowest first, written highest first.
pub open spec fn rev_chars(d: Seq<u8>) -> Seq<char>
    decreases d.len(),
{
    if d.len() == 0 {
        seq![]
    } else {
        rev_chars(d.drop_first()).push(digit_char(d[0] as nat))
    }
}

/// Adding a digit on top writes it first.
pub proof fn lemma_rev_chars_push(d: Seq<u8>, x: u8)
    ensures
        rev_chars(d.push(x)) == seq![digit_char(x as nat)] + rev_chars(d),
    decreases d.len(),
{
    if d.len() == 0 {
        let e: Seq<u8> = seq![];
        assert(d.push(x).drop_first() =~= e);
        assert(rev_chars(e) == Seq::<char>::empty());
        assert(d.push(x)[0] == x);
        assert(rev_chars(d.push(x)) =~= seq![digit_char(x as nat)]);
    } else {
        assert(d.push(x).drop_first() =~= d.drop_first().push(x));
        lemma_rev_chars_push(d.drop_first(), x);
        assert(rev_chars(d.push(x)) =~= seq![digit_char(x as nat)] + rev_chars(d));
    }
}

/// Decimal text has at least one character.
pub proof fn lemma_dec_string_len(n: nat)
    ensures
        dec_string(n).len() >= 1,
    decreases n,
{
    if n >= 10 {
        lemma_dec_string_len(n / 10);
    }
}

/// Writing digits gives one character for each.
pub proof fn lemma_rev_chars_len(d: Seq<u8>)
    ensures
        rev_chars(d).len() == d.len(),
    decreases d.len(),
{
    if d.len() > 0 {
        lemma_rev_chars_len(d.drop_first());
    }
}

/// The text of one decimal digit.
pub fn digit_str(d: u8) -> (r: &'static str)
    requires
        d < 10,
    ensures
        r@ == seq![digit_char(d as nat)],
{
    match d {
        0 => {
            proof {
                reveal_strlit("0");
            }
            "0"
        },
        1 => {
            proof {
                reveal_strlit("1");
            }
            "1"
        },
        2 => {
            proof {
                reveal_strlit("2");
            }
            "2"
        },
        3 => {
            proof {
                reveal_strlit("3");
            }
            "3"
        },
        4 => {
            proof {
                reveal_strlit("4");
            }
            "4"
        },
        5 => {
            proof {
                reveal_strlit("5");
            }
            "5"
        },
        6 => {
            proof {
                reveal_strlit("6");
            }
            "6"
        },
        7 => {
            proof {
                reveal_strlit("7");
            }
            "7"
        },
        8 => {
            proof {
                reveal_strlit("8");
            }
            "8"
        },
        _ => {
            proof {
                reveal_strlit("9");
            }
            "9"
        },
    }
}

/// Write digits held lowest first as text, highest first.
pub fn write_digits(digits: &[u8]) -> (r: String)
    requires
        forall|i: int| 0 <= i < digits@.len() ==> digits@[i] < 10,
    ensures
        r@ == rev_chars(digits@),
{
    let mut out = String::new();
    let mut i: usize = digits.len();
    proof {
        assert(digits@.subrange(i as int, digits@.len() as int) =~= seq![]);
    }
    while i > 0
        invariant
            i <= digits@.len(),
            forall|j: int| 0 <= j < digits@.len() ==> digits@[j] < 10,
            out@ == rev_chars(digits@.subrange(i as int, digits@.len() as int)),
        decreases i,
    {
        i -= 1;
        let s = digit_str(digits[i]);
        out.append(s);
        proof {
            let sub = digits@.subrange(i as int, digits@.len() as int);
            assert(sub.drop_first() =~= digits@.subrange(i as int + 1, digits@.len() as int));
            assert(sub[0] == digits@[i as int]);
        }
    }
    proof {
        assert(digits@.subrange(0, digits@.len() as int) =~= digits@);
    }
    out
}

} // verus!
