# numeric

Number types with verified arithmetic, written in Verus.

- `src/` is the verified library: fixed-width integers held as bytes (`u`, `i`), unbounded
  integers over machine-word limbs (`ubig`, `ibig`, `big_int`) with the limb algorithms they
  rest on (`limbs`, `element`, `bitwise`, `slice_ops`, `order`, `bit_slice`, `bit_iter`),
  fixed-point, rational, fractional, complex and posit values (`fixed`, `rat`, `fraction`,
  `complex`, `p`, `f`) over machine integers (`machine_int`), a refcounting interner
  (`intern`), decimal and radix text (`decimal`, `radix`, `radix_text`), static-length iterators (`static_iter`) and
  the properties that relate the operations (`laws`, `laws_reals`).
- `tests/` exercises the library on concrete values.
- `app/` holds what the library leaves to ordinary Rust: floating-point approximations of the
  unbounded integers and random fixed-width values.
