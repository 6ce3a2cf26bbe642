//! Element-wise arithmetic over arrays of `i32`.
use vstd::prelude::*;

verus! {

/// Element-wise sums of two arrays.
pub fn zip_add<const N: usize>(a: [i32; N], b: [i32; N]) -> (r: [i32; N])
    requires
        forall|i: int| #![trigger a@[i]] 0 <= i < N ==> i32::MIN <= a@[i] + b@[i] <= i32::MAX,
    ensures
        forall|i: int| #![trigger a@[i]] 0 <= i < N ==> r@[i] == a@[i] + b@[i],
{
    let mut out = a;
    let mut i: usize = 0;
    while i < N
        invariant
            i <= N,
            out@.len() == N,
            forall|j: int| #![trigger a@[j]] 0 <= j < N ==> i32::MIN <= a@[j] + b@[j] <= i32::MAX,
            forall|j: int| #![trigger out@[j]] 0 <= j < i ==> out@[j] == a@[j] + b@[j],
            forall|j: int| #![trigger out@[j]] i <= j < N ==> out@[j] == a@[j],
        decreases N - i,
    {
        out[i] = a[i] + b[i];
        i += 1;
    }
    out
}

/// Element-wise products of two arrays.
pub fn zip_mul<const N: usize>(a: [i32; N], b: [i32; N]) -> (r: [i32; N])
    requires
        forall|i: int| #![trigger a@[i]] 0 <= i < N ==> i32::MIN <= a@[i] * b@[i] <= i32::MAX,
    ensures
        forall|i: int| #![trigger a@[i]] 0 <= i < N ==> r@[i] == a@[i] * b@[i],
{
    let mut out = a;
    let mut i: usize = 0;
    while i < N
        invariant
            i <= N,
            out@.len() == N,
            forall|j: int| #![trigger a@[j]] 0 <= j < N ==> i32::MIN <= a@[j] * b@[j] <= i32::MAX,
            forall|j: int| #![trigger out@[j]] 0 <= j < i ==> out@[j] == a@[j] * b@[j],
            forall|j: int| #![trigger out@[j]] i <= j < N ==> out@[j] == a@[j],
        decreases N - i,
    {
        out[i] = a[i] * b[i];
        i += 1;
    }
    out
}

/// Element-wise negation of an array.
pub fn map_neg<const N: usize>(a: [i32; N]) -> (r: [i32; N])
    requires
        forall|i: int| #![trigger a@[i]] 0 <= i < N ==> a@[i] != i32::MIN,
    ensures
        forall|i: int| #![trigger a@[i]] 0 <= i < N ==> r@[i] == -a@[i],
{
    let mut out = a;
    let mut i: usize = 0;
    while i < N
        invariant
            i <= N,
            out@.len() == N,
            forall|j: int| #![trigger a@[j]] 0 <= j < N ==> a@[j] != i32::MIN,
            forall|j: int| #![trigger out@[j]] 0 <= j < i ==> out@[j] == -a@[j],
            forall|j: int| #![trigger out@[j]] i <= j < N ==> out@[j] == a@[j],
        decreases N - i,
    {
        out[i] = -a[i];
        i += 1;
    }
    out
}

/// Whether the running products `a b`, `a b c` and `a b c d` of each position stay in range.
pub open spec fn products_fit(a: i32, b: i32, c: i32, d: i32) -> bool {
    &&& i32::MIN <= a * b <= i32::MAX
    &&& i32::MIN <= a * b * c <= i32::MAX
    &&& i32::MIN <= a * b * c * d <= i32::MAX
}

/// Element-wise products of four arrays.
pub fn zip_many<const N: usize>(a: [i32; N], b: [i32; N], c: [i32; N], d: [i32; N]) -> (r: [i32; N])
    requires
        forall|i: int| #![trigger a@[i]] 0 <= i < N ==> products_fit(a@[i], b@[i], c@[i], d@[i]),
    ensures
        forall|i: int| #![trigger a@[i]] 0 <= i < N ==> r@[i] == a@[i] * b@[i] * c@[i] * d@[i],
{
    let mut out = a;
    let mut i: usize = 0;
    while i < N
        invariant
            i <= N,
            out@.len() == N,
            forall|j: int| #![trigger a@[j]] 0 <= j < N ==> products_fit(a@[j], b@[j], c@[j], d@[j]),
            forall|j: int| #![trigger out@[j]] 0 <= j < i ==> out@[j] == a@[j] * b@[j] * c@[j] * d@[j],
            forall|j: int| #![trigger out@[j]] i <= j < N ==> out@[j] == a@[j],
        decreases N - i,
    {
        proof {
            assert(products_fit(a@[i as int], b@[i as int], c@[i as int], d@[i as int]));
        }
        let ab = a[i] * b[i];
        let abc = ab * c[i];
        out[i] = abc * d[i];
        i += 1;
    }
    out
}

/// Run each of the element-wise operations once on two fixed arrays.
pub fn foo() {
    let a: [i32; 8] = [1, 2, 3, 4, 5, 6, 7, 8];
    let b: [i32; 8] = [5, 6, 7, 8, 9, 10, 11, 12];
    proof {
        assert forall|i: int| #![trigger a@[i]] 0 <= i < 8 implies 1 <= a@[i] <= 8 && 5 <= b@[i] <= 12 by {
            assert(a@ == seq![1i32, 2, 3, 4, 5, 6, 7, 8]);
            assert(b@ == seq![5i32, 6, 7, 8, 9, 10, 11, 12]);
        }
        assert forall|i: int| #![trigger a@[i]] 0 <= i < 8 implies products_fit(a@[i], b@[i], a@[i], b@[i]) by {
            let x = a@[i] as int;
            let y = b@[i] as int;
            assert(x * y <= 96 && x * y * x <= 768 && x * y * x * y <= 9216 && x * y * x * y >= 0)
                by (nonlinear_arith)
                requires
                    1 <= x <= 8,
                    5 <= y <= 12,
            ;
        }
        assert forall|i: int| #![trigger a@[i]] 0 <= i < 8 implies i32::MIN <= a@[i] * b@[i] <= i32::MAX by {
            assert(products_fit(a@[i], b@[i], a@[i], b@[i]));
        }
    }
    let _ = zip_add(a, b);
    let _ = zip_mul(a, b);
    let _ = map_neg(a);
    let _ = zip_many(a, b, a, b);
}

} // verus!
