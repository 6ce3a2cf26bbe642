//! Static length iterators over arrays
use vstd::prelude::*;
use super::{StaticIter, IntoStaticIter, FromStaticIter, items};

verus! {

impl<T: Copy, const N: usize> IntoStaticIter<N> for [T; N] {
    type Item = T;

    type Iter = IntoIter<T, N>;

    open spec fn source_item(&self, i: int) -> T {
        self@[i]
    }

    open spec fn source_ready(&self) -> bool {
        true
    }

    fn into_static_iter(self) -> (r: IntoIter<T, N>) {
        IntoIter::new(self)
    }
}

impl<'a, T, const N: usize> IntoStaticIter<N> for &'a [T; N] {
    type Item = &'a T;

    type Iter = RefIter<'a, T, N>;

    open spec fn source_item(&self, i: int) -> &'a T {
        &self@[i]
    }

    open spec fn source_ready(&self) -> bool {
        true
    }

    fn into_static_iter(self) -> (r: RefIter<'a, T, N>) {
        RefIter::new(self)
    }
}

impl<T: Copy, const N: usize> FromStaticIter<T, N> for [T; N] {
    open spec fn holds(self, s: Seq<T>) -> bool {
        self@ == s
    }

    open spec fn collectable() -> bool {
        N >= 1
    }

    fn from_static_iter<I: StaticIter<N, Item = T>>(iter: I) -> (r: [T; N]) {
        let ghost orig = iter;
        let mut it = iter;
        let first = it.idx(0);
        let mut out: [T; N] = [first; N];
        proof {
            broadcast use vstd::array::axiom_spec_array_fill_for_copy_type;
        }
        let mut idx: usize = 1;
        while idx < N
            invariant
                1 <= idx <= N,
                it.ready(),
                out@.len() == N,
                forall|i: int| #[trigger] it.item(i) == orig.item(i),
                forall|i: int| 0 <= i < idx ==> #[trigger] out@[i] == orig.item(i),
            decreases N - idx,
        {
            let v = it.idx(idx);
            out[idx] = v;
            idx += 1;
        }
        proof {
            assert(out@ =~= items(orig));
        }
        out
    }
}

/// Static iterator over owned values of an array
#[derive(Clone, Copy)]
pub struct IntoIter<T, const N: usize> {
    inner: [T; N],
}

impl<T: Copy, const N: usize> IntoIter<T, N> {
    fn new(arr: [T; N]) -> (r: IntoIter<T, N>)
        ensures
            r.inner == arr,
    {
        IntoIter { inner: arr }
    }
}

impl<T: Copy, const N: usize> StaticIter<N> for IntoIter<T, N> {
    type Item = T;

    closed spec fn item(&self, i: int) -> T {
        self.inner@[i]
    }

    closed spec fn ready(&self) -> bool {
        true
    }

    fn idx(&mut self, idx: usize) -> (r: T) {
        self.inner[idx]
    }
}

/// Static iterator over borrowed values of an array
#[derive(Clone, Copy)]
pub struct RefIter<'a, T, const N: usize> {
    inner: &'a [T; N],
}

impl<'a, T, const N: usize> RefIter<'a, T, N> {
    fn new(inner: &'a [T; N]) -> (r: RefIter<'a, T, N>)
        ensures
            r.inner == inner,
    {
        RefIter { inner }
    }
}

impl<'a, T, const N: usize> StaticIter<N> for RefIter<'a, T, N> {
    type Item = &'a T;

    closed spec fn item(&self, i: int) -> &'a T {
        &self.inner@[i]
    }

    closed spec fn ready(&self) -> bool {
        true
    }

    fn idx(&mut self, idx: usize) -> (r: &'a T) {
        &self.inner[idx]
    }
}

} // verus!
