//! Static length iterator adapters
use vstd::prelude::*;
use super::{StaticIter, apply, deterministic};

verus! {

/// See [`StaticIter::map`]
pub struct Mapped<T, F> {
    pub(crate) inner: T,
    pub(crate) func: F,
}

impl<T, F> Mapped<T, F> {
    /// An iterator applying `func` to each item of `inner`.
    pub(crate) fn new<U, const N: usize>(inner: T, func: F) -> (r: Mapped<T, F>)
        where T: StaticIter<N>, F: Fn(T::Item) -> U,
        ensures
            forall|i: int| #[trigger] StaticIter::<N>::item(&r, i) == apply(func, inner.item(i)),
            StaticIter::<N>::ready(&r) == (inner.ready() && deterministic(func)),
    {
        Mapped { inner, func }
    }
}

impl<I: StaticIter<N>, T, F: Fn(I::Item) -> T, const N: usize> StaticIter<N> for Mapped<I, F> {
    type Item = T;

    closed spec fn item(&self, i: int) -> T {
        apply(self.func, self.inner.item(i))
    }

    closed spec fn ready(&self) -> bool {
        self.inner.ready() && deterministic(self.func)
    }

    fn idx(&mut self, idx: usize) -> (r: T) {
        let x = self.inner.idx(idx);
        (self.func)(x)
    }
}

/// See [`StaticIter::zip`]
pub struct Zip<I1, I2> {
    pub(crate) left: I1,
    pub(crate) right: I2,
}

impl<I1, I2> Zip<I1, I2> {
    /// An iterator over the pairs of items of `left` and `right`.
    pub(crate) fn new<const N: usize>(left: I1, right: I2) -> (r: Zip<I1, I2>)
        where I1: StaticIter<N>, I2: StaticIter<N>,
        ensures
            forall|i: int| #[trigger] StaticIter::<N>::item(&r, i) == (left.item(i), right.item(i)),
            StaticIter::<N>::ready(&r) == (left.ready() && right.ready()),
    {
        Zip { left, right }
    }
}

impl<I1: StaticIter<N>, I2: StaticIter<N>, const N: usize> StaticIter<N> for Zip<I1, I2> {
    type Item = (I1::Item, I2::Item);

    closed spec fn item(&self, i: int) -> (I1::Item, I2::Item) {
        (self.left.item(i), self.right.item(i))
    }

    closed spec fn ready(&self) -> bool {
        self.left.ready() && self.right.ready()
    }

    fn idx(&mut self, idx: usize) -> (r: (I1::Item, I2::Item)) {
        let l = self.left.idx(idx);
        let r = self.right.idx(idx);
        (l, r)
    }
}

/// See [`StaticIter::enumerate`]
pub struct Enumerate<I> {
    pub(crate) inner: I,
}

impl<I> Enumerate<I> {
    /// An iterator over the items of `inner` with their indices.
    pub(crate) fn new<const N: usize>(inner: I) -> (r: Enumerate<I>)
        where I: StaticIter<N>,
        ensures
            forall|i: int| #[trigger] StaticIter::<N>::item(&r, i) == (i as usize, inner.item(i)),
            StaticIter::<N>::ready(&r) == inner.ready(),
    {
        Enumerate { inner }
    }
}

impl<I: StaticIter<N>, const N: usize> StaticIter<N> for Enumerate<I> {
    type Item = (usize, I::Item);

    closed spec fn item(&self, i: int) -> (usize, I::Item) {
        (i as usize, self.inner.item(i))
    }

    closed spec fn ready(&self) -> bool {
        self.inner.ready()
    }

    fn idx(&mut self, idx: usize) -> (r: (usize, I::Item)) {
        (idx, self.inner.idx(idx))
    }
}

/// A reference whose target can be read out by copying.
pub trait CopyRef {
    /// The type referred to.
    type Target;

    /// The value referred to.
    spec fn target(&self) -> Self::Target;

    /// A copy of the value referred to.
    fn copy_out(&self) -> (r: Self::Target)
        ensures
            r == self.target(),
    ;
}

impl<'a, T: Copy> CopyRef for &'a T {
    type Target = T;

    open spec fn target(&self) -> T {
        **self
    }

    fn copy_out(&self) -> (r: T) {
        **self
    }
}

/// See [`StaticIter::cloned`]
pub struct Cloned<I> {
    pub(crate) inner: I,
}

impl<I> Cloned<I> {
    /// An iterator over copies of the values that the items of `inner` refer to.
    pub(crate) fn new<const N: usize>(inner: I) -> (r: Cloned<I>)
        where I: StaticIter<N>, I::Item: CopyRef,
        ensures
            forall|i: int| #[trigger] StaticIter::<N>::item(&r, i) == inner.item(i).target(),
            StaticIter::<N>::ready(&r) == inner.ready(),
    {
        Cloned { inner }
    }
}

impl<I: StaticIter<N>, const N: usize> StaticIter<N> for Cloned<I> where I::Item: CopyRef {
    type Item = <I::Item as CopyRef>::Target;

    closed spec fn item(&self, i: int) -> <I::Item as CopyRef>::Target {
        self.inner.item(i).target()
    }

    closed spec fn ready(&self) -> bool {
        self.inner.ready()
    }

    fn idx(&mut self, idx: usize) -> (r: <I::Item as CopyRef>::Target) {
        let x = self.inner.idx(idx);
        x.copy_out()
    }
}

/// See [`StaticIter::copied`]
pub struct Copied<I> {
    pub(crate) inner: I,
}

impl<I> Copied<I> {
    /// An iterator over copies of the values that the items of `inner` refer to.
    pub(crate) fn new<const N: usize>(inner: I) -> (r: Copied<I>)
        where I: StaticIter<N>, I::Item: CopyRef,
        ensures
            forall|i: int| #[trigger] StaticIter::<N>::item(&r, i) == inner.item(i).target(),
            StaticIter::<N>::ready(&r) == inner.ready(),
    {
        Copied { inner }
    }
}

impl<I: StaticIter<N>, const N: usize> StaticIter<N> for Copied<I> where I::Item: CopyRef {
    type Item = <I::Item as CopyRef>::Target;

    closed spec fn item(&self, i: int) -> <I::Item as CopyRef>::Target {
        self.inner.item(i).target()
    }

    closed spec fn ready(&self) -> bool {
        self.inner.ready()
    }

    fn idx(&mut self, idx: usize) -> (r: <I::Item as CopyRef>::Target) {
        let x = self.inner.idx(idx);
        x.copy_out()
    }
}

/// See [`StaticIter::rev`]
pub struct Rev<I> {
    pub(crate) inner: I,
}

impl<I> Rev<I> {
    /// An iterator over the items of `inner`, last first.
    pub(crate) fn new<const N: usize>(inner: I) -> (r: Rev<I>)
        where I: StaticIter<N>,
        ensures
            forall|i: int| #[trigger] StaticIter::<N>::item(&r, i) == inner.item(N - 1 - i),
            StaticIter::<N>::ready(&r) == inner.ready(),
    {
        Rev { inner }
    }
}

impl<I: StaticIter<N>, const N: usize> StaticIter<N> for Rev<I> {
    type Item = I::Item;

    closed spec fn item(&self, i: int) -> I::Item {
        self.inner.item(N - 1 - i)
    }

    closed spec fn ready(&self) -> bool {
        self.inner.ready()
    }

    fn idx(&mut self, idx: usize) -> (r: I::Item) {
        self.inner.idx(N - 1 - idx)
    }
}

/// See [`StaticIter::take`]
pub struct Take<I, const N: usize, const M: usize> {
    pub(crate) inner: I,
}

impl<I, const N: usize, const M: usize> Take<I, N, M> {
    /// An iterator over the first `M` items of `inner`.
    pub(crate) fn new(inner: I) -> (r: Take<I, N, M>)
        where I: StaticIter<N>,
        requires
            M <= N,
        ensures
            forall|i: int| #[trigger] StaticIter::<M>::item(&r, i) == inner.item(i),
            StaticIter::<M>::ready(&r) == inner.ready(),
    {
        Take { inner }
    }
}

impl<I: StaticIter<N>, const N: usize, const M: usize> StaticIter<M> for Take<I, N, M> {
    type Item = I::Item;

    closed spec fn item(&self, i: int) -> I::Item {
        self.inner.item(i)
    }

    closed spec fn ready(&self) -> bool {
        self.inner.ready() && M <= N
    }

    fn idx(&mut self, idx: usize) -> (r: I::Item) {
        self.inner.idx(idx)
    }
}

} // verus!
