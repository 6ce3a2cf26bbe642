//! Support for zipping up N many static length iterators into one.
use vstd::prelude::*;
use vstd::array::spec_array_update;
use super::{StaticIter, IntoStaticIter};

verus! {

/// An array of `N` items whose first `k` items are those of `s`.
pub open spec fn array_from<X, const N: usize>(s: Seq<X>, k: nat) -> [X; N]
    decreases k,
{
    if k == 0 {
        arbitrary()
    } else {
        spec_array_update(array_from::<X, N>(s, (k - 1) as nat), k - 1, s[k - 1])
    }
}

/// The first `k` items of `array_from(s, k)` are those of `s`.
proof fn lemma_array_from<X, const N: usize>(s: Seq<X>, k: nat)
    requires
        k <= N,
        k <= s.len(),
    ensures
        array_from::<X, N>(s, k)@.len() == N,
        forall|j: int| 0 <= j < k ==> #[trigger] array_from::<X, N>(s, k)@[j] == s[j],
    decreases k,
{
    broadcast use vstd::array::axiom_spec_array_update, vstd::array::array_len_matches_n;

    if k > 0 {
        lemma_array_from::<X, N>(s, (k - 1) as nat);
        let prev = array_from::<X, N>(s, (k - 1) as nat);
        assert(spec_array_update(prev, k - 1, s[k - 1])@ == prev@.update(k - 1, s[k - 1]));
    } else {
        let a: [X; N] = arbitrary();
        assert(a@.len() == N);
    }
}

/// An array equals the array built from its own items.
proof fn lemma_array_is_array_from<X, const N: usize>(a: [X; N], s: Seq<X>)
    requires
        s.len() == N,
        a@ == s,
    ensures
        a == array_from::<X, N>(s, N as nat),
{
    broadcast use vstd::array::axiom_array_ext_equal;

    lemma_array_from::<X, N>(s, N as nat);
    let b = array_from::<X, N>(s, N as nat);
    assert(forall|i: int| 0 <= i < N ==> a[i] == #[trigger] b[i]);
    assert(a =~= b);
}

/// The array holding, at each position `j`, the item at index `i` of the `j`-th iterator.
pub open spec fn column<T: StaticIter<M>, const N: usize, const M: usize>(arrs: Seq<T>, i: int) -> [T::Item; N] {
    array_from::<T::Item, N>(Seq::new(N as nat, |j: int| arrs[j].item(i)), N as nat)
}

/// Trait for iterators that can be zipped into one.
pub trait ZipAll<const N: usize> {
    /// Item type of the resulting iterator.
    type Item;

    /// The iterator type that will be returned.
    type Iter: StaticIter<N, Item = Self::Item>;

    /// The item at index `i` of the zipped iterator.
    spec fn zip_item(&self, i: int) -> Self::Item;

    /// Whether the zipped iterator can be built and read.
    spec fn zip_ready(&self) -> bool;

    /// Convert this value into a zipped iterator. See [`zip_all`] for more details.
    fn into_zip_iter(self) -> (r: Self::Iter)
        requires
            self.zip_ready(),
        ensures
            forall|i: int| #[trigger] r.item(i) == self.zip_item(i),
            r.ready(),
    ;
}

impl<T: IntoStaticIter<M> + Copy, const N: usize, const M: usize> ZipAll<M> for [T; N] where
    T::Iter: Copy,
    T::Item: Copy,
 {
    type Item = [T::Item; N];

    type Iter = ArrayZipIter<T::Iter, N, M>;

    open spec fn zip_item(&self, i: int) -> [T::Item; N] {
        array_from::<T::Item, N>(Seq::new(N as nat, |j: int| self@[j].source_item(i)), N as nat)
    }

    open spec fn zip_ready(&self) -> bool {
        N >= 1 && forall|j: int| 0 <= j < N ==> #[trigger] self@[j].source_ready()
    }

    fn into_zip_iter(self) -> (r: ArrayZipIter<T::Iter, N, M>) {
        let first = self[0].into_static_iter();
        let mut arrs: [T::Iter; N] = [first; N];
        proof {
            broadcast use vstd::array::axiom_spec_array_fill_for_copy_type;
        }
        let mut j: usize = 1;
        while j < N
            invariant
                1 <= j <= N,
                arrs@.len() == N,
                forall|k: int, i: int| 0 <= k < j ==> #[trigger] arrs@[k].item(i)
                    == self@[k].source_item(i),
                forall|k: int| 0 <= k < j ==> #[trigger] arrs@[k].ready(),
                forall|k: int| 0 <= k < N ==> #[trigger] self@[k].source_ready(),
            decreases N - j,
        {
            arrs[j] = self[j].into_static_iter();
            j += 1;
        }
        let r = ArrayZipIter { arrs };
        proof {
            assert forall|i: int| #[trigger] r.item(i) == self.zip_item(i) by {
                assert(Seq::new(N as nat, |k: int| r.arrs@[k].item(i)) =~= Seq::new(
                    N as nat,
                    |k: int| self@[k].source_item(i),
                ));
            }
        }
        r
    }
}

/// Iterator over an array of static length iterators. N iterators, each of length M.
pub struct ArrayZipIter<T, const N: usize, const M: usize> {
    arrs: [T; N],
}

impl<T: StaticIter<M> + Copy, const N: usize, const M: usize> StaticIter<M> for ArrayZipIter<T, N, M> where
    T::Item: Copy,
 {
    type Item = [T::Item; N];

    closed spec fn item(&self, i: int) -> [T::Item; N] {
        column::<T, N, M>(self.arrs@, i)
    }

    closed spec fn ready(&self) -> bool {
        N >= 1 && forall|j: int| 0 <= j < N ==> #[trigger] self.arrs@[j].ready()
    }

    fn idx(&mut self, idx: usize) -> (r: [T::Item; N]) {
        let mut it0 = self.arrs[0];
        let v0 = it0.idx(idx);
        let mut out: [T::Item; N] = [v0; N];
        proof {
            broadcast use vstd::array::axiom_spec_array_fill_for_copy_type;
        }
        let mut j: usize = 1;
        while j < N
            invariant
                1 <= j <= N,
                out@.len() == N,
                idx < M,
                forall|k: int| 0 <= k < N ==> #[trigger] self.arrs@[k].ready(),
                forall|k: int| 0 <= k < j ==> #[trigger] out@[k] == self.arrs@[k].item(idx as int),
            decreases N - j,
        {
            let mut it = self.arrs[j];
            let v = it.idx(idx);
            out[j] = v;
            j += 1;
        }
        proof {
            let s = Seq::new(N as nat, |k: int| self.arrs@[k].item(idx as int));
            assert(out@ =~= s);
            lemma_array_is_array_from::<T::Item, N>(out, s);
        }
        out
    }
}

impl<T: IntoStaticIter<N>, U: IntoStaticIter<N>, const N: usize> ZipAll<N> for (T, U) {
    type Item = (T::Item, U::Item);

    type Iter = TupleZipIter<(T::Iter, U::Iter)>;

    open spec fn zip_item(&self, i: int) -> (T::Item, U::Item) {
        (self.0.source_item(i), self.1.source_item(i))
    }

    open spec fn zip_ready(&self) -> bool {
        self.0.source_ready() && self.1.source_ready()
    }

    fn into_zip_iter(self) -> (r: TupleZipIter<(T::Iter, U::Iter)>) {
        TupleZipIter { iters: (self.0.into_static_iter(), self.1.into_static_iter()) }
    }
}

impl<T: IntoStaticIter<N>, U: IntoStaticIter<N>, V: IntoStaticIter<N>, const N: usize> ZipAll<N> for (
    T,
    U,
    V,
) {
    type Item = (T::Item, U::Item, V::Item);

    type Iter = TupleZipIter<(T::Iter, U::Iter, V::Iter)>;

    open spec fn zip_item(&self, i: int) -> (T::Item, U::Item, V::Item) {
        (self.0.source_item(i), self.1.source_item(i), self.2.source_item(i))
    }

    open spec fn zip_ready(&self) -> bool {
        self.0.source_ready() && self.1.source_ready() && self.2.source_ready()
    }

    fn into_zip_iter(self) -> (r: TupleZipIter<(T::Iter, U::Iter, V::Iter)>) {
        TupleZipIter {
            iters: (self.0.into_static_iter(), self.1.into_static_iter(), self.2.into_static_iter()),
        }
    }
}

/// Iterator over a tuple of static length iterators.
pub struct TupleZipIter<T> {
    iters: T,
}

impl<T: StaticIter<N>, U: StaticIter<N>, const N: usize> StaticIter<N> for TupleZipIter<(T, U)> {
    type Item = (T::Item, U::Item);

    closed spec fn item(&self, i: int) -> (T::Item, U::Item) {
        (self.iters.0.item(i), self.iters.1.item(i))
    }

    closed spec fn ready(&self) -> bool {
        self.iters.0.ready() && self.iters.1.ready()
    }

    fn idx(&mut self, idx: usize) -> (r: (T::Item, U::Item)) {
        let a = self.iters.0.idx(idx);
        let b = self.iters.1.idx(idx);
        (a, b)
    }
}

impl<T: StaticIter<N>, U: StaticIter<N>, V: StaticIter<N>, const N: usize> StaticIter<N> for TupleZipIter<
    (T, U, V),
> {
    type Item = (T::Item, U::Item, V::Item);

    closed spec fn item(&self, i: int) -> (T::Item, U::Item, V::Item) {
        (self.iters.0.item(i), self.iters.1.item(i), self.iters.2.item(i))
    }

    closed spec fn ready(&self) -> bool {
        self.iters.0.ready() && self.iters.1.ready() && self.iters.2.ready()
    }

    fn idx(&mut self, idx: usize) -> (r: (T::Item, U::Item, V::Item)) {
        let a = self.iters.0.idx(idx);
        let b = self.iters.1.idx(idx);
        let c = self.iters.2.idx(idx);
        (a, b, c)
    }
}

/// Zip up many static length iterators, all of the same length, into one. The resulting iterator
/// will return one value from each of the zipped iterators for each iteration.
pub fn zip_all<T: ZipAll<N>, const N: usize>(val: T) -> (r: T::Iter)
    requires
        val.zip_ready(),
    ensures
        forall|i: int| #[trigger] r.item(i) == val.zip_item(i),
        r.ready(),
{
    val.into_zip_iter()
}

} // verus!
