//! Implementation of a static-length variant of the [`Iterator`] trait: iterators over exactly
//! `N` items, read by index, that collect directly into arrays, homogenous tuples, or other
//! similar fixed-size collections.
use vstd::prelude::*;

pub mod adapter;
pub mod array;
pub mod tuple;
pub mod zip_all;

use adapter::{Mapped, Zip, Enumerate, Rev, Take, Cloned, Copied, CopyRef};

verus! {

/// A function that gives one result for each argument it accepts, and accepts every argument.
pub open spec fn deterministic<A, R, F: Fn(A) -> R>(f: F) -> bool {
    &&& forall|a: A| #[trigger] f.requires((a,))
    &&& forall|a: A, r1: R, r2: R| #[trigger] f.ensures((a,), r1) && #[trigger] f.ensures((a,), r2)
        ==> r1 == r2
}

/// The result of a deterministic function on `a`.
pub open spec fn apply<A, R, F: Fn(A) -> R>(f: F, a: A) -> R {
    choose|r: R| f.ensures((a,), r)
}

/// A function of two arguments that gives one result for each pair, and accepts every pair.
pub open spec fn deterministic2<A, B, R, F: Fn(A, B) -> R>(f: F) -> bool {
    &&& forall|a: A, b: B| #[trigger] f.requires((a, b))
    &&& forall|a: A, b: B, r1: R, r2: R| #[trigger] f.ensures((a, b), r1) && #[trigger] f.ensures(
        (a, b),
        r2,
    ) ==> r1 == r2
}

/// The result of a deterministic function of two arguments.
pub open spec fn apply2<A, B, R, F: Fn(A, B) -> R>(f: F, a: A, b: B) -> R {
    choose|r: R| f.ensures((a, b), r)
}

/// The items of an iterator, in order.
pub open spec fn items<I: StaticIter<N>, const N: usize>(it: I) -> Seq<I::Item> {
    Seq::new(N as nat, |i: int| it.item(i))
}

/// Folding `func` over the items from index `k` on, starting from `acc`.
pub open spec fn fold_from<I: StaticIter<N>, T, F: Fn(T, I::Item) -> T, const N: usize>(
    it: I,
    func: F,
    acc: T,
    k: nat,
) -> T
    decreases N - k,
{
    if k >= N {
        acc
    } else {
        fold_from(it, func, apply2(func, acc, it.item(k as int)), k + 1)
    }
}

/// Folding `func` over the items from index `k` on, stopping at the first error.
pub open spec fn try_fold_from<I: StaticIter<N>, T, E, F: Fn(T, I::Item) -> Result<T, E>, const N: usize>(
    it: I,
    func: F,
    acc: T,
    k: nat,
) -> Result<T, E>
    decreases N - k,
{
    if k >= N {
        Ok(acc)
    } else {
        match apply2(func, acc, it.item(k as int)) {
            Ok(next) => try_fold_from(it, func, next, k + 1),
            Err(e) => Err(e),
        }
    }
}

/// Static length iterators. These are similar to [`Iterator`], but have a length known at compile-
/// time. This allows them to be collected directly into arrays, homogenous tuples, or other similar
/// types infallibly. It also sometimes allows for improved codegen of loops.
pub trait StaticIter<const N: usize>: Sized {
    /// The type of values returned by the iterator.
    type Item;

    /// The item at index `i`.
    spec fn item(&self, i: int) -> Self::Item;

    /// Whether the items can be read: every function the iterator applies accepts its inputs and
    /// gives one result for each.
    spec fn ready(&self) -> bool;

    /// The item at index `idx`; reading leaves every item as it was.
    fn idx(&mut self, idx: usize) -> (r: Self::Item)
        requires
            old(self).ready(),
            idx < N,
        ensures
            r == old(self).item(idx as int),
            final(self).ready(),
            forall|i: int| #[trigger] final(self).item(i) == old(self).item(i),
    ;

}

/// The adapters and consuming operations of static length iterators, for every such iterator.
pub trait StaticIterExt<const N: usize>: StaticIter<N> {
    /// Takes a closure, and returns an iterator which calls that closure on each element.
    fn map<T, F: Fn(Self::Item) -> T>(self, func: F) -> (r: Mapped<Self, F>)
        ensures
            forall|i: int| #[trigger] r.item(i) == apply(func, self.item(i)),
            r.ready() == (self.ready() && deterministic(func)),
    {
        Mapped::new(self, func)
    }

    /// Returns an iterator that will yield a tuple of (index, value) for each item in this
    /// iterator.
    fn enumerate(self) -> (r: Enumerate<Self>)
        ensures
            forall|i: int| 0 <= i < N ==> #[trigger] r.item(i) == (i as usize, self.item(i)),
            r.ready() == self.ready(),
    {
        Enumerate::new(self)
    }

    /// Clone each value in the iterator, converting an iterator of references to an iterator of
    /// owned values
    fn cloned(self) -> (r: Cloned<Self>)
        where Self::Item: CopyRef,
        ensures
            forall|i: int| #[trigger] r.item(i) == self.item(i).target(),
            r.ready() == self.ready(),
    {
        Cloned::new(self)
    }

    /// Copy each value in the iterator, converting an iterator of references to an iterator of
    /// owned values
    fn copied(self) -> (r: Copied<Self>)
        where Self::Item: CopyRef,
        ensures
            forall|i: int| #[trigger] r.item(i) == self.item(i).target(),
            r.ready() == self.ready(),
    {
        Copied::new(self)
    }

    /// Reverse the iterator's direction
    fn rev(self) -> (r: Rev<Self>)
        ensures
            forall|i: int| #[trigger] r.item(i) == self.item(N - 1 - i),
            r.ready() == self.ready(),
    {
        Rev::new(self)
    }

    /// Take the first M elements of this iterator
    fn take<const M: usize>(self) -> (r: Take<Self, N, M>)
        requires
            M <= N,
        ensures
            forall|i: int| #[trigger] r.item(i) == self.item(i),
            r.ready() == self.ready(),
    {
        Take::new(self)
    }

    /// Given a starting value and a closure, call the closure with either the starting value or
    /// the result of the previous call and the next iteration value for every item in the iterator.
    fn fold<T, F: Fn(T, Self::Item) -> T>(self, start: T, func: F) -> (r: T)
        requires
            self.ready(),
            deterministic2(func),
        ensures
            r == fold_from(self, func, start, 0),
    {
        let ghost orig = self;
        let mut it = self;
        let mut acc = start;
        let mut idx: usize = 0;
        while idx < N
            invariant
                idx <= N,
                orig == self,
                it.ready(),
                deterministic2(func),
                forall|i: int| #[trigger] it.item(i) == orig.item(i),
                fold_from(orig, func, acc, idx as nat) == fold_from(orig, func, start, 0),
            decreases N - idx,
        {
            let item = it.idx(idx);
            let ghost prev = acc;
            acc = func(acc, item);
            proof {
                assert(acc == apply2(func, prev, orig.item(idx as int)));
            }
            idx += 1;
        }
        acc
    }

    /// Given a starting value and a closure, call the closure with either the starting value or
    /// the result of the previous call and the next iteration value for every item in the iterator.
    ///
    /// If any call returns an error, stop iterating immediately and return that error.
    fn try_fold<T, E, F: Fn(T, Self::Item) -> Result<T, E>>(self, start: T, func: F) -> (r: Result<T, E>)
        requires
            self.ready(),
            deterministic2(func),
        ensures
            r == try_fold_from(self, func, start, 0),
    {
        let ghost orig = self;
        let mut it = self;
        let mut acc = start;
        let mut idx: usize = 0;
        while idx < N
            invariant
                idx <= N,
                orig == self,
                it.ready(),
                deterministic2(func),
                forall|i: int| #[trigger] it.item(i) == orig.item(i),
                try_fold_from(orig, func, acc, idx as nat) == try_fold_from(orig, func, start, 0),
            decreases N - idx,
        {
            let item = it.idx(idx);
            let ghost prev = acc;
            let res = func(acc, item);
            proof {
                assert(res == apply2(func, prev, orig.item(idx as int)));
            }
            match res {
                Ok(next) => {
                    acc = next;
                },
                Err(e) => {
                    return Err(e);
                },
            }
            idx += 1;
        }
        Ok(acc)
    }

    /// Apply a closure to every item in this iterator, returning true if any call returns true.
    fn any<F: Fn(Self::Item) -> bool>(self, func: F) -> (r: bool)
        requires
            self.ready(),
            deterministic(func),
        ensures
            r == exists|i: int| 0 <= i < N && #[trigger] apply(func, self.item(i)),
    {
        let ghost orig = self;
        let mut it = self;
        let mut idx: usize = 0;
        while idx < N
            invariant
                idx <= N,
                orig == self,
                it.ready(),
                deterministic(func),
                forall|i: int| #[trigger] it.item(i) == orig.item(i),
                forall|i: int| 0 <= i < idx ==> !#[trigger] apply(func, orig.item(i)),
            decreases N - idx,
        {
            let item = it.idx(idx);
            let hit = func(item);
            proof {
                assert(hit == apply(func, orig.item(idx as int)));
            }
            if hit {
                return true;
            }
            idx += 1;
        }
        false
    }

    /// Apply a closure to every item in this iterator, returning true if all calls return true.
    fn all<F: Fn(Self::Item) -> bool>(self, func: F) -> (r: bool)
        requires
            self.ready(),
            deterministic(func),
        ensures
            r == forall|i: int| 0 <= i < N ==> #[trigger] apply(func, self.item(i)),
    {
        let ghost orig = self;
        let mut it = self;
        let mut idx: usize = 0;
        while idx < N
            invariant
                idx <= N,
                orig == self,
                it.ready(),
                deterministic(func),
                forall|i: int| #[trigger] it.item(i) == orig.item(i),
                forall|i: int| 0 <= i < idx ==> #[trigger] apply(func, orig.item(i)),
            decreases N - idx,
        {
            let item = it.idx(idx);
            let hit = func(item);
            proof {
                assert(hit == apply(func, orig.item(idx as int)));
            }
            if !hit {
                return false;
            }
            idx += 1;
        }
        true
    }

    /// 'Zips up' two iterators into a single iterator of pairs.
    fn zip<I: IntoStaticIter<N>>(self, other: I) -> (r: Zip<Self, I::Iter>)
        ensures
            forall|i: int| #[trigger] r.item(i) == (self.item(i), other.source_item(i)),
            r.ready() == (self.ready() && other.source_ready()),
    {
        Zip::new(self, other.into_static_iter())
    }

    /// Collect the values from this iterator into an output collection
    fn collect<C: FromStaticIter<Self::Item, N>>(self) -> (r: C)
        requires
            self.ready(),
            C::collectable(),
        ensures
            r.holds(items(self)),
    {
        C::from_static_iter(self)
    }
}

impl<I: StaticIter<N>, const N: usize> StaticIterExt<N> for I {

}

/// Types that can be converted into a static length iterator.
pub trait IntoStaticIter<const N: usize> {
    /// The type of values returned by the iterator.
    type Item;

    /// The type of the iterator returned by [`Self::into_static_iter`].
    type Iter: StaticIter<N, Item = Self::Item>;

    /// The item at index `i` of the iterator this converts into.
    spec fn source_item(&self, i: int) -> Self::Item;

    /// Whether the iterator this converts into can be read.
    spec fn source_ready(&self) -> bool;

    /// Convert this value into a static length iterator.
    fn into_static_iter(self) -> (r: Self::Iter)
        ensures
            forall|i: int| #[trigger] r.item(i) == self.source_item(i),
            r.ready() == self.source_ready(),
    ;
}

impl<I: StaticIter<N>, const N: usize> IntoStaticIter<N> for I {
    type Item = I::Item;

    type Iter = I;

    open spec fn source_item(&self, i: int) -> I::Item {
        self.item(i)
    }

    open spec fn source_ready(&self) -> bool {
        self.ready()
    }

    fn into_static_iter(self) -> (r: I) {
        self
    }
}

/// Types that can be collected from a static length iterator.
pub trait FromStaticIter<T, const N: usize>: Sized {
    /// Whether this collection is what `items`, read in order, collect into.
    spec fn holds(self, items: Seq<T>) -> bool;

    /// Whether a collection of this type can be built from `N` items.
    spec fn collectable() -> bool;

    /// Build this collection from a static length iterator.
    fn from_static_iter<I: StaticIter<N, Item = T>>(iter: I) -> (r: Self)
        requires
            iter.ready(),
            Self::collectable(),
        ensures
            r.holds(items(iter)),
    ;
}

/// Whether every item is `Some`.
pub open spec fn all_some<T>(s: Seq<Option<T>>) -> bool {
    forall|i: int| 0 <= i < s.len() ==> #[trigger] s[i] is Some
}

/// The values held by items that are all `Some`.
pub open spec fn unwrap_all<T>(s: Seq<Option<T>>) -> Seq<T> {
    s.map_values(|o: Option<T>| o->0)
}

/// Iterator over the values inside the `Some` items of another.
struct Unwrapped<I> {
    inner: I,
}

impl<T, I: StaticIter<N, Item = Option<T>>, const N: usize> StaticIter<N> for Unwrapped<I> {
    type Item = T;

    closed spec fn item(&self, i: int) -> T {
        self.inner.item(i)->0
    }

    closed spec fn ready(&self) -> bool {
        self.inner.ready() && forall|i: int| 0 <= i < N ==> #[trigger] self.inner.item(i) is Some
    }

    fn idx(&mut self, idx: usize) -> (r: T) {
        match self.inner.idx(idx) {
            Some(v) => v,
            None => {
                vstd::pervasive::unreached()
            },
        }
    }
}

impl<T, C: FromStaticIter<T, N>, const N: usize> FromStaticIter<Option<T>, N> for Option<C> {
    open spec fn holds(self, s: Seq<Option<T>>) -> bool {
        if all_some(s) {
            self matches Some(c) && c.holds(unwrap_all(s))
        } else {
            self is None
        }
    }

    open spec fn collectable() -> bool {
        C::collectable()
    }

    fn from_static_iter<I: StaticIter<N, Item = Option<T>>>(iter: I) -> (r: Option<C>) {
        let ghost orig = iter;
        let mut it = iter;
        let mut idx: usize = 0;
        while idx < N
            invariant
                idx <= N,
                orig == iter,
                it.ready(),
                forall|i: int| #[trigger] it.item(i) == orig.item(i),
                forall|i: int| 0 <= i < idx ==> #[trigger] orig.item(i) is Some,
            decreases N - idx,
        {
            let v = it.idx(idx);
            if v.is_none() {
                proof {
                    assert(items(orig)[idx as int] is None);
                }
                return None;
            }
            idx += 1;
        }
        let inner = Unwrapped { inner: it };
        let c = C::from_static_iter(inner);
        proof {
            assert(items(inner) =~= unwrap_all(items(orig)));
        }
        Some(c)
    }
}

/// The index of the first `Err` item, if any.
pub open spec fn first_err<T, E>(s: Seq<Result<T, E>>) -> Option<int> {
    if exists|i: int| 0 <= i < s.len() && #[trigger] s[i] is Err {
        Some(choose|i: int| 0 <= i < s.len() && s[i] is Err && forall|j: int| 0 <= j < i ==> #[trigger] s[j] is Ok)
    } else {
        None
    }
}

/// The values held by items that are all `Ok`.
pub open spec fn unwrap_oks<T, E>(s: Seq<Result<T, E>>) -> Seq<T> {
    s.map_values(|o: Result<T, E>| o->Ok_0)
}

/// Iterator over the values inside the `Ok` items of another.
struct Oks<I> {
    inner: I,
}

impl<T, E, I: StaticIter<N, Item = Result<T, E>>, const N: usize> StaticIter<N> for Oks<I> {
    type Item = T;

    closed spec fn item(&self, i: int) -> T {
        self.inner.item(i)->Ok_0
    }

    closed spec fn ready(&self) -> bool {
        self.inner.ready() && forall|i: int| 0 <= i < N ==> #[trigger] self.inner.item(i) is Ok
    }

    fn idx(&mut self, idx: usize) -> (r: T) {
        match self.inner.idx(idx) {
            Ok(v) => v,
            Err(_) => {
                vstd::pervasive::unreached()
            },
        }
    }
}

impl<T, E, C: FromStaticIter<T, N>, const N: usize> FromStaticIter<Result<T, E>, N> for Result<C, E> {
    open spec fn holds(self, s: Seq<Result<T, E>>) -> bool {
        match first_err(s) {
            Some(i) => self == Err::<C, E>(s[i]->Err_0),
            None => self matches Ok(c) && c.holds(unwrap_oks(s)),
        }
    }

    open spec fn collectable() -> bool {
        C::collectable()
    }

    fn from_static_iter<I: StaticIter<N, Item = Result<T, E>>>(iter: I) -> (r: Result<C, E>) {
        let ghost orig = iter;
        let mut it = iter;
        let mut idx: usize = 0;
        while idx < N
            invariant
                idx <= N,
                orig == iter,
                it.ready(),
                forall|i: int| #[trigger] it.item(i) == orig.item(i),
                forall|i: int| 0 <= i < idx ==> #[trigger] orig.item(i) is Ok,
            decreases N - idx,
        {
            let v = it.idx(idx);
            match v {
                Ok(_) => {},
                Err(e) => {
                    proof {
                        let s = items(orig);
                        assert(s[idx as int] is Err);
                        assert(forall|j: int| 0 <= j < idx ==> #[trigger] s[j] is Ok);
                        let k = first_err(s)->0;
                        assert(0 <= k < s.len() && s[k] is Err && forall|j: int|
                            0 <= j < k ==> #[trigger] s[j] is Ok);
                        if k < idx {
                            assert(s[k] is Ok);
                        }
                        if k > idx {
                            assert(s[idx as int] is Ok);
                        }
                    }
                    return Err(e);
                },
            }
            idx += 1;
        }
        let inner = Oks { inner: it };
        let c = C::from_static_iter(inner);
        proof {
            assert(items(inner) =~= unwrap_oks(items(orig)));
            assert(!exists|i: int| 0 <= i < items(orig).len() && #[trigger] items(orig)[i] is Err);
        }
        Ok(c)
    }
}

/// Type similar to `..N`, but with compile-time value
pub struct StaticRangeTo<const N: usize>;

/// Iterator type for [`StaticRangeTo`]
pub struct StaticRangeToIter<const N: usize>(());

impl<const N: usize> IntoStaticIter<N> for StaticRangeTo<N> {
    type Item = usize;

    type Iter = StaticRangeToIter<N>;

    open spec fn source_item(&self, i: int) -> usize {
        i as usize
    }

    open spec fn source_ready(&self) -> bool {
        true
    }

    fn into_static_iter(self) -> (r: StaticRangeToIter<N>) {
        StaticRangeToIter::<N>(())
    }
}

impl<const N: usize> StaticIter<N> for StaticRangeToIter<N> {
    type Item = usize;

    open spec fn item(&self, i: int) -> usize {
        i as usize
    }

    open spec fn ready(&self) -> bool {
        true
    }

    fn idx(&mut self, idx: usize) -> (r: usize) {
        idx
    }
}

/// Folding goes over every item in order: it is the left fold of the closure over the
/// iterator's `N` items.
pub proof fn law_fold_is_fold_left<I: StaticIter<N>, T, F: Fn(T, I::Item) -> T, const N: usize>(
    it: I,
    func: F,
    start: T,
)
    ensures
        fold_from(it, func, start, 0) == items(it).fold_left(start, |a: T, x: I::Item| apply2(func, a, x)),
{
    let f = |a: T, x: I::Item| apply2(func, a, x);
    lemma_fold_from_alt(it, func, start, 0);
    assert(items(it).subrange(0, N as int) =~= items(it));
    items(it).lemma_fold_left_alt(start, f);
}

/// Folding from index `k` is the left fold over the items from `k` on.
proof fn lemma_fold_from_alt<I: StaticIter<N>, T, F: Fn(T, I::Item) -> T, const N: usize>(
    it: I,
    func: F,
    acc: T,
    k: nat,
)
    requires
        k <= N,
    ensures
        fold_from(it, func, acc, k) == items(it).subrange(k as int, N as int).fold_left_alt(
            acc,
            |a: T, x: I::Item| apply2(func, a, x),
        ),
    decreases N - k,
{
    let f = |a: T, x: I::Item| apply2(func, a, x);
    let s = items(it).subrange(k as int, N as int);
    if k < N {
        lemma_fold_from_alt(it, func, apply2(func, acc, it.item(k as int)), k + 1);
        assert(s.subrange(1, s.len() as int) =~= items(it).subrange((k + 1) as int, N as int));
        assert(s[0] == it.item(k as int));
    } else {
        assert(s.len() == 0);
    }
}

/// When every call of the closure succeeds, `try_fold` succeeds with the left fold of the
/// closure's results over the iterator's `N` items, in order.
pub proof fn law_try_fold_all_ok<I: StaticIter<N>, T, E, F: Fn(T, I::Item) -> Result<T, E>, const N: usize>(
    it: I,
    func: F,
    start: T,
)
    requires
        forall|a: T, x: I::Item| #[trigger] apply2(func, a, x) is Ok,
    ensures
        try_fold_from(it, func, start, 0) == Ok::<T, E>(
            items(it).fold_left(start, |a: T, x: I::Item| apply2(func, a, x)->Ok_0),
        ),
{
    let f = |a: T, x: I::Item| apply2(func, a, x)->Ok_0;
    lemma_try_fold_from_alt(it, func, start, 0);
    assert(items(it).subrange(0, N as int) =~= items(it));
    items(it).lemma_fold_left_alt(start, f);
}

/// Where every call succeeds, folding from index `k` succeeds with the left fold over the items
/// from `k` on.
proof fn lemma_try_fold_from_alt<I: StaticIter<N>, T, E, F: Fn(T, I::Item) -> Result<T, E>, const N: usize>(
    it: I,
    func: F,
    acc: T,
    k: nat,
)
    requires
        k <= N,
        forall|a: T, x: I::Item| #[trigger] apply2(func, a, x) is Ok,
    ensures
        try_fold_from(it, func, acc, k) == Ok::<T, E>(items(it).subrange(k as int, N as int).fold_left_alt(
            acc,
            |a: T, x: I::Item| apply2(func, a, x)->Ok_0,
        )),
    decreases N - k,
{
    let s = items(it).subrange(k as int, N as int);
    if k < N {
        let next = apply2(func, acc, it.item(k as int));
        assert(next is Ok);
        lemma_try_fold_from_alt(it, func, next->Ok_0, k + 1);
        assert(s.subrange(1, s.len() as int) =~= items(it).subrange((k + 1) as int, N as int));
        assert(s[0] == it.item(k as int));
    } else {
        assert(s.len() == 0);
    }
}

/// `try_fold` is the left fold, over the iterator's `N` items in order, of the closure on the
/// running result: each call gets the value the last call succeeded with, and the first error
/// is the result.
pub proof fn law_try_fold_is_fold_left<I: StaticIter<N>, T, E, F: Fn(T, I::Item) -> Result<T, E>, const N: usize>(
    it: I,
    func: F,
    start: T,
)
    ensures
        try_fold_from(it, func, start, 0) == items(it).fold_left(
            Ok::<T, E>(start),
            |r: Result<T, E>, x: I::Item|
                match r {
                    Ok(a) => apply2(func, a, x),
                    Err(e) => Err(e),
                },
        ),
{
    let f = |r: Result<T, E>, x: I::Item|
        match r {
            Ok(a) => apply2(func, a, x),
            Err(e) => Err(e),
        };
    lemma_try_fold_from_result(it, func, start, 0);
    assert(items(it).subrange(0, N as int) =~= items(it));
    items(it).lemma_fold_left_alt(Ok::<T, E>(start), f);
}

/// A fold of the running result that starts from an error keeps that error.
proof fn lemma_fold_err_stays<A, T, E>(s: Seq<A>, e: E, f: spec_fn(Result<T, E>, A) -> Result<T, E>)
    requires
        forall|x: A, e2: E| #[trigger] f(Err(e2), x) == Err::<T, E>(e2),
    ensures
        s.fold_left_alt(Err::<T, E>(e), f) == Err::<T, E>(e),
    decreases s.len(),
{
    if s.len() > 0 {
        lemma_fold_err_stays(s.subrange(1, s.len() as int), e, f);
        assert(f(Err(e), s[0]) == Err::<T, E>(e));
    }
}

/// Folding from index `k` is the left fold of the running result over the items from `k` on.
proof fn lemma_try_fold_from_result<I: StaticIter<N>, T, E, F: Fn(T, I::Item) -> Result<T, E>, const N: usize>(
    it: I,
    func: F,
    acc: T,
    k: nat,
)
    requires
        k <= N,
    ensures
        try_fold_from(it, func, acc, k) == items(it).subrange(k as int, N as int).fold_left_alt(
            Ok::<T, E>(acc),
            |r: Result<T, E>, x: I::Item|
                match r {
                    Ok(a) => apply2(func, a, x),
                    Err(e) => Err(e),
                },
        ),
    decreases N - k,
{
    let f = |r: Result<T, E>, x: I::Item|
        match r {
            Ok(a) => apply2(func, a, x),
            Err(e) => Err(e),
        };
    let s = items(it).subrange(k as int, N as int);
    if k < N {
        let next = apply2(func, acc, it.item(k as int));
        assert(s.subrange(1, s.len() as int) =~= items(it).subrange((k + 1) as int, N as int));
        assert(s[0] == it.item(k as int));
        assert(f(Ok(acc), s[0]) == next);
        match next {
            Ok(v) => {
                lemma_try_fold_from_result(it, func, v, k + 1);
            },
            Err(e) => {
                lemma_fold_err_stays(s.subrange(1, s.len() as int), e, f);
            },
        }
    } else {
        assert(s.len() == 0);
    }
}

} // verus!
