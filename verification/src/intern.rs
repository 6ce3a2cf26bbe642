//! A store of shared values with reference counts. A value that is live in the store is held in
//! one slot only; a slot whose count has dropped to zero is dead and is reused for a value that
//! is not live.
use vstd::prelude::*;

verus! {

/// The number of slots allocated at a time.
pub const CHUNK_SIZE: usize = 32;

/// Values that can be compared for equality in executable code.
pub trait InternValue: Copy {
    /// Whether two values are the same.
    fn same(&self, other: &Self) -> (r: bool)
        ensures
            r == (*self == *other),
    ;
}

impl InternValue for i32 {
    fn same(&self, other: &Self) -> (r: bool) {
        *self == *other
    }
}

impl InternValue for i64 {
    fn same(&self, other: &Self) -> (r: bool) {
        *self == *other
    }
}

impl InternValue for u32 {
    fn same(&self, other: &Self) -> (r: bool) {
        *self == *other
    }
}

impl InternValue for u64 {
    fn same(&self, other: &Self) -> (r: bool) {
        *self == *other
    }
}

impl InternValue for usize {
    fn same(&self, other: &Self) -> (r: bool) {
        *self == *other
    }
}

/// One slot: a reference count and the value, once one has been stored.
pub struct Interned<T> {
    pub refs: usize,
    pub val: Option<T>,
}

impl<T: InternValue> Interned<T> {
    /// The stored value.
    pub fn val(&self) -> (r: &T)
        requires
            self.val is Some,
        ensures
            *r == self.val->0,
    {
        self.val.as_ref().unwrap()
    }
}

/// Whether slot `s` holds `v`.
pub open spec fn holds<T>(s: (nat, Option<T>), v: T) -> bool {
    s.1 == Some(v)
}

/// Whether slot `s` is live and holds `v`.
pub open spec fn live_holds<T>(s: (nat, Option<T>), v: T) -> bool {
    s.0 > 0 && holds(s, v)
}

/// Whether some live slot of `s` holds `v`.
pub open spec fn is_live_in<T>(s: Seq<(nat, Option<T>)>, v: T) -> bool {
    exists|j: int| 0 <= j < s.len() && live_holds(#[trigger] s[j], v)
}

/// `r` is where `add` puts `v`: the first live slot that holds `v` when there is one;
/// otherwise the first dead slot, or the end when every slot is live.
pub open spec fn add_slot<T>(s: Seq<(nat, Option<T>)>, v: T, r: nat) -> bool {
    if is_live_in(s, v) {
        &&& r < s.len()
        &&& live_holds(s[r as int], v)
        &&& forall|j: int| 0 <= j < r ==> !live_holds(#[trigger] s[j], v)
    } else {
        &&& r <= s.len()
        &&& forall|j: int| 0 <= j < r ==> (#[trigger] s[j]).0 != 0
        &&& r < s.len() ==> s[r as int].0 == 0
    }
}

/// No two live slots of `s` hold the same value.
pub open spec fn stored_once<T>(s: Seq<(nat, Option<T>)>) -> bool {
    forall|i: int, j: int|
        0 <= i < j < s.len() && (#[trigger] s[i]).0 > 0 && (#[trigger] s[j]).0 > 0 ==> s[i].1 != s[j].1
}

/// A fresh chunk of slots whose first slot holds `v` once.
pub open spec fn fresh_chunk<T>(v: T) -> Seq<(nat, Option<T>)> {
    Seq::new(CHUNK_SIZE as nat, |j: int| if j == 0 { (1nat, Some(v)) } else { (0nat, None::<T>) })
}

/// The slots after `add` puts `v` at `r`.
pub open spec fn after_add<T>(s: Seq<(nat, Option<T>)>, v: T, r: nat) -> Seq<(nat, Option<T>)> {
    if r < s.len() {
        s.update(r as int, (s[r as int].0 + 1, Some(v)))
    } else {
        s + fresh_chunk(v)
    }
}

/// A store of values shared by reference count.
pub struct Interner<T> {
    slots: Vec<Interned<T>>,
}

impl<T: InternValue> View for Interner<T> {
    type V = Seq<(nat, Option<T>)>;

    closed spec fn view(&self) -> Seq<(nat, Option<T>)> {
        self.slots@.map_values(|s: Interned<T>| (s.refs as nat, s.val))
    }
}

impl<T: InternValue> Interner<T> {
    /// Slots are allocated in whole chunks, and a live slot holds a value.
    pub closed spec fn wf(&self) -> bool {
        &&& self.slots@.len() % (CHUNK_SIZE as nat) == 0
        &&& forall|i: int| 0 <= i < self@.len() ==> (#[trigger] self@[i]).0 > 0 ==> self@[i].1 is Some
    }

    /// An empty store.
    pub fn new() -> (r: Interner<T>)
        ensures
            r@ == Seq::<(nat, Option<T>)>::empty(),
            r.wf(),
    {
        let r = Interner { slots: Vec::new() };
        proof {
            assert(r@ =~= Seq::<(nat, Option<T>)>::empty());
        }
        r
    }

    /// Store `val`, or take another reference to an equal stored value, and return its offset.
    /// Where a live slot holds `val`, the first such slot gets another reference. Otherwise the
    /// first dead slot is revived with `val`; where every slot is live, a new chunk of slots is
    /// added and its first slot is used.
    pub fn add(&mut self, val: T) -> (r: usize)
        requires
            old(self).wf(),
            old(self)@.len() + CHUNK_SIZE <= usize::MAX,
            forall|i: int| 0 <= i < old(self)@.len() ==> (#[trigger] old(self)@[i]).0 < usize::MAX,
        ensures
            final(self).wf(),
            add_slot(old(self)@, val, r as nat),
            final(self)@ == after_add(old(self)@, val, r as nat),
    {
        let mut i: usize = 0;
        let n = self.slots.len();
        while i < n
            invariant
                i <= n,
                n == self.slots@.len(),
                self@ == old(self)@,
                self.wf(),
                forall|j: int| 0 <= j < i ==> !live_holds(#[trigger] old(self)@[j], val),
                forall|j: int| 0 <= j < old(self)@.len() ==> (#[trigger] old(self)@[j]).0 < usize::MAX,
            decreases n - i,
        {
            proof {
                assert(self@[i as int].0 == self.slots@[i as int].refs);
                assert(self@[i as int].1 == self.slots@[i as int].val);
            }
            let refs = self.slots[i].refs;
            let found = match &self.slots[i].val {
                Some(v) => v.same(&val),
                None => false,
            };
            if found && refs > 0 {
                let ghost before = self@;
                self.slots.set(i, Interned { refs: refs + 1, val: Some(val) });
                proof {
                    assert(self@ =~= before.update(i as int, (before[i as int].0 + 1, Some(val))));
                    assert(live_holds(old(self)@[i as int], val));
                    assert(is_live_in(old(self)@, val));
                }
                return i;
            }
            i += 1;
        }
        proof {
            assert(!is_live_in(old(self)@, val));
        }
        i = 0;
        while i < n
            invariant
                i <= n,
                n == self.slots@.len(),
                self@ == old(self)@,
                self.wf(),
                !is_live_in(old(self)@, val),
                forall|j: int| 0 <= j < i ==> (#[trigger] old(self)@[j]).0 != 0,
            decreases n - i,
        {
            proof {
                assert(self@[i as int].0 == self.slots@[i as int].refs);
            }
            let refs = self.slots[i].refs;
            if refs == 0 {
                let ghost before = self@;
                self.slots.set(i, Interned { refs: 1, val: Some(val) });
                proof {
                    assert(self@ =~= before.update(i as int, (before[i as int].0 + 1, Some(val))));
                }
                return i;
            }
            i += 1;
        }
        let mut k: usize = 0;
        let ghost before = self@;
        while k < CHUNK_SIZE
            invariant
                k <= CHUNK_SIZE,
                self.slots@.len() == n + k,
                n == before.len(),
                n % CHUNK_SIZE == 0,
                n + CHUNK_SIZE <= usize::MAX,
                self@.take(n as int) == before,
                forall|j: int| 0 <= j < n ==> (#[trigger] before[j]).0 > 0 ==> before[j].1 is Some,
                forall|j: int| n <= j < self@.len() ==> #[trigger] self@[j] == (0nat, None::<T>),
            decreases CHUNK_SIZE - k,
        {
            let ghost prev = self@;
            self.slots.push(Interned { refs: 0, val: None });
            k += 1;
            proof {
                assert(self@ =~= prev.push((0nat, None::<T>)));
                assert(self@.take(n as int) =~= before);
            }
        }
        let ghost prev = self@;
        self.slots.set(n, Interned { refs: 1, val: Some(val) });
        proof {
            assert(self@ =~= prev.update(n as int, (1nat, Some(val))));
            assert(self@.take(n as int) =~= before);
            assert(self@ =~= before + fresh_chunk(val));
            assert forall|j: int| 0 <= j < self@.len() && (#[trigger] self@[j]).0 > 0 implies self@[j].1 is Some by {
                if j < n {
                    assert(self@[j] == prev.take(n as int)[j]);
                }
            }
        }
        n
    }

    /// The value at `offset`, if its slot is live.
    pub fn try_get(&self, offset: usize) -> (r: Option<&T>)
        requires
            self.wf(),
            offset < self@.len(),
        ensures
            r is Some <==> self@[offset as int].0 > 0,
            r matches Some(v) ==> self@[offset as int].1 == Some(*v),
    {
        let slot = &self.slots[offset];
        if slot.refs == 0 {
            None
        } else {
            Some(slot.val())
        }
    }

    /// The value at `offset`, whose slot must be live.
    pub fn get(&self, offset: usize) -> (r: &T)
        requires
            self.wf(),
            offset < self@.len(),
            self@[offset as int].0 > 0,
        ensures
            self@[offset as int].1 == Some(*r),
    {
        match self.try_get(offset) {
            Some(v) => v,
            None => self.slots[offset].val(),
        }
    }

    /// Take another reference to the value at `offset`.
    pub fn incr(&mut self, offset: usize)
        requires
            old(self).wf(),
            offset < old(self)@.len(),
            old(self)@[offset as int].0 < usize::MAX,
            old(self)@[offset as int].0 > 0,
        ensures
            final(self).wf(),
            final(self)@ == old(self)@.update(offset as int, (old(self)@[offset as int].0 + 1, old(self)@[offset as int].1)),
    {
        let refs = self.slots[offset].refs;
        let v = self.slots[offset].val;
        let ghost before = self@;
        self.slots.set(offset, Interned { refs: refs + 1, val: v });
        proof {
            assert(self@ =~= before.update(offset as int, (before[offset as int].0 + 1, before[offset as int].1)));
        }
    }

    /// Drop a reference to the value at `offset`; a count already at zero stays there.
    pub fn decr(&mut self, offset: usize)
        requires
            old(self).wf(),
            offset < old(self)@.len(),
        ensures
            final(self).wf(),
            final(self)@ == old(self)@.update(offset as int, (
                if old(self)@[offset as int].0 == 0 { 0 } else { (old(self)@[offset as int].0 - 1) as nat },
                old(self)@[offset as int].1,
            )),
    {
        let refs = self.slots[offset].refs;
        let v = self.slots[offset].val;
        let ghost before = self@;
        let nr = if refs == 0 {
            0
        } else {
            refs - 1
        };
        self.slots.set(offset, Interned { refs: nr, val: v });
        proof {
            assert(self@ =~= before.update(offset as int, (
                if before[offset as int].0 == 0 { 0 } else { (before[offset as int].0 - 1) as nat },
                before[offset as int].1,
            )));
        }
    }

    /// The reference count at `offset`.
    pub fn refcount(&self, offset: usize) -> (r: usize)
        requires
            offset < self@.len(),
        ensures
            r == self@[offset as int].0,
    {
        self.slots[offset].refs
    }
}

} // verus!
