//! Static length iterators over homogenous tuples
use vstd::prelude::*;
use super::{StaticIter, IntoStaticIter, FromStaticIter, items};

verus! {

/// Static iterator over owned values of a homogenous tuple
pub struct IntoIter<T> {
    tuple: T,
}

/// Static iterator over borrowed values of a homogenous tuple
pub struct RefIter<'a, T>(&'a T);

impl<T: Copy> StaticIter<1> for IntoIter<(T,)> {
    type Item = T;

    closed spec fn item(&self, i: int) -> T {
        {
            self.tuple.0
        }
    }

    closed spec fn ready(&self) -> bool {
        true
    }

    fn idx(&mut self, idx: usize) -> (r: T) {
        {
            self.tuple.0
        }
    }
}

impl<T: Copy> IntoStaticIter<1> for (T,) {
    type Item = T;

    type Iter = IntoIter<(T,)>;

    open spec fn source_item(&self, i: int) -> T {
        {
            self.0
        }
    }

    open spec fn source_ready(&self) -> bool {
        true
    }

    fn into_static_iter(self) -> (r: IntoIter<(T,)>) {
        IntoIter { tuple: self }
    }
}

impl<'a, T> StaticIter<1> for RefIter<'a, (T,)> {
    type Item = &'a T;

    closed spec fn item(&self, i: int) -> &'a T {
        {
            &self.0.0
        }
    }

    closed spec fn ready(&self) -> bool {
        true
    }

    fn idx(&mut self, idx: usize) -> (r: &'a T) {
        {
            &self.0.0
        }
    }
}

impl<'a, T> IntoStaticIter<1> for &'a (T,) {
    type Item = &'a T;

    type Iter = RefIter<'a, (T,)>;

    open spec fn source_item(&self, i: int) -> &'a T {
        {
            &self.0
        }
    }

    open spec fn source_ready(&self) -> bool {
        true
    }

    fn into_static_iter(self) -> (r: RefIter<'a, (T,)>) {
        RefIter(self)
    }
}

impl<T> FromStaticIter<T, 1> for (T,) {
    open spec fn holds(self, s: Seq<T>) -> bool {
        s.len() == 1 && seq![self.0] == s
    }

    open spec fn collectable() -> bool {
        true
    }

    fn from_static_iter<I: StaticIter<1, Item = T>>(iter: I) -> (r: (T,)) {
        let ghost orig = iter;
        let mut it = iter;
        let r = (it.idx(0),);
        proof {
            assert(seq![r.0] =~= items(orig));
        }
        r
    }
}

impl<T: Copy> StaticIter<2> for IntoIter<(T, T)> {
    type Item = T;

    closed spec fn item(&self, i: int) -> T {
        if i == 0 {
            self.tuple.0
        } else {
            self.tuple.1
        }
    }

    closed spec fn ready(&self) -> bool {
        true
    }

    fn idx(&mut self, idx: usize) -> (r: T) {
        if idx == 0 {
            self.tuple.0
        } else {
            self.tuple.1
        }
    }
}

impl<T: Copy> IntoStaticIter<2> for (T, T) {
    type Item = T;

    type Iter = IntoIter<(T, T)>;

    open spec fn source_item(&self, i: int) -> T {
        if i == 0 {
            self.0
        } else {
            self.1
        }
    }

    open spec fn source_ready(&self) -> bool {
        true
    }

    fn into_static_iter(self) -> (r: IntoIter<(T, T)>) {
        IntoIter { tuple: self }
    }
}

impl<'a, T> StaticIter<2> for RefIter<'a, (T, T)> {
    type Item = &'a T;

    closed spec fn item(&self, i: int) -> &'a T {
        if i == 0 {
            &self.0.0
        } else {
            &self.0.1
        }
    }

    closed spec fn ready(&self) -> bool {
        true
    }

    fn idx(&mut self, idx: usize) -> (r: &'a T) {
        if idx == 0 {
            &self.0.0
        } else {
            &self.0.1
        }
    }
}

impl<'a, T> IntoStaticIter<2> for &'a (T, T) {
    type Item = &'a T;

    type Iter = RefIter<'a, (T, T)>;

    open spec fn source_item(&self, i: int) -> &'a T {
        if i == 0 {
            &self.0
        } else {
            &self.1
        }
    }

    open spec fn source_ready(&self) -> bool {
        true
    }

    fn into_static_iter(self) -> (r: RefIter<'a, (T, T)>) {
        RefIter(self)
    }
}

impl<T> FromStaticIter<T, 2> for (T, T) {
    open spec fn holds(self, s: Seq<T>) -> bool {
        s.len() == 2 && seq![self.0, self.1] == s
    }

    open spec fn collectable() -> bool {
        true
    }

    fn from_static_iter<I: StaticIter<2, Item = T>>(iter: I) -> (r: (T, T)) {
        let ghost orig = iter;
        let mut it = iter;
        let r = (it.idx(0), it.idx(1));
        proof {
            assert(seq![r.0, r.1] =~= items(orig));
        }
        r
    }
}

impl<T: Copy> StaticIter<3> for IntoIter<(T, T, T)> {
    type Item = T;

    closed spec fn item(&self, i: int) -> T {
        if i == 0 {
            self.tuple.0
        } else if i == 1 {
            self.tuple.1
        } else {
            self.tuple.2
        }
    }

    closed spec fn ready(&self) -> bool {
        true
    }

    fn idx(&mut self, idx: usize) -> (r: T) {
        if idx == 0 {
            self.tuple.0
        } else if idx == 1 {
            self.tuple.1
        } else {
            self.tuple.2
        }
    }
}

impl<T: Copy> IntoStaticIter<3> for (T, T, T) {
    type Item = T;

    type Iter = IntoIter<(T, T, T)>;

    open spec fn source_item(&self, i: int) -> T {
        if i == 0 {
            self.0
        } else if i == 1 {
            self.1
        } else {
            self.2
        }
    }

    open spec fn source_ready(&self) -> bool {
        true
    }

    fn into_static_iter(self) -> (r: IntoIter<(T, T, T)>) {
        IntoIter { tuple: self }
    }
}

impl<'a, T> StaticIter<3> for RefIter<'a, (T, T, T)> {
    type Item = &'a T;

    closed spec fn item(&self, i: int) -> &'a T {
        if i == 0 {
            &self.0.0
        } else if i == 1 {
            &self.0.1
        } else {
            &self.0.2
        }
    }

    closed spec fn ready(&self) -> bool {
        true
    }

    fn idx(&mut self, idx: usize) -> (r: &'a T) {
        if idx == 0 {
            &self.0.0
        } else if idx == 1 {
            &self.0.1
        } else {
            &self.0.2
        }
    }
}

impl<'a, T> IntoStaticIter<3> for &'a (T, T, T) {
    type Item = &'a T;

    type Iter = RefIter<'a, (T, T, T)>;

    open spec fn source_item(&self, i: int) -> &'a T {
        if i == 0 {
            &self.0
        } else if i == 1 {
            &self.1
        } else {
            &self.2
        }
    }

    open spec fn source_ready(&self) -> bool {
        true
    }

    fn into_static_iter(self) -> (r: RefIter<'a, (T, T, T)>) {
        RefIter(self)
    }
}

impl<T> FromStaticIter<T, 3> for (T, T, T) {
    open spec fn holds(self, s: Seq<T>) -> bool {
        s.len() == 3 && seq![self.0, self.1, self.2] == s
    }

    open spec fn collectable() -> bool {
        true
    }

    fn from_static_iter<I: StaticIter<3, Item = T>>(iter: I) -> (r: (T, T, T)) {
        let ghost orig = iter;
        let mut it = iter;
        let r = (it.idx(0), it.idx(1), it.idx(2));
        proof {
            assert(seq![r.0, r.1, r.2] =~= items(orig));
        }
        r
    }
}

impl<T: Copy> StaticIter<4> for IntoIter<(T, T, T, T)> {
    type Item = T;

    closed spec fn item(&self, i: int) -> T {
        if i == 0 {
            self.tuple.0
        } else if i == 1 {
            self.tuple.1
        } else if i == 2 {
            self.tuple.2
        } else {
            self.tuple.3
        }
    }

    closed spec fn ready(&self) -> bool {
        true
    }

    fn idx(&mut self, idx: usize) -> (r: T) {
        if idx == 0 {
            self.tuple.0
        } else if idx == 1 {
            self.tuple.1
        } else if idx == 2 {
            self.tuple.2
        } else {
            self.tuple.3
        }
    }
}

impl<T: Copy> IntoStaticIter<4> for (T, T, T, T) {
    type Item = T;

    type Iter = IntoIter<(T, T, T, T)>;

    open spec fn source_item(&self, i: int) -> T {
        if i == 0 {
            self.0
        } else if i == 1 {
            self.1
        } else if i == 2 {
            self.2
        } else {
            self.3
        }
    }

    open spec fn source_ready(&self) -> bool {
        true
    }

    fn into_static_iter(self) -> (r: IntoIter<(T, T, T, T)>) {
        IntoIter { tuple: self }
    }
}

impl<'a, T> StaticIter<4> for RefIter<'a, (T, T, T, T)> {
    type Item = &'a T;

    closed spec fn item(&self, i: int) -> &'a T {
        if i == 0 {
            &self.0.0
        } else if i == 1 {
            &self.0.1
        } else if i == 2 {
            &self.0.2
        } else {
            &self.0.3
        }
    }

    closed spec fn ready(&self) -> bool {
        true
    }

    fn idx(&mut self, idx: usize) -> (r: &'a T) {
        if idx == 0 {
            &self.0.0
        } else if idx == 1 {
            &self.0.1
        } else if idx == 2 {
            &self.0.2
        } else {
            &self.0.3
        }
    }
}

impl<'a, T> IntoStaticIter<4> for &'a (T, T, T, T) {
    type Item = &'a T;

    type Iter = RefIter<'a, (T, T, T, T)>;

    open spec fn source_item(&self, i: int) -> &'a T {
        if i == 0 {
            &self.0
        } else if i == 1 {
            &self.1
        } else if i == 2 {
            &self.2
        } else {
            &self.3
        }
    }

    open spec fn source_ready(&self) -> bool {
        true
    }

    fn into_static_iter(self) -> (r: RefIter<'a, (T, T, T, T)>) {
        RefIter(self)
    }
}

impl<T> FromStaticIter<T, 4> for (T, T, T, T) {
    open spec fn holds(self, s: Seq<T>) -> bool {
        s.len() == 4 && seq![self.0, self.1, self.2, self.3] == s
    }

    open spec fn collectable() -> bool {
        true
    }

    fn from_static_iter<I: StaticIter<4, Item = T>>(iter: I) -> (r: (T, T, T, T)) {
        let ghost orig = iter;
        let mut it = iter;
        let r = (it.idx(0), it.idx(1), it.idx(2), it.idx(3));
        proof {
            assert(seq![r.0, r.1, r.2, r.3] =~= items(orig));
        }
        r
    }
}

impl<T: Copy> StaticIter<5> for IntoIter<(T, T, T, T, T)> {
    type Item = T;

    closed spec fn item(&self, i: int) -> T {
        if i == 0 {
            self.tuple.0
        } else if i == 1 {
            self.tuple.1
        } else if i == 2 {
            self.tuple.2
        } else if i == 3 {
            self.tuple.3
        } else {
            self.tuple.4
        }
    }

    closed spec fn ready(&self) -> bool {
        true
    }

    fn idx(&mut self, idx: usize) -> (r: T) {
        if idx == 0 {
            self.tuple.0
        } else if idx == 1 {
            self.tuple.1
        } else if idx == 2 {
            self.tuple.2
        } else if idx == 3 {
            self.tuple.3
        } else {
            self.tuple.4
        }
    }
}

impl<T: Copy> IntoStaticIter<5> for (T, T, T, T, T) {
    type Item = T;

    type Iter = IntoIter<(T, T, T, T, T)>;

    open spec fn source_item(&self, i: int) -> T {
        if i == 0 {
            self.0
        } else if i == 1 {
            self.1
        } else if i == 2 {
            self.2
        } else if i == 3 {
            self.3
        } else {
            self.4
        }
    }

    open spec fn source_ready(&self) -> bool {
        true
    }

    fn into_static_iter(self) -> (r: IntoIter<(T, T, T, T, T)>) {
        IntoIter { tuple: self }
    }
}

impl<'a, T> StaticIter<5> for RefIter<'a, (T, T, T, T, T)> {
    type Item = &'a T;

    closed spec fn item(&self, i: int) -> &'a T {
        if i == 0 {
            &self.0.0
        } else if i == 1 {
            &self.0.1
        } else if i == 2 {
            &self.0.2
        } else if i == 3 {
            &self.0.3
        } else {
            &self.0.4
        }
    }

    closed spec fn ready(&self) -> bool {
        true
    }

    fn idx(&mut self, idx: usize) -> (r: &'a T) {
        if idx == 0 {
            &self.0.0
        } else if idx == 1 {
            &self.0.1
        } else if idx == 2 {
            &self.0.2
        } else if idx == 3 {
            &self.0.3
        } else {
            &self.0.4
        }
    }
}

impl<'a, T> IntoStaticIter<5> for &'a (T, T, T, T, T) {
    type Item = &'a T;

    type Iter = RefIter<'a, (T, T, T, T, T)>;

    open spec fn source_item(&self, i: int) -> &'a T {
        if i == 0 {
            &self.0
        } else if i == 1 {
            &self.1
        } else if i == 2 {
            &self.2
        } else if i == 3 {
            &self.3
        } else {
            &self.4
        }
    }

    open spec fn source_ready(&self) -> bool {
        true
    }

    fn into_static_iter(self) -> (r: RefIter<'a, (T, T, T, T, T)>) {
        RefIter(self)
    }
}

impl<T> FromStaticIter<T, 5> for (T, T, T, T, T) {
    open spec fn holds(self, s: Seq<T>) -> bool {
        s.len() == 5 && seq![self.0, self.1, self.2, self.3, self.4] == s
    }

    open spec fn collectable() -> bool {
        true
    }

    fn from_static_iter<I: StaticIter<5, Item = T>>(iter: I) -> (r: (T, T, T, T, T)) {
        let ghost orig = iter;
        let mut it = iter;
        let r = (it.idx(0), it.idx(1), it.idx(2), it.idx(3), it.idx(4));
        proof {
            assert(seq![r.0, r.1, r.2, r.3, r.4] =~= items(orig));
        }
        r
    }
}

impl<T: Copy> StaticIter<6> for IntoIter<(T, T, T, T, T, T)> {
    type Item = T;

    closed spec fn item(&self, i: int) -> T {
        if i == 0 {
            self.tuple.0
        } else if i == 1 {
            self.tuple.1
        } else if i == 2 {
            self.tuple.2
        } else if i == 3 {
            self.tuple.3
        } else if i == 4 {
            self.tuple.4
        } else {
            self.tuple.5
        }
    }

    closed spec fn ready(&self) -> bool {
        true
    }

    fn idx(&mut self, idx: usize) -> (r: T) {
        if idx == 0 {
            self.tuple.0
        } else if idx == 1 {
            self.tuple.1
        } else if idx == 2 {
            self.tuple.2
        } else if idx == 3 {
            self.tuple.3
        } else if idx == 4 {
            self.tuple.4
        } else {
            self.tuple.5
        }
    }
}

impl<T: Copy> IntoStaticIter<6> for (T, T, T, T, T, T) {
    type Item = T;

    type Iter = IntoIter<(T, T, T, T, T, T)>;

    open spec fn source_item(&self, i: int) -> T {
        if i == 0 {
            self.0
        } else if i == 1 {
            self.1
        } else if i == 2 {
            self.2
        } else if i == 3 {
            self.3
        } else if i == 4 {
            self.4
        } else {
            self.5
        }
    }

    open spec fn source_ready(&self) -> bool {
        true
    }

    fn into_static_iter(self) -> (r: IntoIter<(T, T, T, T, T, T)>) {
        IntoIter { tuple: self }
    }
}

impl<'a, T> StaticIter<6> for RefIter<'a, (T, T, T, T, T, T)> {
    type Item = &'a T;

    closed spec fn item(&self, i: int) -> &'a T {
        if i == 0 {
            &self.0.0
        } else if i == 1 {
            &self.0.1
        } else if i == 2 {
            &self.0.2
        } else if i == 3 {
            &self.0.3
        } else if i == 4 {
            &self.0.4
        } else {
            &self.0.5
        }
    }

    closed spec fn ready(&self) -> bool {
        true
    }

    fn idx(&mut self, idx: usize) -> (r: &'a T) {
        if idx == 0 {
            &self.0.0
        } else if idx == 1 {
            &self.0.1
        } else if idx == 2 {
            &self.0.2
        } else if idx == 3 {
            &self.0.3
        } else if idx == 4 {
            &self.0.4
        } else {
            &self.0.5
        }
    }
}

impl<'a, T> IntoStaticIter<6> for &'a (T, T, T, T, T, T) {
    type Item = &'a T;

    type Iter = RefIter<'a, (T, T, T, T, T, T)>;

    open spec fn source_item(&self, i: int) -> &'a T {
        if i == 0 {
            &self.0
        } else if i == 1 {
            &self.1
        } else if i == 2 {
            &self.2
        } else if i == 3 {
            &self.3
        } else if i == 4 {
            &self.4
        } else {
            &self.5
        }
    }

    open spec fn source_ready(&self) -> bool {
        true
    }

    fn into_static_iter(self) -> (r: RefIter<'a, (T, T, T, T, T, T)>) {
        RefIter(self)
    }
}

impl<T> FromStaticIter<T, 6> for (T, T, T, T, T, T) {
    open spec fn holds(self, s: Seq<T>) -> bool {
        s.len() == 6 && seq![self.0, self.1, self.2, self.3, self.4, self.5] == s
    }

    open spec fn collectable() -> bool {
        true
    }

    fn from_static_iter<I: StaticIter<6, Item = T>>(iter: I) -> (r: (T, T, T, T, T, T)) {
        let ghost orig = iter;
        let mut it = iter;
        let r = (it.idx(0), it.idx(1), it.idx(2), it.idx(3), it.idx(4), it.idx(5));
        proof {
            assert(seq![r.0, r.1, r.2, r.3, r.4, r.5] =~= items(orig));
        }
        r
    }
}

impl<T: Copy> StaticIter<7> for IntoIter<(T, T, T, T, T, T, T)> {
    type Item = T;

    closed spec fn item(&self, i: int) -> T {
        if i == 0 {
            self.tuple.0
        } else if i == 1 {
            self.tuple.1
        } else if i == 2 {
            self.tuple.2
        } else if i == 3 {
            self.tuple.3
        } else if i == 4 {
            self.tuple.4
        } else if i == 5 {
            self.tuple.5
        } else {
            self.tuple.6
        }
    }

    closed spec fn ready(&self) -> bool {
        true
    }

    fn idx(&mut self, idx: usize) -> (r: T) {
        if idx == 0 {
            self.tuple.0
        } else if idx == 1 {
            self.tuple.1
        } else if idx == 2 {
            self.tuple.2
        } else if idx == 3 {
            self.tuple.3
        } else if idx == 4 {
            self.tuple.4
        } else if idx == 5 {
            self.tuple.5
        } else {
            self.tuple.6
        }
    }
}

impl<T: Copy> IntoStaticIter<7> for (T, T, T, T, T, T, T) {
    type Item = T;

    type Iter = IntoIter<(T, T, T, T, T, T, T)>;

    open spec fn source_item(&self, i: int) -> T {
        if i == 0 {
            self.0
        } else if i == 1 {
            self.1
        } else if i == 2 {
            self.2
        } else if i == 3 {
            self.3
        } else if i == 4 {
            self.4
        } else if i == 5 {
            self.5
        } else {
            self.6
        }
    }

    open spec fn source_ready(&self) -> bool {
        true
    }

    fn into_static_iter(self) -> (r: IntoIter<(T, T, T, T, T, T, T)>) {
        IntoIter { tuple: self }
    }
}

impl<'a, T> StaticIter<7> for RefIter<'a, (T, T, T, T, T, T, T)> {
    type Item = &'a T;

    closed spec fn item(&self, i: int) -> &'a T {
        if i == 0 {
            &self.0.0
        } else if i == 1 {
            &self.0.1
        } else if i == 2 {
            &self.0.2
        } else if i == 3 {
            &self.0.3
        } else if i == 4 {
            &self.0.4
        } else if i == 5 {
            &self.0.5
        } else {
            &self.0.6
        }
    }

    closed spec fn ready(&self) -> bool {
        true
    }

    fn idx(&mut self, idx: usize) -> (r: &'a T) {
        if idx == 0 {
            &self.0.0
        } else if idx == 1 {
            &self.0.1
        } else if idx == 2 {
            &self.0.2
        } else if idx == 3 {
            &self.0.3
        } else if idx == 4 {
            &self.0.4
        } else if idx == 5 {
            &self.0.5
        } else {
            &self.0.6
        }
    }
}

impl<'a, T> IntoStaticIter<7> for &'a (T, T, T, T, T, T, T) {
    type Item = &'a T;

    type Iter = RefIter<'a, (T, T, T, T, T, T, T)>;

    open spec fn source_item(&self, i: int) -> &'a T {
        if i == 0 {
            &self.0
        } else if i == 1 {
            &self.1
        } else if i == 2 {
            &self.2
        } else if i == 3 {
            &self.3
        } else if i == 4 {
            &self.4
        } else if i == 5 {
            &self.5
        } else {
            &self.6
        }
    }

    open spec fn source_ready(&self) -> bool {
        true
    }

    fn into_static_iter(self) -> (r: RefIter<'a, (T, T, T, T, T, T, T)>) {
        RefIter(self)
    }
}

impl<T> FromStaticIter<T, 7> for (T, T, T, T, T, T, T) {
    open spec fn holds(self, s: Seq<T>) -> bool {
        s.len() == 7 && seq![self.0, self.1, self.2, self.3, self.4, self.5, self.6] == s
    }

    open spec fn collectable() -> bool {
        true
    }

    fn from_static_iter<I: StaticIter<7, Item = T>>(iter: I) -> (r: (T, T, T, T, T, T, T)) {
        let ghost orig = iter;
        let mut it = iter;
        let r = (it.idx(0), it.idx(1), it.idx(2), it.idx(3), it.idx(4), it.idx(5), it.idx(6));
        proof {
            assert(seq![r.0, r.1, r.2, r.3, r.4, r.5, r.6] =~= items(orig));
        }
        r
    }
}

impl<T: Copy> StaticIter<8> for IntoIter<(T, T, T, T, T, T, T, T)> {
    type Item = T;

    closed spec fn item(&self, i: int) -> T {
        if i == 0 {
            self.tuple.0
        } else if i == 1 {
            self.tuple.1
        } else if i == 2 {
            self.tuple.2
        } else if i == 3 {
            self.tuple.3
        } else if i == 4 {
            self.tuple.4
        } else if i == 5 {
            self.tuple.5
        } else if i == 6 {
            self.tuple.6
        } else {
            self.tuple.7
        }
    }

    closed spec fn ready(&self) -> bool {
        true
    }

    fn idx(&mut self, idx: usize) -> (r: T) {
        if idx == 0 {
            self.tuple.0
        } else if idx == 1 {
            self.tuple.1
        } else if idx == 2 {
            self.tuple.2
        } else if idx == 3 {
            self.tuple.3
        } else if idx == 4 {
            self.tuple.4
        } else if idx == 5 {
            self.tuple.5
        } else if idx == 6 {
            self.tuple.6
        } else {
            self.tuple.7
        }
    }
}

impl<T: Copy> IntoStaticIter<8> for (T, T, T, T, T, T, T, T) {
    type Item = T;

    type Iter = IntoIter<(T, T, T, T, T, T, T, T)>;

    open spec fn source_item(&self, i: int) -> T {
        if i == 0 {
            self.0
        } else if i == 1 {
            self.1
        } else if i == 2 {
            self.2
        } else if i == 3 {
            self.3
        } else if i == 4 {
            self.4
        } else if i == 5 {
            self.5
        } else if i == 6 {
            self.6
        } else {
            self.7
        }
    }

    open spec fn source_ready(&self) -> bool {
        true
    }

    fn into_static_iter(self) -> (r: IntoIter<(T, T, T, T, T, T, T, T)>) {
        IntoIter { tuple: self }
    }
}

impl<'a, T> StaticIter<8> for RefIter<'a, (T, T, T, T, T, T, T, T)> {
    type Item = &'a T;

    closed spec fn item(&self, i: int) -> &'a T {
        if i == 0 {
            &self.0.0
        } else if i == 1 {
            &self.0.1
        } else if i == 2 {
            &self.0.2
        } else if i == 3 {
            &self.0.3
        } else if i == 4 {
            &self.0.4
        } else if i == 5 {
            &self.0.5
        } else if i == 6 {
            &self.0.6
        } else {
            &self.0.7
        }
    }

    closed spec fn ready(&self) -> bool {
        true
    }

    fn idx(&mut self, idx: usize) -> (r: &'a T) {
        if idx == 0 {
            &self.0.0
        } else if idx == 1 {
            &self.0.1
        } else if idx == 2 {
            &self.0.2
        } else if idx == 3 {
            &self.0.3
        } else if idx == 4 {
            &self.0.4
        } else if idx == 5 {
            &self.0.5
        } else if idx == 6 {
            &self.0.6
        } else {
            &self.0.7
        }
    }
}

impl<'a, T> IntoStaticIter<8> for &'a (T, T, T, T, T, T, T, T) {
    type Item = &'a T;

    type Iter = RefIter<'a, (T, T, T, T, T, T, T, T)>;

    open spec fn source_item(&self, i: int) -> &'a T {
        if i == 0 {
            &self.0
        } else if i == 1 {
            &self.1
        } else if i == 2 {
            &self.2
        } else if i == 3 {
            &self.3
        } else if i == 4 {
            &self.4
        } else if i == 5 {
            &self.5
        } else if i == 6 {
            &self.6
        } else {
            &self.7
        }
    }

    open spec fn source_ready(&self) -> bool {
        true
    }

    fn into_static_iter(self) -> (r: RefIter<'a, (T, T, T, T, T, T, T, T)>) {
        RefIter(self)
    }
}

impl<T> FromStaticIter<T, 8> for (T, T, T, T, T, T, T, T) {
    open spec fn holds(self, s: Seq<T>) -> bool {
        s.len() == 8 && seq![self.0, self.1, self.2, self.3, self.4, self.5, self.6, self.7] == s
    }

    open spec fn collectable() -> bool {
        true
    }

    fn from_static_iter<I: StaticIter<8, Item = T>>(iter: I) -> (r: (T, T, T, T, T, T, T, T)) {
        let ghost orig = iter;
        let mut it = iter;
        let r = (it.idx(0), it.idx(1), it.idx(2), it.idx(3), it.idx(4), it.idx(5), it.idx(6), it.idx(7));
        proof {
            assert(seq![r.0, r.1, r.2, r.3, r.4, r.5, r.6, r.7] =~= items(orig));
        }
        r
    }
}

impl<T: Copy> StaticIter<9> for IntoIter<(T, T, T, T, T, T, T, T, T)> {
    type Item = T;

    closed spec fn item(&self, i: int) -> T {
        if i == 0 {
            self.tuple.0
        } else if i == 1 {
            self.tuple.1
        } else if i == 2 {
            self.tuple.2
        } else if i == 3 {
            self.tuple.3
        } else if i == 4 {
            self.tuple.4
        } else if i == 5 {
            self.tuple.5
        } else if i == 6 {
            self.tuple.6
        } else if i == 7 {
            self.tuple.7
        } else {
            self.tuple.8
        }
    }

    closed spec fn ready(&self) -> bool {
        true
    }

    fn idx(&mut self, idx: usize) -> (r: T) {
        if idx == 0 {
            self.tuple.0
        } else if idx == 1 {
            self.tuple.1
        } else if idx == 2 {
            self.tuple.2
        } else if idx == 3 {
            self.tuple.3
        } else if idx == 4 {
            self.tuple.4
        } else if idx == 5 {
            self.tuple.5
        } else if idx == 6 {
            self.tuple.6
        } else if idx == 7 {
            self.tuple.7
        } else {
            self.tuple.8
        }
    }
}

impl<T: Copy> IntoStaticIter<9> for (T, T, T, T, T, T, T, T, T) {
    type Item = T;

    type Iter = IntoIter<(T, T, T, T, T, T, T, T, T)>;

    open spec fn source_item(&self, i: int) -> T {
        if i == 0 {
            self.0
        } else if i == 1 {
            self.1
        } else if i == 2 {
            self.2
        } else if i == 3 {
            self.3
        } else if i == 4 {
            self.4
        } else if i == 5 {
            self.5
        } else if i == 6 {
            self.6
        } else if i == 7 {
            self.7
        } else {
            self.8
        }
    }

    open spec fn source_ready(&self) -> bool {
        true
    }

    fn into_static_iter(self) -> (r: IntoIter<(T, T, T, T, T, T, T, T, T)>) {
        IntoIter { tuple: self }
    }
}

impl<'a, T> StaticIter<9> for RefIter<'a, (T, T, T, T, T, T, T, T, T)> {
    type Item = &'a T;

    closed spec fn item(&self, i: int) -> &'a T {
        if i == 0 {
            &self.0.0
        } else if i == 1 {
            &self.0.1
        } else if i == 2 {
            &self.0.2
        } else if i == 3 {
            &self.0.3
        } else if i == 4 {
            &self.0.4
        } else if i == 5 {
            &self.0.5
        } else if i == 6 {
            &self.0.6
        } else if i == 7 {
            &self.0.7
        } else {
            &self.0.8
        }
    }

    closed spec fn ready(&self) -> bool {
        true
    }

    fn idx(&mut self, idx: usize) -> (r: &'a T) {
        if idx == 0 {
            &self.0.0
        } else if idx == 1 {
            &self.0.1
        } else if idx == 2 {
            &self.0.2
        } else if idx == 3 {
            &self.0.3
        } else if idx == 4 {
            &self.0.4
        } else if idx == 5 {
            &self.0.5
        } else if idx == 6 {
            &self.0.6
        } else if idx == 7 {
            &self.0.7
        } else {
            &self.0.8
        }
    }
}

impl<'a, T> IntoStaticIter<9> for &'a (T, T, T, T, T, T, T, T, T) {
    type Item = &'a T;

    type Iter = RefIter<'a, (T, T, T, T, T, T, T, T, T)>;

    open spec fn source_item(&self, i: int) -> &'a T {
        if i == 0 {
            &self.0
        } else if i == 1 {
            &self.1
        } else if i == 2 {
            &self.2
        } else if i == 3 {
            &self.3
        } else if i == 4 {
            &self.4
        } else if i == 5 {
            &self.5
        } else if i == 6 {
            &self.6
        } else if i == 7 {
            &self.7
        } else {
            &self.8
        }
    }

    open spec fn source_ready(&self) -> bool {
        true
    }

    fn into_static_iter(self) -> (r: RefIter<'a, (T, T, T, T, T, T, T, T, T)>) {
        RefIter(self)
    }
}

impl<T> FromStaticIter<T, 9> for (T, T, T, T, T, T, T, T, T) {
    open spec fn holds(self, s: Seq<T>) -> bool {
        s.len() == 9 && seq![self.0, self.1, self.2, self.3, self.4, self.5, self.6, self.7, self.8] == s
    }

    open spec fn collectable() -> bool {
        true
    }

    fn from_static_iter<I: StaticIter<9, Item = T>>(iter: I) -> (r: (T, T, T, T, T, T, T, T, T)) {
        let ghost orig = iter;
        let mut it = iter;
        let r = (it.idx(0), it.idx(1), it.idx(2), it.idx(3), it.idx(4), it.idx(5), it.idx(6), it.idx(7), it.idx(8));
        proof {
            assert(seq![r.0, r.1, r.2, r.3, r.4, r.5, r.6, r.7, r.8] =~= items(orig));
        }
        r
    }
}

impl<T: Copy> StaticIter<10> for IntoIter<(T, T, T, T, T, T, T, T, T, T)> {
    type Item = T;

    closed spec fn item(&self, i: int) -> T {
        if i == 0 {
            self.tuple.0
        } else if i == 1 {
            self.tuple.1
        } else if i == 2 {
            self.tuple.2
        } else if i == 3 {
            self.tuple.3
        } else if i == 4 {
            self.tuple.4
        } else if i == 5 {
            self.tuple.5
        } else if i == 6 {
            self.tuple.6
        } else if i == 7 {
            self.tuple.7
        } else if i == 8 {
            self.tuple.8
        } else {
            self.tuple.9
        }
    }

    closed spec fn ready(&self) -> bool {
        true
    }

    fn idx(&mut self, idx: usize) -> (r: T) {
        if idx == 0 {
            self.tuple.0
        } else if idx == 1 {
            self.tuple.1
        } else if idx == 2 {
            self.tuple.2
        } else if idx == 3 {
            self.tuple.3
        } else if idx == 4 {
            self.tuple.4
        } else if idx == 5 {
            self.tuple.5
        } else if idx == 6 {
            self.tuple.6
        } else if idx == 7 {
            self.tuple.7
        } else if idx == 8 {
            self.tuple.8
        } else {
            self.tuple.9
        }
    }
}

impl<T: Copy> IntoStaticIter<10> for (T, T, T, T, T, T, T, T, T, T) {
    type Item = T;

    type Iter = IntoIter<(T, T, T, T, T, T, T, T, T, T)>;

    open spec fn source_item(&self, i: int) -> T {
        if i == 0 {
            self.0
        } else if i == 1 {
            self.1
        } else if i == 2 {
            self.2
        } else if i == 3 {
            self.3
        } else if i == 4 {
            self.4
        } else if i == 5 {
            self.5
        } else if i == 6 {
            self.6
        } else if i == 7 {
            self.7
        } else if i == 8 {
            self.8
        } else {
            self.9
        }
    }

    open spec fn source_ready(&self) -> bool {
        true
    }

    fn into_static_iter(self) -> (r: IntoIter<(T, T, T, T, T, T, T, T, T, T)>) {
        IntoIter { tuple: self }
    }
}

impl<'a, T> StaticIter<10> for RefIter<'a, (T, T, T, T, T, T, T, T, T, T)> {
    type Item = &'a T;

    closed spec fn item(&self, i: int) -> &'a T {
        if i == 0 {
            &self.0.0
        } else if i == 1 {
            &self.0.1
        } else if i == 2 {
            &self.0.2
        } else if i == 3 {
            &self.0.3
        } else if i == 4 {
            &self.0.4
        } else if i == 5 {
            &self.0.5
        } else if i == 6 {
            &self.0.6
        } else if i == 7 {
            &self.0.7
        } else if i == 8 {
            &self.0.8
        } else {
            &self.0.9
        }
    }

    closed spec fn ready(&self) -> bool {
        true
    }

    fn idx(&mut self, idx: usize) -> (r: &'a T) {
        if idx == 0 {
            &self.0.0
        } else if idx == 1 {
            &self.0.1
        } else if idx == 2 {
            &self.0.2
        } else if idx == 3 {
            &self.0.3
        } else if idx == 4 {
            &self.0.4
        } else if idx == 5 {
            &self.0.5
        } else if idx == 6 {
            &self.0.6
        } else if idx == 7 {
            &self.0.7
        } else if idx == 8 {
            &self.0.8
        } else {
            &self.0.9
        }
    }
}

impl<'a, T> IntoStaticIter<10> for &'a (T, T, T, T, T, T, T, T, T, T) {
    type Item = &'a T;

    type Iter = RefIter<'a, (T, T, T, T, T, T, T, T, T, T)>;

    open spec fn source_item(&self, i: int) -> &'a T {
        if i == 0 {
            &self.0
        } else if i == 1 {
            &self.1
        } else if i == 2 {
            &self.2
        } else if i == 3 {
            &self.3
        } else if i == 4 {
            &self.4
        } else if i == 5 {
            &self.5
        } else if i == 6 {
            &self.6
        } else if i == 7 {
            &self.7
        } else if i == 8 {
            &self.8
        } else {
            &self.9
        }
    }

    open spec fn source_ready(&self) -> bool {
        true
    }

    fn into_static_iter(self) -> (r: RefIter<'a, (T, T, T, T, T, T, T, T, T, T)>) {
        RefIter(self)
    }
}

impl<T> FromStaticIter<T, 10> for (T, T, T, T, T, T, T, T, T, T) {
    open spec fn holds(self, s: Seq<T>) -> bool {
        s.len() == 10 && seq![self.0, self.1, self.2, self.3, self.4, self.5, self.6, self.7, self.8, self.9] == s
    }

    open spec fn collectable() -> bool {
        true
    }

    fn from_static_iter<I: StaticIter<10, Item = T>>(iter: I) -> (r: (T, T, T, T, T, T, T, T, T, T)) {
        let ghost orig = iter;
        let mut it = iter;
        let r = (it.idx(0), it.idx(1), it.idx(2), it.idx(3), it.idx(4), it.idx(5), it.idx(6), it.idx(7), it.idx(8), it.idx(9));
        proof {
            assert(seq![r.0, r.1, r.2, r.3, r.4, r.5, r.6, r.7, r.8, r.9] =~= items(orig));
        }
        r
    }
}

impl<T: Copy> StaticIter<11> for IntoIter<(T, T, T, T, T, T, T, T, T, T, T)> {
    type Item = T;

    closed spec fn item(&self, i: int) -> T {
        if i == 0 {
            self.tuple.0
        } else if i == 1 {
            self.tuple.1
        } else if i == 2 {
            self.tuple.2
        } else if i == 3 {
            self.tuple.3
        } else if i == 4 {
            self.tuple.4
        } else if i == 5 {
            self.tuple.5
        } else if i == 6 {
            self.tuple.6
        } else if i == 7 {
            self.tuple.7
        } else if i == 8 {
            self.tuple.8
        } else if i == 9 {
            self.tuple.9
        } else {
            self.tuple.10
        }
    }

    closed spec fn ready(&self) -> bool {
        true
    }

    fn idx(&mut self, idx: usize) -> (r: T) {
        if idx == 0 {
            self.tuple.0
        } else if idx == 1 {
            self.tuple.1
        } else if idx == 2 {
            self.tuple.2
        } else if idx == 3 {
            self.tuple.3
        } else if idx == 4 {
            self.tuple.4
        } else if idx == 5 {
            self.tuple.5
        } else if idx == 6 {
            self.tuple.6
        } else if idx == 7 {
            self.tuple.7
        } else if idx == 8 {
            self.tuple.8
        } else if idx == 9 {
            self.tuple.9
        } else {
            self.tuple.10
        }
    }
}

impl<T: Copy> IntoStaticIter<11> for (T, T, T, T, T, T, T, T, T, T, T) {
    type Item = T;

    type Iter = IntoIter<(T, T, T, T, T, T, T, T, T, T, T)>;

    open spec fn source_item(&self, i: int) -> T {
        if i == 0 {
            self.0
        } else if i == 1 {
            self.1
        } else if i == 2 {
            self.2
        } else if i == 3 {
            self.3
        } else if i == 4 {
            self.4
        } else if i == 5 {
            self.5
        } else if i == 6 {
            self.6
        } else if i == 7 {
            self.7
        } else if i == 8 {
            self.8
        } else if i == 9 {
            self.9
        } else {
            self.10
        }
    }

    open spec fn source_ready(&self) -> bool {
        true
    }

    fn into_static_iter(self) -> (r: IntoIter<(T, T, T, T, T, T, T, T, T, T, T)>) {
        IntoIter { tuple: self }
    }
}

impl<'a, T> StaticIter<11> for RefIter<'a, (T, T, T, T, T, T, T, T, T, T, T)> {
    type Item = &'a T;

    closed spec fn item(&self, i: int) -> &'a T {
        if i == 0 {
            &self.0.0
        } else if i == 1 {
            &self.0.1
        } else if i == 2 {
            &self.0.2
        } else if i == 3 {
            &self.0.3
        } else if i == 4 {
            &self.0.4
        } else if i == 5 {
            &self.0.5
        } else if i == 6 {
            &self.0.6
        } else if i == 7 {
            &self.0.7
        } else if i == 8 {
            &self.0.8
        } else if i == 9 {
            &self.0.9
        } else {
            &self.0.10
        }
    }

    closed spec fn ready(&self) -> bool {
        true
    }

    fn idx(&mut self, idx: usize) -> (r: &'a T) {
        if idx == 0 {
            &self.0.0
        } else if idx == 1 {
            &self.0.1
        } else if idx == 2 {
            &self.0.2
        } else if idx == 3 {
            &self.0.3
        } else if idx == 4 {
            &self.0.4
        } else if idx == 5 {
            &self.0.5
        } else if idx == 6 {
            &self.0.6
        } else if idx == 7 {
            &self.0.7
        } else if idx == 8 {
            &self.0.8
        } else if idx == 9 {
            &self.0.9
        } else {
            &self.0.10
        }
    }
}

impl<'a, T> IntoStaticIter<11> for &'a (T, T, T, T, T, T, T, T, T, T, T) {
    type Item = &'a T;

    type Iter = RefIter<'a, (T, T, T, T, T, T, T, T, T, T, T)>;

    open spec fn source_item(&self, i: int) -> &'a T {
        if i == 0 {
            &self.0
        } else if i == 1 {
            &self.1
        } else if i == 2 {
            &self.2
        } else if i == 3 {
            &self.3
        } else if i == 4 {
            &self.4
        } else if i == 5 {
            &self.5
        } else if i == 6 {
            &self.6
        } else if i == 7 {
            &self.7
        } else if i == 8 {
            &self.8
        } else if i == 9 {
            &self.9
        } else {
            &self.10
        }
    }

    open spec fn source_ready(&self) -> bool {
        true
    }

    fn into_static_iter(self) -> (r: RefIter<'a, (T, T, T, T, T, T, T, T, T, T, T)>) {
        RefIter(self)
    }
}

impl<T> FromStaticIter<T, 11> for (T, T, T, T, T, T, T, T, T, T, T) {
    open spec fn holds(self, s: Seq<T>) -> bool {
        s.len() == 11 && seq![self.0, self.1, self.2, self.3, self.4, self.5, self.6, self.7, self.8, self.9, self.10] == s
    }

    open spec fn collectable() -> bool {
        true
    }

    fn from_static_iter<I: StaticIter<11, Item = T>>(iter: I) -> (r: (T, T, T, T, T, T, T, T, T, T, T)) {
        let ghost orig = iter;
        let mut it = iter;
        let r = (it.idx(0), it.idx(1), it.idx(2), it.idx(3), it.idx(4), it.idx(5), it.idx(6), it.idx(7), it.idx(8), it.idx(9), it.idx(10));
        proof {
            assert(seq![r.0, r.1, r.2, r.3, r.4, r.5, r.6, r.7, r.8, r.9, r.10] =~= items(orig));
        }
        r
    }
}

impl<T: Copy> StaticIter<12> for IntoIter<(T, T, T, T, T, T, T, T, T, T, T, T)> {
    type Item = T;

    closed spec fn item(&self, i: int) -> T {
        if i == 0 {
            self.tuple.0
        } else if i == 1 {
            self.tuple.1
        } else if i == 2 {
            self.tuple.2
        } else if i == 3 {
            self.tuple.3
        } else if i == 4 {
            self.tuple.4
        } else if i == 5 {
            self.tuple.5
        } else if i == 6 {
            self.tuple.6
        } else if i == 7 {
            self.tuple.7
        } else if i == 8 {
            self.tuple.8
        } else if i == 9 {
            self.tuple.9
        } else if i == 10 {
            self.tuple.10
        } else {
            self.tuple.11
        }
    }

    closed spec fn ready(&self) -> bool {
        true
    }

    fn idx(&mut self, idx: usize) -> (r: T) {
        if idx == 0 {
            self.tuple.0
        } else if idx == 1 {
            self.tuple.1
        } else if idx == 2 {
            self.tuple.2
        } else if idx == 3 {
            self.tuple.3
        } else if idx == 4 {
            self.tuple.4
        } else if idx == 5 {
            self.tuple.5
        } else if idx == 6 {
            self.tuple.6
        } else if idx == 7 {
            self.tuple.7
        } else if idx == 8 {
            self.tuple.8
        } else if idx == 9 {
            self.tuple.9
        } else if idx == 10 {
            self.tuple.10
        } else {
            self.tuple.11
        }
    }
}

impl<T: Copy> IntoStaticIter<12> for (T, T, T, T, T, T, T, T, T, T, T, T) {
    type Item = T;

    type Iter = IntoIter<(T, T, T, T, T, T, T, T, T, T, T, T)>;

    open spec fn source_item(&self, i: int) -> T {
        if i == 0 {
            self.0
        } else if i == 1 {
            self.1
        } else if i == 2 {
            self.2
        } else if i == 3 {
            self.3
        } else if i == 4 {
            self.4
        } else if i == 5 {
            self.5
        } else if i == 6 {
            self.6
        } else if i == 7 {
            self.7
        } else if i == 8 {
            self.8
        } else if i == 9 {
            self.9
        } else if i == 10 {
            self.10
        } else {
            self.11
        }
    }

    open spec fn source_ready(&self) -> bool {
        true
    }

    fn into_static_iter(self) -> (r: IntoIter<(T, T, T, T, T, T, T, T, T, T, T, T)>) {
        IntoIter { tuple: self }
    }
}

impl<'a, T> StaticIter<12> for RefIter<'a, (T, T, T, T, T, T, T, T, T, T, T, T)> {
    type Item = &'a T;

    closed spec fn item(&self, i: int) -> &'a T {
        if i == 0 {
            &self.0.0
        } else if i == 1 {
            &self.0.1
        } else if i == 2 {
            &self.0.2
        } else if i == 3 {
            &self.0.3
        } else if i == 4 {
            &self.0.4
        } else if i == 5 {
            &self.0.5
        } else if i == 6 {
            &self.0.6
        } else if i == 7 {
            &self.0.7
        } else if i == 8 {
            &self.0.8
        } else if i == 9 {
            &self.0.9
        } else if i == 10 {
            &self.0.10
        } else {
            &self.0.11
        }
    }

    closed spec fn ready(&self) -> bool {
        true
    }

    fn idx(&mut self, idx: usize) -> (r: &'a T) {
        if idx == 0 {
            &self.0.0
        } else if idx == 1 {
            &self.0.1
        } else if idx == 2 {
            &self.0.2
        } else if idx == 3 {
            &self.0.3
        } else if idx == 4 {
            &self.0.4
        } else if idx == 5 {
            &self.0.5
        } else if idx == 6 {
            &self.0.6
        } else if idx == 7 {
            &self.0.7
        } else if idx == 8 {
            &self.0.8
        } else if idx == 9 {
            &self.0.9
        } else if idx == 10 {
            &self.0.10
        } else {
            &self.0.11
        }
    }
}

impl<'a, T> IntoStaticIter<12> for &'a (T, T, T, T, T, T, T, T, T, T, T, T) {
    type Item = &'a T;

    type Iter = RefIter<'a, (T, T, T, T, T, T, T, T, T, T, T, T)>;

    open spec fn source_item(&self, i: int) -> &'a T {
        if i == 0 {
            &self.0
        } else if i == 1 {
            &self.1
        } else if i == 2 {
            &self.2
        } else if i == 3 {
            &self.3
        } else if i == 4 {
            &self.4
        } else if i == 5 {
            &self.5
        } else if i == 6 {
            &self.6
        } else if i == 7 {
            &self.7
        } else if i == 8 {
            &self.8
        } else if i == 9 {
            &self.9
        } else if i == 10 {
            &self.10
        } else {
            &self.11
        }
    }

    open spec fn source_ready(&self) -> bool {
        true
    }

    fn into_static_iter(self) -> (r: RefIter<'a, (T, T, T, T, T, T, T, T, T, T, T, T)>) {
        RefIter(self)
    }
}

impl<T> FromStaticIter<T, 12> for (T, T, T, T, T, T, T, T, T, T, T, T) {
    open spec fn holds(self, s: Seq<T>) -> bool {
        s.len() == 12 && seq![self.0, self.1, self.2, self.3, self.4, self.5, self.6, self.7, self.8, self.9, self.10, self.11] == s
    }

    open spec fn collectable() -> bool {
        true
    }

    fn from_static_iter<I: StaticIter<12, Item = T>>(iter: I) -> (r: (T, T, T, T, T, T, T, T, T, T, T, T)) {
        let ghost orig = iter;
        let mut it = iter;
        let r = (it.idx(0), it.idx(1), it.idx(2), it.idx(3), it.idx(4), it.idx(5), it.idx(6), it.idx(7), it.idx(8), it.idx(9), it.idx(10), it.idx(11));
        proof {
            assert(seq![r.0, r.1, r.2, r.3, r.4, r.5, r.6, r.7, r.8, r.9, r.10, r.11] =~= items(orig));
        }
        r
    }
}

} // verus!
