//! Growable sequences whose view maps every element to its own view.
use vstd::prelude::*;

verus! {

/// A type whose values can be copied so that the copy has the same view.
pub trait Dup: View + Sized {
    fn dup(&self) -> (r: Self)
        ensures
            r@ == self@,
    ;
}

impl Dup for String {
    fn dup(&self) -> (r: Self) {
        self.clone()
    }
}

impl Dup for usize {
    fn dup(&self) -> (r: Self) {
        *self
    }
}

/// What an optional value holds, by its view.
pub open spec fn opt_of<T: View>(o: Option<T>) -> Option<T::V> {
    match o {
        Some(x) => Some(x@),
        None => None,
    }
}

/// A copy of an optional value.
pub fn dup_opt<T: Dup>(o: &Option<T>) -> (r: Option<T>)
    ensures
        opt_of(r) == opt_of(*o),
{
    match o {
        Some(x) => Some(x.dup()),
        None => None,
    }
}

/// A copy of a byte string.
pub fn dup_bytes(b: &Vec<u8>) -> (r: Vec<u8>)
    ensures
        r@ == b@,
{
    b.clone()
}

/// A vector that is specified by the sequence of its elements' views.
pub struct List<T> {
    pub items: Vec<T>,
}

impl<T: View> View for List<T> {
    type V = Seq<T::V>;

    open spec fn view(&self) -> Seq<T::V> {
        Seq::new(self.items@.len(), |i: int| self.items@[i]@)
    }
}

impl<T: View> List<T> {
    pub fn new() -> (r: Self)
        ensures
            r@ == Seq::<T::V>::empty(),
    {
        let r = List { items: Vec::new() };
        assert(r@ =~= Seq::<T::V>::empty());
        r
    }

    pub fn len(&self) -> (n: usize)
        ensures
            n == self@.len(),
    {
        self.items.len()
    }

    pub fn get(&self, i: usize) -> (r: &T)
        requires
            i < self@.len(),
        ensures
            r@ == self@[i as int],
    {
        &self.items[i]
    }

    pub fn push(&mut self, x: T)
        ensures
            final(self)@ == old(self)@.push(x@),
    {
        self.items.push(x);
        assert(self@ =~= old(self)@.push(x@));
    }

    pub fn insert(&mut self, i: usize, x: T)
        requires
            i <= old(self)@.len(),
        ensures
            final(self)@ == old(self)@.insert(i as int, x@),
    {
        self.items.insert(i, x);
        assert(self@ =~= old(self)@.insert(i as int, x@));
    }

    pub fn remove(&mut self, i: usize) -> (r: T)
        requires
            i < old(self)@.len(),
        ensures
            r@ == old(self)@[i as int],
            final(self)@ == old(self)@.remove(i as int),
    {
        let r = self.items.remove(i);
        assert(self@ =~= old(self)@.remove(i as int));
        r
    }

    pub fn set(&mut self, i: usize, x: T)
        requires
            i < old(self)@.len(),
        ensures
            final(self)@ == old(self)@.update(i as int, x@),
    {
        self.items.set(i, x);
        assert(self@ =~= old(self)@.update(i as int, x@));
    }
}

impl<T: Dup> Dup for List<T> {
    fn dup(&self) -> (r: Self) {
        let mut r: List<T> = List::new();
        let mut i: usize = 0;
        while i < self.items.len()
            invariant
                i <= self.items@.len(),
                r@ == self@.take(i as int),
            decreases self.items@.len() - i,
        {
            r.push(self.items[i].dup());
            assert(self@.take(i + 1) =~= self@.take(i as int).push(self@[i as int]));
            i = i + 1;
        }
        assert(self@.take(i as int) =~= self@);
        r
    }
}

} // verus!
