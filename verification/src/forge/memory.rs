//! Memory management: a pool of reusable slots and reference-counted
//! pointers.

use vstd::prelude::*;
use std::rc::Rc;
use std::sync::Arc;

verus! {

/// std's `Vec::capacity`: how many items the vector holds without
/// reallocating. The allocator decides it; only that it is at least the
/// length is stated.
#[verifier::external_body]
fn pool_capacity<T>(v: &Vec<T>) -> (c: usize)
    ensures
        c >= v@.len(),
{
    v.capacity()
}

/// std's `Vec::with_capacity`: an empty vector; the capacity it gets is the
/// allocator's and is not stated.
#[verifier::external_body]
fn pool_with_capacity<T>(capacity: usize) -> (v: Vec<T>)
    ensures
        v@ == Seq::<T>::empty(),
{
    Vec::with_capacity(capacity)
}

/// std's `Rc::strong_count`: how many `Rc` pointers share the value. It
/// depends on the other pointers alive; at least this one is.
#[verifier::external_body]
pub(crate) fn rc_strong_count<T>(r: &Rc<T>) -> (n: usize)
    ensures
        n >= 1,
{
    Rc::strong_count(r)
}

/// std's `Rc::clone`: another pointer to the same value.
#[verifier::external_body]
pub(crate) fn rc_clone<T>(r: &Rc<T>) -> (c: Rc<T>)
    ensures
        *c == **r,
{
    Rc::clone(r)
}

/// std's `Arc::strong_count`: how many `Arc` pointers share the value. It
/// depends on the other pointers alive, in any thread; at least this one is.
#[verifier::external_body]
pub(crate) fn arc_strong_count<T>(r: &Arc<T>) -> (n: usize)
    ensures
        n >= 1,
{
    Arc::strong_count(r)
}

/// std's `Arc::clone`: another pointer to the same value.
#[verifier::external_body]
pub(crate) fn arc_clone<T>(r: &Arc<T>) -> (c: Arc<T>)
    ensures
        *c == **r,
{
    Arc::clone(r)
}

/// std's `Arc::try_unwrap`: the value when this is the only pointer to it,
/// else the pointer back. Which one comes back depends on the other
/// pointers alive; either way it holds the same value.
#[verifier::external_body]
pub(crate) fn arc_try_unwrap<T>(r: Arc<T>) -> (res: Result<T, Arc<T>>)
    ensures
        match res {
            Ok(t) => t == *r,
            Err(e) => *e == *r,
        },
{
    Arc::try_unwrap(r)
}

/// A pool of slots: items live at indexes, and freed indexes are handed
/// out again, the last freed first.
pub struct AFNSMemoryPool<T> {
    pool: Vec<T>,
    available: Vec<usize>,
    next_id: usize,
}

impl<T> AFNSMemoryPool<T> {
    /// The items by slot.
    pub closed spec fn slots(&self) -> Seq<T> {
        self.pool@
    }

    /// The freed slots, the next to be reused last.
    pub closed spec fn free(&self) -> Seq<usize> {
        self.available@
    }

    /// Every freed slot is a slot of the pool.
    pub open spec fn wf(&self) -> bool {
        forall|i: int| 0 <= i < self.free().len() ==> #[trigger] self.free()[i] < self.slots().len()
    }

    /// An empty pool, with room reserved for `capacity` items
    pub fn new(capacity: usize) -> (p: Self)
        ensures
            p.wf(),
            p.slots() == Seq::<T>::empty(),
            p.free() == Seq::<usize>::empty(),
    {
        AFNSMemoryPool { pool: pool_with_capacity(capacity), available: Vec::new(), next_id: 0 }
    }

    /// Puts an item in a slot: the last freed one if any, else a new one
    /// while the pool holds fewer than `cap` items; its index, or the error of
    /// a full pool, which is then left as it was
    pub fn allocate_within(&mut self, item: T, cap: usize) -> (r: Result<usize, String>)
        requires
            old(self).wf(),
        ensures
            final(self).wf(),
            old(self).free().len() > 0 ==> {
                let i = old(self).free().last();
                &&& r == Ok::<usize, String>(i)
                &&& final(self).slots() == old(self).slots().update(i as int, item)
                &&& final(self).free() == old(self).free().drop_last()
            },
            old(self).free().len() == 0 && old(self).slots().len() < cap ==> {
                &&& r == Ok::<usize, String>(old(self).slots().len() as usize)
                &&& final(self).slots() == old(self).slots().push(item)
                &&& final(self).free() == old(self).free()
            },
            old(self).free().len() == 0 && old(self).slots().len() >= cap ==> {
                &&& r matches Err(e) && e@ == "Memory pool is full"@
                &&& final(self).slots() == old(self).slots()
                &&& final(self).free() == old(self).free()
            },
    {
        match self.available.pop() {
            Some(index) => {
                self.pool.set(index, item);
                Ok(index)
            },
            None => {
                if self.pool.len() < cap {
                    let index = self.pool.len();
                    self.pool.push(item);
                    proof {
                        assert forall|i: int| 0 <= i < self.free().len() implies #[trigger] self.free()[i] < self.slots().len() by {
                            assert(self.free()[i] == old(self).free()[i]);
                        }
                    }
                    Ok(index)
                } else {
                    Err(String::from_str("Memory pool is full"))
                }
            },
        }
    }

    /// Puts an item in a slot: the last freed one if any, else a new one
    /// while the room the pool's storage holds without growing lasts (that
    /// room is the allocator's); its index, or the error of a full pool
    pub fn allocate(&mut self, item: T) -> (r: Result<usize, String>)
        requires
            old(self).wf(),
        ensures
            final(self).wf(),
            old(self).free().len() > 0 ==> {
                let i = old(self).free().last();
                &&& r == Ok::<usize, String>(i)
                &&& final(self).slots() == old(self).slots().update(i as int, item)
                &&& final(self).free() == old(self).free().drop_last()
            },
            old(self).free().len() == 0 ==> match r {
                Ok(i) => i == old(self).slots().len() && final(self).slots() == old(self).slots().push(item)
                    && final(self).free() == old(self).free(),
                Err(e) => e@ == "Memory pool is full"@ && final(self).slots() == old(self).slots()
                    && final(self).free() == old(self).free(),
            },
    {
        let cap = pool_capacity(&self.pool);
        self.allocate_within(item, cap)
    }

    /// Frees a slot for reuse; the error of an index beyond the pool
    pub fn deallocate(&mut self, index: usize) -> (r: Result<(), String>)
        requires
            old(self).wf(),
        ensures
            final(self).wf(),
            final(self).slots() == old(self).slots(),
            index < old(self).slots().len() ==> r is Ok && final(self).free() == old(self).free().push(index),
            index >= old(self).slots().len() ==> (r matches Err(e) && e@ == "Invalid index"@)
                && final(self).free() == old(self).free(),
    {
        if index < self.pool.len() {
            self.available.push(index);
            proof {
                assert forall|i: int| 0 <= i < self.free().len() implies #[trigger] self.free()[i] < self.slots().len() by {
                    if i < old(self).free().len() {
                        assert(self.free()[i] == old(self).free()[i]);
                    }
                }
            }
            Ok(())
        } else {
            Err(String::from_str("Invalid index"))
        }
    }

    /// The item in a slot
    pub fn get(&self, index: usize) -> (r: Option<&T>)
        ensures
            index < self.slots().len() ==> r == Some(&self.slots()[index as int]),
            index >= self.slots().len() ==> r is None,
    {
        if index < self.pool.len() {
            Some(&self.pool[index])
        } else {
            None
        }
    }

    /// A mutable reference to the item in a slot; what is written through
    /// it becomes that slot's item
    pub fn get_mut(&mut self, index: usize) -> (r: Option<&mut T>)
        ensures
            final(self).free() == old(self).free(),
            index < old(self).slots().len() ==> (r matches Some(x) && *x == old(self).slots()[index as int]
                && final(self).slots() == old(self).slots().update(index as int, *final(x))),
            index >= old(self).slots().len() ==> r is None && final(self).slots() == old(self).slots(),
    {
        if index < self.pool.len() {
            Some(&mut self.pool[index])
        } else {
            None
        }
    }

    /// The number of slots
    pub fn size(&self) -> (n: usize)
        ensures
            n == self.slots().len(),
    {
        self.pool.len()
    }

    /// The number of freed slots waiting for reuse
    pub fn available_count(&self) -> (n: usize)
        ensures
            n == self.free().len(),
    {
        self.available.len()
    }

    /// How many items the pool holds before it is full: the room the
    /// allocator gave, at least the number of slots
    pub fn capacity(&self) -> (n: usize)
        ensures
            n >= self.slots().len(),
    {
        pool_capacity(&self.pool)
    }
}

/// A reference-counted pointer.
pub struct AFNSRc<T> {
    inner: Box<Rc<T>>,
}

impl<T> AFNSRc<T> {
    /// The value pointed to.
    pub closed spec fn value(&self) -> T {
        **self.inner
    }

    /// A pointer to a new value
    pub fn new(value: T) -> (p: Self)
        ensures
            p.value() == value,
    {
        AFNSRc { inner: Box::new(Rc::new(value)) }
    }

    /// How many pointers share the value
    pub fn strong_count(&self) -> (n: usize)
        ensures
            n >= 1,
    {
        rc_strong_count(&self.inner)
    }

    /// The value
    pub fn as_ref(&self) -> (r: &T)
        ensures
            *r == self.value(),
    {
        &**self.inner
    }

    /// The value when this is the only pointer to it, else the pointer
    pub fn try_unwrap(self) -> (r: Result<T, Self>)
        ensures
            match r {
                Ok(t) => t == self.value(),
                Err(p) => p.value() == self.value(),
            },
    {
        match Rc::try_unwrap(*self.inner) {
            Ok(t) => Ok(t),
            Err(inner) => Err(AFNSRc { inner: Box::new(inner) }),
        }
    }
}

impl<T> Clone for AFNSRc<T> {
    fn clone(&self) -> (c: Self)
        ensures
            c.value() == self.value(),
    {
        AFNSRc { inner: Box::new(rc_clone(&self.inner)) }
    }
}

/// An atomically reference-counted pointer.
pub struct AFNSArc<T> {
    inner: Box<Arc<T>>,
}

impl<T> AFNSArc<T> {
    /// The value pointed to.
    pub closed spec fn value(&self) -> T {
        **self.inner
    }

    /// A pointer to a new value
    pub fn new(value: T) -> (p: Self)
        ensures
            p.value() == value,
    {
        AFNSArc { inner: Box::new(Arc::new(value)) }
    }

    /// How many pointers share the value
    pub fn strong_count(&self) -> (n: usize)
        ensures
            n >= 1,
    {
        arc_strong_count(&self.inner)
    }

    /// The value
    pub fn as_ref(&self) -> (r: &T)
        ensures
            *r == self.value(),
    {
        &**self.inner
    }

    /// The value when this is the only pointer to it, else the pointer
    pub fn try_unwrap(self) -> (r: Result<T, Self>)
        ensures
            match r {
                Ok(t) => t == self.value(),
                Err(p) => p.value() == self.value(),
            },
    {
        match arc_try_unwrap(*self.inner) {
            Ok(t) => Ok(t),
            Err(inner) => Err(AFNSArc { inner: Box::new(inner) }),
        }
    }
}

impl<T> Clone for AFNSArc<T> {
    fn clone(&self) -> (c: Self)
        ensures
            c.value() == self.value(),
    {
        AFNSArc { inner: Box::new(arc_clone(&self.inner)) }
    }
}

} // verus!
