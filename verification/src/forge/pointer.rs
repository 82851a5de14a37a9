//! Smart pointers over shared values.

use vstd::prelude::*;
use std::rc::Rc;
use std::sync::Arc;
use crate::forge::memory::{arc_clone, arc_strong_count, arc_try_unwrap, rc_clone, rc_strong_count};

verus! {

/// A reference-counted pointer.
pub struct AFNSSmartPointer<T> {
    inner: Rc<T>,
}

impl<T> AFNSSmartPointer<T> {
    /// The value pointed to.
    pub closed spec fn value(&self) -> T {
        *self.inner
    }

    /// A pointer to a new value
    pub fn new(value: T) -> (p: Self)
        ensures
            p.value() == value,
    {
        AFNSSmartPointer { inner: Rc::new(value) }
    }

    /// How many pointers share the value
    pub fn strong_count(&self) -> (n: usize)
        ensures
            n >= 1,
    {
        rc_strong_count(&self.inner)
    }

    /// The value
    pub fn as_ref(&self) -> (r: &T)
        ensures
            *r == self.value(),
    {
        &*self.inner
    }

    /// The value when this is the only pointer to it, else the pointer
    pub fn try_unwrap(self) -> (r: Result<T, Self>)
        ensures
            match r {
                Ok(t) => t == self.value(),
                Err(p) => p.value() == self.value(),
            },
    {
        match Rc::try_unwrap(self.inner) {
            Ok(t) => Ok(t),
            Err(inner) => Err(AFNSSmartPointer { inner }),
        }
    }
}

impl<T> Clone for AFNSSmartPointer<T> {
    fn clone(&self) -> (c: Self)
        ensures
            c.value() == self.value(),
    {
        AFNSSmartPointer { inner: rc_clone(&self.inner) }
    }
}

/// An atomically reference-counted pointer, shareable across threads.
pub struct AFNSAtomicSmartPointer<T> {
    inner: Arc<T>,
}

impl<T> AFNSAtomicSmartPointer<T> {
    /// The value pointed to.
    pub closed spec fn value(&self) -> T {
        *self.inner
    }

    /// A pointer to a new value
    pub fn new(value: T) -> (p: Self)
        ensures
            p.value() == value,
    {
        AFNSAtomicSmartPointer { inner: Arc::new(value) }
    }

    /// How many pointers share the value
    pub fn strong_count(&self) -> (n: usize)
        ensures
            n >= 1,
    {
        arc_strong_count(&self.inner)
    }

    /// The value
    pub fn as_ref(&self) -> (r: &T)
        ensures
            *r == self.value(),
    {
        &*self.inner
    }

    /// The value when this is the only pointer to it, else the pointer
    pub fn try_unwrap(self) -> (r: Result<T, Self>)
        ensures
            match r {
                Ok(t) => t == self.value(),
                Err(p) => p.value() == self.value(),
            },
    {
        match arc_try_unwrap(self.inner) {
            Ok(t) => Ok(t),
            Err(inner) => Err(AFNSAtomicSmartPointer { inner }),
        }
    }
}

impl<T> Clone for AFNSAtomicSmartPointer<T> {
    fn clone(&self) -> (c: Self)
        ensures
            c.value() == self.value(),
    {
        AFNSAtomicSmartPointer { inner: arc_clone(&self.inner) }
    }
}

} // verus!
