//! The tables behind ApexLang's `signal`, `structs` and smart-pointer
//! builtins: signal counters by name, values behind integer handles, and
//! the tuple operations.

use vstd::prelude::*;
use std::collections::HashMap;
use crate::apexlang::error::ApexError;
use crate::forge::registry::{key_index, keys_unique, lemma_key_index, Registry};

verus! {

/// The count of a signal: its entry's count, 0 when it has none.
pub open spec fn signal_count_in(s: Seq<(String, u64)>, k: Seq<char>) -> u64 {
    if key_index(s, k) >= 0 {
        s[key_index(s, k)].1
    } else {
        0
    }
}

/// Signal counters by name, in the order the signals were first seen.
pub struct SignalTable {
    entries: Registry<u64>,
}

impl View for SignalTable {
    type V = Seq<(String, u64)>;

    closed spec fn view(&self) -> Seq<(String, u64)> {
        self.entries@
    }
}

impl SignalTable {
    /// An empty table
    pub fn new() -> (t: Self)
        ensures
            t@ == Seq::<(String, u64)>::empty(),
    {
        SignalTable { entries: Registry::new() }
    }

    /// Replaces the count at position `i`
    fn set_count(&mut self, i: usize, count: u64)
        requires
            i < old(self)@.len(),
        ensures
            final(self)@ == old(self)@.update(i as int, (old(self)@[i as int].0, count)),
    {
        let (name, _) = self.entries.take(i);
        self.entries.put(i, (name, count));
        proof {
            assert(self@ =~= old(self)@.update(i as int, (old(self)@[i as int].0, count)));
        }
    }

    /// Registers a signal with count 0: true when it is new; a known
    /// signal's count goes back to 0
    pub fn register(&mut self, name: String) -> (b: bool)
        ensures
            key_index(old(self)@, name@) < 0 ==> b && final(self)@ == old(self)@.push((name, 0u64)),
            key_index(old(self)@, name@) >= 0 ==> !b && final(self)@ == old(self)@.update(
                key_index(old(self)@, name@),
                (old(self)@[key_index(old(self)@, name@)].0, 0u64),
            ),
    {
        match self.entries.find(name.as_str()) {
            Some(i) => {
                self.set_count(i, 0);
                false
            },
            None => {
                self.entries.push(name, 0);
                true
            },
        }
    }

    /// Counts one emission of a signal, registering it when it is new; its
    /// new count. A count at the largest `u64` is outside what this
    /// accepts.
    pub fn emit(&mut self, name: String) -> (c: u64)
        requires
            signal_count_in(old(self)@, name@) < u64::MAX,
        ensures
            c == signal_count_in(old(self)@, name@) + 1,
            key_index(old(self)@, name@) < 0 ==> final(self)@ == old(self)@.push((name, 1u64)),
            key_index(old(self)@, name@) >= 0 ==> final(self)@ == old(self)@.update(
                key_index(old(self)@, name@),
                (old(self)@[key_index(old(self)@, name@)].0, c),
            ),
    {
        match self.entries.find(name.as_str()) {
            Some(i) => {
                let c = *self.entries.at(i) + 1;
                self.set_count(i, c);
                c
            },
            None => {
                self.entries.push(name, 1);
                1
            },
        }
    }

    /// The count of a signal, 0 when it is unknown
    pub fn count(&self, name: &str) -> (c: u64)
        ensures
            c == signal_count_in(self@, name@),
    {
        match self.entries.find(name) {
            Some(i) => *self.entries.at(i),
            None => 0,
        }
    }

    /// The number of signals known
    pub fn tracked_signals(&self) -> (n: usize)
        ensures
            n == self@.len(),
    {
        self.entries.len()
    }

    /// Sets a known signal's count back to 0: whether it was known
    pub fn reset(&mut self, name: &str) -> (b: bool)
        ensures
            b == (key_index(old(self)@, name@) >= 0),
            key_index(old(self)@, name@) < 0 ==> final(self)@ == old(self)@,
            key_index(old(self)@, name@) >= 0 ==> final(self)@ == old(self)@.update(
                key_index(old(self)@, name@),
                (old(self)@[key_index(old(self)@, name@)].0, 0u64),
            ),
    {
        match self.entries.find(name) {
            Some(i) => {
                self.set_count(i, 0);
                true
            },
            None => false,
        }
    }
}

/// Values behind integer handles, handed out in increasing order.
pub struct SmartPointerTable<T> {
    next_handle: u64,
    values: HashMap<u64, T>,
}

impl<T> View for SmartPointerTable<T> {
    type V = (u64, Map<u64, T>);

    closed spec fn view(&self) -> (u64, Map<u64, T>) {
        (self.next_handle, self.values@)
    }
}

impl<T> SmartPointerTable<T> {
    /// An empty table whose first handle is 0
    pub fn new() -> (t: Self)
        ensures
            t@ == (0u64, Map::<u64, T>::empty()),
    {
        let t = SmartPointerTable { next_handle: 0, values: HashMap::new() };
        assert(t.values@ =~= Map::<u64, T>::empty());
        t
    }

    /// Stores a value behind the next handle; the handle
    pub fn insert(&mut self, value: T) -> (h: u64)
        requires
            old(self)@.0 < u64::MAX,
        ensures
            h == old(self)@.0,
            final(self)@ == ((h + 1) as u64, old(self)@.1.insert(h, value)),
    {
        let handle = self.next_handle;
        self.next_handle = self.next_handle + 1;
        self.values.insert(handle, value);
        handle
    }

    /// The value behind a handle; an error for an unknown one
    pub fn get(&self, handle: u64) -> (r: Result<&T, ApexError>)
        ensures
            self@.1.contains_key(handle) ==> (r matches Ok(v) && *v == self@.1[handle]),
            !self@.1.contains_key(handle) ==> (r matches Err(e) && e@ == "Unknown smart pointer handle"@),
    {
        match self.values.get(&handle) {
            Some(v) => Ok(v),
            None => Err(ApexError::new(String::from_str("Unknown smart pointer handle"))),
        }
    }

    /// Replaces the value behind a known handle; an error for an unknown
    /// one, which leaves the table as it was
    pub fn set(&mut self, handle: u64, value: T) -> (r: Result<(), ApexError>)
        ensures
            old(self)@.1.contains_key(handle) ==> r is Ok && final(self)@ == (old(self)@.0, old(self)@.1.insert(
                handle,
                value,
            )),
            !old(self)@.1.contains_key(handle) ==> (r matches Err(e) && e@ == "Unknown smart pointer handle"@)
                && final(self)@ == old(self)@,
    {
        if self.values.contains_key(&handle) {
            self.values.insert(handle, value);
            Ok(())
        } else {
            Err(ApexError::new(String::from_str("Unknown smart pointer handle")))
        }
    }
}

/// A tuple with the item at `index` replaced; an error past its end
pub fn copy_replace<T>(tuple: Vec<T>, index: usize, replacement: T) -> (r: Result<Vec<T>, ApexError>)
    ensures
        index < tuple@.len() ==> (r matches Ok(t) && t@ == tuple@.update(index as int, replacement)),
        index >= tuple@.len() ==> (r matches Err(e) && e@ == "structs.copy_replace index out of bounds"@),
{
    if index >= tuple.len() {
        return Err(ApexError::new(String::from_str("structs.copy_replace index out of bounds")));
    }
    let mut t = tuple;
    t.set(index, replacement);
    Ok(t)
}

/// Two tuples one after the other
pub fn tuple_concat<T>(left: Vec<T>, right: Vec<T>) -> (r: Vec<T>)
    ensures
        r@ == left@ + right@,
{
    let mut l = left;
    let mut r = right;
    l.append(&mut r);
    l
}

/// A tuple with values added at its end; an error when there are none
pub fn copy_append<T>(tuple: Vec<T>, values: Vec<T>) -> (r: Result<Vec<T>, ApexError>)
    ensures
        values@.len() == 0 ==> (r matches Err(e) && e@
            == "structs.copy_append expects a tuple and at least one value to append"@),
        values@.len() > 0 ==> (r matches Ok(t) && t@ == tuple@ + values@),
{
    if values.len() == 0 {
        return Err(ApexError::new(String::from_str("structs.copy_append expects a tuple and at least one value to append")));
    }
    Ok(tuple_concat(tuple, values))
}

/// The item at `index` of a tuple; an error past its end
pub fn tuple_get<T>(tuple: &Vec<T>, index: usize) -> (r: Result<&T, ApexError>)
    ensures
        index < tuple@.len() ==> (r matches Ok(v) && *v == tuple@[index as int]),
        index >= tuple@.len() ==> (r matches Err(e) && e@ == "tuple index out of bounds"@),
{
    if index < tuple.len() {
        Ok(&tuple[index])
    } else {
        Err(ApexError::new(String::from_str("tuple index out of bounds")))
    }
}

} // verus!
