//! Collections of the AFNS standard library: a growable array, a hash map,
//! a hash set, a FIFO queue, a LIFO stack, a doubly ended list and a ring
//! buffer of fixed capacity.

use std::collections::{HashMap, HashSet, VecDeque};
use vstd::prelude::*;
use vstd::std_specs::cmp::PartialEqSpec;
use vstd::std_specs::hash::obeys_key_model;
use crate::forge::ordering::{ascending, belongs_at, found_at, total_order, vec_binary_search, vec_sort};
use crate::text::{decimal, usize_to_string};

verus! {

broadcast use vstd::std_specs::hash::group_hash_axioms;

/// The capacity of a vector (std's `Vec::capacity`), which is never below
/// its length.
#[verifier::external_body]
fn vec_capacity<T>(v: &Vec<T>) -> (c: usize)
    ensures
        c >= v.len(),
{
    v.capacity()
}

/// Shrinks a vector's allocation (std's `Vec::shrink_to_fit`); the elements
/// stay as they are.
#[verifier::external_body]
fn vec_shrink_to_fit<T>(v: &mut Vec<T>)
    ensures
        final(v)@ == old(v)@,
{
    v.shrink_to_fit()
}

/// The capacity of a ring-ordered deque (std's `VecDeque::capacity`),
/// never below its length.
#[verifier::external_body]
fn deque_capacity<T>(v: &VecDeque<T>) -> (c: usize)
    ensures
        c >= v@.len(),
{
    v.capacity()
}

/// A mutable reference to the front element of a deque (std's
/// `VecDeque::front_mut`): None when it is empty; otherwise the first
/// element, and what is written through it becomes the first element.
#[verifier::external_body]
fn deque_front_mut<'a, T>(d: &'a mut VecDeque<T>) -> (r: Option<&'a mut T>)
    ensures
        old(d)@.len() == 0 ==> r is None && final(d)@ == old(d)@,
        old(d)@.len() > 0 ==> r is Some && *r.unwrap() == old(d)@[0] && final(d)@ == old(d)@.update(
            0,
            *final(r.unwrap()),
        ),
{
    d.front_mut()
}

/// A mutable reference to the back element of a deque (std's
/// `VecDeque::back_mut`): None when it is empty; otherwise the last
/// element, and what is written through it becomes the last element.
#[verifier::external_body]
fn deque_back_mut<'a, T>(d: &'a mut VecDeque<T>) -> (r: Option<&'a mut T>)
    ensures
        old(d)@.len() == 0 ==> r is None && final(d)@ == old(d)@,
        old(d)@.len() > 0 ==> r is Some && *r.unwrap() == old(d)@.last() && final(d)@ == old(d)@.update(
            old(d)@.len() - 1,
            *final(r.unwrap()),
        ),
{
    d.back_mut()
}

/// Whether `r` refers, in order, to the elements of `s`.
pub open spec fn refers_to<T>(r: Seq<&T>, s: Seq<T>) -> bool {
    r.len() == s.len() && forall|i: int| 0 <= i < s.len() ==> *#[trigger] r[i] == s[i]
}

/// References to the elements of a vector, in order.
pub fn refs_of<T>(v: &Vec<T>) -> (r: Vec<&T>)
    ensures
        refers_to(r@, v@),
{
    let mut r: Vec<&T> = Vec::new();
    let mut i: usize = 0;
    while i < v.len()
        invariant
            i <= v@.len(),
            r@.len() == i,
            forall|j: int| 0 <= j < i ==> *#[trigger] r@[j] == v@[j],
        decreases v@.len() - i,
    {
        r.push(&v[i]);
        i = i + 1;
    }
    r
}

/// References to the elements of a deque, front first.
fn deque_refs<T>(d: &VecDeque<T>) -> (r: Vec<&T>)
    ensures
        refers_to(r@, d@),
{
    let mut r: Vec<&T> = Vec::new();
    let mut i: usize = 0;
    while i < d.len()
        invariant
            i <= d@.len(),
            r@.len() == i,
            forall|j: int| 0 <= j < i ==> *#[trigger] r@[j] == d@[j],
        decreases d@.len() - i,
    {
        r.push(&d[i]);
        i = i + 1;
    }
    r
}

/// Shrinks a deque's allocation (std's `VecDeque::shrink_to_fit`); the
/// elements stay as they are.
#[verifier::external_body]
fn deque_shrink_to_fit<T>(v: &mut VecDeque<T>)
    ensures
        final(v)@ == old(v)@,
{
    v.shrink_to_fit()
}

/// The message of an index that lies outside an array.
pub open spec fn out_of_bounds_message(index: nat, len: nat) -> Seq<char> {
    "Index "@ + decimal(index) + " out of bounds for array of length "@ + decimal(len)
}

fn out_of_bounds(index: usize, len: usize) -> (s: String)
    ensures
        s@ == out_of_bounds_message(index as nat, len as nat),
{
    let mut s = String::from_str("Index ");
    s.append(usize_to_string(index).as_str());
    s.append(" out of bounds for array of length ");
    s.append(usize_to_string(len).as_str());
    s
}

/// Whether `x` equals some element of `s`, by the element type's `==`.
pub open spec fn seq_has<T: PartialEq>(s: Seq<T>, x: &T) -> bool {
    exists|i: int| 0 <= i < s.len() && (#[trigger] s[i]).eq_spec(x)
}

/// Dynamic array with type safety
pub struct AFNSArray<T> {
    data: Vec<T>,
}

impl<T> View for AFNSArray<T> {
    type V = Seq<T>;

    closed spec fn view(&self) -> Seq<T> {
        self.data@
    }
}

impl<T> AFNSArray<T> {
    /// Create a new empty array
    pub fn new() -> (a: Self)
        ensures
            a@ == Seq::<T>::empty(),
    {
        Self { data: Vec::new() }
    }

    /// Create a new array with specified capacity
    pub fn with_capacity(capacity: usize) -> (a: Self)
        ensures
            a@ == Seq::<T>::empty(),
    {
        Self { data: Vec::with_capacity(capacity) }
    }

    /// Create a new array with initial values
    pub fn from_vec(data: Vec<T>) -> (a: Self)
        ensures
            a@ == data@,
    {
        Self { data }
    }

    /// Get the length of the array
    pub fn len(&self) -> (n: usize)
        ensures
            n == self@.len(),
    {
        self.data.len()
    }

    /// Check if the array is empty
    pub fn is_empty(&self) -> (b: bool)
        ensures
            b == (self@.len() == 0),
    {
        self.data.len() == 0
    }

    /// Get the capacity of the array
    pub fn capacity(&self) -> (c: usize)
        ensures
            c >= self@.len(),
    {
        vec_capacity(&self.data)
    }

    /// Reserve additional capacity
    pub fn reserve(&mut self, additional: usize)
        ensures
            final(self)@ == old(self)@,
    {
        self.data.reserve(additional);
    }

    /// Shrink the capacity to fit the current length
    pub fn shrink_to_fit(&mut self)
        ensures
            final(self)@ == old(self)@,
    {
        vec_shrink_to_fit(&mut self.data);
    }

    /// Push an element to the end
    pub fn push(&mut self, value: T)
        ensures
            final(self)@ == old(self)@.push(value),
    {
        self.data.push(value);
    }

    /// Pop an element from the end
    pub fn pop(&mut self) -> (r: Option<T>)
        ensures
            old(self)@.len() == 0 ==> r is None && final(self)@ == old(self)@,
            old(self)@.len() > 0 ==> r == Some(old(self)@.last()) && final(self)@
                == old(self)@.drop_last(),
    {
        self.data.pop()
    }

    /// Insert an element at the specified index
    pub fn insert(&mut self, index: usize, value: T) -> (r: Result<(), String>)
        ensures
            index <= old(self)@.len() ==> r is Ok && final(self)@ == old(self)@.insert(
                index as int,
                value,
            ),
            index > old(self)@.len() ==> final(self)@ == old(self)@ && (r matches Err(e)
                && e@ == out_of_bounds_message(index as nat, old(self)@.len())),
    {
        if index > self.data.len() {
            return Err(out_of_bounds(index, self.data.len()));
        }
        self.data.insert(index, value);
        Ok(())
    }

    /// Remove an element at the specified index
    pub fn remove(&mut self, index: usize) -> (r: Result<T, String>)
        ensures
            index < old(self)@.len() ==> r == Ok::<T, String>(old(self)@[index as int])
                && final(self)@ == old(self)@.remove(index as int),
            index >= old(self)@.len() ==> final(self)@ == old(self)@ && (r matches Err(e)
                && e@ == out_of_bounds_message(index as nat, old(self)@.len())),
    {
        if index >= self.data.len() {
            return Err(out_of_bounds(index, self.data.len()));
        }
        Ok(self.data.remove(index))
    }

    /// Get an element at the specified index
    pub fn get(&self, index: usize) -> (r: Option<&T>)
        ensures
            index < self@.len() ==> r == Some(&self@[index as int]),
            index >= self@.len() ==> r is None,
    {
        if index < self.data.len() {
            Some(&self.data[index])
        } else {
            None
        }
    }

    /// A mutable reference to the element at `index`, if there is one;
    /// what is written through it lands at that index
    pub fn get_mut(&mut self, index: usize) -> (r: Option<&mut T>)
        ensures
            index < old(self)@.len() ==> (r matches Some(x) && *x == old(self)@[index as int]
                && final(self)@ == old(self)@.update(index as int, *final(x))),
            index >= old(self)@.len() ==> r is None && final(self)@ == old(self)@,
    {
        if index < self.data.len() {
            Some(&mut self.data[index])
        } else {
            None
        }
    }

    /// Get the first element
    pub fn first(&self) -> (r: Option<&T>)
        ensures
            self@.len() > 0 ==> r == Some(&self@[0]),
            self@.len() == 0 ==> r is None,
    {
        self.get(0)
    }

    /// Get the last element
    pub fn last(&self) -> (r: Option<&T>)
        ensures
            self@.len() > 0 ==> r == Some(&self@.last()),
            self@.len() == 0 ==> r is None,
    {
        if self.data.len() == 0 {
            None
        } else {
            Some(&self.data[self.data.len() - 1])
        }
    }

    /// Clear all elements
    pub fn clear(&mut self)
        ensures
            final(self)@ == Seq::<T>::empty(),
    {
        self.data.clear();
    }

    /// Sort the array in place, in ascending order by `Ord` (for an `Ord`
    /// that is a total order)
    pub fn sort(&mut self)
        where
            T: Ord,
        requires
            total_order::<T>(),
        ensures
            final(self)@.to_multiset() == old(self)@.to_multiset(),
            ascending(final(self)@),
    {
        vec_sort(&mut self.data);
    }

    /// Binary search for an element of an array in ascending order: the
    /// index of an equal element, or the index where it belongs
    pub fn binary_search(&self, x: &T) -> (r: Result<usize, usize>)
        where
            T: Ord,
        ensures
            total_order::<T>() && ascending(self@) ==> match r {
                Ok(i) => found_at(self@, *x, i),
                Err(i) => belongs_at(self@, *x, i),
            },
    {
        vec_binary_search(&self.data, x)
    }

    /// Reverse the array in place
    pub fn reverse(&mut self)
        ensures
            final(self)@ == old(self)@.reverse(),
    {
        let ghost orig = self.data@;
        let mut out: Vec<T> = Vec::new();
        while self.data.len() > 0
            invariant
                self.data@ + out@.reverse() == orig,
            decreases self.data.len(),
        {
            let ghost before = self.data@;
            let x = self.data.pop().unwrap();
            proof {
                assert(out@.push(x).reverse() =~= seq![x] + out@.reverse());
                assert(before =~= self.data@ + seq![x]);
                assert(self.data@ + out@.push(x).reverse() =~= before + out@.reverse());
            }
            out.push(x);
        }
        assert(out@.reverse() =~= orig);
        assert(out@ =~= orig.reverse()) by {
            assert forall|i: int| 0 <= i < out@.len() implies out@[i] == orig.reverse()[i] by {
                assert(out@.reverse()[out@.len() - 1 - i] == out@[i]);
            }
        }
        self.data = out;
    }

    /// Check if the array contains an element
    pub fn contains(&self, x: &T) -> (b: bool)
        where
            T: PartialEq,
        ensures
            T::obeys_eq_spec() ==> b == seq_has(self@, x),
    {
        match self.position(x) {
            Some(_) => true,
            None => false,
        }
    }

    /// Find the index of an element
    pub fn position(&self, x: &T) -> (r: Option<usize>)
        where
            T: PartialEq,
        ensures
            T::obeys_eq_spec() ==> match r {
                Some(i) => i < self@.len() && self@[i as int].eq_spec(x) && forall|j: int|
                    0 <= j < i ==> !(#[trigger] self@[j]).eq_spec(x),
                None => !seq_has(self@, x),
            },
    {
        let mut i: usize = 0;
        while i < self.data.len()
            invariant
                i <= self.data@.len(),
                T::obeys_eq_spec() ==> forall|j: int|
                    0 <= j < i ==> !(#[trigger] self.data@[j]).eq_spec(x),
            decreases self.data.len() - i,
        {
            if self.data[i] == *x {
                return Some(i);
            }
            i = i + 1;
        }
        None
    }

    /// Convert to a vector
    pub fn into_vec(self) -> (v: Vec<T>)
        ensures
            v@ == self@,
    {
        self.data
    }
}


/// The capacity of a hash map (std's `HashMap::capacity`): the number of
/// entries it can hold without reallocating, so at least the entries it holds.
#[verifier::external_body]
fn map_capacity<K, V>(m: &HashMap<K, V>) -> (c: usize)
    ensures
        c >= m.len(),
{
    m.capacity()
}

/// Shrinks a hash map's allocation (std's `HashMap::shrink_to_fit`); the
/// entries stay as they are.
#[verifier::external_body]
fn map_shrink_to_fit<K: std::hash::Hash + Eq, V>(m: &mut HashMap<K, V>)
    ensures
        final(m)@ == old(m)@,
{
    m.shrink_to_fit()
}

/// The capacity of a hash set (std's `HashSet::capacity`): the number of
/// elements it can hold without reallocating, so at least the elements it
/// holds.
#[verifier::external_body]
fn set_capacity<T>(m: &HashSet<T>) -> (c: usize)
    ensures
        c >= m.len(),
{
    m.capacity()
}

/// Whether every element of one hash set is in another (std's
/// `HashSet::is_subset`).
#[verifier::external_body]
fn set_is_subset<T: std::hash::Hash + Eq>(a: &HashSet<T>, b: &HashSet<T>) -> (r: bool)
    ensures
        obeys_key_model::<T>() ==> r == a@.subset_of(b@),
{
    a.is_subset(b)
}

/// Whether two hash sets have no element in common (std's
/// `HashSet::is_disjoint`).
#[verifier::external_body]
fn set_is_disjoint<T: std::hash::Hash + Eq>(a: &HashSet<T>, b: &HashSet<T>) -> (r: bool)
    ensures
        obeys_key_model::<T>() ==> r == a@.disjoint(b@),
{
    a.is_disjoint(b)
}

/// A mutable reference to the value stored under a key (std's
/// `HashMap::get_mut`): None when the key is absent; otherwise the value,
/// and what is written through the reference is what the key then maps to.
#[verifier::external_body]
fn map_get_mut<'a, K: std::hash::Hash + Eq, V>(m: &'a mut HashMap<K, V>, key: &K) -> (r: Option<&'a mut V>)
    ensures
        obeys_key_model::<K>() && r is None ==> !old(m)@.contains_key(*key) && final(m)@ == old(m)@,
        obeys_key_model::<K>() && r is Some ==> old(m)@.contains_key(*key) && *r.unwrap() == old(m)@[*key]
            && final(m)@ == old(m)@.insert(*key, *final(r.unwrap())),
{
    m.get_mut(key)
}

/// The keys of a hash map, in its iteration order (std's `HashMap::keys`,
/// collected): each key once.
#[verifier::external_body]
fn map_keys<K, V>(m: &HashMap<K, V>) -> (v: Vec<&K>)
    ensures
        obeys_key_model::<K>() ==> v@.len() == m@.dom().len(),
        obeys_key_model::<K>() ==> (forall|i: int| 0 <= i < v@.len() ==> m@.contains_key(*#[trigger] v@[i])),
        obeys_key_model::<K>() ==> (forall|k: K| m@.contains_key(k) ==> exists|i: int| 0 <= i < v@.len() && *v@[i] == k),
{
    m.keys().collect()
}

/// Whether some key of the map has this value.
pub open spec fn is_value_of<K, V>(m: Map<K, V>, x: V) -> bool {
    exists|k: K| m.contains_key(k) && m[k] == x
}

/// The values of a hash map, in its iteration order (std's
/// `HashMap::values`, collected): the value of each key once.
#[verifier::external_body]
fn map_values<K, V>(m: &HashMap<K, V>) -> (v: Vec<&V>)
    ensures
        obeys_key_model::<K>() ==> v@.len() == m@.dom().len(),
        obeys_key_model::<K>() ==> (forall|i: int| 0 <= i < v@.len() ==> is_value_of(m@, *#[trigger] v@[i])),
        obeys_key_model::<K>() ==> (forall|k: K| m@.contains_key(k) ==> exists|i: int| 0 <= i < v@.len() && *v@[i] == m@[k]),
{
    m.values().collect()
}

/// The elements of a hash set, in its iteration order (std's
/// `HashSet::iter`, collected): each element of the set, and only those.
#[verifier::external_body]
fn set_elements<T>(s: &HashSet<T>) -> (v: Vec<&T>)
    ensures
        obeys_key_model::<T>() ==> v@.len() == s@.len(),
        obeys_key_model::<T>() ==> (forall|i: int| 0 <= i < v@.len() ==> s@.contains(*#[trigger] v@[i])),
        obeys_key_model::<T>() ==> (forall|x: T| s@.contains(x) ==> exists|i: int| 0 <= i < v@.len() && *v@[i] == x),
{
    s.iter().collect()
}

/// Whether each element of `dst` is a clone of an element of `src`, and
/// each element of `src` has a clone in `dst`.
pub open spec fn clones_of<T: Clone>(src: Set<T>, dst: Set<T>) -> bool {
    &&& forall|x: T| #[trigger] dst.contains(x) ==> exists|y: T| src.contains(y) && cloned(y, x)
    &&& forall|y: T| #[trigger] src.contains(y) ==> exists|x: T| dst.contains(x) && cloned(y, x)
}

/// Whether an element is taken: always without a filter, else when its
/// being in the filter set is `want_in`.
pub open spec fn taken<T>(filter: Option<Set<T>>, want_in: bool, y: T) -> bool {
    match filter {
        Some(f) => f.contains(y) == want_in,
        None => true,
    }
}

/// Shrinks a hash set's allocation (std's `HashSet::shrink_to_fit`); the
/// elements stay as they are.
#[verifier::external_body]
fn set_shrink_to_fit<T: std::hash::Hash + Eq>(m: &mut HashSet<T>)
    ensures
        final(m)@ == old(m)@,
{
    m.shrink_to_fit()
}

/// Key-value mapping with various key types.
///
/// Every statement about the contents holds for keys whose `Hash` and `Eq`
/// agree with equality (`obeys_key_model`), as they do for integers.
pub struct AFNSMap<K, V> {
    data: HashMap<K, V>,
}

impl<K, V> View for AFNSMap<K, V> {
    type V = Map<K, V>;

    closed spec fn view(&self) -> Map<K, V> {
        self.data@
    }
}

impl<K: std::hash::Hash + Eq, V> AFNSMap<K, V> {
    /// Create a new empty map
    pub fn new() -> (m: Self)
        ensures
            m@ == Map::<K, V>::empty(),
    {
        Self { data: HashMap::new() }
    }

    /// Create a new map with specified capacity
    pub fn with_capacity(capacity: usize) -> (m: Self)
        ensures
            m@ == Map::<K, V>::empty(),
    {
        Self { data: HashMap::with_capacity(capacity) }
    }

    /// Get the number of key-value pairs
    pub fn len(&self) -> (n: usize)
        ensures
            obeys_key_model::<K>() ==> n == self@.len(),
    {
        self.data.len()
    }

    /// Check if the map is empty
    pub fn is_empty(&self) -> (b: bool)
        ensures
            b == self@.is_empty(),
    {
        self.data.is_empty()
    }

    /// Get the capacity of the map
    pub fn capacity(&self) -> (c: usize)
        ensures
            obeys_key_model::<K>() ==> c >= self@.len(),
    {
        map_capacity(&self.data)
    }

    /// Reserve additional capacity
    pub fn reserve(&mut self, additional: usize)
        ensures
            final(self)@ == old(self)@,
    {
        self.data.reserve(additional);
    }

    /// Shrink the capacity to fit the current size
    pub fn shrink_to_fit(&mut self)
        ensures
            final(self)@ == old(self)@,
    {
        map_shrink_to_fit(&mut self.data);
    }

    /// Insert a key-value pair; the value that the key had before comes back
    pub fn insert(&mut self, key: K, value: V) -> (r: Option<V>)
        ensures
            obeys_key_model::<K>() ==> {
                &&& final(self)@ == old(self)@.insert(key, value)
                &&& match r {
                    Some(v) => old(self)@.contains_key(key) && v == old(self)@[key],
                    None => !old(self)@.contains_key(key),
                }
            },
    {
        self.data.insert(key, value)
    }

    /// Remove a key-value pair
    pub fn remove(&mut self, key: &K) -> (r: Option<V>)
        ensures
            obeys_key_model::<K>() ==> {
                &&& final(self)@ == old(self)@.remove(*key)
                &&& match r {
                    Some(v) => old(self)@.contains_key(*key) && v == old(self)@[*key],
                    None => !old(self)@.contains_key(*key),
                }
            },
    {
        self.data.remove(key)
    }

    /// Get a value by key
    pub fn get(&self, key: &K) -> (r: Option<&V>)
        ensures
            obeys_key_model::<K>() ==> match r {
                Some(v) => self@.contains_key(*key) && *v == self@[*key],
                None => !self@.contains_key(*key),
            },
    {
        self.data.get(key)
    }

    /// A mutable reference to the value of a key, if it is present; what
    /// is written through it is what the key then maps to
    pub fn get_mut(&mut self, key: &K) -> (r: Option<&mut V>)
        ensures
            obeys_key_model::<K>() && r is None ==> !old(self)@.contains_key(*key) && final(self)@ == old(self)@,
            obeys_key_model::<K>() && r is Some ==> old(self)@.contains_key(*key) && *r.unwrap() == old(self)@[*key]
                && final(self)@ == old(self)@.insert(*key, *final(r.unwrap())),
    {
        map_get_mut(&mut self.data, key)
    }

    /// The keys, each once, in no stated order (a vector in place of an
    /// iterator)
    pub fn keys(&self) -> (v: Vec<&K>)
        ensures
            obeys_key_model::<K>() ==> v@.len() == self@.dom().len(),
            obeys_key_model::<K>() ==> (forall|i: int| 0 <= i < v@.len() ==> self@.contains_key(*#[trigger] v@[i])),
            obeys_key_model::<K>() ==> (forall|k: K| self@.contains_key(k) ==> exists|i: int| 0 <= i < v@.len() && *v@[i] == k),
    {
        map_keys(&self.data)
    }

    /// The values, the value of each key once, in no stated order (a
    /// vector in place of an iterator)
    pub fn values(&self) -> (v: Vec<&V>)
        ensures
            obeys_key_model::<K>() ==> v@.len() == self@.dom().len(),
            obeys_key_model::<K>() ==> (forall|i: int| 0 <= i < v@.len() ==> is_value_of(self@, *#[trigger] v@[i])),
            obeys_key_model::<K>() ==> (forall|k: K| self@.contains_key(k) ==> exists|i: int| 0 <= i < v@.len() && *v@[i] == self@[k]),
    {
        map_values(&self.data)
    }

    /// Check if the map contains a key
    pub fn contains_key(&self, key: &K) -> (b: bool)
        ensures
            obeys_key_model::<K>() ==> b == self@.contains_key(*key),
    {
        self.data.contains_key(key)
    }

    /// Clear all key-value pairs
    pub fn clear(&mut self)
        ensures
            final(self)@ == Map::<K, V>::empty(),
    {
        self.data.clear();
    }
}

/// Unordered collection of unique elements.
///
/// Every statement about the contents holds for elements whose `Hash` and
/// `Eq` agree with equality (`obeys_key_model`), as they do for integers.
pub struct AFNSSet<T> {
    data: HashSet<T>,
}

impl<T> View for AFNSSet<T> {
    type V = Set<T>;

    closed spec fn view(&self) -> Set<T> {
        self.data@
    }
}

impl<T> AFNSSet<T> {
    /// The set holds finitely many elements (for element types whose `Hash`
    /// and `Eq` agree with equality, where its contents are stated).
    #[verifier::type_invariant]
    spec fn finite_elements(&self) -> bool {
        obeys_key_model::<T>() ==> self.data@.finite()
    }
}

impl<T: std::hash::Hash + Eq + Clone> AFNSSet<T> {
    /// Create a new empty set
    pub fn new() -> (s: Self)
        ensures
            s@ == Set::<T>::empty(),
            s@.finite(),
    {
        Self { data: HashSet::new() }
    }

    /// Create a new set with specified capacity
    pub fn with_capacity(capacity: usize) -> (s: Self)
        ensures
            s@ == Set::<T>::empty(),
            s@.finite(),
    {
        Self { data: HashSet::with_capacity(capacity) }
    }

    /// Get the number of elements
    pub fn len(&self) -> (n: usize)
        ensures
            obeys_key_model::<T>() ==> n == self@.len() && self@.finite(),
    {
        proof {
            use_type_invariant(self);
        }
        self.data.len()
    }

    /// Check if the set is empty
    pub fn is_empty(&self) -> (b: bool)
        ensures
            b == (self@ == Set::<T>::empty()),
    {
        let b = self.data.is_empty();
        proof {
            if !b {
                assert(!(self.data@ =~= Set::<T>::empty()));
            }
        }
        b
    }

    /// Get the capacity of the set
    pub fn capacity(&self) -> (c: usize)
        ensures
            obeys_key_model::<T>() ==> c >= self@.len(),
    {
        set_capacity(&self.data)
    }

    /// Reserve additional capacity
    pub fn reserve(&mut self, additional: usize)
        ensures
            final(self)@ == old(self)@,
    {
        proof {
            use_type_invariant(&*self);
        }
        let mut d: HashSet<T> = HashSet::new();
        std::mem::swap(&mut d, &mut self.data);
        d.reserve(additional);
        self.data = d;
    }

    /// Shrink the capacity to fit the current size
    pub fn shrink_to_fit(&mut self)
        ensures
            final(self)@ == old(self)@,
    {
        proof {
            use_type_invariant(&*self);
        }
        let mut d: HashSet<T> = HashSet::new();
        std::mem::swap(&mut d, &mut self.data);
        set_shrink_to_fit(&mut d);
        self.data = d;
    }

    /// Insert an element; true when it was not there before, and then the
    /// set has one element more
    pub fn insert(&mut self, value: T) -> (b: bool)
        ensures
            obeys_key_model::<T>() ==> final(self)@ == old(self)@.insert(value) && b == !old(self)@.contains(
                value,
            ),
            obeys_key_model::<T>() ==> final(self)@.finite() && final(self)@.len() == old(self)@.len() + (if b {
                1int
            } else {
                0int
            }),
    {
        proof {
            use_type_invariant(&*self);
        }
        let mut d: HashSet<T> = HashSet::new();
        std::mem::swap(&mut d, &mut self.data);
        let r = d.insert(value);
        self.data = d;
        r
    }

    /// Remove an element; true when it was there, and then the set has one
    /// element fewer
    pub fn remove(&mut self, value: &T) -> (b: bool)
        ensures
            obeys_key_model::<T>() ==> final(self)@ == old(self)@.remove(*value) && b == old(self)@.contains(
                *value,
            ),
            obeys_key_model::<T>() ==> final(self)@.finite() && final(self)@.len() == old(self)@.len() - (if b {
                1int
            } else {
                0int
            }),
    {
        proof {
            use_type_invariant(&*self);
        }
        let mut d: HashSet<T> = HashSet::new();
        std::mem::swap(&mut d, &mut self.data);
        let r = d.remove(value);
        self.data = d;
        r
    }

    /// Check if the set contains an element
    pub fn contains(&self, value: &T) -> (b: bool)
        ensures
            obeys_key_model::<T>() ==> b == self@.contains(*value),
    {
        self.data.contains(value)
    }

    /// Adds a clone of each taken element of `xs` to `d`.
    fn add_clones(d: &mut HashSet<T>, xs: &Vec<&T>, filter: Option<&HashSet<T>>, want_in: bool)
        ensures
            obeys_key_model::<T>() ==> {
                let f = match filter {
                    Some(h) => Some(h@),
                    None => None,
                };
                &&& old(d)@.finite() ==> final(d)@.finite()
                &&& forall|x: T| #[trigger] old(d)@.contains(x) ==> final(d)@.contains(x)
                &&& forall|x: T| #[trigger] final(d)@.contains(x) ==> old(d)@.contains(x) || exists|k: int|
                    0 <= k < xs@.len() && taken(f, want_in, *xs@[k]) && cloned(*xs@[k], x)
                &&& forall|k: int| 0 <= k < xs@.len() && taken(f, want_in, *#[trigger] xs@[k]) ==> exists|x: T|
                    final(d)@.contains(x) && cloned(*xs@[k], x)
            },
    {
        let ghost f = match filter {
            Some(h) => Some(h@),
            None => None,
        };
        let ghost d0 = d@;
        let mut i: usize = 0;
        while i < xs.len()
            invariant
                i <= xs@.len(),
                f == (match filter {
                    Some(h) => Some(h@),
                    None => None,
                }),
                obeys_key_model::<T>() ==> {
                    &&& d0.finite() ==> d@.finite()
                    &&& forall|x: T| #[trigger] d0.contains(x) ==> d@.contains(x)
                    &&& forall|x: T| #[trigger] d@.contains(x) ==> d0.contains(x) || exists|k: int|
                        0 <= k < i && taken(f, want_in, *xs@[k]) && cloned(*xs@[k], x)
                    &&& forall|k: int| 0 <= k < i && taken(f, want_in, *#[trigger] xs@[k]) ==> exists|x: T|
                        d@.contains(x) && cloned(*xs@[k], x)
                },
            decreases xs@.len() - i,
        {
            let y: &T = xs[i];
            let take = match filter {
                Some(h) => h.contains(y) == want_in,
                None => true,
            };
            if take {
                let c = y.clone();
                let ghost before = d@;
                d.insert(c);
                proof {
                    if obeys_key_model::<T>() {
                        assert(cloned(*y, c));
                        assert(d@.contains(c));
                        assert forall|x: T| #[trigger] d@.contains(x) implies d0.contains(x) || exists|k: int|
                            0 <= k < i + 1 && taken(f, want_in, *xs@[k]) && cloned(*xs@[k], x) by {
                            if x == c {
                                assert(*xs@[i as int] == *y);
                            } else {
                                assert(before.contains(x));
                            }
                        }
                        assert forall|k: int| 0 <= k < i + 1 && taken(f, want_in, *#[trigger] xs@[k]) implies exists|x: T|
                            d@.contains(x) && cloned(*xs@[k], x) by {
                            if k == i {
                                assert(*xs@[k] == *y);
                                assert(d@.contains(c) && cloned(*xs@[k], c));
                            } else {
                                let x = choose|x: T| before.contains(x) && cloned(*xs@[k], x);
                                assert(d@.contains(x));
                            }
                        }
                    }
                }
            } else {
                proof {
                    if obeys_key_model::<T>() {
                        assert forall|k: int| 0 <= k < i + 1 && taken(f, want_in, *#[trigger] xs@[k]) implies exists|x: T|
                            d@.contains(x) && cloned(*xs@[k], x) by {
                            if k == i {
                                assert(*xs@[k] == *y);
                            }
                        }
                    }
                }
            }
            i = i + 1;
        }
    }

    /// The elements of either set (clones of them)
    pub fn union(&self, other: &AFNSSet<T>) -> (r: AFNSSet<T>)
        ensures
            obeys_key_model::<T>() ==> clones_of(self@.union(other@), r@),
    {
        proof {
            use_type_invariant(self);
            use_type_invariant(other);
        }
        let mut d: HashSet<T> = HashSet::new();
        let xs = set_elements(&self.data);
        let ys = set_elements(&other.data);
        Self::add_clones(&mut d, &xs, None, true);
        let ghost d1 = d@;
        Self::add_clones(&mut d, &ys, Some(&self.data), false);
        proof {
            if obeys_key_model::<T>() {
                let u = self@.union(other@);
                assert forall|x: T| #[trigger] d@.contains(x) implies exists|y: T| u.contains(y) && cloned(y, x) by {
                    if d1.contains(x) {
                        let k = choose|k: int| 0 <= k < xs@.len() && taken(None::<Set<T>>, true, *xs@[k]) && cloned(*xs@[k], x);
                        assert(self@.contains(*xs@[k]));
                        assert(u.contains(*xs@[k]));
                    } else {
                        let k = choose|k: int| 0 <= k < ys@.len() && taken(Some(self.data@), false, *ys@[k]) && cloned(*ys@[k], x);
                        assert(other@.contains(*ys@[k]));
                        assert(u.contains(*ys@[k]));
                    }
                }
                assert forall|y: T| #[trigger] u.contains(y) implies exists|x: T| d@.contains(x) && cloned(y, x) by {
                    if self@.contains(y) {
                        let i = choose|i: int| 0 <= i < xs@.len() && *xs@[i] == y;
                        assert(taken(None::<Set<T>>, true, *xs@[i]));
                        let x = choose|x: T| d1.contains(x) && cloned(*xs@[i], x);
                        assert(d@.contains(x));
                    } else {
                        assert(other@.contains(y));
                        let i = choose|i: int| 0 <= i < ys@.len() && *ys@[i] == y;
                        assert(taken(Some(self.data@), false, *ys@[i]));
                    }
                }
            }
        }
        AFNSSet { data: d }
    }

    /// The elements of both sets (clones of this set's)
    pub fn intersection(&self, other: &AFNSSet<T>) -> (r: AFNSSet<T>)
        ensures
            obeys_key_model::<T>() ==> clones_of(self@.intersect(other@), r@),
    {
        proof {
            use_type_invariant(self);
            use_type_invariant(other);
        }
        let mut d: HashSet<T> = HashSet::new();
        let xs = set_elements(&self.data);
        Self::add_clones(&mut d, &xs, Some(&other.data), true);
        proof {
            if obeys_key_model::<T>() {
                let u = self@.intersect(other@);
                assert forall|x: T| #[trigger] d@.contains(x) implies exists|y: T| u.contains(y) && cloned(y, x) by {
                    let k = choose|k: int| 0 <= k < xs@.len() && taken(Some(other.data@), true, *xs@[k]) && cloned(*xs@[k], x);
                    assert(self@.contains(*xs@[k]));
                    assert(u.contains(*xs@[k]));
                }
                assert forall|y: T| #[trigger] u.contains(y) implies exists|x: T| d@.contains(x) && cloned(y, x) by {
                    let i = choose|i: int| 0 <= i < xs@.len() && *xs@[i] == y;
                    assert(taken(Some(other.data@), true, *xs@[i]));
                }
            }
        }
        AFNSSet { data: d }
    }

    /// The elements of this set that are not in the other (clones of them)
    pub fn difference(&self, other: &AFNSSet<T>) -> (r: AFNSSet<T>)
        ensures
            obeys_key_model::<T>() ==> clones_of(self@.difference(other@), r@),
    {
        proof {
            use_type_invariant(self);
            use_type_invariant(other);
        }
        let mut d: HashSet<T> = HashSet::new();
        let xs = set_elements(&self.data);
        Self::add_clones(&mut d, &xs, Some(&other.data), false);
        proof {
            if obeys_key_model::<T>() {
                let u = self@.difference(other@);
                assert forall|x: T| #[trigger] d@.contains(x) implies exists|y: T| u.contains(y) && cloned(y, x) by {
                    let k = choose|k: int| 0 <= k < xs@.len() && taken(Some(other.data@), false, *xs@[k]) && cloned(*xs@[k], x);
                    assert(self@.contains(*xs@[k]));
                    assert(u.contains(*xs@[k]));
                }
                assert forall|y: T| #[trigger] u.contains(y) implies exists|x: T| d@.contains(x) && cloned(y, x) by {
                    let i = choose|i: int| 0 <= i < xs@.len() && *xs@[i] == y;
                    assert(taken(Some(other.data@), false, *xs@[i]));
                }
            }
        }
        AFNSSet { data: d }
    }

    /// The elements of exactly one of the sets (clones of them)
    pub fn symmetric_difference(&self, other: &AFNSSet<T>) -> (r: AFNSSet<T>)
        ensures
            obeys_key_model::<T>() ==> clones_of(self@.difference(other@).union(other@.difference(self@)), r@),
    {
        proof {
            use_type_invariant(self);
            use_type_invariant(other);
        }
        let mut d: HashSet<T> = HashSet::new();
        let xs = set_elements(&self.data);
        let ys = set_elements(&other.data);
        Self::add_clones(&mut d, &xs, Some(&other.data), false);
        let ghost d1 = d@;
        Self::add_clones(&mut d, &ys, Some(&self.data), false);
        proof {
            if obeys_key_model::<T>() {
                let u = self@.difference(other@).union(other@.difference(self@));
                assert forall|x: T| #[trigger] d@.contains(x) implies exists|y: T| u.contains(y) && cloned(y, x) by {
                    if d1.contains(x) {
                        let k = choose|k: int| 0 <= k < xs@.len() && taken(Some(other.data@), false, *xs@[k]) && cloned(*xs@[k], x);
                        assert(self@.contains(*xs@[k]));
                        assert(u.contains(*xs@[k]));
                    } else {
                        let k = choose|k: int| 0 <= k < ys@.len() && taken(Some(self.data@), false, *ys@[k]) && cloned(*ys@[k], x);
                        assert(other@.contains(*ys@[k]));
                        assert(u.contains(*ys@[k]));
                    }
                }
                assert forall|y: T| #[trigger] u.contains(y) implies exists|x: T| d@.contains(x) && cloned(y, x) by {
                    if self@.contains(y) {
                        let i = choose|i: int| 0 <= i < xs@.len() && *xs@[i] == y;
                        assert(taken(Some(other.data@), false, *xs@[i]));
                        let x = choose|x: T| d1.contains(x) && cloned(*xs@[i], x);
                        assert(d@.contains(x));
                    } else {
                        let i = choose|i: int| 0 <= i < ys@.len() && *ys@[i] == y;
                        assert(taken(Some(self.data@), false, *ys@[i]));
                    }
                }
            }
        }
        AFNSSet { data: d }
    }

    /// Whether every element of this set is in the other
    pub fn is_subset(&self, other: &AFNSSet<T>) -> (b: bool)
        ensures
            obeys_key_model::<T>() ==> b == self@.subset_of(other@),
    {
        set_is_subset(&self.data, &other.data)
    }

    /// Whether every element of the other set is in this one
    pub fn is_superset(&self, other: &AFNSSet<T>) -> (b: bool)
        ensures
            obeys_key_model::<T>() ==> b == other@.subset_of(self@),
    {
        set_is_subset(&other.data, &self.data)
    }

    /// Whether the two sets have no element in common
    pub fn is_disjoint(&self, other: &AFNSSet<T>) -> (b: bool)
        ensures
            obeys_key_model::<T>() ==> b == self@.disjoint(other@),
    {
        set_is_disjoint(&self.data, &other.data)
    }

    /// Clear all elements
    pub fn clear(&mut self)
        ensures
            final(self)@ == Set::<T>::empty(),
    {
        proof {
            use_type_invariant(&*self);
        }
        let mut d: HashSet<T> = HashSet::new();
        std::mem::swap(&mut d, &mut self.data);
        d.clear();
        self.data = d;
    }
}

/// First-in-first-out data structure
pub struct AFNSQueue<T> {
    data: VecDeque<T>,
}

impl<T> View for AFNSQueue<T> {
    type V = Seq<T>;

    closed spec fn view(&self) -> Seq<T> {
        self.data@
    }
}

impl<T> AFNSQueue<T> {
    /// Create a new empty queue
    pub fn new() -> (q: Self)
        ensures
            q@ == Seq::<T>::empty(),
    {
        Self { data: VecDeque::new() }
    }

    /// Create a new queue with specified capacity
    pub fn with_capacity(capacity: usize) -> (q: Self)
        ensures
            q@ == Seq::<T>::empty(),
    {
        Self { data: VecDeque::with_capacity(capacity) }
    }

    /// Get the number of elements
    pub fn len(&self) -> (n: usize)
        ensures
            n == self@.len(),
    {
        self.data.len()
    }

    /// Check if the queue is empty
    pub fn is_empty(&self) -> (b: bool)
        ensures
            b == (self@.len() == 0),
    {
        self.data.len() == 0
    }

    /// Get the capacity of the queue
    pub fn capacity(&self) -> (c: usize)
        ensures
            c >= self@.len(),
    {
        deque_capacity(&self.data)
    }

    /// Reserve additional capacity
    pub fn reserve(&mut self, additional: usize)
        ensures
            final(self)@ == old(self)@,
    {
        self.data.reserve(additional);
    }

    /// Shrink the capacity to fit the current size
    pub fn shrink_to_fit(&mut self)
        ensures
            final(self)@ == old(self)@,
    {
        deque_shrink_to_fit(&mut self.data);
    }

    /// Enqueue an element (add to the back)
    pub fn enqueue(&mut self, value: T)
        ensures
            final(self)@ == old(self)@.push(value),
    {
        self.data.push_back(value);
    }

    /// Dequeue an element (remove from the front)
    pub fn dequeue(&mut self) -> (r: Option<T>)
        ensures
            old(self)@.len() == 0 ==> r is None && final(self)@ == old(self)@,
            old(self)@.len() > 0 ==> r == Some(old(self)@[0]) && final(self)@ == old(self)@.drop_first(),
    {
        let r = self.data.pop_front();
        proof {
            if old(self)@.len() > 0 {
                assert(self.data@ =~= old(self)@.drop_first());
            }
        }
        r
    }

    /// Peek at the front element without removing it
    pub fn peek(&self) -> (r: Option<&T>)
        ensures
            self@.len() > 0 ==> r == Some(&self@[0]),
            self@.len() == 0 ==> r is None,
    {
        if self.data.len() == 0 {
            None
        } else {
            Some(&self.data[0])
        }
    }

    /// A mutable reference to the front element, if any; what is written
    /// through it becomes the front
    pub fn peek_mut(&mut self) -> (r: Option<&mut T>)
        ensures
            old(self)@.len() == 0 ==> r is None && final(self)@ == old(self)@,
            old(self)@.len() > 0 ==> r is Some && *r.unwrap() == old(self)@[0] && final(self)@ == old(
                self,
            )@.update(0, *final(r.unwrap())),
    {
        deque_front_mut(&mut self.data)
    }

    /// Peek at the back element without removing it
    pub fn peek_back(&self) -> (r: Option<&T>)
        ensures
            self@.len() > 0 ==> r == Some(&self@.last()),
            self@.len() == 0 ==> r is None,
    {
        if self.data.len() == 0 {
            None
        } else {
            Some(&self.data[self.data.len() - 1])
        }
    }

    /// Clear all elements
    pub fn clear(&mut self)
        ensures
            final(self)@ == Seq::<T>::empty(),
    {
        self.data.clear();
    }
}

/// Last-in-first-out data structure
pub struct AFNSStack<T> {
    data: Vec<T>,
}

impl<T> View for AFNSStack<T> {
    type V = Seq<T>;

    /// The elements from bottom to top.
    closed spec fn view(&self) -> Seq<T> {
        self.data@
    }
}

impl<T> AFNSStack<T> {
    /// Create a new empty stack
    pub fn new() -> (s: Self)
        ensures
            s@ == Seq::<T>::empty(),
    {
        Self { data: Vec::new() }
    }

    /// Create a new stack with specified capacity
    pub fn with_capacity(capacity: usize) -> (s: Self)
        ensures
            s@ == Seq::<T>::empty(),
    {
        Self { data: Vec::with_capacity(capacity) }
    }

    /// Get the number of elements
    pub fn len(&self) -> (n: usize)
        ensures
            n == self@.len(),
    {
        self.data.len()
    }

    /// Check if the stack is empty
    pub fn is_empty(&self) -> (b: bool)
        ensures
            b == (self@.len() == 0),
    {
        self.data.len() == 0
    }

    /// Get the capacity of the stack
    pub fn capacity(&self) -> (c: usize)
        ensures
            c >= self@.len(),
    {
        vec_capacity(&self.data)
    }

    /// Reserve additional capacity
    pub fn reserve(&mut self, additional: usize)
        ensures
            final(self)@ == old(self)@,
    {
        self.data.reserve(additional);
    }

    /// Shrink the capacity to fit the current size
    pub fn shrink_to_fit(&mut self)
        ensures
            final(self)@ == old(self)@,
    {
        vec_shrink_to_fit(&mut self.data);
    }

    /// Push an element onto the stack
    pub fn push(&mut self, value: T)
        ensures
            final(self)@ == old(self)@.push(value),
    {
        self.data.push(value);
    }

    /// Pop an element from the stack
    pub fn pop(&mut self) -> (r: Option<T>)
        ensures
            old(self)@.len() == 0 ==> r is None && final(self)@ == old(self)@,
            old(self)@.len() > 0 ==> r == Some(old(self)@.last()) && final(self)@
                == old(self)@.drop_last(),
    {
        self.data.pop()
    }

    /// Peek at the top element without removing it
    pub fn peek(&self) -> (r: Option<&T>)
        ensures
            self@.len() > 0 ==> r == Some(&self@.last()),
            self@.len() == 0 ==> r is None,
    {
        if self.data.len() == 0 {
            None
        } else {
            Some(&self.data[self.data.len() - 1])
        }
    }

    /// A mutable reference to the top element, if any; what is written
    /// through it becomes the top
    pub fn peek_mut(&mut self) -> (r: Option<&mut T>)
        ensures
            old(self)@.len() > 0 ==> (r matches Some(x) && *x == old(self)@.last()
                && final(self)@ == old(self)@.update(old(self)@.len() - 1, *final(x))),
            old(self)@.len() == 0 ==> r is None && final(self)@ == old(self)@,
    {
        let n = self.data.len();
        if n == 0 {
            None
        } else {
            Some(&mut self.data[n - 1])
        }
    }

    /// Clear all elements
    pub fn clear(&mut self)
        ensures
            final(self)@ == Seq::<T>::empty(),
    {
        self.data.clear();
    }
}

/// Doubly ended list: elements can be added and taken at both ends.
pub struct AFNSLinkedList<T> {
    data: VecDeque<T>,
}

impl<T> View for AFNSLinkedList<T> {
    type V = Seq<T>;

    closed spec fn view(&self) -> Seq<T> {
        self.data@
    }
}

impl<T> AFNSLinkedList<T> {
    /// Create a new empty linked list
    pub fn new() -> (l: Self)
        ensures
            l@ == Seq::<T>::empty(),
    {
        Self { data: VecDeque::new() }
    }

    /// Get the number of elements
    pub fn len(&self) -> (n: usize)
        ensures
            n == self@.len(),
    {
        self.data.len()
    }

    /// Check if the linked list is empty
    pub fn is_empty(&self) -> (b: bool)
        ensures
            b == (self@.len() == 0),
    {
        self.data.len() == 0
    }

    /// Clear all elements
    pub fn clear(&mut self)
        ensures
            final(self)@ == Seq::<T>::empty(),
    {
        self.data.clear();
    }

    /// Push an element to the front
    pub fn push_front(&mut self, value: T)
        ensures
            final(self)@ == seq![value] + old(self)@,
    {
        self.data.push_front(value);
    }

    /// Push an element to the back
    pub fn push_back(&mut self, value: T)
        ensures
            final(self)@ == old(self)@.push(value),
    {
        self.data.push_back(value);
    }

    /// Pop an element from the front
    pub fn pop_front(&mut self) -> (r: Option<T>)
        ensures
            old(self)@.len() == 0 ==> r is None && final(self)@ == old(self)@,
            old(self)@.len() > 0 ==> r == Some(old(self)@[0]) && final(self)@ == old(self)@.drop_first(),
    {
        let r = self.data.pop_front();
        proof {
            if old(self)@.len() > 0 {
                assert(self.data@ =~= old(self)@.drop_first());
            }
        }
        r
    }

    /// Pop an element from the back
    pub fn pop_back(&mut self) -> (r: Option<T>)
        ensures
            old(self)@.len() == 0 ==> r is None && final(self)@ == old(self)@,
            old(self)@.len() > 0 ==> r == Some(old(self)@.last()) && final(self)@
                == old(self)@.drop_last(),
    {
        let r = self.data.pop_back();
        proof {
            if old(self)@.len() > 0 {
                assert(self.data@ =~= old(self)@.drop_last());
            }
        }
        r
    }

    /// Peek at the front element without removing it
    pub fn front(&self) -> (r: Option<&T>)
        ensures
            self@.len() > 0 ==> r == Some(&self@[0]),
            self@.len() == 0 ==> r is None,
    {
        if self.data.len() == 0 {
            None
        } else {
            Some(&self.data[0])
        }
    }

    /// Peek at the back element without removing it
    pub fn back(&self) -> (r: Option<&T>)
        ensures
            self@.len() > 0 ==> r == Some(&self@.last()),
            self@.len() == 0 ==> r is None,
    {
        if self.data.len() == 0 {
            None
        } else {
            Some(&self.data[self.data.len() - 1])
        }
    }

    /// A mutable reference to the front element, if any; what is written
    /// through it becomes the front
    pub fn front_mut(&mut self) -> (r: Option<&mut T>)
        ensures
            old(self)@.len() == 0 ==> r is None && final(self)@ == old(self)@,
            old(self)@.len() > 0 ==> r is Some && *r.unwrap() == old(self)@[0] && final(self)@ == old(
                self,
            )@.update(0, *final(r.unwrap())),
    {
        deque_front_mut(&mut self.data)
    }

    /// A mutable reference to the back element, if any; what is written
    /// through it becomes the back
    pub fn back_mut(&mut self) -> (r: Option<&mut T>)
        ensures
            old(self)@.len() == 0 ==> r is None && final(self)@ == old(self)@,
            old(self)@.len() > 0 ==> r is Some && *r.unwrap() == old(self)@.last() && final(self)@ == old(
                self,
            )@.update(old(self)@.len() - 1, *final(r.unwrap())),
    {
        deque_back_mut(&mut self.data)
    }

    /// Split the list at the given index: this list keeps the first `at`
    /// elements and the rest comes back.
    pub fn split_off(&mut self, at: usize) -> (rest: AFNSLinkedList<T>)
        requires
            at <= old(self)@.len(),
        ensures
            final(self)@ == old(self)@.subrange(0, at as int),
            rest@ == old(self)@.subrange(at as int, old(self)@.len() as int),
    {
        Self { data: self.data.split_off(at) }
    }

    /// Append another list to this one, leaving the other one empty
    pub fn append(&mut self, other: &mut AFNSLinkedList<T>)
        ensures
            final(self)@ == old(self)@ + old(other)@,
            final(other)@ == Seq::<T>::empty(),
    {
        self.data.append(&mut other.data);
    }
}


/// Circular buffer with fixed capacity
pub struct AFNSRingBuffer<T> {
    data: Vec<Option<T>>,
    head: usize,
    tail: usize,
    len: usize,
    capacity: usize,
}

impl<T> AFNSRingBuffer<T> {
    /// The storage slot of the element at position `i` from the front.
    spec fn slot(&self, i: int) -> int {
        if self.head + i < self.capacity {
            self.head + i
        } else {
            self.head + i - self.capacity
        }
    }

    /// The buffer's internal invariant: the elements sit in the slots that
    /// follow `head` around the storage, and `tail` is the slot after the
    /// last of them.
    pub closed spec fn wf(&self) -> bool {
        &&& self.data@.len() == self.capacity
        &&& self.len <= self.capacity
        &&& self.capacity == 0 ==> self.head == 0 && self.tail == 0
        &&& self.capacity > 0 ==> self.head < self.capacity && self.tail < self.capacity
            && self.tail == self.slot(self.len as int)
        &&& forall|i: int| 0 <= i < self.len ==> (#[trigger] self.data@[self.slot(i)]) is Some
    }

    /// The number of elements the buffer can hold.
    pub closed spec fn spec_capacity(&self) -> nat {
        self.capacity as nat
    }

    /// A well-formed ring buffer never holds more elements than its
    /// capacity.
    pub proof fn lemma_len_within_capacity(&self)
        requires
            self.wf(),
        ensures
            self@.len() <= self.spec_capacity(),
    {
    }
}

impl<T> View for AFNSRingBuffer<T> {
    type V = Seq<T>;

    /// The elements from front to back.
    closed spec fn view(&self) -> Seq<T> {
        Seq::new(self.len as nat, |i: int| self.data@[self.slot(i)]->Some_0)
    }
}

impl<T> AFNSRingBuffer<T> {
    /// Create a new ring buffer with specified capacity
    pub fn new(capacity: usize) -> (b: Self)
        ensures
            b.wf(),
            b@ == Seq::<T>::empty(),
            b.spec_capacity() == capacity,
    {
        let mut data: Vec<Option<T>> = Vec::new();
        let mut i: usize = 0;
        while i < capacity
            invariant
                i <= capacity,
                data@.len() == i,
            decreases capacity - i,
        {
            data.push(None);
            i = i + 1;
        }
        let b = Self { data, head: 0, tail: 0, len: 0, capacity };
        assert(b@ =~= Seq::<T>::empty());
        b
    }

    /// Get the capacity of the ring buffer
    pub fn capacity(&self) -> (c: usize)
        ensures
            c == self.spec_capacity(),
    {
        self.capacity
    }

    /// Get the number of elements
    pub fn len(&self) -> (n: usize)
        ensures
            n == self@.len(),
    {
        self.len
    }

    /// Check if the ring buffer is empty
    pub fn is_empty(&self) -> (b: bool)
        ensures
            b == (self@.len() == 0),
    {
        self.len == 0
    }

    /// Check if the ring buffer is full
    pub fn is_full(&self) -> (b: bool)
        ensures
            b == (self@.len() == self.spec_capacity()),
    {
        self.len == self.capacity
    }

    /// Push an element to the back
    pub fn push_back(&mut self, value: T) -> (r: Result<(), String>)
        requires
            old(self).wf(),
        ensures
            final(self).wf(),
            final(self).spec_capacity() == old(self).spec_capacity(),
            old(self)@.len() < old(self).spec_capacity() ==> r is Ok && final(self)@ == old(self)@.push(value),
            old(self)@.len() == old(self).spec_capacity() ==> final(self)@ == old(self)@ && (
            r matches Err(e) && e@ == "Ring buffer is full"@),
    {
        if self.is_full() {
            return Err(String::from_str("Ring buffer is full"));
        }
        let ghost old_self = *self;
        let t = self.tail;
        self.data.set(t, Some(value));
        self.tail = if t + 1 == self.capacity {
            0
        } else {
            t + 1
        };
        self.len = self.len + 1;
        proof {
            assert forall|i: int| 0 <= i < self.len implies (#[trigger] self.data@[self.slot(
                i,
            )]) is Some by {
                if i < old_self.len {
                    assert(self.slot(i) == old_self.slot(i));
                    assert(self.slot(i) != t);
                }
            }
            assert(self@ =~= old_self@.push(value)) by {
                assert forall|i: int| 0 <= i < old_self.len implies self.slot(i) == old_self.slot(i)
                    && self.slot(i) != t by {}
            }
        }
        Ok(())
    }

    /// Push an element to the front
    pub fn push_front(&mut self, value: T) -> (r: Result<(), String>)
        requires
            old(self).wf(),
        ensures
            final(self).wf(),
            final(self).spec_capacity() == old(self).spec_capacity(),
            old(self)@.len() < old(self).spec_capacity() ==> r is Ok && final(self)@ == seq![
                value,
            ] + old(self)@,
            old(self)@.len() == old(self).spec_capacity() ==> final(self)@ == old(self)@ && (
            r matches Err(e) && e@ == "Ring buffer is full"@),
    {
        if self.is_full() {
            return Err(String::from_str("Ring buffer is full"));
        }
        let ghost old_self = *self;
        self.head = if self.head == 0 {
            self.capacity - 1
        } else {
            self.head - 1
        };
        let h = self.head;
        self.data.set(h, Some(value));
        self.len = self.len + 1;
        proof {
            assert forall|i: int| 1 <= i < self.len implies self.slot(i) == old_self.slot(i - 1)
                && self.slot(i) != h by {}
            assert forall|i: int| 0 <= i < self.len implies (#[trigger] self.data@[self.slot(
                i,
            )]) is Some by {
                if i > 0 {
                    assert(self.slot(i) == old_self.slot(i - 1));
                }
            }
            assert(self@ =~= seq![value] + old_self@);
        }
        Ok(())
    }

    /// Pop an element from the back
    pub fn pop_back(&mut self) -> (r: Option<T>)
        requires
            old(self).wf(),
        ensures
            final(self).wf(),
            final(self).spec_capacity() == old(self).spec_capacity(),
            old(self)@.len() == 0 ==> r is None && final(self)@ == old(self)@,
            old(self)@.len() > 0 ==> r == Some(old(self)@.last()) && final(self)@
                == old(self)@.drop_last(),
    {
        if self.is_empty() {
            return None;
        }
        let ghost old_self = *self;
        self.tail = if self.tail == 0 {
            self.capacity - 1
        } else {
            self.tail - 1
        };
        let t = self.tail;
        assert(t == old_self.slot(old_self.len - 1));
        let value = self.data[t].take();
        self.len = self.len - 1;
        proof {
            assert forall|i: int| 0 <= i < self.len implies self.slot(i) == old_self.slot(i)
                && self.slot(i) != t by {}
            assert forall|i: int| 0 <= i < self.len implies (#[trigger] self.data@[self.slot(
                i,
            )]) is Some by {
                assert(self.slot(i) == old_self.slot(i) && self.slot(i) != t);
            }
            assert(self@ =~= old_self@.drop_last());
        }
        value
    }

    /// Pop an element from the front
    pub fn pop_front(&mut self) -> (r: Option<T>)
        requires
            old(self).wf(),
        ensures
            final(self).wf(),
            final(self).spec_capacity() == old(self).spec_capacity(),
            old(self)@.len() == 0 ==> r is None && final(self)@ == old(self)@,
            old(self)@.len() > 0 ==> r == Some(old(self)@[0]) && final(self)@ == old(self)@.drop_first(),
    {
        if self.is_empty() {
            return None;
        }
        let ghost old_self = *self;
        let h = self.head;
        assert(h == old_self.slot(0));
        let value = self.data[h].take();
        self.head = if h + 1 == self.capacity {
            0
        } else {
            h + 1
        };
        self.len = self.len - 1;
        proof {
            assert forall|i: int| 0 <= i < self.len implies self.slot(i) == old_self.slot(i + 1)
                && self.slot(i) != h by {}
            assert forall|i: int| 0 <= i < self.len implies (#[trigger] self.data@[self.slot(
                i,
            )]) is Some by {
                assert(self.slot(i) == old_self.slot(i + 1) && self.slot(i) != h);
            }
            assert(self@ =~= old_self@.drop_first());
        }
        value
    }

    /// Peek at the front element without removing it
    pub fn front(&self) -> (r: Option<&T>)
        requires
            self.wf(),
        ensures
            self@.len() > 0 ==> r == Some(&self@[0]),
            self@.len() == 0 ==> r is None,
    {
        if self.is_empty() {
            return None;
        }
        self.get(0)
    }

    /// Peek at the back element without removing it
    pub fn back(&self) -> (r: Option<&T>)
        requires
            self.wf(),
        ensures
            self@.len() > 0 ==> r == Some(&self@.last()),
            self@.len() == 0 ==> r is None,
    {
        if self.is_empty() {
            return None;
        }
        let back_index = if self.tail == 0 {
            self.capacity - 1
        } else {
            self.tail - 1
        };
        assert(back_index == self.slot(self.len - 1));
        self.data[back_index].as_ref()
    }

    /// Clear all elements
    pub fn clear(&mut self)
        requires
            old(self).wf(),
        ensures
            final(self).wf(),
            final(self).spec_capacity() == old(self).spec_capacity(),
            final(self)@ == Seq::<T>::empty(),
    {
        let ghost cap = self.capacity;
        let mut i: usize = 0;
        while i < self.capacity
            invariant
                i <= self.capacity,
                self.capacity == cap,
                self.data@.len() == self.capacity,
            decreases self.capacity - i,
        {
            self.data.set(i, None);
            i = i + 1;
        }
        self.head = 0;
        self.tail = 0;
        self.len = 0;
        assert(self@ =~= Seq::<T>::empty());
    }

    /// Get an element at the specified index
    pub fn get(&self, index: usize) -> (r: Option<&T>)
        requires
            self.wf(),
        ensures
            index < self@.len() ==> r == Some(&self@[index as int]),
            index >= self@.len() ==> r is None,
    {
        if index >= self.len {
            return None;
        }
        let actual_index = if self.head < self.capacity - index {
            self.head + index
        } else {
            index - (self.capacity - self.head)
        };
        assert(actual_index == self.slot(index as int));
        self.data[actual_index].as_ref()
    }

    /// Whether `after` is this buffer with the element at `index` replaced
    /// by `v`.
    pub closed spec fn replaced(&self, after: Self, index: int, v: T) -> bool {
        &&& after.head == self.head
        &&& after.tail == self.tail
        &&& after.len == self.len
        &&& after.capacity == self.capacity
        &&& after.data@ == self.data@.update(self.slot(index), Some(v))
    }

    /// Replacing the element at a position keeps the buffer well formed and
    /// changes no other element.
    pub proof fn lemma_replaced(&self, after: Self, index: int, v: T)
        requires
            self.wf(),
            0 <= index < self@.len(),
            self.replaced(after, index, v),
        ensures
            after.wf(),
            after@ == self@.update(index, v),
            after.spec_capacity() == self.spec_capacity(),
    {
        assert forall|i: int| 0 <= i < after.len implies (#[trigger] after.data@[after.slot(i)]) is Some by {
            assert(after.slot(i) == self.slot(i));
        }
        assert forall|i: int| 0 <= i < after.len implies #[trigger] after@[i] == self@.update(index, v)[i] by {
            assert(after.slot(i) == self.slot(i));
        }
        assert(after@ =~= self@.update(index, v));
    }

    /// A mutable reference to the element at the specified index, if there
    /// is one; what is written through it becomes that element (see
    /// `lemma_replaced`)
    pub fn get_mut(&mut self, index: usize) -> (r: Option<&mut T>)
        requires
            old(self).wf(),
        ensures
            index < old(self)@.len() ==> (r matches Some(x) && *x == old(self)@[index as int] && old(self).replaced(
                *final(self),
                index as int,
                *final(x),
            )),
            index >= old(self)@.len() ==> r is None && *final(self) == *old(self),
    {
        if index >= self.len {
            return None;
        }
        let actual_index = if self.head < self.capacity - index {
            self.head + index
        } else {
            index - (self.capacity - self.head)
        };
        assert(actual_index == self.slot(index as int));
        self.data[actual_index].as_mut()
    }
}

impl<T> AFNSArray<T> {
    /// The elements in order, by reference (a vector in place of an
    /// iterator)
    pub fn iter(&self) -> (r: Vec<&T>)
        ensures
            refers_to(r@, self@),
    {
        refs_of(&self.data)
    }
}

impl<T> AFNSStack<T> {
    /// The elements from bottom to top, by reference (a vector in place of
    /// an iterator)
    pub fn iter(&self) -> (r: Vec<&T>)
        ensures
            refers_to(r@, self@),
    {
        refs_of(&self.data)
    }
}

impl<T> AFNSQueue<T> {
    /// The elements from front to back, by reference (a vector in place of
    /// an iterator)
    pub fn iter(&self) -> (r: Vec<&T>)
        ensures
            refers_to(r@, self@),
    {
        deque_refs(&self.data)
    }
}

impl<T> AFNSLinkedList<T> {
    /// The elements from front to back, by reference (a vector in place of
    /// an iterator)
    pub fn iter(&self) -> (r: Vec<&T>)
        ensures
            refers_to(r@, self@),
    {
        deque_refs(&self.data)
    }
}

impl<T: std::hash::Hash + Eq> AFNSSet<T> {
    /// The elements, each once, in no stated order (a vector in place of
    /// an iterator)
    pub fn iter(&self) -> (r: Vec<&T>)
        ensures
            obeys_key_model::<T>() ==> r@.len() == self@.len(),
            obeys_key_model::<T>() ==> (forall|i: int| 0 <= i < r@.len() ==> self@.contains(*#[trigger] r@[i])),
            obeys_key_model::<T>() ==> (forall|x: T| self@.contains(x) ==> exists|i: int| 0 <= i < r@.len() && *r@[i] == x),
    {
        set_elements(&self.data)
    }
}

impl<K: std::hash::Hash + Eq, V> AFNSMap<K, V> {
    /// The entries, each key once with its value, in no stated order (a
    /// vector in place of an iterator)
    pub fn iter(&self) -> (r: Vec<(&K, &V)>)
        ensures
            obeys_key_model::<K>() ==> r@.len() == self@.dom().len(),
            obeys_key_model::<K>() ==> (forall|i: int|
                0 <= i < r@.len() ==> self@.contains_key(*(#[trigger] r@[i]).0) && *r@[i].1 == self@[*r@[i].0]),
            obeys_key_model::<K>() ==> (forall|k: K| self@.contains_key(k) ==> exists|i: int| 0 <= i < r@.len() && *r@[i].0 == k),
    {
        let ks = map_keys(&self.data);
        let mut r: Vec<(&K, &V)> = Vec::new();
        let mut i: usize = 0;
        while i < ks.len()
            invariant
                i <= ks@.len(),
                obeys_key_model::<K>() ==> ks@.len() == self@.dom().len(),
                obeys_key_model::<K>() ==> (forall|j: int| 0 <= j < ks@.len() ==> self@.contains_key(*#[trigger] ks@[j])),
                obeys_key_model::<K>() ==> r@.len() == i,
                obeys_key_model::<K>() ==> (forall|j: int|
                    0 <= j < i ==> *(#[trigger] r@[j]).0 == *ks@[j] && *r@[j].1 == self@[*ks@[j]]),
            decreases ks@.len() - i,
        {
            let k = ks[i];
            match self.data.get(k) {
                Some(v) => {
                    r.push((k, v));
                },
                None => {},
            }
            i = i + 1;
        }
        proof {
            if obeys_key_model::<K>() {
                assert forall|k: K| self@.contains_key(k) implies exists|j: int| 0 <= j < r@.len() && *r@[j].0 == k by {
                    let j = choose|j: int| 0 <= j < ks@.len() && *ks@[j] == k;
                    assert(*r@[j].0 == k);
                }
            }
        }
        r
    }
}

} // verus!
