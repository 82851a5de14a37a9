//! An ordered table of components keyed by their string ids, each id at
//! most once, kept in the order the components were added.

use vstd::prelude::*;
use crate::text::{chars_of, chars_equal};

verus! {

/// The position of the entry with id `k`, or -1.
pub open spec fn key_index<X>(s: Seq<(String, X)>, k: Seq<char>) -> int
    decreases s.len(),
{
    if s.len() == 0 {
        -1
    } else if s.last().0@ == k {
        s.len() - 1
    } else {
        key_index(s.drop_last(), k)
    }
}

/// Whether no id occurs twice.
pub open spec fn keys_unique<X>(s: Seq<(String, X)>) -> bool {
    forall|i: int, j: int| 0 <= i < j < s.len() ==> s[i].0@ != s[j].0@
}

pub proof fn lemma_key_index<X>(s: Seq<(String, X)>, k: Seq<char>)
    ensures
        -1 <= key_index(s, k) < s.len(),
        key_index(s, k) >= 0 ==> s[key_index(s, k)].0@ == k,
        key_index(s, k) < 0 ==> forall|j: int| 0 <= j < s.len() ==> s[j].0@ != k,
    decreases s.len(),
{
    if s.len() > 0 && s.last().0@ != k {
        lemma_key_index(s.drop_last(), k);
        if key_index(s, k) < 0 {
            assert forall|j: int| 0 <= j < s.len() implies s[j].0@ != k by {
                if j < s.len() - 1 {
                    assert(s[j] == s.drop_last()[j]);
                }
            }
        }
    }
}

pub proof fn lemma_key_index_unique<X>(s: Seq<(String, X)>, k: Seq<char>, j: int)
    requires
        keys_unique(s),
        0 <= j < s.len(),
        s[j].0@ == k,
    ensures
        key_index(s, k) == j,
{
    lemma_key_index(s, k);
}

/// Components keyed by id, in the order they were added.
pub struct Registry<X> {
    entries: Vec<(String, X)>,
}

impl<X> View for Registry<X> {
    type V = Seq<(String, X)>;

    closed spec fn view(&self) -> Seq<(String, X)> {
        self.entries@
    }
}

impl<X> Registry<X> {
    pub fn new() -> (r: Self)
        ensures
            r@ == Seq::<(String, X)>::empty(),
    {
        Registry { entries: Vec::new() }
    }

    pub fn len(&self) -> (n: usize)
        ensures
            n == self@.len(),
    {
        self.entries.len()
    }

    /// The position of the entry with id `k`.
    pub fn find(&self, k: &str) -> (r: Option<usize>)
        ensures
            match r {
                Some(i) => i < self@.len() && key_index(self@, k@) == i,
                None => key_index(self@, k@) == -1,
            },
    {
        proof {
            lemma_key_index(self@, k@);
        }
        let kc = chars_of(k);
        let mut i = self.entries.len();
        while i > 0
            invariant
                i <= self@.len(),
                kc@ == k@,
                forall|j: int| i <= j < self@.len() ==> (#[trigger] self@[j]).0@ != k@,
            decreases i,
        {
            let e = chars_of(self.entries[i - 1].0.as_str());
            if chars_equal(&e, &kc) {
                proof {
                    lemma_last_match(self@, k@, i - 1);
                }
                return Some(i - 1);
            }
            i = i - 1;
        }
        proof {
            lemma_key_index(self@, k@);
            if key_index(self@, k@) >= 0 {
                assert(self@[key_index(self@, k@)].0@ == k@);
            }
        }
        None
    }

    pub fn get(&self, k: &str) -> (r: Option<&X>)
        ensures
            match r {
                Some(x) => key_index(self@, k@) >= 0 && *x == self@[key_index(self@, k@)].1,
                None => key_index(self@, k@) == -1,
            },
    {
        match self.find(k) {
            Some(i) => Some(&self.entries[i].1),
            None => None,
        }
    }

    /// Adds an entry at the end.
    pub fn push(&mut self, k: String, x: X)
        ensures
            final(self)@ == old(self)@.push((k, x)),
    {
        self.entries.push((k, x));
    }

    /// Takes out the entry at position `i`.
    pub fn take(&mut self, i: usize) -> (r: (String, X))
        requires
            i < old(self)@.len(),
        ensures
            r == old(self)@[i as int],
            final(self)@ == old(self)@.remove(i as int),
    {
        self.entries.remove(i)
    }

    /// Puts an entry at position `i`.
    pub fn put(&mut self, i: usize, e: (String, X))
        requires
            i <= old(self)@.len(),
        ensures
            final(self)@ == old(self)@.insert(i as int, e),
    {
        self.entries.insert(i, e);
    }

    pub fn at(&self, i: usize) -> (r: &X)
        requires
            i < self@.len(),
        ensures
            *r == self@[i as int].1,
    {
        &self.entries[i].1
    }

    pub fn clear(&mut self)
        ensures
            final(self)@ == Seq::<(String, X)>::empty(),
    {
        self.entries.clear();
    }
}

proof fn lemma_last_match<X>(s: Seq<(String, X)>, k: Seq<char>, j: int)
    requires
        0 <= j < s.len(),
        s[j].0@ == k,
        forall|m: int| j < m < s.len() ==> (#[trigger] s[m]).0@ != k,
    ensures
        key_index(s, k) == j,
    decreases s.len(),
{
    if j < s.len() - 1 {
        let p = s.drop_last();
        assert forall|m: int| j < m < p.len() implies (#[trigger] p[m]).0@ != k by {
            assert(p[m] == s[m]);
        }
        lemma_last_match(p, k, j);
    }
}

} // verus!
