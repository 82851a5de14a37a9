//! Fundamental data structures of the AFNS standard library: a fixed-size
//! tuple, an optional value and a success-or-failure value.

use vstd::prelude::*;

use crate::forge::collections::{refers_to, refs_of};

verus! {

/// Fixed-size collection of elements
#[derive(Debug, Clone, PartialEq, Eq, Hash)]
pub struct AFNSTuple<T> {
    data: Vec<T>,
}

impl<T> View for AFNSTuple<T> {
    type V = Seq<T>;

    closed spec fn view(&self) -> Seq<T> {
        self.data@
    }
}

impl<T> AFNSTuple<T> {
    /// Create a new tuple with the given elements
    pub fn new(elements: Vec<T>) -> (t: Self)
        ensures
            t@ == elements@,
    {
        Self { data: elements }
    }

    /// Get the length of the tuple
    pub fn len(&self) -> (n: usize)
        ensures
            n == self@.len(),
    {
        self.data.len()
    }

    /// Check if the tuple is empty
    pub fn is_empty(&self) -> (b: bool)
        ensures
            b == (self@.len() == 0),
    {
        self.data.len() == 0
    }

    /// Get an element at the specified index
    pub fn get(&self, index: usize) -> (r: Option<&T>)
        ensures
            index < self@.len() ==> r == Some(&self@[index as int]),
            index >= self@.len() ==> r is None,
    {
        if index < self.data.len() {
            Some(&self.data[index])
        } else {
            None
        }
    }

    /// A mutable reference to the element at `index`, if there is one;
    /// what is written through it lands at that index
    pub fn get_mut(&mut self, index: usize) -> (r: Option<&mut T>)
        ensures
            index < old(self)@.len() ==> (r matches Some(x) && *x == old(self)@[index as int]
                && final(self)@ == old(self)@.update(index as int, *final(x))),
            index >= old(self)@.len() ==> r is None && final(self)@ == old(self)@,
    {
        if index < self.data.len() {
            Some(&mut self.data[index])
        } else {
            None
        }
    }

    /// Get the first element
    pub fn first(&self) -> (r: Option<&T>)
        ensures
            self@.len() > 0 ==> r == Some(&self@[0]),
            self@.len() == 0 ==> r is None,
    {
        self.get(0)
    }

    /// Get the last element
    pub fn last(&self) -> (r: Option<&T>)
        ensures
            self@.len() > 0 ==> r == Some(&self@.last()),
            self@.len() == 0 ==> r is None,
    {
        if self.data.len() == 0 {
            None
        } else {
            Some(&self.data[self.data.len() - 1])
        }
    }

    /// Convert to a vector
    pub fn into_vec(self) -> (v: Vec<T>)
        ensures
            v@ == self@,
    {
        self.data
    }

    /// The elements in order, by reference (a vector in place of an
    /// iterator)
    pub fn iter(&self) -> (r: Vec<&T>)
        ensures
            refers_to(r@, self@),
    {
        refs_of(&self.data)
    }
}

/// Represents optional values (Some or None)
#[derive(Debug, Clone, PartialEq, Eq, Hash)]
pub enum AFNSOption<T> {
    Just(T),
    Nothing,
}

impl<T> AFNSOption<T> {
    /// Create a Some value
    pub fn some(value: T) -> (o: Self)
        ensures
            o == AFNSOption::Just(value),
    {
        AFNSOption::Just(value)
    }

    /// Create a None value
    pub fn none() -> (o: Self)
        ensures
            o == AFNSOption::<T>::Nothing,
    {
        AFNSOption::Nothing
    }

    /// Check if the option is Some
    pub fn is_some(&self) -> (b: bool)
        ensures
            b == (*self is Just),
    {
        match self {
            AFNSOption::Just(_) => true,
            AFNSOption::Nothing => false,
        }
    }

    /// Check if the option is Nothing
    pub fn is_none(&self) -> (b: bool)
        ensures
            b == (*self is Nothing),
    {
        match self {
            AFNSOption::Just(_) => false,
            AFNSOption::Nothing => true,
        }
    }

    /// Unwrap the value; a None value is outside what this accepts
    pub fn unwrap(self) -> (v: T)
        requires
            self is Just,
        ensures
            self == AFNSOption::Just(v),
    {
        match self {
            AFNSOption::Just(value) => value,
            AFNSOption::Nothing => unreached(),
        }
    }

    /// Unwrap the value with a default if None
    pub fn unwrap_or(self, default: T) -> (v: T)
        ensures
            v == (match self {
                AFNSOption::Just(x) => x,
                AFNSOption::Nothing => default,
            }),
    {
        match self {
            AFNSOption::Just(value) => value,
            AFNSOption::Nothing => default,
        }
    }

    /// Unwrap the value with a computed default if None
    pub fn unwrap_or_else<F: FnOnce() -> T>(self, f: F) -> (v: T)
        requires
            self is Nothing ==> f.requires(()),
        ensures
            match self {
                AFNSOption::Just(x) => v == x,
                AFNSOption::Nothing => f.ensures((), v),
            },
    {
        match self {
            AFNSOption::Just(value) => value,
            AFNSOption::Nothing => f(),
        }
    }

    /// Map the value if Some
    pub fn map<U, F: FnOnce(T) -> U>(self, f: F) -> (r: AFNSOption<U>)
        requires
            self matches AFNSOption::Just(x) ==> f.requires((x,)),
        ensures
            match self {
                AFNSOption::Just(x) => r matches AFNSOption::Just(u) && f.ensures((x,), u),
                AFNSOption::Nothing => r is Nothing,
            },
    {
        match self {
            AFNSOption::Just(value) => AFNSOption::Just(f(value)),
            AFNSOption::Nothing => AFNSOption::Nothing,
        }
    }

    /// Map the value if Some, otherwise return the default
    pub fn map_or<U, F: FnOnce(T) -> U>(self, default: U, f: F) -> (r: U)
        requires
            self matches AFNSOption::Just(x) ==> f.requires((x,)),
        ensures
            match self {
                AFNSOption::Just(x) => f.ensures((x,), r),
                AFNSOption::Nothing => r == default,
            },
    {
        match self {
            AFNSOption::Just(value) => f(value),
            AFNSOption::Nothing => default,
        }
    }

    /// Map the value if Some, otherwise compute the default
    pub fn map_or_else<U, F: FnOnce(T) -> U, D: FnOnce() -> U>(self, default: D, f: F) -> (r: U)
        requires
            self matches AFNSOption::Just(x) ==> f.requires((x,)),
            self is Nothing ==> default.requires(()),
        ensures
            match self {
                AFNSOption::Just(x) => f.ensures((x,), r),
                AFNSOption::Nothing => default.ensures((), r),
            },
    {
        match self {
            AFNSOption::Just(value) => f(value),
            AFNSOption::Nothing => default(),
        }
    }

    /// Apply a function to the value if Some
    pub fn and_then<U, F: FnOnce(T) -> AFNSOption<U>>(self, f: F) -> (r: AFNSOption<U>)
        requires
            self matches AFNSOption::Just(x) ==> f.requires((x,)),
        ensures
            match self {
                AFNSOption::Just(x) => f.ensures((x,), r),
                AFNSOption::Nothing => r is Nothing,
            },
    {
        match self {
            AFNSOption::Just(value) => f(value),
            AFNSOption::Nothing => AFNSOption::Nothing,
        }
    }

    /// Return the option if Some, otherwise return the other option
    pub fn or(self, optb: AFNSOption<T>) -> (r: AFNSOption<T>)
        ensures
            r == (match self {
                AFNSOption::Just(x) => AFNSOption::Just(x),
                AFNSOption::Nothing => optb,
            }),
    {
        match self {
            AFNSOption::Just(value) => AFNSOption::Just(value),
            AFNSOption::Nothing => optb,
        }
    }

    /// Return the option if Some, otherwise compute the other option
    pub fn or_else<F: FnOnce() -> AFNSOption<T>>(self, f: F) -> (r: AFNSOption<T>)
        requires
            self is Nothing ==> f.requires(()),
        ensures
            match self {
                AFNSOption::Just(x) => r == AFNSOption::Just(x),
                AFNSOption::Nothing => f.ensures((), r),
            },
    {
        match self {
            AFNSOption::Just(value) => AFNSOption::Just(value),
            AFNSOption::Nothing => f(),
        }
    }

    /// A view of the option that borrows its value
    pub fn as_ref(&self) -> (r: AFNSOption<&T>)
        ensures
            match *self {
                AFNSOption::Just(x) => r == AFNSOption::Just(&x),
                AFNSOption::Nothing => r is Nothing,
            },
    {
        match self {
            AFNSOption::Just(value) => AFNSOption::Just(value),
            AFNSOption::Nothing => AFNSOption::Nothing,
        }
    }

    /// The option of a mutable reference to the value; what is written
    /// through it becomes the value
    pub fn as_mut(&mut self) -> (r: AFNSOption<&mut T>)
        ensures
            match *old(self) {
                AFNSOption::Just(x) => (r matches AFNSOption::Just(y) && *y == x && *final(self)
                    == AFNSOption::Just(*final(y))),
                AFNSOption::Nothing => r is Nothing && *final(self) == *old(self),
            },
    {
        match self {
            AFNSOption::Just(value) => AFNSOption::Just(value),
            AFNSOption::Nothing => AFNSOption::Nothing,
        }
    }

    /// Take the value out of the option, leaving None in its place
    pub fn take(&mut self) -> (r: AFNSOption<T>)
        ensures
            r == *old(self),
            *final(self) is Nothing,
    {
        let mut r = AFNSOption::Nothing;
        std::mem::swap(self, &mut r);
        r
    }

    /// Replace the value in the option with the given value
    pub fn replace(&mut self, value: T) -> (r: AFNSOption<T>)
        ensures
            r == *old(self),
            *final(self) == AFNSOption::Just(value),
    {
        let mut r = AFNSOption::Just(value);
        std::mem::swap(self, &mut r);
        r
    }

    /// Filter the option based on a predicate
    pub fn filter<P: FnOnce(&T) -> bool>(self, predicate: P) -> (r: AFNSOption<T>)
        requires
            self matches AFNSOption::Just(x) ==> predicate.requires((&x,)),
        ensures
            match self {
                AFNSOption::Just(x) => (r == AFNSOption::Just(x) && predicate.ensures((&x,), true))
                    || (r is Nothing && predicate.ensures((&x,), false)),
                AFNSOption::Nothing => r is Nothing,
            },
    {
        match self {
            AFNSOption::Just(value) => {
                if predicate(&value) {
                    AFNSOption::Just(value)
                } else {
                    AFNSOption::Nothing
                }
            },
            AFNSOption::Nothing => AFNSOption::Nothing,
        }
    }

    /// Zip two options into a tuple option
    pub fn zip<U>(self, other: AFNSOption<U>) -> (r: AFNSOption<(T, U)>)
        ensures
            r == (match (self, other) {
                (AFNSOption::Just(a), AFNSOption::Just(b)) => AFNSOption::Just((a, b)),
                _ => AFNSOption::Nothing,
            }),
    {
        match (self, other) {
            (AFNSOption::Just(a), AFNSOption::Just(b)) => AFNSOption::Just((a, b)),
            _ => AFNSOption::Nothing,
        }
    }
}

impl<U, V> AFNSOption<(U, V)> {
    /// Unzip a pair option into two options
    pub fn unzip(self) -> (r: (AFNSOption<U>, AFNSOption<V>))
        ensures
            r == (match self {
                AFNSOption::Just((a, b)) => (AFNSOption::Just(a), AFNSOption::Just(b)),
                AFNSOption::Nothing => (AFNSOption::Nothing, AFNSOption::Nothing),
            }),
    {
        match self {
            AFNSOption::Just((a, b)) => (AFNSOption::Just(a), AFNSOption::Just(b)),
            AFNSOption::Nothing => (AFNSOption::Nothing, AFNSOption::Nothing),
        }
    }
}

/// Represents success (Ok) or failure (Err)
#[derive(Debug, Clone, PartialEq, Eq, Hash)]
pub enum AFNSResult<T, E> {
    Success(T),
    Failure(E),
}

impl<T, E> AFNSResult<T, E> {
    /// Create an Ok result
    pub fn ok(value: T) -> (r: Self)
        ensures
            r == AFNSResult::<T, E>::Success(value),
    {
        AFNSResult::Success(value)
    }

    /// Create an Err result
    pub fn err(error: E) -> (r: Self)
        ensures
            r == AFNSResult::<T, E>::Failure(error),
    {
        AFNSResult::Failure(error)
    }

    /// Check if the result is Success
    pub fn is_ok(&self) -> (b: bool)
        ensures
            b == (*self is Success),
    {
        match self {
            AFNSResult::Success(_) => true,
            AFNSResult::Failure(_) => false,
        }
    }

    /// Check if the result is Err
    pub fn is_err(&self) -> (b: bool)
        ensures
            b == (*self is Failure),
    {
        match self {
            AFNSResult::Success(_) => false,
            AFNSResult::Failure(_) => true,
        }
    }

    /// Unwrap the Ok value; an Err is outside what this accepts
    pub fn unwrap(self) -> (v: T)
        requires
            self is Success,
        ensures
            self == AFNSResult::<T, E>::Success(v),
    {
        match self {
            AFNSResult::Success(value) => value,
            AFNSResult::Failure(_) => unreached(),
        }
    }

    /// Unwrap the Ok value; an Err, which would stop with `msg`, is outside
    /// what this accepts
    pub fn expect(self, msg: &str) -> (v: T)
        requires
            self is Success,
        ensures
            self == AFNSResult::<T, E>::Success(v),
    {
        match self {
            AFNSResult::Success(value) => value,
            AFNSResult::Failure(_) => unreached(),
        }
    }

    /// Unwrap the Ok value, or return the default if Err
    pub fn unwrap_or(self, default: T) -> (v: T)
        ensures
            v == (match self {
                AFNSResult::Success(x) => x,
                AFNSResult::Failure(_) => default,
            }),
    {
        match self {
            AFNSResult::Success(value) => value,
            AFNSResult::Failure(_) => default,
        }
    }

    /// Unwrap the Ok value, or compute the default if Err
    pub fn unwrap_or_else<F: FnOnce(E) -> T>(self, f: F) -> (v: T)
        requires
            self matches AFNSResult::Failure(e) ==> f.requires((e,)),
        ensures
            match self {
                AFNSResult::Success(x) => v == x,
                AFNSResult::Failure(e) => f.ensures((e,), v),
            },
    {
        match self {
            AFNSResult::Success(value) => value,
            AFNSResult::Failure(error) => f(error),
        }
    }

    /// Map the Ok value
    pub fn map<U, F: FnOnce(T) -> U>(self, f: F) -> (r: AFNSResult<U, E>)
        requires
            self matches AFNSResult::Success(x) ==> f.requires((x,)),
        ensures
            match self {
                AFNSResult::Success(x) => r matches AFNSResult::Success(u) && f.ensures((x,), u),
                AFNSResult::Failure(e) => r == AFNSResult::<U, E>::Failure(e),
            },
    {
        match self {
            AFNSResult::Success(value) => AFNSResult::Success(f(value)),
            AFNSResult::Failure(error) => AFNSResult::Failure(error),
        }
    }

    /// Map the Err value
    pub fn map_err<F: FnOnce(E) -> O, O>(self, f: F) -> (r: AFNSResult<T, O>)
        requires
            self matches AFNSResult::Failure(e) ==> f.requires((e,)),
        ensures
            match self {
                AFNSResult::Success(x) => r == AFNSResult::<T, O>::Success(x),
                AFNSResult::Failure(e) => r matches AFNSResult::Failure(o) && f.ensures((e,), o),
            },
    {
        match self {
            AFNSResult::Success(value) => AFNSResult::Success(value),
            AFNSResult::Failure(error) => AFNSResult::Failure(f(error)),
        }
    }

    /// Map the Ok value, or return the default if Err
    pub fn map_or<U, F: FnOnce(T) -> U>(self, default: U, f: F) -> (r: U)
        requires
            self matches AFNSResult::Success(x) ==> f.requires((x,)),
        ensures
            match self {
                AFNSResult::Success(x) => f.ensures((x,), r),
                AFNSResult::Failure(_) => r == default,
            },
    {
        match self {
            AFNSResult::Success(value) => f(value),
            AFNSResult::Failure(_) => default,
        }
    }

    /// Map the Ok value, or compute the default if Err
    pub fn map_or_else<U, F: FnOnce(T) -> U, D: FnOnce(E) -> U>(self, default: D, f: F) -> (r: U)
        requires
            self matches AFNSResult::Success(x) ==> f.requires((x,)),
            self matches AFNSResult::Failure(e) ==> default.requires((e,)),
        ensures
            match self {
                AFNSResult::Success(x) => f.ensures((x,), r),
                AFNSResult::Failure(e) => default.ensures((e,), r),
            },
    {
        match self {
            AFNSResult::Success(value) => f(value),
            AFNSResult::Failure(error) => default(error),
        }
    }

    /// Apply a function to the Ok value
    pub fn and_then<U, F: FnOnce(T) -> AFNSResult<U, E>>(self, f: F) -> (r: AFNSResult<U, E>)
        requires
            self matches AFNSResult::Success(x) ==> f.requires((x,)),
        ensures
            match self {
                AFNSResult::Success(x) => f.ensures((x,), r),
                AFNSResult::Failure(e) => r == AFNSResult::<U, E>::Failure(e),
            },
    {
        match self {
            AFNSResult::Success(value) => f(value),
            AFNSResult::Failure(error) => AFNSResult::Failure(error),
        }
    }

    /// Return the result if Ok, otherwise return the other result
    pub fn or<F>(self, res: AFNSResult<T, F>) -> (r: AFNSResult<T, F>)
        ensures
            r == (match self {
                AFNSResult::Success(x) => AFNSResult::<T, F>::Success(x),
                AFNSResult::Failure(_) => res,
            }),
    {
        match self {
            AFNSResult::Success(value) => AFNSResult::Success(value),
            AFNSResult::Failure(_) => res,
        }
    }

    /// Return the result if Ok, otherwise compute the other result
    pub fn or_else<F: FnOnce(E) -> AFNSResult<T, O>, O>(self, f: F) -> (r: AFNSResult<T, O>)
        requires
            self matches AFNSResult::Failure(e) ==> f.requires((e,)),
        ensures
            match self {
                AFNSResult::Success(x) => r == AFNSResult::<T, O>::Success(x),
                AFNSResult::Failure(e) => f.ensures((e,), r),
            },
    {
        match self {
            AFNSResult::Success(value) => AFNSResult::Success(value),
            AFNSResult::Failure(error) => f(error),
        }
    }

    /// The Ok value as an option (None for an Err)
    pub fn into_ok(self) -> (r: AFNSOption<T>)
        ensures
            r == (match self {
                AFNSResult::Success(x) => AFNSOption::Just(x),
                AFNSResult::Failure(_) => AFNSOption::Nothing,
            }),
    {
        match self {
            AFNSResult::Success(value) => AFNSOption::Just(value),
            AFNSResult::Failure(_) => AFNSOption::Nothing,
        }
    }

    /// The Err value as an option (None for an Ok)
    pub fn into_err(self) -> (r: AFNSOption<E>)
        ensures
            r == (match self {
                AFNSResult::Success(_) => AFNSOption::Nothing,
                AFNSResult::Failure(e) => AFNSOption::Just(e),
            }),
    {
        match self {
            AFNSResult::Success(_) => AFNSOption::Nothing,
            AFNSResult::Failure(error) => AFNSOption::Just(error),
        }
    }

    /// A view of the result that borrows its value
    pub fn as_ref(&self) -> (r: AFNSResult<&T, &E>)
        ensures
            match *self {
                AFNSResult::Success(x) => r == AFNSResult::<&T, &E>::Success(&x),
                AFNSResult::Failure(e) => r == AFNSResult::<&T, &E>::Failure(&e),
            },
    {
        match self {
            AFNSResult::Success(value) => AFNSResult::Success(value),
            AFNSResult::Failure(error) => AFNSResult::Failure(error),
        }
    }

    /// The result of mutable references to the value or the error; what is
    /// written through them becomes the value or the error
    pub fn as_mut(&mut self) -> (r: AFNSResult<&mut T, &mut E>)
        ensures
            match *old(self) {
                AFNSResult::Success(x) => (r matches AFNSResult::Success(y) && *y == x && *final(self)
                    == AFNSResult::<T, E>::Success(*final(y))),
                AFNSResult::Failure(e) => (r matches AFNSResult::Failure(y) && *y == e && *final(self)
                    == AFNSResult::<T, E>::Failure(*final(y))),
            },
    {
        match self {
            AFNSResult::Success(value) => AFNSResult::Success(value),
            AFNSResult::Failure(error) => AFNSResult::Failure(error),
        }
    }
}

impl<U, E> AFNSResult<AFNSResult<U, E>, E> {
    /// Flatten a nested result
    pub fn flatten(self) -> (r: AFNSResult<U, E>)
        ensures
            r == (match self {
                AFNSResult::Success(inner) => inner,
                AFNSResult::Failure(e) => AFNSResult::<U, E>::Failure(e),
            }),
    {
        match self {
            AFNSResult::Success(inner) => inner,
            AFNSResult::Failure(error) => AFNSResult::Failure(error),
        }
    }
}

impl<T, E> AFNSResult<AFNSOption<T>, E> {
    /// Transpose a result of an option into an option of a result
    pub fn transpose(self) -> (r: AFNSOption<AFNSResult<T, E>>)
        ensures
            r == (match self {
                AFNSResult::Success(AFNSOption::Just(v)) => AFNSOption::Just(AFNSResult::Success(v)),
                AFNSResult::Success(AFNSOption::Nothing) => AFNSOption::Nothing,
                AFNSResult::Failure(e) => AFNSOption::Just(AFNSResult::Failure(e)),
            }),
    {
        match self {
            AFNSResult::Success(option) => match option {
                AFNSOption::Just(v) => AFNSOption::Just(AFNSResult::Success(v)),
                AFNSOption::Nothing => AFNSOption::Nothing,
            },
            AFNSResult::Failure(error) => AFNSOption::Just(AFNSResult::Failure(error)),
        }
    }
}

} // verus!
