//! Vectors and byte strings whose length is capped by their type.

use core::ops::Deref;
use core::slice;
use vstd::prelude::*;

use crate::utils::hex::{hex_bytes, hex_decode, hex_encode, hex_string, HexError};

verus! {

/// Why a bounded collection could not be built.
#[derive(Debug, Eq, PartialEq, Structural)]
pub enum BoundedError {
    /// The collection holds `actual` elements, and its type admits `max`.
    TooLong { actual: usize, max: usize },
}

/// `Vec<T>` whose length is statically capped at `MAX`. The cap is enforced at
/// every construction site, so an instance never holds more than `MAX` elements.
#[derive(Debug, Eq, PartialEq, Hash, PartialOrd, Ord)]
pub struct BoundedVec<T, const MAX: usize>(Vec<T>);

impl<T, const MAX: usize> View for BoundedVec<T, MAX> {
    type V = Seq<T>;

    closed spec fn view(&self) -> Seq<T> {
        self.0@
    }
}

impl<T, const MAX: usize> BoundedVec<T, MAX> {
    #[verifier::type_invariant]
    spec fn within_cap(&self) -> bool {
        self.0@.len() <= MAX
    }

    /// Takes over `items` unless there are more than `MAX` of them.
    pub fn new(items: Vec<T>) -> (r: Result<Self, BoundedError>)
        ensures
            match r {
                Ok(v) => items@.len() <= MAX && v@ == items@,
                Err(BoundedError::TooLong { actual, max }) => items@.len() > MAX && actual
                    == items@.len() && max == MAX,
            },
    {
        if items.len() > MAX {
            return Err(BoundedError::TooLong { actual: items.len(), max: MAX });
        }
        Ok(Self(items))
    }

    /// Construct without checking the cap.
    ///
    /// Reserved for callers that have already validated the length. Prefer
    /// [`Self::new`] at trust boundaries.
    #[must_use]
    pub fn new_unchecked(items: Vec<T>) -> (r: Self)
        requires
            items@.len() <= MAX,
        ensures
            r@ == items@,
    {
        Self(items)
    }

    /// The number of elements, which never exceeds the cap.
    #[must_use]
    pub fn len(&self) -> (r: usize)
        ensures
            r == self@.len(),
            r <= MAX,
    {
        proof {
            use_type_invariant(self);
        }
        self.0.len()
    }

    /// Whether there is no element.
    #[must_use]
    pub fn is_empty(&self) -> (r: bool)
        ensures
            r == (self@.len() == 0),
    {
        self.0.len() == 0
    }

    /// The elements, from first to last.
    pub fn iter(&self) -> (r: slice::Iter<'_, T>)
        ensures
            vstd::std_specs::iter::IteratorSpec::remaining(&r).len() == self@.len(),
            forall|i: int|
                0 <= i < self@.len() ==> *(#[trigger] vstd::std_specs::iter::IteratorSpec::remaining(
                    &r,
                )[i]) == self@[i],
    {
        self.0.iter()
    }

    /// The elements as a vector.
    #[must_use]
    pub fn into_inner(self) -> (r: Vec<T>)
        ensures
            r@ == self@,
            r@.len() <= MAX,
    {
        proof {
            use_type_invariant(&self);
        }
        self.0
    }

    /// The elements as a slice.
    #[must_use]
    pub fn as_slice(&self) -> (r: &[T])
        ensures
            r@ == self@,
            r@.len() <= MAX,
    {
        proof {
            use_type_invariant(self);
        }
        self.0.as_slice()
    }
}

impl<T, const MAX: usize> AsRef<[T]> for BoundedVec<T, MAX> {
    fn as_ref(&self) -> (r: &[T])
        ensures
            r@ == self@,
    {
        self.0.as_slice()
    }
}

impl<T, const MAX: usize> IntoIterator for BoundedVec<T, MAX> {
    type Item = T;

    type IntoIter = std::vec::IntoIter<T>;

    fn into_iter(self) -> (r: std::vec::IntoIter<T>)
        ensures
            vstd::std_specs::iter::IteratorSpec::remaining(&r) == self@,
    {
        self.0.into_iter()
    }
}

impl<'a, T, const MAX: usize> IntoIterator for &'a BoundedVec<T, MAX> {
    type Item = &'a T;

    type IntoIter = slice::Iter<'a, T>;

    fn into_iter(self) -> (r: slice::Iter<'a, T>)
        ensures
            vstd::std_specs::iter::IteratorSpec::remaining(&r).len() == self@.len(),
            forall|i: int|
                0 <= i < self@.len() ==> *(#[trigger] vstd::std_specs::iter::IteratorSpec::remaining(
                    &r,
                )[i]) == self@[i],
    {
        self.0.iter()
    }
}

impl<T: Clone, const MAX: usize> Clone for BoundedVec<T, MAX> {
    fn clone(&self) -> (r: Self)
        ensures
            r@.len() == self@.len(),
            forall|i: int| 0 <= i < self@.len() ==> cloned(#[trigger] self@[i], r@[i]),
    {
        proof {
            use_type_invariant(self);
        }
        Self(self.0.clone())
    }
}

impl<T, const MAX: usize> Default for BoundedVec<T, MAX> {
    fn default() -> (r: Self)
        ensures
            r@ == Seq::<T>::empty(),
    {
        Self(Vec::new())
    }
}

impl<T, const MAX: usize> TryFrom<Vec<T>> for BoundedVec<T, MAX> {
    type Error = BoundedError;

    fn try_from(v: Vec<T>) -> (r: Result<Self, Self::Error>)
        ensures
            match r {
                Ok(b) => v@.len() <= MAX && b@ == v@,
                Err(BoundedError::TooLong { actual, max }) => v@.len() > MAX && actual == v@.len()
                    && max == MAX,
            },
    {
        if v.len() > MAX {
            return Err(BoundedError::TooLong { actual: v.len(), max: MAX });
        }
        Ok(Self(v))
    }
}

impl<T, const MAX: usize> vstd::std_specs::convert::TryFromSpecImpl<Vec<T>> for BoundedVec<T, MAX> {
    open spec fn obeys_try_from_spec() -> bool {
        true
    }

    closed spec fn try_from_spec(v: Vec<T>) -> Result<Self, Self::Error> {
        if v@.len() <= MAX {
            Ok(Self(v))
        } else {
            Err(BoundedError::TooLong { actual: v@.len() as usize, max: MAX })
        }
    }
}

impl<T, const MAX: usize> Deref for BoundedVec<T, MAX> {
    type Target = [T];

    fn deref(&self) -> (r: &[T])
        ensures
            r@ == self@,
    {
        self.0.as_slice()
    }
}

/// `Vec<u8>` whose length is statically capped at `MAX`.
///
/// Same invariant as [`BoundedVec<u8, MAX>`], but written for humans as a
/// hexadecimal string.
#[derive(Debug, Eq, PartialEq, Hash, PartialOrd, Ord)]
pub struct BoundedBytes<const MAX: usize>(Vec<u8>);

impl<const MAX: usize> View for BoundedBytes<MAX> {
    type V = Seq<u8>;

    closed spec fn view(&self) -> Seq<u8> {
        self.0@
    }
}

impl<const MAX: usize> BoundedBytes<MAX> {
    #[verifier::type_invariant]
    spec fn within_cap(&self) -> bool {
        self.0@.len() <= MAX
    }

    /// Takes over `bytes` unless there are more than `MAX` of them.
    pub fn new(bytes: Vec<u8>) -> (r: Result<Self, BoundedError>)
        ensures
            match r {
                Ok(v) => bytes@.len() <= MAX && v@ == bytes@,
                Err(BoundedError::TooLong { actual, max }) => bytes@.len() > MAX && actual
                    == bytes@.len() && max == MAX,
            },
    {
        if bytes.len() > MAX {
            return Err(BoundedError::TooLong { actual: bytes.len(), max: MAX });
        }
        Ok(Self(bytes))
    }

    /// Construct without checking the cap.
    ///
    /// Reserved for callers that have already validated the length. Prefer
    /// [`Self::new`] at trust boundaries.
    #[must_use]
    pub fn new_unchecked(bytes: Vec<u8>) -> (r: Self)
        requires
            bytes@.len() <= MAX,
        ensures
            r@ == bytes@,
    {
        Self(bytes)
    }

    /// The number of elements, which never exceeds the cap.
    #[must_use]
    pub fn len(&self) -> (r: usize)
        ensures
            r == self@.len(),
            r <= MAX,
    {
        proof {
            use_type_invariant(self);
        }
        self.0.len()
    }

    /// Whether there is no element.
    #[must_use]
    pub fn is_empty(&self) -> (r: bool)
        ensures
            r == (self@.len() == 0),
    {
        self.0.len() == 0
    }

    /// The elements as a vector.
    #[must_use]
    pub fn into_inner(self) -> (r: Vec<u8>)
        ensures
            r@ == self@,
            r@.len() <= MAX,
    {
        proof {
            use_type_invariant(&self);
        }
        self.0
    }

    /// The elements as a slice.
    #[must_use]
    pub fn as_slice(&self) -> (r: &[u8])
        ensures
            r@ == self@,
            r@.len() <= MAX,
    {
        proof {
            use_type_invariant(self);
        }
        self.0.as_slice()
    }

    /// The bytes as lower-case hexadecimal digits, two for each byte.
    pub fn to_hex(&self) -> (r: String)
        requires
            2 * self@.len() <= isize::MAX,
        ensures
            r@ == hex_string(self@),
    {
        hex_encode(self.0.as_slice())
    }

    /// Reads hexadecimal digits of either case, behind an optional `0x` or `0X`.
    pub fn from_hex(digits: &str) -> (r: Result<Self, HexError>)
        ensures
            match r {
                Ok(b) => hex_bytes(digits@) == Some(b@) && b@.len() <= MAX,
                Err(HexError::Malformed) => hex_bytes(digits@) is None,
                Err(HexError::TooLong { actual, max }) => hex_bytes(digits@) matches Some(b)
                    && b.len() > MAX && actual == b.len() && max == MAX,
            },
    {
        match hex_decode(digits) {
            Ok(bytes) => match Self::new(bytes) {
                Ok(b) => Ok(b),
                Err(BoundedError::TooLong { actual, max }) => Err(HexError::TooLong { actual, max }),
            },
            Err(_) => Err(HexError::Malformed),
        }
    }
}

impl<const MAX: usize> AsRef<[u8]> for BoundedBytes<MAX> {
    fn as_ref(&self) -> (r: &[u8])
        ensures
            r@ == self@,
    {
        self.0.as_slice()
    }
}

impl<const MAX: usize> Clone for BoundedBytes<MAX> {
    fn clone(&self) -> (r: Self)
        ensures
            r@ == self@,
    {
        proof {
            use_type_invariant(self);
        }
        Self(self.0.clone())
    }
}

impl<const MAX: usize> Default for BoundedBytes<MAX> {
    fn default() -> (r: Self)
        ensures
            r@ == Seq::<u8>::empty(),
    {
        Self(Vec::new())
    }
}

impl<const MAX: usize> TryFrom<Vec<u8>> for BoundedBytes<MAX> {
    type Error = BoundedError;

    fn try_from(v: Vec<u8>) -> (r: Result<Self, Self::Error>)
        ensures
            match r {
                Ok(b) => v@.len() <= MAX && b@ == v@,
                Err(BoundedError::TooLong { actual, max }) => v@.len() > MAX && actual == v@.len()
                    && max == MAX,
            },
    {
        if v.len() > MAX {
            return Err(BoundedError::TooLong { actual: v.len(), max: MAX });
        }
        Ok(Self(v))
    }
}

impl<const MAX: usize> vstd::std_specs::convert::TryFromSpecImpl<Vec<u8>> for BoundedBytes<MAX> {
    open spec fn obeys_try_from_spec() -> bool {
        true
    }

    closed spec fn try_from_spec(v: Vec<u8>) -> Result<Self, Self::Error> {
        if v@.len() <= MAX {
            Ok(Self(v))
        } else {
            Err(BoundedError::TooLong { actual: v@.len() as usize, max: MAX })
        }
    }
}

impl<const MAX: usize> Deref for BoundedBytes<MAX> {
    type Target = [u8];

    fn deref(&self) -> (r: &[u8])
        ensures
            r@ == self@,
    {
        self.0.as_slice()
    }
}

} // verus!
