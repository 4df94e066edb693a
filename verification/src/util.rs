//! Types that the checks share.

use vstd::prelude::*;

verus! {

/// Unix timestamp: seconds since the epoch.
#[derive(Debug, Clone, Copy, PartialEq, Eq, PartialOrd, Ord)]
pub struct Timestamp(pub i64);

/// A parameter that is either one value for every station or one value per
/// station.
#[derive(Debug, Clone)]
pub enum SingleOrVec<T> {
    /// The same value for every station.
    Single(T),
    /// One value per station, in station order.
    Vec(Vec<T>),
}

impl<T> SingleOrVec<T> {
    /// Whether the parameter has a value for each of `n` stations.
    pub open spec fn covers(self, n: int) -> bool {
        match self {
            SingleOrVec::Single(_) => true,
            SingleOrVec::Vec(v) => v@.len() == n,
        }
    }

    /// The value that applies to station `index`.
    pub open spec fn at(self, index: int) -> T {
        match self {
            SingleOrVec::Single(value) => value,
            SingleOrVec::Vec(v) => v@[index],
        }
    }

    /// The value that applies to station `index`.
    pub fn index(&self, index: usize) -> (value: &T)
        requires
            self matches SingleOrVec::Vec(v) ==> index < v@.len(),
        ensures
            *value == self.at(index as int),
    {
        match self {
            SingleOrVec::Single(value) => value,
            SingleOrVec::Vec(v) => &v[index],
        }
    }
}

/// The elements of `array` at the positions `indices`, in the order of
/// `indices`.
pub fn subset<T: Copy>(array: &[T], indices: &[usize]) -> (picked: Vec<T>)
    requires
        forall|k: int| 0 <= k < indices@.len() ==> indices@[k] < array@.len(),
    ensures
        picked@.len() == indices@.len(),
        forall|k: int| 0 <= k < indices@.len() ==> picked@[k] == array@[indices@[k] as int],
{
    let new_length = indices.len();
    let mut new_array: Vec<T> = Vec::with_capacity(new_length);
    let mut i: usize = 0;
    while i < new_length
        invariant
            new_length == indices@.len(),
            i <= new_length,
            new_array@.len() == i,
            forall|k: int| 0 <= k < indices@.len() ==> indices@[k] < array@.len(),
            forall|k: int| 0 <= k < i ==> new_array@[k] == array@[indices@[k] as int],
        decreases new_length - i,
    {
        new_array.push(array[indices[i]]);
        i += 1;
    }
    new_array
}

} // verus!
