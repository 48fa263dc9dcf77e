//! A total order on sampled values.

use crate::numeric::Numeric;
use core::cmp::Ordering;
use vstd::prelude::*;

verus! {

/// A sampled value, ordered as the integer that it stands for.
#[derive(Clone, Copy, Debug)]
pub struct Ordered<T: Numeric>(pub T);

impl<T: Numeric> Ordered<T> {
    /// Whether this value is at most `other`.
    pub fn le(&self, other: &Self) -> (b: bool)
        ensures
            b == (self.0.as_int() <= other.0.as_int()),
    {
        match self.cmp(other) {
            Ordering::Greater => false,
            _ => true,
        }
    }

    /// How this value stands to `other`.
    pub fn cmp(&self, other: &Self) -> (o: Ordering)
        ensures
            (o == Ordering::Less) == (self.0.as_int() < other.0.as_int()),
            (o == Ordering::Equal) == (self.0.as_int() == other.0.as_int()),
            (o == Ordering::Greater) == (self.0.as_int() > other.0.as_int()),
    {
        let a = self.0.magnitude();
        let b = other.0.magnitude();
        if self.0.is_negative() {
            if !other.0.is_negative() {
                Ordering::Less
            } else if a > b {
                Ordering::Less
            } else if a == b {
                Ordering::Equal
            } else {
                Ordering::Greater
            }
        } else if other.0.is_negative() {
            Ordering::Greater
        } else if a < b {
            Ordering::Less
        } else if a == b {
            Ordering::Equal
        } else {
            Ordering::Greater
        }
    }
}

} // verus!
