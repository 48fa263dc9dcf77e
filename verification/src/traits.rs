//! How per-entity state is projected to the values that are reported.

use vstd::prelude::*;

verus! {

/// A projection from the state of one entity to a value of type `Out`.
pub trait Sample<Out>: Sized {
    /// Projects the state of one entity.
    fn sample(component: &Self) -> Out;
}

/// A projection from the states of a whole population to a value of type `Out`.
///
/// The states come in no particular order, and the result must not depend on it.
pub trait SampleAggregate<Out>: Sized {
    /// Whether the projection is defined on a population of `count` states. Unless
    /// an implementation says otherwise, it is defined on every population that is
    /// not empty.
    open spec fn defined_on(count: nat) -> bool {
        count > 0
    }

    /// Projects the states of a population.
    fn sample_aggregate(components: &[&Self]) -> Out
        requires
            Self::defined_on(components@.len()),
    ;
}

/// A value that tells one entity from every other.
pub trait Identifier: Eq + core::hash::Hash {
}

impl<I: Eq + core::hash::Hash> Identifier for I {
}

/// A state that converts into `usize` projects to what it converts into.
impl<T> Sample<usize> for T where for <'a>&'a T: Into<usize> {
    fn sample(component: &Self) -> (out: usize)
        ensures
            call_ensures(<&T as Into<usize>>::into, (component,), out),
    {
        component.into()
    }
}

/// A state that converts into `u8` projects to what it converts into.
impl<T> Sample<u8> for T where for <'a>&'a T: Into<u8> {
    fn sample(component: &Self) -> (out: u8)
        ensures
            call_ensures(<&T as Into<u8>>::into, (component,), out),
    {
        component.into()
    }
}

/// A state that converts into `u16` projects to what it converts into.
impl<T> Sample<u16> for T where for <'a>&'a T: Into<u16> {
    fn sample(component: &Self) -> (out: u16)
        ensures
            call_ensures(<&T as Into<u16>>::into, (component,), out),
    {
        component.into()
    }
}

/// A state that converts into `u32` projects to what it converts into.
impl<T> Sample<u32> for T where for <'a>&'a T: Into<u32> {
    fn sample(component: &Self) -> (out: u32)
        ensures
            call_ensures(<&T as Into<u32>>::into, (component,), out),
    {
        component.into()
    }
}

/// A state that converts into `u64` projects to what it converts into.
impl<T> Sample<u64> for T where for <'a>&'a T: Into<u64> {
    fn sample(component: &Self) -> (out: u64)
        ensures
            call_ensures(<&T as Into<u64>>::into, (component,), out),
    {
        component.into()
    }
}

/// A state that converts into `u128` projects to what it converts into.
impl<T> Sample<u128> for T where for <'a>&'a T: Into<u128> {
    fn sample(component: &Self) -> (out: u128)
        ensures
            call_ensures(<&T as Into<u128>>::into, (component,), out),
    {
        component.into()
    }
}

/// A state that converts into `i8` projects to what it converts into.
impl<T> Sample<i8> for T where for <'a>&'a T: Into<i8> {
    fn sample(component: &Self) -> (out: i8)
        ensures
            call_ensures(<&T as Into<i8>>::into, (component,), out),
    {
        component.into()
    }
}

/// A state that converts into `i16` projects to what it converts into.
impl<T> Sample<i16> for T where for <'a>&'a T: Into<i16> {
    fn sample(component: &Self) -> (out: i16)
        ensures
            call_ensures(<&T as Into<i16>>::into, (component,), out),
    {
        component.into()
    }
}

/// A state that converts into `i32` projects to what it converts into.
impl<T> Sample<i32> for T where for <'a>&'a T: Into<i32> {
    fn sample(component: &Self) -> (out: i32)
        ensures
            call_ensures(<&T as Into<i32>>::into, (component,), out),
    {
        component.into()
    }
}

/// A state that converts into `i64` projects to what it converts into.
impl<T> Sample<i64> for T where for <'a>&'a T: Into<i64> {
    fn sample(component: &Self) -> (out: i64)
        ensures
            call_ensures(<&T as Into<i64>>::into, (component,), out),
    {
        component.into()
    }
}

/// A state that converts into `i128` projects to what it converts into.
impl<T> Sample<i128> for T where for <'a>&'a T: Into<i128> {
    fn sample(component: &Self) -> (out: i128)
        ensures
            call_ensures(<&T as Into<i128>>::into, (component,), out),
    {
        component.into()
    }
}

} // verus!
