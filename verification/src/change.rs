//! Generic wrappers for a value that changed, or may have changed.

use std::cmp::Ordering;
use vstd::prelude::*;
use vstd::std_specs::cmp::OrdSpec;

verus! {

/// A transition of a value from one observation to the next.
///
/// Nothing forbids `from` and `to` from being the same value; a field that
/// may be unchanged is a [`MaybeChange`].
#[derive(Debug, PartialEq, Eq, Hash)]
pub struct Change<T> {
    /// The value before the change.
    pub from: T,
    /// The value after the change.
    pub to: T,
}

/// A value that was either changed or stayed the same.
#[derive(Debug, PartialEq, Eq, Hash)]
pub enum MaybeChange<T> {
    /// The value was changed.
    Change(Change<T>),
    /// The value was not changed.
    Same(T),
}

impl<T> Change<T> {
    /// Whether `mapped` is a possible result of applying `f` to both sides of
    /// `self`.
    pub open spec fn maps_to<R, F: Fn(&T) -> R>(self, f: F, mapped: Change<R>) -> bool {
        &&& call_ensures(f, (&self.from,), mapped.from)
        &&& call_ensures(f, (&self.to,), mapped.to)
    }

    /// Applies `f` to the old and to the new value, each on its own.
    pub fn map<R, F: Fn(&T) -> R>(&self, f: F) -> (mapped: Change<R>)
        requires
            call_requires(f, (&self.from,)),
            call_requires(f, (&self.to,)),
        ensures
            self.maps_to(f, mapped),
    {
        let from = f(&self.from);
        let to = f(&self.to);
        Change { from, to }
    }
}

impl<T: Clone> Clone for Change<T> {
    /// A copy holds a clone of each side.
    fn clone(&self) -> (copy: Self)
        ensures
            self.maps_to(T::clone, copy),
    {
        self.map(T::clone)
    }
}

impl<T: Ord> Change<T> {
    /// Compares the old value to the new value: `Less` where the value grew.
    pub fn cmp(&self) -> (order: Ordering)
        ensures
            T::obeys_cmp_spec() ==> order == self.from.cmp_spec(&self.to),
    {
        self.from.cmp(&self.to)
    }
}

impl<T> MaybeChange<T> {
    /// The value after the possible change.
    pub open spec fn new_value(self) -> T {
        match self {
            MaybeChange::Change(change) => change.to,
            MaybeChange::Same(value) => value,
        }
    }

    /// The value before the possible change.
    pub open spec fn old_value(self) -> T {
        match self {
            MaybeChange::Change(change) => change.from,
            MaybeChange::Same(value) => value,
        }
    }

    /// Whether `mapped` is a possible result of applying `f` to every value
    /// held by `self`: the variant is kept.
    pub open spec fn maps_to<R, F: Fn(&T) -> R>(self, f: F, mapped: MaybeChange<R>) -> bool {
        match self {
            MaybeChange::Change(change) => mapped matches MaybeChange::Change(c) && change.maps_to(
                f,
                c,
            ),
            MaybeChange::Same(value) => mapped matches MaybeChange::Same(v) && call_ensures(
                f,
                (&value,),
                v,
            ),
        }
    }

    /// Applies `f` to the single value, or to both sides of the change.
    pub fn map<R, F: Fn(&T) -> R>(&self, f: F) -> (mapped: MaybeChange<R>)
        requires
            call_requires(f, (&self.old_value(),)),
            call_requires(f, (&self.new_value(),)),
        ensures
            self.maps_to(f, mapped),
    {
        match self {
            MaybeChange::Change(change) => MaybeChange::Change(change.map(f)),
            MaybeChange::Same(value) => MaybeChange::Same(f(value)),
        }
    }

    /// Returns whether a change occurred.
    pub fn is_changed(&self) -> (changed: bool)
        ensures
            changed == (*self is Change),
    {
        match self {
            MaybeChange::Change(_) => true,
            MaybeChange::Same(_) => false,
        }
    }

    /// Returns the value after a possible change.
    pub fn new_val(&self) -> (value: &T)
        ensures
            *value == self.new_value(),
    {
        match self {
            MaybeChange::Change(change) => &change.to,
            MaybeChange::Same(value) => value,
        }
    }

    /// Returns the value before a possible change.
    pub fn old_val(&self) -> (value: &T)
        ensures
            *value == self.old_value(),
    {
        match self {
            MaybeChange::Change(change) => &change.from,
            MaybeChange::Same(value) => value,
        }
    }
}

impl<T: Clone> Clone for MaybeChange<T> {
    /// A copy is of the same variant and holds a clone of each value.
    fn clone(&self) -> (copy: Self)
        ensures
            self.maps_to(T::clone, copy),
    {
        self.map(T::clone)
    }
}

/// An unchanged value is its own old and new value; a changed one has the
/// old value on its `from` side and the new one on its `to` side.
pub proof fn lemma_old_and_new_value<T>(value: T, from: T, to: T)
    ensures
        MaybeChange::Same(value).old_value() == value,
        MaybeChange::Same(value).new_value() == value,
        !(MaybeChange::Same(value) is Change),
        MaybeChange::Change(Change { from, to }).old_value() == from,
        MaybeChange::Change(Change { from, to }).new_value() == to,
        MaybeChange::Change(Change { from, to }) is Change,
{
}

} // verus!
