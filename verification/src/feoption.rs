//! Optional value of a random variable.
//!
//! An [`FeOption`] is the memo cell of one variable. It is [`FeOption::Known`]
//! and holds a value, or [`FeOption::Unknown`] (not drawn yet in this trial),
//! or [`FeOption::Null`] (the variable has no value in its domain). A `Null`
//! is a settled state too: it is not the same as `Unknown`.

use vstd::prelude::*;

verus! {

/// The state of a memo cell.
#[derive(Copy, Clone, Debug, PartialEq, Eq)]
pub enum FeOption<T> {
    /// The variable has no value in its domain.
    Null,
    /// The variable has not been drawn yet.
    Unknown,
    /// The variable has been drawn, and this is its value.
    Known(T),
}

impl<T> FeOption<T> {
    /// Returns `true` if the cell is `Null`.
    #[inline]
    pub fn is_null(&self) -> (b: bool)
        ensures
            b == (*self is Null),
    {
        matches!(*self, FeOption::Null)
    }

    /// Returns `true` if the cell is `Unknown`.
    #[inline]
    pub fn is_unknown(&self) -> (b: bool)
        ensures
            b == (*self is Unknown),
    {
        matches!(*self, FeOption::Unknown)
    }

    /// Returns `true` if the cell is `Known`.
    #[inline]
    pub fn is_known(&self) -> (b: bool)
        ensures
            b == (*self is Known),
    {
        matches!(*self, FeOption::Known(_))
    }

    /// Returns the value of a `Known` cell, consuming the cell.
    ///
    /// A `Null` or `Unknown` cell holds no value: the precondition leaves
    /// both out.
    #[inline]
    pub fn unwrap(self) -> (value: T)
        requires
            self is Known,
        ensures
            self == FeOption::Known(value),
    {
        match self {
            FeOption::Known(val) => val,
            _ => vstd::pervasive::unreached(),
        }
    }
}

} // verus!
