//! What constructors and setters answer when they refuse their arguments.

use vstd::prelude::*;
use crate::fixed::Fixed;

verus! {

/// A requested buffer or table size is zero, or too large to be held.
#[derive(Clone, Copy, Debug, PartialEq, Eq)]
pub struct InvalidCapacity;

/// The blocks handed over do not have the lengths that the work needs.
#[derive(Clone, Copy, Debug, PartialEq, Eq)]
pub struct ShapeMismatch;

/// Why an effect refused a construction, a parameter or a block.
///
/// `P` is the effect's own set of parameter tags.
#[derive(Debug, PartialEq, Eq)]
pub enum Error<P> {
    /// The value asked for `param` breaks a bound of the effect.
    InvalidValue { param: P, value: Fixed },
    /// A buffer that the configuration needs cannot be made.
    InvalidCapacity,
    /// The channels handed over do not have the configured shape.
    ShapeMismatch,
}

} // verus!
