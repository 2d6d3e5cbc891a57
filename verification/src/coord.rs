//! Coordinate-space conversion capability. Concrete transforms (linear
//! screen mappings, time or pitch axes) live with the presentation layer
//! that owns the numeric types involved; the capability itself is just a
//! pair of mutually inverse mappings.

use vstd::prelude::*;

verus! {

/// A conversion between two coordinate spaces, with its inverse:
/// `inverse(transform(x))` is meant to give back `x`.
pub trait Transform<A, B> {
    fn transform(&self, val: A) -> B;

    fn inverse(&self, val: B) -> A;
}

} // verus!
