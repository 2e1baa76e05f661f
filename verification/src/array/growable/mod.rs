//! Builders that grow one new array out of ranges of existing arrays.

pub mod primitive;
pub mod utils;

pub use primitive::GrowablePrimitive;

use crate::array::{Array, Scalar};
use std::sync::Arc;
use vstd::prelude::*;

verus! {

/// A builder of one array out of ranges of source arrays of one kind and
/// of runs of nulls. Concatenation, gathering and filtering are such
/// sequences of ranges.
pub trait Growable {
    /// What each source holds at each of its positions.
    spec fn spec_sources(&self) -> Seq<Seq<Scalar>>;

    /// What the output holds so far at each of its positions.
    spec fn spec_output(&self) -> Seq<Scalar>;

    /// Appends the `len` values of source `index` that start at `start`,
    /// nulls among them as nulls.
    fn extend(&mut self, index: usize, start: usize, len: usize)
        requires
            index < old(self).spec_sources().len(),
            start + len <= old(self).spec_sources()[index as int].len(),
            old(self).spec_output().len() + len <= usize::MAX,
        ensures
            final(self).spec_output() == old(self).spec_output() + old(
                self,
            ).spec_sources()[index as int].subrange(start as int, start + len),
            final(self).spec_sources() == old(self).spec_sources(),
    ;

    /// Appends `additional` nulls.
    fn extend_validity(&mut self, additional: usize)
        requires
            old(self).spec_output().len() + additional <= usize::MAX,
        ensures
            final(self).spec_output() == old(self).spec_output() + Seq::new(
                additional as nat,
                |i: int| Scalar::Null,
            ),
            final(self).spec_sources() == old(self).spec_sources(),
    ;

    /// Hands out the output as a shared array and starts a new, empty one
    /// on the same sources.
    fn as_arc(&mut self) -> (r: Arc<Array>)
        ensures
            r.scalars() == old(self).spec_output(),
            final(self).spec_output().len() == 0,
            final(self).spec_sources() == old(self).spec_sources(),
    ;

    /// Hands out the output as an array and starts a new, empty one on the
    /// same sources.
    fn as_box(&mut self) -> (r: Box<Array>)
        ensures
            r.scalars() == old(self).spec_output(),
            final(self).spec_output().len() == 0,
            final(self).spec_sources() == old(self).spec_sources(),
    ;
}

} // verus!
