//! Arrays of nothing but nulls.

use crate::datatypes::DataType;
use vstd::prelude::*;

verus! {

/// An array of nulls of the logical type `Null`. It holds nothing but its
/// length.
#[derive(Debug)]
pub struct NullArray {
    data_type: DataType,
    length: usize,
}

impl NullArray {
    /// The logical type is `Null`.
    #[verifier::type_invariant]
    spec fn consistent(&self) -> bool {
        self.data_type is Null
    }

    /// The number of nulls.
    pub closed spec fn spec_len(&self) -> nat {
        self.length as nat
    }

    /// The logical type of the array.
    pub closed spec fn spec_data_type(&self) -> DataType {
        self.data_type
    }

    /// Creates an array of `length` nulls.
    pub fn new_null(length: usize) -> (r: Self)
        ensures
            r.spec_len() == length,
            r.spec_data_type() == DataType::Null,
    {
        NullArray { data_type: DataType::Null, length }
    }

    /// Creates an array of no null.
    pub fn new_empty() -> (r: Self)
        ensures
            r.spec_len() == 0,
            r.spec_data_type() == DataType::Null,
    {
        NullArray { data_type: DataType::Null, length: 0 }
    }

    /// Returns the number of nulls.
    pub fn len(&self) -> (r: usize)
        ensures
            r == self.spec_len(),
    {
        self.length
    }

    /// Returns the logical type, which is `Null`.
    pub fn data_type(&self) -> (r: &DataType)
        ensures
            *r == self.spec_data_type(),
            *r == DataType::Null,
    {
        proof {
            use_type_invariant(self);
        }
        &self.data_type
    }

    /// Returns the window of `length` nulls that starts at `offset`.
    pub fn slice(&self, offset: usize, length: usize) -> (r: Self)
        requires
            offset + length <= self.spec_len(),
        ensures
            r.spec_len() == length,
            r.spec_data_type() == self.spec_data_type(),
    {
        proof {
            use_type_invariant(self);
        }
        NullArray { data_type: DataType::Null, length }
    }
}

impl Clone for NullArray {
    fn clone(&self) -> (r: Self)
        ensures
            r == *self,
    {
        proof {
            use_type_invariant(self);
        }
        NullArray { data_type: DataType::Null, length: self.length }
    }
}

} // verus!
