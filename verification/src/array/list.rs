//! Arrays of lists of any length.

use crate::array::binary::cuts;
use crate::array::{window, Array};
use crate::bitmap::{optional_bits, Bitmap};
use crate::buffer::{share, Buffer};
use crate::compute::sort::common::SortKeys;
use crate::compute::sort::order::{lex_lt, lex_lt_from};
use crate::datatypes::DataType;
use std::sync::Arc;
use vstd::prelude::*;

verus! {

/// An immutable array of lists, each of which may be null. The items of
/// all lists lie one behind the other in a shared child array; a shared
/// buffer of offsets, one more than there are lists, says where each list
/// starts and ends; an optional bitmap says which of them are valid.
#[derive(Debug)]
pub struct ListArray {
    data_type: DataType,
    offsets: Buffer<usize>,
    values: Arc<Array>,
    validity: Option<Bitmap>,
}

/// The type of the items of lists of the logical type `data_type`.
pub open spec fn list_child(data_type: DataType) -> DataType {
    match data_type {
        DataType::List(field) => field.data_type,
        DataType::LargeList(field) => field.data_type,
        DataType::FixedSizeList(field, _) => field.data_type,
        _ => DataType::Null,
    }
}

/// Returns whether the items of `values` from `a` on, up to `a_end`, come
/// before those from `b` on, up to `b_end`, in the lexicographic order of
/// their ranks.
pub fn items_lt(values: &Array, a: usize, a_end: usize, b: usize, b_end: usize) -> (r: bool)
    requires
        a <= a_end <= values.spec_len(),
        b <= b_end <= values.spec_len(),
    ensures
        r == lex_lt(
            values.spec_ranks().subrange(a as int, a_end as int),
            values.spec_ranks().subrange(b as int, b_end as int),
        ),
{
    let ghost x = values.spec_ranks().subrange(a as int, a_end as int);
    let ghost y = values.spec_ranks().subrange(b as int, b_end as int);
    let mut k: usize = 0;
    while k < a_end - a && k < b_end - b
        invariant
            a <= a_end <= values.spec_len(),
            b <= b_end <= values.spec_len(),
            values.spec_ranks().len() == values.spec_len(),
            k <= a_end - a,
            k <= b_end - b,
            x == values.spec_ranks().subrange(a as int, a_end as int),
            y == values.spec_ranks().subrange(b as int, b_end as int),
            lex_lt(x, y) == lex_lt_from(x, y, k as int),
        decreases a_end - a - k,
    {
        if values.rank_lt(a + k, b + k) {
            return true;
        }
        if values.rank_lt(b + k, a + k) {
            return false;
        }
        k += 1;
    }
    k < b_end - b
}

impl ListArray {
    /// The offsets cut the child array into lists, the bitmap has a bit
    /// for each list, and the logical type is one of lists of what the
    /// child array holds.
    #[verifier::type_invariant]
    spec fn consistent(&self) -> bool {
        &&& cuts(self.offsets@, self.values.spec_len())
        &&& self.validity matches Some(bitmap) ==> bitmap@.len() == self.offsets@.len() - 1
        &&& self.data_type is List || self.data_type is LargeList
        &&& self.values.spec_data_type() == list_child(self.data_type)
    }

    /// The logical type of the array.
    pub closed spec fn spec_data_type(&self) -> DataType {
        self.data_type
    }

    /// The offsets of the lists.
    pub closed spec fn spec_offsets(&self) -> Seq<usize> {
        self.offsets@
    }

    /// The child array, which holds the items of all lists.
    pub closed spec fn spec_values(&self) -> Array {
        *self.values
    }

    /// The validity bits of the array, where it has a bitmap.
    pub closed spec fn spec_validity(&self) -> Option<Seq<bool>> {
        optional_bits(self.validity)
    }

    /// The number of lists, nulls included.
    pub open spec fn spec_len(&self) -> nat {
        (self.spec_offsets().len() - 1) as nat
    }

    /// The key of each position: the ranks of the items of its list, where
    /// a null item counts by what lies in its slot.
    pub open spec fn spec_keys(&self) -> Seq<Seq<int>> {
        Seq::new(
            self.spec_len(),
            |i: int|
                self.spec_values().spec_ranks().subrange(
                    self.spec_offsets()[i] as int,
                    self.spec_offsets()[i + 1] as int,
                ),
        )
    }

    /// What the array holds at each position: the scalars of the items of
    /// the list, or a null.
    pub open spec fn scalars(&self) -> Seq<crate::array::Scalar>
        decreases self,
    {
        Seq::new(
            self.spec_len(),
            |i: int|
                if self.spec_validity() is None || self.spec_validity()->0[i] {
                    crate::array::Scalar::List(
                        self.spec_values().scalars().subrange(
                            self.spec_offsets()[i] as int,
                            self.spec_offsets()[i + 1] as int,
                        ),
                    )
                } else {
                    crate::array::Scalar::Null
                },
        )
    }

    /// Creates an array from its parts: the logical type, the offsets, the
    /// child array and the validity bitmap.
    pub fn from_data(
        data_type: DataType,
        offsets: Buffer<usize>,
        values: Arc<Array>,
        validity: Option<Bitmap>,
    ) -> (r: Self)
        requires
            data_type is List || data_type is LargeList,
            values.spec_data_type() == list_child(data_type),
            cuts(offsets@, values.spec_len()),
            validity matches Some(bitmap) ==> bitmap@.len() == offsets@.len() - 1,
        ensures
            r.spec_data_type() == data_type,
            r.spec_offsets() == offsets@,
            r.spec_values() == *values,
            r.spec_validity() == optional_bits(validity),
    {
        ListArray { data_type, offsets, values, validity }
    }

    /// Creates an array of `length` null lists on the child array `values`,
    /// of which they hold nothing.
    pub fn new_null(data_type: DataType, values: Arc<Array>, length: usize) -> (r: Self)
        requires
            data_type is List || data_type is LargeList,
            values.spec_data_type() == list_child(data_type),
            length < usize::MAX,
        ensures
            r.spec_len() == length,
            r.spec_data_type() == data_type,
            r.spec_values() == *values,
            r.spec_validity() == Some(Seq::new(length as nat, |i: int| false)),
    {
        let mut offsets: Vec<usize> = Vec::with_capacity(length + 1);
        let mut i: usize = 0;
        while i <= length
            invariant
                i <= length + 1,
                length < usize::MAX,
                offsets@.len() == i,
                forall|j: int| 0 <= j < i ==> #[trigger] offsets@[j] == 0,
            decreases length + 1 - i,
        {
            offsets.push(0);
            i += 1;
        }
        ListArray {
            data_type,
            offsets: Buffer::from_vec(offsets),
            values,
            validity: Some(Bitmap::new_zeroed(length)),
        }
    }

    /// Creates an array of no list on the child array `values`.
    pub fn new_empty(data_type: DataType, values: Arc<Array>) -> (r: Self)
        requires
            data_type is List || data_type is LargeList,
            values.spec_data_type() == list_child(data_type),
        ensures
            r.spec_len() == 0,
            r.spec_data_type() == data_type,
            r.spec_values() == *values,
            r.spec_validity() is None,
    {
        let mut offsets: Vec<usize> = Vec::new();
        offsets.push(0);
        ListArray { data_type, offsets: Buffer::from_vec(offsets), values, validity: None }
    }

    /// Returns the number of lists, nulls included.
    pub fn len(&self) -> (r: usize)
        ensures
            r == self.spec_len(),
            self.spec_validity() matches Some(bits) ==> bits.len() == r,
    {
        proof {
            use_type_invariant(self);
        }
        self.offsets.len() - 1
    }

    /// Returns the offsets of the lists, which cut the child array.
    pub fn offsets(&self) -> (r: &Buffer<usize>)
        ensures
            r@ == self.spec_offsets(),
            cuts(r@, self.spec_values().spec_len()),
    {
        proof {
            use_type_invariant(self);
        }
        &self.offsets
    }

    /// Returns the logical type.
    pub fn data_type(&self) -> (r: &DataType)
        ensures
            *r == self.spec_data_type(),
            *r is List || *r is LargeList,
            self.spec_values().spec_data_type() == list_child(*r),
    {
        proof {
            use_type_invariant(self);
        }
        &self.data_type
    }

    /// Returns the validity bitmap, where the array has one.
    pub fn validity(&self) -> (r: &Option<Bitmap>)
        ensures
            self.spec_validity() == optional_bits(*r),
            *r matches Some(bitmap) ==> bitmap@.len() == self.spec_len(),
    {
        proof {
            use_type_invariant(self);
        }
        &self.validity
    }

    /// Returns the child array, which holds the items of all lists.
    pub fn values(&self) -> (r: &Arc<Array>)
        ensures
            **r == self.spec_values(),
    {
        &self.values
    }

    /// Returns where the list at `i` starts and ends in the child array.
    pub fn bounds(&self, i: usize) -> (r: (usize, usize))
        requires
            i < self.spec_len(),
        ensures
            r.0 == self.spec_offsets()[i as int],
            r.1 == self.spec_offsets()[i + 1],
            r.0 <= r.1 <= self.spec_values().spec_len(),
    {
        proof {
            use_type_invariant(self);
        }
        let count = self.offsets.len();
        let start = *self.offsets.get(i);
        let end = *self.offsets.get(i + 1);
        assert(self.offsets@[i as int] <= self.offsets@[i + 1]);
        assert(self.offsets@[i + 1] <= self.offsets@[self.offsets@.len() - 1]);
        (start, end)
    }

    /// Returns the list at `i`: a window of the child array.
    pub fn value(&self, i: usize) -> (r: Array)
        requires
            i < self.spec_len(),
        ensures
            window(
                r,
                self.spec_values(),
                self.spec_offsets()[i as int] as int,
                self.spec_offsets()[i + 1] - self.spec_offsets()[i as int],
            ),
    {
        let (start, end) = self.bounds(i);
        self.values.slice(start, end - start)
    }

    /// Returns the window of `length` lists that starts at `offset`. The
    /// child array, the offsets and the bitmap are shared, not copied.
    pub fn slice(&self, offset: usize, length: usize) -> (r: Self)
        requires
            offset + length <= self.spec_len(),
        ensures
            r.spec_len() == length,
            r.spec_data_type() == self.spec_data_type(),
            r.spec_values() == self.spec_values(),
            r.spec_offsets() == self.spec_offsets().subrange(offset as int, offset + length + 1),
            r.spec_validity() == match self.spec_validity() {
                Some(bits) => Some(bits.subrange(offset as int, offset + length)),
                None => None,
            },
            r.scalars() == self.scalars().subrange(offset as int, offset + length),
            r.spec_keys() == self.spec_keys().subrange(offset as int, offset + length),
    {
        proof {
            use_type_invariant(self);
        }
        let validity = match &self.validity {
            Some(bitmap) => Some(bitmap.clone().slice(offset, length)),
            None => None,
        };
        let count = self.offsets.len();
        let offsets = self.offsets.clone().slice(offset, length + 1);
        proof {
            assert forall|i: int, j: int| 0 <= i <= j < offsets@.len() implies #[trigger] offsets@[i]
                <= #[trigger] offsets@[j] by {
                assert(self.offsets@[offset + i] <= self.offsets@[offset + j]);
            }
            assert(self.offsets@[offset + length] <= self.offsets@[self.offsets@.len() - 1]);
        }
        let r = ListArray {
            data_type: self.data_type.clone(),
            offsets,
            values: share(&self.values),
            validity,
        };
        assert(r.scalars() =~= self.scalars().subrange(offset as int, offset + length));
        assert(r.spec_keys() =~= self.spec_keys().subrange(offset as int, offset + length));
        r
    }
}

impl Clone for ListArray {
    /// Returns another handle on the same array. Its parts are shared.
    fn clone(&self) -> (r: Self)
        ensures
            r == *self,
    {
        proof {
            use_type_invariant(self);
        }
        let validity = match &self.validity {
            Some(bitmap) => Some(bitmap.clone()),
            None => None,
        };
        ListArray {
            data_type: self.data_type.clone(),
            offsets: self.offsets.clone(),
            values: share(&self.values),
            validity,
        }
    }
}

impl SortKeys for ListArray {
    /// The key of a position is the ranks of the items of its list, where a
    /// null item counts by what lies in its slot. A list that is the start
    /// of a longer one comes before it.
    open spec fn keys(&self) -> Seq<Seq<int>> {
        self.spec_keys()
    }

    fn key_lt(&self, i: usize, j: usize) -> (r: bool) {
        let (a, a_end) = self.bounds(i);
        let (b, b_end) = self.bounds(j);
        items_lt(&self.values, a, a_end, b, b_end)
    }
}

} // verus!
