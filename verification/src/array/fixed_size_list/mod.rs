//! Arrays of lists of one fixed length.

use crate::array::list::{items_lt, list_child};
use crate::array::{new_empty_array, new_null_array, null_fits, window, Array};
use crate::bitmap::{optional_bits, Bitmap};
use crate::buffer::share;
use crate::compute::sort::common::SortKeys;
use crate::datatypes::{DataType, Field};
use std::sync::Arc;
use vstd::prelude::*;

verus! {

/// The number of items of each list of the logical type `data_type`.
pub open spec fn list_size(data_type: DataType) -> int {
    match data_type {
        DataType::FixedSizeList(_, size) => size as int,
        _ => 0,
    }
}

/// An immutable array of lists of one fixed length, each of which may be
/// null. The items of all lists lie one behind the other in a shared child
/// array, those of null lists too; an optional bitmap says which lists are
/// valid. The array remembers at which list of the array that it was
/// sliced from it starts.
#[derive(Debug)]
pub struct FixedSizeListArray {
    size: usize,
    length: usize,
    data_type: DataType,
    values: Arc<Array>,
    validity: Option<Bitmap>,
    offset: usize,
}

impl FixedSizeListArray {
    /// The logical type is one of lists of a fixed positive size of what
    /// the child array holds, the child array holds a whole number of
    /// lists, and the bitmap has a bit for each list.
    #[verifier::type_invariant]
    spec fn consistent(&self) -> bool {
        &&& self.data_type is FixedSizeList
        &&& self.size == list_size(self.data_type)
        &&& self.size > 0
        &&& self.values.spec_data_type() == list_child(self.data_type)
        &&& self.values.spec_len() == self.length * self.size
        &&& self.offset + self.length <= usize::MAX
        &&& self.validity matches Some(bitmap) ==> bitmap@.len() == self.length
    }

    /// The logical type of the array.
    pub closed spec fn spec_data_type(&self) -> DataType {
        self.data_type
    }

    /// The number of items of each list.
    pub closed spec fn spec_size(&self) -> nat {
        self.size as nat
    }

    /// The child array, which holds the items of all lists.
    pub closed spec fn spec_values(&self) -> Array {
        *self.values
    }

    /// The validity bits of the array, where it has a bitmap.
    pub closed spec fn spec_validity(&self) -> Option<Seq<bool>> {
        optional_bits(self.validity)
    }

    /// The list of the array that this one was sliced from at which it
    /// starts.
    pub closed spec fn spec_offset(&self) -> nat {
        self.offset as nat
    }

    /// The number of lists, nulls included.
    pub closed spec fn spec_len(&self) -> nat {
        self.length as nat
    }

    /// The key of each position: the ranks of the items of its list, where
    /// a null item counts by what lies in its slot.
    pub open spec fn spec_keys(&self) -> Seq<Seq<int>> {
        Seq::new(
            self.spec_len(),
            |i: int|
                self.spec_values().spec_ranks().subrange(
                    i * self.spec_size(),
                    (i + 1) * self.spec_size(),
                ),
        )
    }

    /// What the array holds at each position: the scalars of the items of
    /// the list, or a null.
    pub open spec fn scalars(&self) -> Seq<crate::array::Scalar>
        decreases self,
    {
        Seq::new(
            self.spec_len(),
            |i: int|
                if self.spec_validity() is None || self.spec_validity()->0[i] {
                    crate::array::Scalar::List(
                        self.spec_values().scalars().subrange(
                            i * self.spec_size(),
                            (i + 1) * self.spec_size(),
                        ),
                    )
                } else {
                    crate::array::Scalar::Null
                },
        )
    }

    /// Creates an array of no list.
    pub fn new_empty(data_type: DataType) -> (r: Self)
        requires
            data_type is FixedSizeList,
            data_type.constructible(),
        ensures
            r.spec_len() == 0,
            r.spec_data_type() == data_type,
            r.spec_validity() is None,
            r.spec_size() == list_size(data_type),
            r.spec_values().spec_len() == 0,
            r.spec_values().spec_data_type() == list_child(data_type),
            r.spec_offset() == 0,
    {
        let child = Self::get_child_and_size(&data_type).0.clone();
        let values = Arc::new(new_empty_array(child));
        Self::from_data(data_type, values, None)
    }

    /// Creates an array of `length` null lists. The child array holds a
    /// null for each of their items.
    pub fn new_null(data_type: DataType, length: usize) -> (r: Self)
        requires
            data_type is FixedSizeList,
            data_type.constructible(),
            null_fits(data_type, length as int),
        ensures
            r.spec_len() == length,
            r.spec_data_type() == data_type,
            r.spec_validity() == Some(Seq::new(length as nat, |i: int| false)),
            r.spec_size() == list_size(data_type),
            r.spec_values().spec_len() == length * list_size(data_type),
            r.spec_values().spec_data_type() == list_child(data_type),
            !(list_child(data_type) is Null) ==> r.spec_values().spec_validity() == Some(
                Seq::new((length * list_size(data_type)) as nat, |i: int| false),
            ),
            r.spec_offset() == 0,
    {
        let (child, size) = Self::get_child_and_size(&data_type);
        let size = *size as usize;
        assert(length * size <= usize::MAX);
        let values = Arc::new(new_null_array(child.clone(), length * size));
        proof {
            lemma_whole(length as int, size as int);
        }
        Self::from_data(data_type, values, Some(Bitmap::new_zeroed(length)))
    }

    /// Creates an array from its parts: the logical type, the child array
    /// and the validity bitmap.
    pub fn from_data(data_type: DataType, values: Arc<Array>, validity: Option<Bitmap>) -> (r: Self)
        requires
            data_type is FixedSizeList,
            list_size(data_type) > 0,
            values.spec_data_type() == list_child(data_type),
            values.spec_len() % (list_size(data_type) as nat) == 0,
            validity matches Some(bitmap) ==> bitmap@.len() == values.spec_len() / (list_size(
                data_type,
            ) as nat),
        ensures
            r.spec_data_type() == data_type,
            r.spec_size() == list_size(data_type),
            r.spec_values() == *values,
            r.spec_validity() == optional_bits(validity),
            r.spec_offset() == 0,
            r.spec_len() == values.spec_len() / (list_size(data_type) as nat),
    {
        let (_, size) = Self::get_child_and_size(&data_type);
        let size = *size as usize;
        let count = values.len();
        let length = count / size;
        proof {
            vstd::arithmetic::div_mod::lemma_fundamental_div_mod(count as int, size as int);
            assert(length * size == size * (count as int / size as int)) by (nonlinear_arith)
                requires
                    length == count as int / size as int,
            ;
        }
        FixedSizeListArray { size, length, data_type, values, validity, offset: 0 }
    }

    /// Returns the window of `length` lists that starts at `offset`: the
    /// window of the child array that holds their items, and that of the
    /// bitmap. The storage is shared, not copied.
    pub fn slice(&self, offset: usize, length: usize) -> (r: Self)
        requires
            offset + length <= self.spec_len(),
        ensures
            r.spec_len() == length,
            r.spec_data_type() == self.spec_data_type(),
            r.spec_size() == self.spec_size(),
            r.spec_offset() == self.spec_offset() + offset,
            r.spec_validity() == match self.spec_validity() {
                Some(bits) => Some(bits.subrange(offset as int, offset + length)),
                None => None,
            },
            window(
                r.spec_values(),
                self.spec_values(),
                offset * self.spec_size(),
                length * self.spec_size(),
            ),
            r.scalars() == self.scalars().subrange(offset as int, offset + length),
            r.spec_keys() == self.spec_keys().subrange(offset as int, offset + length),
        decreases self,
    {
        proof {
            use_type_invariant(self);
        }
        let validity = match &self.validity {
            Some(bitmap) => Some(bitmap.clone().slice(offset, length)),
            None => None,
        };
        let size = self.size;
        let count = self.values.len();
        proof {
            lemma_window(self.length as int, size as int, offset as int, length as int);
        }
        let values = Arc::new(self.values.slice(offset * size, length * size));
        let r = FixedSizeListArray {
            data_type: self.data_type.clone(),
            size,
            length,
            values,
            validity,
            offset: self.offset + offset,
        };
        proof {
            let (o, l) = (offset as int, length as int);
            assert forall|i: int| 0 <= i < l implies r.scalars()[i] == self.scalars()[o + i]
                && r.spec_keys()[i] == self.spec_keys()[o + i] by {
                lemma_window(self.length as int, size as int, o + i, 1);
                lemma_window(length as int, size as int, i, 1);
                assert((o + i) * size == o * size + i * size) by (nonlinear_arith);
                assert((o + i + 1) * size == o * size + (i + 1) * size) by (nonlinear_arith);
                assert((i + 1) * size == i * size + size) by (nonlinear_arith);
                assert(r.spec_values().scalars().subrange(i * size, (i + 1) * size)
                    =~= self.spec_values().scalars().subrange(
                    (o + i) * size,
                    (o + i + 1) * size,
                ));
                assert(r.spec_values().spec_ranks().subrange(i * size, (i + 1) * size)
                    =~= self.spec_values().spec_ranks().subrange(
                    (o + i) * size,
                    (o + i + 1) * size,
                ));
            }
            assert(r.scalars() =~= self.scalars().subrange(o, o + l));
            assert(r.spec_keys() =~= self.spec_keys().subrange(o, o + l));
        }
        r
    }

    /// Returns the child array, which holds the items of all lists.
    pub fn values(&self) -> (r: &Arc<Array>)
        ensures
            **r == self.spec_values(),
    {
        &self.values
    }

    /// Returns the list at `i`: the window of the child array that holds
    /// its items. Whether the list is null the window does not say.
    pub fn value(&self, i: usize) -> (r: Array)
        requires
            i < self.spec_len(),
        ensures
            window(r, self.spec_values(), i * self.spec_size(), self.spec_size() as int),
    {
        proof {
            use_type_invariant(self);
        }
        let count = self.values.len();
        proof {
            lemma_window(self.length as int, self.size as int, i as int, 1);
        }
        self.values.slice(i * self.size, self.size)
    }

    /// Returns the type of the items and the number of items of each list
    /// of the logical type `data_type`.
    pub fn get_child_and_size(data_type: &DataType) -> (r: (&DataType, &i32))
        requires
            *data_type is FixedSizeList,
        ensures
            *r.0 == list_child(*data_type),
            *r.1 == list_size(*data_type),
    {
        match data_type {
            DataType::FixedSizeList(field, size) => (field.data_type(), size),
            _ => {
                assert(false);
                (data_type, &0)
            },
        }
    }

    /// Returns the logical type of lists of `size` items of the type
    /// `data_type`, which may be null and go by the name `item`.
    pub fn default_datatype(data_type: DataType, size: usize) -> (r: DataType)
        requires
            size <= i32::MAX,
        ensures
            r is FixedSizeList,
            list_child(r) == data_type,
            list_size(r) == size,
            r->FixedSizeList_0.nullable,
            r->FixedSizeList_0.name@ == "item"@,
    {
        let field = Box::new(Field::new("item", data_type, true));
        DataType::FixedSizeList(field, size as i32)
    }

    /// Returns the number of lists, nulls included.
    pub fn len(&self) -> (r: usize)
        ensures
            r == self.spec_len(),
            self.spec_validity() matches Some(bits) ==> bits.len() == r,
    {
        proof {
            use_type_invariant(self);
        }
        self.length
    }

    /// Returns the number of items of each list.
    pub fn size(&self) -> (r: usize)
        ensures
            r == self.spec_size(),
            r > 0,
            self.spec_values().spec_len() == self.spec_len() * r,
    {
        proof {
            use_type_invariant(self);
        }
        self.size
    }

    /// Returns the logical type.
    pub fn data_type(&self) -> (r: &DataType)
        ensures
            *r == self.spec_data_type(),
            *r is FixedSizeList,
            list_size(*r) == self.spec_size(),
            self.spec_size() > 0,
            self.spec_values().spec_data_type() == list_child(*r),
    {
        proof {
            use_type_invariant(self);
        }
        &self.data_type
    }

    /// Returns the validity bitmap, where the array has one.
    pub fn validity(&self) -> (r: &Option<Bitmap>)
        ensures
            self.spec_validity() == optional_bits(*r),
            *r matches Some(bitmap) ==> bitmap@.len() == self.spec_len(),
    {
        proof {
            use_type_invariant(self);
        }
        &self.validity
    }

    /// Returns the list of the array that this one was sliced from at
    /// which it starts.
    pub fn offset(&self) -> (r: usize)
        ensures
            r == self.spec_offset(),
    {
        self.offset
    }

    /// Returns where the list at `i` starts and ends in the child array.
    pub fn bounds(&self, i: usize) -> (r: (usize, usize))
        requires
            i < self.spec_len(),
        ensures
            r.0 == i * self.spec_size(),
            r.1 == (i + 1) * self.spec_size(),
            r.0 <= r.1 <= self.spec_values().spec_len(),
    {
        proof {
            use_type_invariant(self);
        }
        let count = self.values.len();
        proof {
            lemma_window(self.length as int, self.size as int, i as int, 1);
            assert((i + 1) * self.size == i * self.size + self.size) by (nonlinear_arith);
        }
        (i * self.size, i * self.size + self.size)
    }
}

/// A window of `length` lists of `size` items, from list `offset` on, lies
/// within the items of `count` lists where it lies within the lists.
proof fn lemma_window(count: int, size: int, offset: int, length: int)
    requires
        0 < size,
        0 <= offset,
        0 <= length,
        offset + length <= count,
    ensures
        0 <= offset * size,
        0 <= length * size,
        offset * size + length * size <= count * size,
        offset * size + length * size == (offset + length) * size,
        length * size == 1 * size ==> length == 1,
{
    assert((offset + length) * size <= count * size) by (nonlinear_arith)
        requires
            0 < size,
            0 <= offset + length <= count,
    ;
    assert(offset * size + length * size == (offset + length) * size) by (nonlinear_arith);
    assert(0 <= offset * size) by (nonlinear_arith)
        requires
            0 <= offset,
            0 < size,
    ;
    assert(0 <= length * size) by (nonlinear_arith)
        requires
            0 <= length,
            0 < size,
    ;
    assert(length * size == 1 * size ==> length == 1) by (nonlinear_arith)
        requires
            0 < size,
    ;
}

/// The items of `length` lists of `size` items are a whole number of
/// lists, and that number is `length`.
pub proof fn lemma_whole(length: int, size: int)
    requires
        0 <= length,
        0 < size,
    ensures
        (length * size) % size == 0,
        (length * size) / size == length,
        length * size >= 0,
{
    vstd::arithmetic::div_mod::lemma_div_multiples_vanish(length, size);
    vstd::arithmetic::div_mod::lemma_mod_multiples_basic(length, size);
    assert(length * size == size * length) by (nonlinear_arith);
    assert(length * size >= 0) by (nonlinear_arith)
        requires
            0 <= length,
            0 < size,
    ;
}

impl Clone for FixedSizeListArray {
    /// Returns another handle on the same array. Its parts are shared.
    fn clone(&self) -> (r: Self)
        ensures
            r == *self,
    {
        proof {
            use_type_invariant(self);
        }
        let validity = match &self.validity {
            Some(bitmap) => Some(bitmap.clone()),
            None => None,
        };
        FixedSizeListArray {
            size: self.size,
            length: self.length,
            data_type: self.data_type.clone(),
            values: share(&self.values),
            validity,
            offset: self.offset,
        }
    }
}

impl SortKeys for FixedSizeListArray {
    /// The key of a position is the ranks of the items of its list, where a
    /// null item counts by what lies in its slot.
    open spec fn keys(&self) -> Seq<Seq<int>> {
        self.spec_keys()
    }

    fn key_lt(&self, i: usize, j: usize) -> (r: bool) {
        let (a, a_end) = self.bounds(i);
        let (b, b_end) = self.bounds(j);
        items_lt(&self.values, a, a_end, b, b_end)
    }
}

} // verus!
