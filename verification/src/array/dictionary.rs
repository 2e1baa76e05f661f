//! Arrays of values that are held once and referred to by keys.

use crate::array::binary::as_ints;
use crate::array::{window, Array};
use crate::bitmap::{optional_bits, Bitmap};
use crate::buffer::share;
use crate::compute::sort::common::{validity_bits, SortKeys};
use crate::datatypes::DataType;
use std::sync::Arc;
use vstd::prelude::*;

verus! {

/// An immutable dictionary-encoded array: an array of integer keys, each of
/// which may be null, and a shared array of values. The value at a position
/// is the value at its key; two keys may stand for equal values.
#[derive(Debug)]
pub struct DictionaryArray {
    data_type: DataType,
    keys: Arc<Array>,
    values: Arc<Array>,
    validity: Option<Bitmap>,
    length: usize,
}

/// The place among the values for which the key at position `i` of `keys`
/// stands, or -1 where it stands for none.
pub open spec fn key_at(keys: Array, values: Array, i: int) -> int {
    let k = keys.spec_ranks()[i];
    if 0 <= k < values.spec_len() {
        k
    } else {
        -1
    }
}

impl DictionaryArray {
    /// The logical type is that of a dictionary from the type of the keys,
    /// which is an integer type, to that of the values; the length and the
    /// validity bitmap are those of the keys.
    #[verifier::type_invariant]
    spec fn consistent(&self) -> bool {
        &&& self.keys.spec_data_type().is_integer()
        &&& self.length == self.keys.spec_len()
        &&& optional_bits(self.validity) == self.keys.spec_validity()
        &&& self.validity matches Some(bitmap) ==> bitmap@.len() == self.length
        &&& self.data_type == DataType::Dictionary(
            Box::new(self.keys.spec_data_type()),
            Box::new(self.values.spec_data_type()),
        )
    }

    /// The logical type of the array.
    pub closed spec fn spec_data_type(&self) -> DataType {
        self.data_type
    }

    /// The keys.
    pub closed spec fn spec_keys(&self) -> Array {
        *self.keys
    }

    /// The values.
    pub closed spec fn spec_values(&self) -> Array {
        *self.values
    }

    /// The number of keys, nulls included.
    pub closed spec fn spec_len(&self) -> nat {
        self.length as nat
    }

    /// The validity bits of the array, which are those of its keys.
    pub closed spec fn spec_validity(&self) -> Option<Seq<bool>> {
        optional_bits(self.validity)
    }

    /// The key by which each position is sorted: the bytes of the string
    /// for which the position's key stands, and the empty key where it
    /// stands for none or the values are no strings.
    pub open spec fn spec_sort_keys(&self) -> Seq<Seq<int>> {
        Seq::new(
            self.spec_len(),
            |i: int|
                {
                    let k = key_at(self.spec_keys(), self.spec_values(), i);
                    match self.spec_values() {
                        Array::Binary(strings) => if k >= 0 {
                            as_ints(strings.spec_value(k))
                        } else {
                            Seq::empty()
                        },
                        _ => Seq::empty(),
                    }
                },
        )
    }

    /// What the array holds at each position: the scalar of the value for
    /// which its key stands, or a null where the key is null or stands for
    /// none.
    pub open spec fn scalars(&self) -> Seq<crate::array::Scalar>
        decreases self,
    {
        Seq::new(
            self.spec_len(),
            |i: int|
                {
                    let k = key_at(self.spec_keys(), self.spec_values(), i);
                    if (self.spec_validity() is None || self.spec_validity()->0[i]) && k >= 0 {
                        self.spec_values().scalars()[k]
                    } else {
                        crate::array::Scalar::Null
                    }
                },
        )
    }

    /// Creates an array from its keys and its values.
    pub fn from_data(keys: Array, values: Arc<Array>) -> (r: Self)
        requires
            keys.spec_data_type().is_integer(),
        ensures
            r.spec_data_type() == DataType::Dictionary(
                Box::new(keys.spec_data_type()),
                Box::new(values.spec_data_type()),
            ),
            r.spec_keys() == keys,
            r.spec_values() == *values,
            r.spec_len() == keys.spec_len(),
            r.spec_validity() == keys.spec_validity(),
    {
        let data_type = DataType::Dictionary(
            Box::new(keys.data_type().clone()),
            Box::new(values.data_type().clone()),
        );
        let validity = match keys.validity() {
            Some(bitmap) => Some(bitmap.clone()),
            None => None,
        };
        let length = keys.len();
        DictionaryArray { data_type, keys: Arc::new(keys), values, validity, length }
    }

    /// Returns the number of keys, nulls included.
    pub fn len(&self) -> (r: usize)
        ensures
            r == self.spec_len(),
            r == self.spec_keys().spec_len(),
    {
        proof {
            use_type_invariant(self);
        }
        self.length
    }

    /// Returns the logical type.
    pub fn data_type(&self) -> (r: &DataType)
        ensures
            *r == self.spec_data_type(),
            self.spec_keys().spec_data_type().is_integer(),
            *r == DataType::Dictionary(
                Box::new(self.spec_keys().spec_data_type()),
                Box::new(self.spec_values().spec_data_type()),
            ),
    {
        proof {
            use_type_invariant(self);
        }
        &self.data_type
    }

    /// Returns the keys.
    pub fn keys(&self) -> (r: &Arc<Array>)
        ensures
            **r == self.spec_keys(),
    {
        &self.keys
    }

    /// Returns the values.
    pub fn values(&self) -> (r: &Arc<Array>)
        ensures
            **r == self.spec_values(),
    {
        &self.values
    }

    /// Returns the validity bitmap, which is that of the keys.
    pub fn validity(&self) -> (r: &Option<Bitmap>)
        ensures
            optional_bits(*r) == self.spec_validity(),
            self.spec_validity() == self.spec_keys().spec_validity(),
            *r matches Some(bitmap) ==> bitmap@.len() == self.spec_len(),
    {
        proof {
            use_type_invariant(self);
        }
        &self.validity
    }

    /// Returns the place among the values for which the key at `i` stands,
    /// where it stands for one.
    pub fn key(&self, i: usize) -> (r: Option<usize>)
        requires
            i < self.spec_len(),
        ensures
            match r {
                Some(k) => k == key_at(self.spec_keys(), self.spec_values(), i as int),
                None => key_at(self.spec_keys(), self.spec_values(), i as int) == -1,
            },
    {
        proof {
            use_type_invariant(self);
        }
        let count = self.values.len();
        match self.keys.position(i) {
            Some(k) => if k < count {
                Some(k)
            } else {
                None
            },
            None => None,
        }
    }

    /// Returns the window of `length` keys that starts at `offset`, on the
    /// same values. The storage is shared, not copied.
    pub fn slice(&self, offset: usize, length: usize) -> (r: Self)
        requires
            offset + length <= self.spec_len(),
        ensures
            r.spec_len() == length,
            r.spec_data_type() == self.spec_data_type(),
            r.spec_values() == self.spec_values(),
            r.spec_validity() == r.spec_keys().spec_validity(),
            self.spec_validity() == self.spec_keys().spec_validity(),
            self.spec_len() == self.spec_keys().spec_len(),
            window(r.spec_keys(), self.spec_keys(), offset as int, length as int),
            r.scalars() == self.scalars().subrange(offset as int, offset + length),
            r.spec_sort_keys() == self.spec_sort_keys().subrange(offset as int, offset + length),
        decreases self,
    {
        proof {
            use_type_invariant(self);
        }
        let keys = self.keys.slice(offset, length);
        let validity = match keys.validity() {
            Some(bitmap) => Some(bitmap.clone()),
            None => None,
        };
        let r = DictionaryArray {
            data_type: self.data_type.clone(),
            keys: Arc::new(keys),
            values: share(&self.values),
            validity,
            length,
        };
        proof {
            let (o, l) = (offset as int, length as int);
            assert forall|i: int| 0 <= i < l implies r.scalars()[i] == self.scalars()[o + i]
                && r.spec_sort_keys()[i] == self.spec_sort_keys()[o + i] by {
                assert(r.spec_keys().spec_ranks()[i] == self.spec_keys().spec_ranks()[o + i]);
                assert(validity_bits(r.spec_keys().spec_validity(), r.spec_keys().spec_len())[i]
                    == validity_bits(
                    self.spec_keys().spec_validity(),
                    self.spec_keys().spec_len(),
                )[o + i]);
            }
            assert(r.scalars() =~= self.scalars().subrange(o, o + l));
            assert(r.spec_sort_keys() =~= self.spec_sort_keys().subrange(o, o + l));
        }
        r
    }
}

impl Clone for DictionaryArray {
    /// Returns another handle on the same array. Its parts are shared.
    fn clone(&self) -> (r: Self)
        ensures
            r == *self,
    {
        proof {
            use_type_invariant(self);
        }
        let validity = match &self.validity {
            Some(bitmap) => Some(bitmap.clone()),
            None => None,
        };
        DictionaryArray {
            data_type: self.data_type.clone(),
            keys: share(&self.keys),
            values: share(&self.values),
            validity,
            length: self.length,
        }
    }
}

impl SortKeys for DictionaryArray {
    /// The key of a position is the bytes of the string for which its key
    /// stands.
    open spec fn keys(&self) -> Seq<Seq<int>> {
        self.spec_sort_keys()
    }

    fn key_lt(&self, i: usize, j: usize) -> (r: bool) {
        let a = self.key(i);
        let b = self.key(j);
        match &*self.values {
            Array::Binary(strings) => match (a, b) {
                (Some(x), Some(y)) => strings.key_lt(x, y),
                (None, Some(y)) => strings.value(y).len() > 0,
                (_, None) => false,
            },
            _ => false,
        }
    }
}

} // verus!
