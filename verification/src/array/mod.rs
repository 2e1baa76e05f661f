//! Typed, null-aware arrays that share their storage.

pub mod binary;
pub mod boolean;
pub mod dictionary;
pub mod fixed_size_list;
pub mod growable;
pub mod list;
pub mod null;
pub mod primitive;

pub use binary::{BinaryArray, Utf8Array};
pub use boolean::BooleanArray;
pub use dictionary::DictionaryArray;
pub use fixed_size_list::FixedSizeListArray;
pub use list::ListArray;
pub use null::NullArray;
pub use primitive::PrimitiveArray;

use crate::bitmap::{optional_bits, Bitmap};
use crate::compute::sort::common::{validity_bits, SortKeys};
use crate::datatypes::{DataType, IntervalUnit};
use std::sync::Arc;
use crate::types::{days_ms, Float32, Float64, NativeType};
use vstd::prelude::*;

verus! {

/// An array of any kind: one variant for each physical layout. The logical
/// type of an array says what its values mean; several logical types share
/// one layout.
#[derive(Debug)]
pub enum Array {
    Null(NullArray),
    Boolean(BooleanArray),
    Int8(PrimitiveArray<i8>),
    Int16(PrimitiveArray<i16>),
    Int32(PrimitiveArray<i32>),
    Int64(PrimitiveArray<i64>),
    UInt8(PrimitiveArray<u8>),
    UInt16(PrimitiveArray<u16>),
    UInt32(PrimitiveArray<u32>),
    UInt64(PrimitiveArray<u64>),
    Float32(PrimitiveArray<Float32>),
    Float64(PrimitiveArray<Float64>),
    DaysMs(PrimitiveArray<days_ms>),
    Binary(BinaryArray),
    List(ListArray),
    FixedSizeList(FixedSizeListArray),
    Dictionary(DictionaryArray),
}

/// What an array holds at one position, whatever its layout.
pub enum Scalar {
    /// A null.
    Null,
    /// A boolean.
    Boolean(bool),
    /// A fixed-width value, by its rank in the total order of its type.
    Number(int),
    /// A byte string.
    Bytes(Seq<u8>),
    /// A list, by what it holds at each of its positions.
    List(Seq<Scalar>),
}

/// The values `values` as scalars made by `wrap`, null where `validity` has
/// an unset bit.
pub open spec fn scalars_of<T>(
    values: Seq<T>,
    validity: Option<Seq<bool>>,
    wrap: spec_fn(T) -> Scalar,
) -> Seq<Scalar> {
    Seq::new(
        values.len(),
        |i: int|
            if validity is None || validity->0[i] {
                wrap(values[i])
            } else {
                Scalar::Null
            },
    )
}

/// The scalars of `source` at the positions `positions`.
pub open spec fn gather(source: Seq<Scalar>, positions: Seq<int>) -> Seq<Scalar> {
    Seq::new(positions.len(), |a: int| source[positions[a]])
}

/// Whether `r` is the window of `length` values of `values` that starts
/// at `offset`: it is of the same logical type and holds at each position
/// what `values` holds `offset` positions further on, with the same
/// validity, the same rank and the same key.
pub open spec fn window(r: Array, values: Array, offset: int, length: int) -> bool {
    &&& r.spec_data_type() == values.spec_data_type()
    &&& r.spec_len() == length
    &&& r.level() == values.level()
    &&& r.scalars() == values.scalars().subrange(offset, offset + length)
    &&& validity_bits(r.spec_validity(), r.spec_len()) == validity_bits(
        values.spec_validity(),
        values.spec_len(),
    ).subrange(offset, offset + length)
    &&& r.spec_ranks() == values.spec_ranks().subrange(offset, offset + length)
    &&& r.spec_keys() == values.spec_keys().subrange(offset, offset + length)
}

/// The ranks of the values `values`.
pub open spec fn ranks_of<T: NativeType>(values: Seq<T>) -> Seq<int> {
    values.map_values(|v: T| v.rank())
}

impl Array {
    /// The number of values, nulls included.
    pub open spec fn spec_len(&self) -> nat {
        match self {
            Array::Null(a) => a.spec_len(),
            Array::Boolean(a) => a@.len(),
            Array::Int8(a) => a@.len(),
            Array::Int16(a) => a@.len(),
            Array::Int32(a) => a@.len(),
            Array::Int64(a) => a@.len(),
            Array::UInt8(a) => a@.len(),
            Array::UInt16(a) => a@.len(),
            Array::UInt32(a) => a@.len(),
            Array::UInt64(a) => a@.len(),
            Array::Float32(a) => a@.len(),
            Array::Float64(a) => a@.len(),
            Array::DaysMs(a) => a@.len(),
            Array::Binary(a) => a@.len(),
            Array::List(a) => a.spec_len(),
            Array::FixedSizeList(a) => a.spec_len(),
            Array::Dictionary(a) => a.spec_len(),
        }
    }

    /// The logical type of the array.
    pub open spec fn spec_data_type(&self) -> DataType {
        match self {
            Array::Null(a) => a.spec_data_type(),
            Array::Boolean(a) => a.spec_data_type(),
            Array::Int8(a) => a.spec_data_type(),
            Array::Int16(a) => a.spec_data_type(),
            Array::Int32(a) => a.spec_data_type(),
            Array::Int64(a) => a.spec_data_type(),
            Array::UInt8(a) => a.spec_data_type(),
            Array::UInt16(a) => a.spec_data_type(),
            Array::UInt32(a) => a.spec_data_type(),
            Array::UInt64(a) => a.spec_data_type(),
            Array::Float32(a) => a.spec_data_type(),
            Array::Float64(a) => a.spec_data_type(),
            Array::DaysMs(a) => a.spec_data_type(),
            Array::Binary(a) => a.spec_data_type(),
            Array::List(a) => a.spec_data_type(),
            Array::FixedSizeList(a) => a.spec_data_type(),
            Array::Dictionary(a) => a.spec_data_type(),
        }
    }

    /// What the array holds at each position: a null, a boolean, the rank
    /// of a fixed-width value, the bytes of a string, the scalars of a list,
    /// or for a position of a dictionary the scalar of the value for which
    /// its key stands.
    pub open spec fn scalars(&self) -> Seq<Scalar>
        decreases self,
    {
        match self {
            Array::Null(a) => Seq::new(a.spec_len(), |i: int| Scalar::Null),
            Array::Boolean(a) => a.scalars(),
            Array::Int8(a) => a.scalars(),
            Array::Int16(a) => a.scalars(),
            Array::Int32(a) => a.scalars(),
            Array::Int64(a) => a.scalars(),
            Array::UInt8(a) => a.scalars(),
            Array::UInt16(a) => a.scalars(),
            Array::UInt32(a) => a.scalars(),
            Array::UInt64(a) => a.scalars(),
            Array::Float32(a) => a.scalars(),
            Array::Float64(a) => a.scalars(),
            Array::DaysMs(a) => a.scalars(),
            Array::Binary(a) => a.scalars(),
            Array::List(a) => a.scalars(),
            Array::FixedSizeList(a) => a.scalars(),
            Array::Dictionary(a) => a.scalars(),
        }
    }

    /// The rank of the value at each position, those in the slots of nulls
    /// too, where the array holds fixed-width values; 0 for each position
    /// where it does not.
    pub open spec fn spec_ranks(&self) -> Seq<int> {
        match self {
            Array::Int8(a) => ranks_of(a.spec_values()),
            Array::Int16(a) => ranks_of(a.spec_values()),
            Array::Int32(a) => ranks_of(a.spec_values()),
            Array::Int64(a) => ranks_of(a.spec_values()),
            Array::UInt8(a) => ranks_of(a.spec_values()),
            Array::UInt16(a) => ranks_of(a.spec_values()),
            Array::UInt32(a) => ranks_of(a.spec_values()),
            Array::UInt64(a) => ranks_of(a.spec_values()),
            Array::Float32(a) => ranks_of(a.spec_values()),
            Array::Float64(a) => ranks_of(a.spec_values()),
            Array::DaysMs(a) => ranks_of(a.spec_values()),
            _ => Seq::new(self.spec_len(), |i: int| 0int),
        }
    }

    /// The validity bits of the array, where it has a bitmap. A dictionary
    /// has that of its keys, and an array of the logical type `Null` has
    /// none.
    pub open spec fn spec_validity(&self) -> Option<Seq<bool>> {
        match self {
            Array::Null(a) => None,
            Array::Boolean(a) => a.spec_validity(),
            Array::Int8(a) => a.spec_validity(),
            Array::Int16(a) => a.spec_validity(),
            Array::Int32(a) => a.spec_validity(),
            Array::Int64(a) => a.spec_validity(),
            Array::UInt8(a) => a.spec_validity(),
            Array::UInt16(a) => a.spec_validity(),
            Array::UInt32(a) => a.spec_validity(),
            Array::UInt64(a) => a.spec_validity(),
            Array::Float32(a) => a.spec_validity(),
            Array::Float64(a) => a.spec_validity(),
            Array::DaysMs(a) => a.spec_validity(),
            Array::Binary(a) => a.spec_validity(),
            Array::List(a) => a.spec_validity(),
            Array::FixedSizeList(a) => a.spec_validity(),
            Array::Dictionary(a) => a.spec_validity(),
        }
    }

    /// The key by which each position is sorted: the rank of a fixed-width
    /// value, 0 or 1 for a boolean, the bytes of a string, the ranks of the
    /// items of a list, and for a position of a dictionary the bytes of the
    /// string for which its key stands. An array of the logical type `Null`
    /// has empty keys.
    pub open spec fn spec_keys(&self) -> Seq<Seq<int>> {
        match self {
            Array::Null(a) => Seq::new(a.spec_len(), |i: int| Seq::<int>::empty()),
            Array::Boolean(a) => a.keys(),
            Array::Int8(a) => a.keys(),
            Array::Int16(a) => a.keys(),
            Array::Int32(a) => a.keys(),
            Array::Int64(a) => a.keys(),
            Array::UInt8(a) => a.keys(),
            Array::UInt16(a) => a.keys(),
            Array::UInt32(a) => a.keys(),
            Array::UInt64(a) => a.keys(),
            Array::Float32(a) => a.keys(),
            Array::Float64(a) => a.keys(),
            Array::DaysMs(a) => a.keys(),
            Array::Binary(a) => a.keys(),
            Array::List(a) => a.spec_keys(),
            Array::FixedSizeList(a) => a.spec_keys(),
            Array::Dictionary(a) => a.spec_sort_keys(),
        }
    }

    /// Returns the logical type.
    pub fn data_type(&self) -> (r: &DataType)
        ensures
            *r == self.spec_data_type(),
    {
        match self {
            Array::Null(a) => a.data_type(),
            Array::Boolean(a) => a.data_type(),
            Array::Int8(a) => a.data_type(),
            Array::Int16(a) => a.data_type(),
            Array::Int32(a) => a.data_type(),
            Array::Int64(a) => a.data_type(),
            Array::UInt8(a) => a.data_type(),
            Array::UInt16(a) => a.data_type(),
            Array::UInt32(a) => a.data_type(),
            Array::UInt64(a) => a.data_type(),
            Array::Float32(a) => a.data_type(),
            Array::Float64(a) => a.data_type(),
            Array::DaysMs(a) => a.data_type(),
            Array::Binary(a) => a.data_type(),
            Array::List(a) => a.data_type(),
            Array::FixedSizeList(a) => a.data_type(),
            Array::Dictionary(a) => a.data_type(),
        }
    }

    /// Returns the validity bitmap, where the array has one.
    pub fn validity(&self) -> (r: &Option<Bitmap>)
        ensures
            optional_bits(*r) == self.spec_validity(),
            *r matches Some(bitmap) ==> bitmap@.len() == self.spec_len(),
    {
        match self {
            Array::Null(a) => &None,
            Array::Boolean(a) => a.validity(),
            Array::Int8(a) => a.validity(),
            Array::Int16(a) => a.validity(),
            Array::Int32(a) => a.validity(),
            Array::Int64(a) => a.validity(),
            Array::UInt8(a) => a.validity(),
            Array::UInt16(a) => a.validity(),
            Array::UInt32(a) => a.validity(),
            Array::UInt64(a) => a.validity(),
            Array::Float32(a) => a.validity(),
            Array::Float64(a) => a.validity(),
            Array::DaysMs(a) => a.validity(),
            Array::Binary(a) => a.validity(),
            Array::List(a) => a.validity(),
            Array::FixedSizeList(a) => a.validity(),
            Array::Dictionary(a) => a.validity(),
        }
    }

    /// Returns the value at `i` as a position, where the array holds
    /// integers and the value is none below 0.
    pub fn position(&self, i: usize) -> (r: Option<usize>)
        requires
            i < self.spec_len(),
        ensures
            match r {
                Some(k) => k == self.spec_ranks()[i as int],
                None => !self.spec_data_type().is_integer() || self.spec_ranks()[i as int] < 0
                    || self.spec_ranks()[i as int] > usize::MAX,
            },
    {
        match self {
            Array::Int8(a) => {
                let v = a.value(i);
                if v >= 0 {
                    Some(v as usize)
                } else {
                    None
                }
            },
            Array::Int16(a) => {
                let v = a.value(i);
                if v >= 0 {
                    Some(v as usize)
                } else {
                    None
                }
            },
            Array::Int32(a) => {
                let v = a.value(i);
                if v >= 0 && v as u64 <= usize::MAX as u64 {
                    Some(v as usize)
                } else {
                    None
                }
            },
            Array::Int64(a) => {
                let v = a.value(i);
                if v >= 0 && v as u64 <= usize::MAX as u64 {
                    Some(v as usize)
                } else {
                    None
                }
            },
            Array::UInt8(a) => Some(a.value(i) as usize),
            Array::UInt16(a) => Some(a.value(i) as usize),
            Array::UInt32(a) => {
                let v = a.value(i);
                if v as u64 <= usize::MAX as u64 {
                    Some(v as usize)
                } else {
                    None
                }
            },
            Array::UInt64(a) => {
                let v = a.value(i);
                if v <= usize::MAX as u64 {
                    Some(v as usize)
                } else {
                    None
                }
            },
            Array::Null(a) => {
                let data_type = a.data_type();
                None
            },
            Array::Boolean(a) => {
                let data_type = a.data_type();
                None
            },
            Array::Float32(a) => {
                let data_type = a.data_type();
                None
            },
            Array::Float64(a) => {
                let data_type = a.data_type();
                None
            },
            Array::DaysMs(a) => {
                let data_type = a.data_type();
                None
            },
            Array::Binary(a) => {
                let data_type = a.data_type();
                None
            },
            Array::List(a) => {
                let data_type = a.data_type();
                None
            },
            Array::FixedSizeList(a) => {
                let data_type = a.data_type();
                None
            },
            Array::Dictionary(a) => {
                let data_type = a.data_type();
                None
            },
        }
    }

    /// Whether the array holds no lists.
    pub open spec fn flat(&self) -> bool {
        !(self is List || self is FixedSizeList)
    }

    /// How deep the array is nested: 2 for lists, 1 for a dictionary, and
    /// 0 for all others.
    pub open spec fn level(&self) -> nat {
        match self {
            Array::List(_) | Array::FixedSizeList(_) => 2,
            Array::Dictionary(_) => 1,
            _ => 0,
        }
    }

    /// Returns whether the array holds no lists. An array of integers
    /// holds none and is no dictionary.
    pub fn is_flat(&self) -> (r: bool)
        ensures
            r == self.flat(),
            self.spec_data_type().is_integer() ==> self.level() == 0,
    {
        match self {
            Array::List(a) => {
                let data_type = a.data_type();
                false
            },
            Array::FixedSizeList(a) => {
                let data_type = a.data_type();
                false
            },
            Array::Dictionary(a) => {
                let data_type = a.data_type();
                true
            },
            _ => true,
        }
    }

    /// Returns the number of values, nulls included.
    pub fn len(&self) -> (r: usize)
        ensures
            r == self.spec_len(),
    {
        match self {
            Array::Null(a) => a.len(),
            Array::Boolean(a) => a.len(),
            Array::Int8(a) => a.len(),
            Array::Int16(a) => a.len(),
            Array::Int32(a) => a.len(),
            Array::Int64(a) => a.len(),
            Array::UInt8(a) => a.len(),
            Array::UInt16(a) => a.len(),
            Array::UInt32(a) => a.len(),
            Array::UInt64(a) => a.len(),
            Array::Float32(a) => a.len(),
            Array::Float64(a) => a.len(),
            Array::DaysMs(a) => a.len(),
            Array::Binary(a) => a.len(),
            Array::List(a) => a.len(),
            Array::FixedSizeList(a) => a.len(),
            Array::Dictionary(a) => a.len(),
        }
    }

    /// Returns whether the value at `i` has a smaller rank than that at
    /// `j`.
    pub fn rank_lt(&self, i: usize, j: usize) -> (r: bool)
        requires
            i < self.spec_len(),
            j < self.spec_len(),
        ensures
            r == (self.spec_ranks()[i as int] < self.spec_ranks()[j as int]),
            self.spec_ranks().len() == self.spec_len(),
    {
        match self {
            Array::Int8(a) => a.value(i).total_lt(&a.value(j)),
            Array::Int16(a) => a.value(i).total_lt(&a.value(j)),
            Array::Int32(a) => a.value(i).total_lt(&a.value(j)),
            Array::Int64(a) => a.value(i).total_lt(&a.value(j)),
            Array::UInt8(a) => a.value(i).total_lt(&a.value(j)),
            Array::UInt16(a) => a.value(i).total_lt(&a.value(j)),
            Array::UInt32(a) => a.value(i).total_lt(&a.value(j)),
            Array::UInt64(a) => a.value(i).total_lt(&a.value(j)),
            Array::Float32(a) => a.value(i).total_lt(&a.value(j)),
            Array::Float64(a) => a.value(i).total_lt(&a.value(j)),
            Array::DaysMs(a) => a.value(i).total_lt(&a.value(j)),
            _ => false,
        }
    }

    /// Returns the window of `length` values that starts at `offset`. The
    /// storage is shared, not copied.
    pub fn slice(&self, offset: usize, length: usize) -> (r: Array)
        requires
            offset + length <= self.spec_len(),
        ensures
            window(r, *self, offset as int, length as int),
        decreases self,
    {
        let validity = self.validity();
        let r = match self {
            Array::Null(a) => Array::Null(a.slice(offset, length)),
            Array::Boolean(a) => Array::Boolean(a.slice(offset, length)),
            Array::Int8(a) => Array::Int8(a.slice(offset, length)),
            Array::Int16(a) => Array::Int16(a.slice(offset, length)),
            Array::Int32(a) => Array::Int32(a.slice(offset, length)),
            Array::Int64(a) => Array::Int64(a.slice(offset, length)),
            Array::UInt8(a) => Array::UInt8(a.slice(offset, length)),
            Array::UInt16(a) => Array::UInt16(a.slice(offset, length)),
            Array::UInt32(a) => Array::UInt32(a.slice(offset, length)),
            Array::UInt64(a) => Array::UInt64(a.slice(offset, length)),
            Array::Float32(a) => Array::Float32(a.slice(offset, length)),
            Array::Float64(a) => Array::Float64(a.slice(offset, length)),
            Array::DaysMs(a) => Array::DaysMs(a.slice(offset, length)),
            Array::Binary(a) => Array::Binary(a.slice(offset, length)),
            Array::List(a) => Array::List(a.slice(offset, length)),
            Array::FixedSizeList(a) => Array::FixedSizeList(a.slice(offset, length)),
            Array::Dictionary(a) => Array::Dictionary(a.slice(offset, length)),
        };
        proof {
            let (o, l) = (offset as int, length as int);
            assert forall|i: int| 0 <= i < l implies validity_bits(
                r.spec_validity(),
                r.spec_len(),
            )[i] == validity_bits(self.spec_validity(), self.spec_len())[o + i] by {
                match self {
                    Array::Dictionary(a) => {
                        assert(validity_bits(
                            r->Dictionary_0.spec_keys().spec_validity(),
                            r->Dictionary_0.spec_keys().spec_len(),
                        )[i] == validity_bits(
                            a.spec_keys().spec_validity(),
                            a.spec_keys().spec_len(),
                        )[o + i]);
                    },
                    _ => {},
                }
            }
            assert(validity_bits(r.spec_validity(), r.spec_len()) =~= validity_bits(
                self.spec_validity(),
                self.spec_len(),
            ).subrange(o, o + l));
            assert(r.spec_ranks() =~= self.spec_ranks().subrange(o, o + l));
            assert(r.scalars() =~= self.scalars().subrange(o, o + l));
            assert(r.spec_keys() =~= self.spec_keys().subrange(o, o + l));
        }
        r
    }
}

/// Whether an array of `length` nulls of the logical type `data_type` can
/// be held: the offsets of strings and lists, and the items of lists of a
/// fixed size, are no more than a `usize` counts.
pub open spec fn null_fits(data_type: DataType, length: int) -> bool
    decreases data_type,
{
    match data_type {
        DataType::Binary | DataType::LargeBinary | DataType::Utf8 | DataType::LargeUtf8 => length
            < usize::MAX,
        DataType::List(_) | DataType::LargeList(_) => length < usize::MAX,
        DataType::FixedSizeList(field, size) => length * size <= usize::MAX && null_fits(
            field.data_type,
            length * size,
        ),
        DataType::Dictionary(keys, _) => null_fits(*keys, length),
        _ => true,
    }
}

/// Creates an array of no value of the logical type `data_type`.
pub fn new_empty_array(data_type: DataType) -> (r: Array)
    requires
        data_type.constructible(),
    ensures
        r.spec_len() == 0,
        r.spec_data_type() == data_type,
        r.spec_validity() is None,
    decreases data_type,
{
    match &data_type {
        DataType::Null => Array::Null(NullArray::new_empty()),
        DataType::Boolean => Array::Boolean(BooleanArray::new_empty()),
        DataType::Int8 => Array::Int8(PrimitiveArray::new_empty(data_type)),
        DataType::Int16 => Array::Int16(PrimitiveArray::new_empty(data_type)),
        DataType::Int32
        | DataType::Date32
        | DataType::Time32(_)
        | DataType::Interval(IntervalUnit::YearMonth) => Array::Int32(
            PrimitiveArray::new_empty(data_type),
        ),
        DataType::Int64
        | DataType::Date64
        | DataType::Time64(_)
        | DataType::Timestamp(_, _)
        | DataType::Duration(_) => Array::Int64(PrimitiveArray::new_empty(data_type)),
        DataType::UInt8 => Array::UInt8(PrimitiveArray::new_empty(data_type)),
        DataType::UInt16 => Array::UInt16(PrimitiveArray::new_empty(data_type)),
        DataType::UInt32 => Array::UInt32(PrimitiveArray::new_empty(data_type)),
        DataType::UInt64 => Array::UInt64(PrimitiveArray::new_empty(data_type)),
        DataType::Float32 => Array::Float32(PrimitiveArray::new_empty(data_type)),
        DataType::Float64 => Array::Float64(PrimitiveArray::new_empty(data_type)),
        DataType::Interval(IntervalUnit::DayTime) => Array::DaysMs(
            PrimitiveArray::new_empty(data_type),
        ),
        DataType::Binary | DataType::LargeBinary | DataType::Utf8 | DataType::LargeUtf8 => Array::Binary(
            BinaryArray::new_empty(data_type),
        ),
        DataType::List(field) | DataType::LargeList(field) => {
            let values = Arc::new(new_empty_array(field.data_type().clone()));
            Array::List(ListArray::new_empty(data_type, values))
        },
        DataType::FixedSizeList(field, _) => {
            let values = Arc::new(new_empty_array(field.data_type().clone()));
            Array::FixedSizeList(FixedSizeListArray::from_data(data_type, values, None))
        },
        DataType::Dictionary(key_type, value_type) => {
            let keys = new_empty_array((**key_type).clone());
            let values = Arc::new(new_empty_array((**value_type).clone()));
            Array::Dictionary(DictionaryArray::from_data(keys, values))
        },
    }
}

/// Creates an array of `length` nulls of the logical type `data_type`.
pub fn new_null_array(data_type: DataType, length: usize) -> (r: Array)
    requires
        data_type.constructible(),
        null_fits(data_type, length as int),
    ensures
        r.spec_len() == length,
        r.spec_data_type() == data_type,
        !(data_type is Null) ==> r.spec_validity() == Some(Seq::new(length as nat, |i: int| false)),
        r.scalars() == Seq::new(length as nat, |i: int| Scalar::Null),
    decreases data_type,
{
    let r = match &data_type {
        DataType::Null => Array::Null(NullArray::new_null(length)),
        DataType::Boolean => Array::Boolean(BooleanArray::new_null(length)),
        DataType::Int8 => Array::Int8(PrimitiveArray::new_null(data_type, length)),
        DataType::Int16 => Array::Int16(PrimitiveArray::new_null(data_type, length)),
        DataType::Int32
        | DataType::Date32
        | DataType::Time32(_)
        | DataType::Interval(IntervalUnit::YearMonth) => Array::Int32(
            PrimitiveArray::new_null(data_type, length),
        ),
        DataType::Int64
        | DataType::Date64
        | DataType::Time64(_)
        | DataType::Timestamp(_, _)
        | DataType::Duration(_) => Array::Int64(PrimitiveArray::new_null(data_type, length)),
        DataType::UInt8 => Array::UInt8(PrimitiveArray::new_null(data_type, length)),
        DataType::UInt16 => Array::UInt16(PrimitiveArray::new_null(data_type, length)),
        DataType::UInt32 => Array::UInt32(PrimitiveArray::new_null(data_type, length)),
        DataType::UInt64 => Array::UInt64(PrimitiveArray::new_null(data_type, length)),
        DataType::Float32 => Array::Float32(PrimitiveArray::new_null(data_type, length)),
        DataType::Float64 => Array::Float64(PrimitiveArray::new_null(data_type, length)),
        DataType::Interval(IntervalUnit::DayTime) => Array::DaysMs(
            PrimitiveArray::new_null(data_type, length),
        ),
        DataType::Binary | DataType::LargeBinary | DataType::Utf8 | DataType::LargeUtf8 => Array::Binary(
            BinaryArray::new_null(data_type, length),
        ),
        DataType::List(field) | DataType::LargeList(field) => {
            let values = Arc::new(new_empty_array(field.data_type().clone()));
            Array::List(ListArray::new_null(data_type, values, length))
        },
        DataType::FixedSizeList(field, size) => {
            let size = *size as usize;
            let values = Arc::new(new_null_array(field.data_type().clone(), length * size));
            proof {
                crate::array::fixed_size_list::lemma_whole(length as int, size as int);
            }
            Array::FixedSizeList(
                FixedSizeListArray::from_data(data_type, values, Some(Bitmap::new_zeroed(length))),
            )
        },
        DataType::Dictionary(key_type, value_type) => {
            let keys = new_null_array((**key_type).clone(), length);
            let values = Arc::new(new_empty_array((**value_type).clone()));
            Array::Dictionary(DictionaryArray::from_data(keys, values))
        },
    };
    assert(r.scalars() =~= Seq::new(length as nat, |i: int| Scalar::Null));
    r
}

/// A type of fixed-width values whose arrays are one kind of array.
pub trait IntoArray: NativeType {
    /// Returns `array` as an array of any kind: the same array, under the
    /// variant of its values' type.
    fn into_array(array: PrimitiveArray<Self>) -> (r: Array)
        ensures
            r.spec_data_type() == array.spec_data_type(),
            r.spec_len() == array@.len(),
            r.scalars() == array.scalars(),
            r.spec_validity() == array.spec_validity(),
            r.level() == 0,
    ;
}

impl IntoArray for i8 {
    fn into_array(array: PrimitiveArray<Self>) -> (r: Array) {
        Array::Int8(array)
    }
}

impl IntoArray for i16 {
    fn into_array(array: PrimitiveArray<Self>) -> (r: Array) {
        Array::Int16(array)
    }
}

impl IntoArray for i32 {
    fn into_array(array: PrimitiveArray<Self>) -> (r: Array) {
        Array::Int32(array)
    }
}

impl IntoArray for i64 {
    fn into_array(array: PrimitiveArray<Self>) -> (r: Array) {
        Array::Int64(array)
    }
}

impl IntoArray for u8 {
    fn into_array(array: PrimitiveArray<Self>) -> (r: Array) {
        Array::UInt8(array)
    }
}

impl IntoArray for u16 {
    fn into_array(array: PrimitiveArray<Self>) -> (r: Array) {
        Array::UInt16(array)
    }
}

impl IntoArray for u32 {
    fn into_array(array: PrimitiveArray<Self>) -> (r: Array) {
        Array::UInt32(array)
    }
}

impl IntoArray for u64 {
    fn into_array(array: PrimitiveArray<Self>) -> (r: Array) {
        Array::UInt64(array)
    }
}

impl IntoArray for days_ms {
    fn into_array(array: PrimitiveArray<Self>) -> (r: Array) {
        Array::DaysMs(array)
    }
}

impl IntoArray for Float32 {
    fn into_array(array: PrimitiveArray<Self>) -> (r: Array) {
        Array::Float32(array)
    }
}

impl IntoArray for Float64 {
    fn into_array(array: PrimitiveArray<Self>) -> (r: Array) {
        Array::Float64(array)
    }
}

impl Clone for Array {
    /// Returns another handle on the same array. The storage is shared.
    fn clone(&self) -> (r: Self)
        ensures
            r == *self,
    {
        match self {
            Array::Null(a) => Array::Null(a.clone()),
            Array::Boolean(a) => Array::Boolean(a.clone()),
            Array::Int8(a) => Array::Int8(a.clone()),
            Array::Int16(a) => Array::Int16(a.clone()),
            Array::Int32(a) => Array::Int32(a.clone()),
            Array::Int64(a) => Array::Int64(a.clone()),
            Array::UInt8(a) => Array::UInt8(a.clone()),
            Array::UInt16(a) => Array::UInt16(a.clone()),
            Array::UInt32(a) => Array::UInt32(a.clone()),
            Array::UInt64(a) => Array::UInt64(a.clone()),
            Array::Float32(a) => Array::Float32(a.clone()),
            Array::Float64(a) => Array::Float64(a.clone()),
            Array::DaysMs(a) => Array::DaysMs(a.clone()),
            Array::Binary(a) => Array::Binary(a.clone()),
            Array::List(a) => Array::List(a.clone()),
            Array::FixedSizeList(a) => Array::FixedSizeList(a.clone()),
            Array::Dictionary(a) => Array::Dictionary(a.clone()),
        }
    }
}

} // verus!
