//! The null-aware sort kernel: which positions of an array come first.
//!
//! The valid positions are ordered by the keys of their values, and by the
//! positions themselves where the keys are equal; the nulls come before
//! them or behind them, as asked.

pub mod common;
pub mod order;

use crate::array::{Array, PrimitiveArray};
use crate::compute::sort::common::{
    index_positions, indices_sorted, limited, sorted_indices, sorted_positions, validity_bits,
};
use crate::compute::sort::order::{as_positions, Order};
use crate::compute::take::{lemma_total_distinct, take_positions, taken, to_positions};
use crate::datatypes::DataType;
use crate::error::{ArrowError, Unsupported};
use crate::types::Index;
use vstd::prelude::*;

verus! {

/// How a sort orders the values and where it puts the nulls.
#[derive(Clone, Copy, Debug)]
pub struct SortOptions {
    /// Whether larger values come first.
    pub descending: bool,
    /// Whether the nulls come before the values.
    pub nulls_first: bool,
}

impl Default for SortOptions {
    /// Smaller values first, and the nulls before the values.
    fn default() -> (r: Self)
        ensures
            !r.descending,
            r.nulls_first,
    {
        SortOptions { descending: false, nulls_first: true }
    }
}

/// Whether arrays of the logical type `data_type` can be sorted: booleans,
/// numbers, dates, times without a time zone, intervals and strings; lists
/// of integers; and dictionaries of strings with integer keys.
pub open spec fn sortable(data_type: DataType) -> bool {
    match data_type {
        DataType::Boolean
        | DataType::Int8
        | DataType::Int16
        | DataType::Int32
        | DataType::Date32
        | DataType::Time32(_)
        | DataType::Interval(_)
        | DataType::Int64
        | DataType::Date64
        | DataType::Time64(_)
        | DataType::Timestamp(_, None)
        | DataType::Duration(_)
        | DataType::UInt8
        | DataType::UInt16
        | DataType::UInt32
        | DataType::UInt64
        | DataType::Float32
        | DataType::Float64
        | DataType::Utf8
        | DataType::LargeUtf8 => true,
        DataType::List(field) | DataType::LargeList(field) | DataType::FixedSizeList(field, _) => {
            field.data_type.is_integer()
        },
        DataType::Dictionary(key_type, value_type) => (*value_type is Utf8 || *value_type
            is LargeUtf8) && key_type.is_integer(),
        _ => false,
    }
}

/// The error with which the sort turns arrays of the logical type
/// `data_type` away, where it does: it names the type that it does not
/// handle, which for a list is the type of the items and for a dictionary
/// that of the values or of the keys.
pub open spec fn rejection(data_type: DataType) -> Option<ArrowError> {
    match data_type {
        DataType::List(field) | DataType::LargeList(field) | DataType::FixedSizeList(field, _) => {
            if field.data_type.is_integer() {
                None
            } else {
                Some(ArrowError::NotYetImplemented(Unsupported::SortOfListItems, field.data_type))
            }
        },
        DataType::Dictionary(key_type, value_type) => {
            if !(*value_type is Utf8 || *value_type is LargeUtf8) {
                Some(ArrowError::NotYetImplemented(Unsupported::SortOfDictionaryValues, *value_type))
            } else if !key_type.is_integer() {
                Some(ArrowError::NotYetImplemented(Unsupported::SortOfDictionaryKeys, *key_type))
            } else {
                None
            }
        },
        _ => if sortable(data_type) {
            None
        } else {
            Some(ArrowError::NotYetImplemented(Unsupported::SortOfType, data_type))
        },
    }
}

/// The sort turns away the arrays of exactly the logical types that cannot
/// be sorted.
pub proof fn lemma_sortable_or_rejected(data_type: DataType)
    ensures
        sortable(data_type) <==> rejection(data_type) is None,
{
}

/// Returns whether arrays of the logical type `data_type` can be sorted.
pub fn can_sort(data_type: &DataType) -> (r: bool)
    ensures
        r == sortable(*data_type),
        r == rejection(*data_type) is None,
{
    match data_type {
        DataType::Boolean
        | DataType::Int8
        | DataType::Int16
        | DataType::Int32
        | DataType::Date32
        | DataType::Time32(_)
        | DataType::Interval(_)
        | DataType::Int64
        | DataType::Date64
        | DataType::Time64(_)
        | DataType::Timestamp(_, None)
        | DataType::Duration(_)
        | DataType::UInt8
        | DataType::UInt16
        | DataType::UInt32
        | DataType::UInt64
        | DataType::Float32
        | DataType::Float64
        | DataType::Utf8
        | DataType::LargeUtf8 => true,
        DataType::List(field) | DataType::LargeList(field) | DataType::FixedSizeList(field, _) => {
            field.data_type().is_integer_type()
        },
        DataType::Dictionary(key_type, value_type) => {
            matches!(**value_type, DataType::Utf8 | DataType::LargeUtf8)
                && key_type.is_integer_type()
        },
        _ => false,
    }
}

/// The order in which the sort of `values` under `options` puts the
/// positions. The nulls of a boolean array come in falling order of their
/// positions where the sort is descending, and all other nulls in rising
/// order.
pub open spec fn sort_order(values: Array, options: SortOptions) -> Order {
    Order {
        valid: validity_bits(values.spec_validity(), values.spec_len()),
        keys: values.spec_keys(),
        descending: options.descending,
        nulls_first: options.nulls_first,
        nulls_reversed: values is Boolean && options.descending,
    }
}

/// Returns the error that turns the sort of a type away.
fn rejected<I: Index>(what: Unsupported, data_type: &DataType) -> (r: Result<
    PrimitiveArray<I>,
    ArrowError,
>)
    ensures
        r matches Err(e) && e == ArrowError::NotYetImplemented(what, *data_type),
{
    Err(ArrowError::NotYetImplemented(what, data_type.clone()))
}

/// Sorts the positions of a dictionary of strings whose keys are of the
/// type `key_type`.
pub fn sort_dict<I: Index>(
    values: &Array,
    key_type: &DataType,
    options: &SortOptions,
    limit: Option<usize>,
) -> (r: Result<PrimitiveArray<I>, ArrowError>)
    requires
        values is Dictionary,
        values.spec_len() <= I::spec_max() + 1,
    ensures
        match r {
            Ok(indices) => key_type.is_integer() && sorted_indices(
                indices,
                sort_order(*values, *options),
                limit,
            ),
            Err(e) => !key_type.is_integer() && e == ArrowError::NotYetImplemented(
                Unsupported::SortOfDictionaryKeys,
                *key_type,
            ),
        },
{
    match values {
        Array::Dictionary(array) => match key_type {
            DataType::Int8
            | DataType::Int16
            | DataType::Int32
            | DataType::Int64
            | DataType::UInt8
            | DataType::UInt16
            | DataType::UInt32
            | DataType::UInt64 => Ok(
                indices_sorted(
                    array,
                    array.validity(),
                    array.len(),
                    options.descending,
                    options.nulls_first,
                    false,
                    limit,
                ),
            ),
            t => rejected(Unsupported::SortOfDictionaryKeys, t),
        },
        _ => {
            assert(false);
            rejected(Unsupported::SortOfDictionaryKeys, key_type)
        },
    }
}

/// Sorts the positions of an array of lists by the items of the lists,
/// item by item; a list that is the start of a longer one comes before it.
pub fn sort_list<I: Index>(values: &Array, options: &SortOptions, limit: Option<usize>) -> (r:
    PrimitiveArray<I>)
    requires
        values is List || values is FixedSizeList,
        values.spec_len() <= I::spec_max() + 1,
    ensures
        sorted_indices(r, sort_order(*values, *options), limit),
{
    match values {
        Array::FixedSizeList(array) => indices_sorted(
            array,
            array.validity(),
            array.len(),
            options.descending,
            options.nulls_first,
            false,
            limit,
        ),
        Array::List(array) => indices_sorted(
            array,
            array.validity(),
            array.len(),
            options.descending,
            options.nulls_first,
            false,
            limit,
        ),
        _ => {
            assert(false);
            PrimitiveArray::new_empty(I::data_type())
        },
    }
}

/// Sorts the positions of `values`: returns an array of indices, without
/// nulls, that holds the first positions in the order that `options` asks
/// for, as many as `limit` admits. Arrays of a logical type that cannot be
/// sorted are turned away with an error that names the type.
pub fn sort_to_indices<I: Index>(values: &Array, options: &SortOptions, limit: Option<usize>) -> (r:
    Result<PrimitiveArray<I>, ArrowError>)
    requires
        values.spec_len() <= I::spec_max() + 1,
    ensures
        r is Ok <==> sortable(values.spec_data_type()),
        match r {
            Ok(indices) => sorted_indices(indices, sort_order(*values, *options), limit),
            Err(e) => rejection(values.spec_data_type()) == Some(e),
        },
{
    let descending = options.descending;
    let nulls_first = options.nulls_first;
    match values {
        Array::Boolean(a) => {
            let data_type = a.data_type();
            Ok(indices_sorted(a, a.validity(), a.len(), descending, nulls_first, descending, limit))
        },
        Array::Int8(a) => {
            let data_type = a.data_type();
            Ok(indices_sorted(a, a.validity(), a.len(), descending, nulls_first, false, limit))
        },
        Array::Int16(a) => {
            let data_type = a.data_type();
            Ok(indices_sorted(a, a.validity(), a.len(), descending, nulls_first, false, limit))
        },
        Array::Int32(a) => {
            let data_type = a.data_type();
            Ok(indices_sorted(a, a.validity(), a.len(), descending, nulls_first, false, limit))
        },
        Array::Int64(a) => match a.data_type() {
            DataType::Timestamp(_, Some(_)) => rejected(Unsupported::SortOfType, a.data_type()),
            _ => Ok(
                indices_sorted(a, a.validity(), a.len(), descending, nulls_first, false, limit),
            ),
        },
        Array::UInt8(a) => {
            let data_type = a.data_type();
            Ok(indices_sorted(a, a.validity(), a.len(), descending, nulls_first, false, limit))
        },
        Array::UInt16(a) => {
            let data_type = a.data_type();
            Ok(indices_sorted(a, a.validity(), a.len(), descending, nulls_first, false, limit))
        },
        Array::UInt32(a) => {
            let data_type = a.data_type();
            Ok(indices_sorted(a, a.validity(), a.len(), descending, nulls_first, false, limit))
        },
        Array::UInt64(a) => {
            let data_type = a.data_type();
            Ok(indices_sorted(a, a.validity(), a.len(), descending, nulls_first, false, limit))
        },
        Array::Float32(a) => {
            let data_type = a.data_type();
            Ok(indices_sorted(a, a.validity(), a.len(), descending, nulls_first, false, limit))
        },
        Array::Float64(a) => {
            let data_type = a.data_type();
            Ok(indices_sorted(a, a.validity(), a.len(), descending, nulls_first, false, limit))
        },
        Array::DaysMs(a) => {
            let data_type = a.data_type();
            Ok(indices_sorted(a, a.validity(), a.len(), descending, nulls_first, false, limit))
        },
        Array::Binary(a) => match a.data_type() {
            DataType::Utf8 | DataType::LargeUtf8 => Ok(
                indices_sorted(a, a.validity(), a.len(), descending, nulls_first, false, limit),
            ),
            t => rejected(Unsupported::SortOfType, t),
        },
        Array::List(a) => match a.data_type() {
            DataType::List(field) | DataType::LargeList(field) => match field.data_type() {
                DataType::Int8
                | DataType::Int16
                | DataType::Int32
                | DataType::Int64
                | DataType::UInt8
                | DataType::UInt16
                | DataType::UInt32
                | DataType::UInt64 => Ok(sort_list(values, options, limit)),
                t => rejected(Unsupported::SortOfListItems, t),
            },
            t => {
                assert(false);
                rejected(Unsupported::SortOfType, t)
            },
        },
        Array::FixedSizeList(a) => match a.data_type() {
            DataType::FixedSizeList(field, _) => match field.data_type() {
                DataType::Int8
                | DataType::Int16
                | DataType::Int32
                | DataType::Int64
                | DataType::UInt8
                | DataType::UInt16
                | DataType::UInt32
                | DataType::UInt64 => Ok(sort_list(values, options, limit)),
                t => rejected(Unsupported::SortOfListItems, t),
            },
            t => {
                assert(false);
                rejected(Unsupported::SortOfType, t)
            },
        },
        Array::Dictionary(a) => match a.data_type() {
            DataType::Dictionary(key_type, value_type) => match &**value_type {
                DataType::Utf8 | DataType::LargeUtf8 => sort_dict(values, key_type, options, limit),
                t => rejected(Unsupported::SortOfDictionaryValues, t),
            },
            t => {
                assert(false);
                rejected(Unsupported::SortOfType, t)
            },
        },
        Array::Null(a) => rejected(Unsupported::SortOfType, a.data_type()),
    }
}

/// Sorts `values`: returns a new array of the same logical type that holds
/// the values of `values` at the first positions in the order that
/// `options` asks for, as many as `limit` admits. The positions are those
/// that `sort_to_indices` hands out, and the values are taken by the
/// indexing kernel. Arrays of a logical type that cannot be sorted are
/// turned away with an error that names the type.
pub fn sort(values: &Array, options: &SortOptions, limit: Option<usize>) -> (r: Result<
    Array,
    ArrowError,
>)
    ensures
        r is Ok <==> sortable(values.spec_data_type()),
        match r {
            Ok(sorted) => {
                let order = sort_order(*values, *options);
                let positions = sorted_positions(order, limit);
                &&& taken(sorted, *values, positions)
                &&& positions.len() == limited(values.spec_len(), limit)
                &&& order.sorted_prefix(positions)
                &&& positions.len() == values.spec_len() ==> order.covered_by(positions)
            },
            Err(e) => rejection(values.spec_data_type()) == Some(e),
        },
{
    let length = values.len();
    let indices = match sort_to_indices::<u64>(values, options, limit) {
        Ok(indices) => indices,
        Err(e) => {
            return Err(e);
        },
    };
    let ghost order = sort_order(*values, *options);
    let ghost places = index_positions(indices.spec_values());
    proof {
        assert forall|a: int| 0 <= a < indices.spec_values().len() implies 0 <= (
        #[trigger] indices.spec_values()[a]).spec_position() < length by {
            assert(0 <= places[a] < order.len());
        }
    }
    let positions = to_positions(length, &indices);
    assert(positions@.len() == as_positions(positions@).len());
    assert(positions@.len() <= length);
    proof {
        order.lemma_no_duplicates(places);
        assert forall|a: int, b: int|
            0 <= a < positions@.len() && 0 <= b < positions@.len() && a
                != b implies positions@[a] != positions@[b] by {
            assert(as_positions(positions@)[a] == places[a]);
            assert(as_positions(positions@)[b] == places[b]);
        }
    }
    match values {
        Array::List(a) => {
            let data_type = a.data_type();
            let flat = a.values().is_flat();
            let offsets = a.offsets();
            let count = a.values().len();
            proof {
                assert(offsets@.last() == offsets@[offsets@.len() - 1]);
                lemma_total_distinct(offsets@, positions@, length as int);
                assert(offsets@[length as int] <= offsets@[offsets@.len() - 1]);
            }
        },
        Array::FixedSizeList(a) => {
            let data_type = a.data_type();
            let flat = a.values().is_flat();
            let size = a.size();
            let count = a.values().len();
            proof {
                assert(positions@.len() * size <= length * size) by (nonlinear_arith)
                    requires
                        positions@.len() <= length,
                        size > 0,
                ;
            }
        },
        _ => {},
    }
    Ok(take_positions(values, &positions))
}

} // verus!
