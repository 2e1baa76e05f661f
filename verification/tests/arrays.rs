use columnar::array::{
    new_empty_array, new_null_array, Array, BinaryArray, BooleanArray, DictionaryArray,
    FixedSizeListArray, ListArray, NullArray, PrimitiveArray, Utf8Array,
};
use columnar::bitmap::{Bitmap, MutableBitmap};
use columnar::buffer::Buffer;
use columnar::datatypes::{DataType, Field, IntervalUnit, TimeUnit};
use columnar::types::days_ms;
use std::sync::Arc;

fn items(array: &Array) -> Vec<Option<i32>> {
    match array {
        Array::Int32(values) => values.to_options(),
        _ => panic!("another kind of array"),
    }
}

fn triples() -> FixedSizeListArray {
    let data_type = FixedSizeListArray::default_datatype(DataType::Int32, 3);
    let values = PrimitiveArray::<i32>::from(vec![
        Some(1),
        Some(2),
        Some(3),
        Some(4),
        None,
        Some(6),
        Some(7),
        Some(8),
        Some(9),
        Some(10),
        Some(11),
        Some(12),
    ]);
    let validity: Option<Bitmap> =
        MutableBitmap::from_trusted_len_iter(vec![true, true, false, true]).into();
    FixedSizeListArray::from_data(data_type, Arc::new(Array::Int32(values)), validity)
}

#[test]
fn fixed_size_list_from_data() {
    let array = triples();
    assert_eq!(array.len(), 4);
    assert_eq!(array.size(), 3);
    assert_eq!(array.offset(), 0);
    assert_eq!(array.values().len(), 12);
    assert_eq!(array.validity().as_ref().unwrap().iter(), vec![true, true, false, true]);
    assert_eq!(items(&array.value(0)), vec![Some(1), Some(2), Some(3)]);
    assert_eq!(items(&array.value(1)), vec![Some(4), None, Some(6)]);
    // the items of a null list are there all the same
    assert_eq!(items(&array.value(2)), vec![Some(7), Some(8), Some(9)]);
    assert_eq!(items(&array.value(3)), vec![Some(10), Some(11), Some(12)]);
    let (child, size) = FixedSizeListArray::get_child_and_size(array.data_type());
    assert_eq!((child, *size), (&DataType::Int32, 3));
}

#[test]
fn fixed_size_list_slice_shares_the_items() {
    let array = triples();
    let window = array.slice(1, 3);
    assert_eq!(window.len(), 3);
    assert_eq!(window.offset(), 1);
    assert_eq!(window.data_type(), array.data_type());
    assert_eq!(window.values().len(), 9);
    assert_eq!(window.validity().as_ref().unwrap().iter(), vec![true, false, true]);
    assert_eq!(items(&window.value(0)), vec![Some(4), None, Some(6)]);
    assert_eq!(items(&window.value(2)), vec![Some(10), Some(11), Some(12)]);
    let inner = window.slice(2, 1);
    assert_eq!(inner.offset(), 3);
    assert_eq!(inner.len(), 1);
    assert_eq!(items(&inner.value(0)), vec![Some(10), Some(11), Some(12)]);
    let first = match (&**array.values(), &**inner.values()) {
        (Array::Int32(all), Array::Int32(part)) => {
            std::ptr::eq(&all.values().as_slice()[9], &part.values().as_slice()[0])
        }
        _ => false,
    };
    assert!(first);
    let empty = array.slice(4, 0);
    assert_eq!(empty.len(), 0);
    assert_eq!(empty.offset(), 4);
    let same = array.clone();
    assert_eq!(same.len(), 4);
}

#[test]
fn fixed_size_list_of_nulls_and_of_nothing() {
    let data_type = FixedSizeListArray::default_datatype(DataType::Utf8, 2);
    let nulls = FixedSizeListArray::new_null(data_type.clone(), 5);
    assert_eq!(nulls.len(), 5);
    assert_eq!(nulls.values().len(), 10);
    assert_eq!(nulls.validity().as_ref().unwrap().null_count(), 5);
    assert_eq!(*nulls.data_type(), data_type);
    assert_eq!(*nulls.values().data_type(), DataType::Utf8);
    let empty = FixedSizeListArray::new_empty(data_type.clone());
    assert_eq!(empty.len(), 0);
    assert_eq!(empty.values().len(), 0);
    assert!(empty.validity().is_none());
    assert_eq!(*empty.data_type(), data_type);
}

#[test]
fn default_datatype_names_its_items() {
    let data_type = FixedSizeListArray::default_datatype(DataType::Boolean, 7);
    match &data_type {
        DataType::FixedSizeList(field, size) => {
            assert_eq!(field.name, "item");
            assert_eq!(field.data_type, DataType::Boolean);
            assert!(field.nullable);
            assert_eq!(*size, 7);
            assert_eq!(*field.data_type(), DataType::Boolean);
        }
        _ => panic!("another type"),
    }
    assert_eq!(data_type.clone(), data_type);
    assert!(data_type.is_constructible());
    assert!(!FixedSizeListArray::default_datatype(DataType::Boolean, 0).is_constructible());
    assert!(DataType::UInt16.is_integer_type());
    assert!(!DataType::Float32.is_integer_type());
}

#[test]
fn primitive_arrays() {
    let array = PrimitiveArray::<i64>::from(vec![Some(3), None, Some(-1), Some(8)]);
    assert_eq!(*array.data_type(), DataType::Int64);
    assert_eq!(array.len(), 4);
    assert!(!array.is_empty());
    assert_eq!(array.null_count(), 1);
    assert_eq!(array.get(0), Some(3));
    assert_eq!(array.get(1), None);
    assert_eq!(array.value(1), 0);
    assert!(array.is_null(1) && array.is_valid(2));
    let dated = array.clone().to(DataType::Date64);
    assert_eq!(*dated.data_type(), DataType::Date64);
    assert_eq!(dated.to_options(), array.to_options());
    let window = array.slice(1, 2);
    assert_eq!(window.to_options(), vec![None, Some(-1)]);
    assert_eq!(window.values().as_slice(), &[0, -1]);
    assert_eq!(window.validity().as_ref().unwrap().iter(), vec![false, true]);
    assert_eq!(window.slice(1, 1).to_options(), vec![Some(-1)]);
    let nulls = PrimitiveArray::<days_ms>::new_null(DataType::Interval(IntervalUnit::DayTime), 3);
    assert_eq!(nulls.to_options(), vec![None, None, None]);
    assert_eq!(nulls.null_count(), 3);
    let empty = PrimitiveArray::<u8>::new_empty(DataType::UInt8);
    assert!(empty.is_empty());
    let parts = PrimitiveArray::<i32>::from_data(
        DataType::Time32(TimeUnit::Second),
        Buffer::from_vec(vec![1, 2]),
        Some(MutableBitmap::from_trusted_len_iter(vec![false, true]).into()),
    );
    assert_eq!(parts.to_options(), vec![None, Some(2)]);
    let whole = PrimitiveArray::<u16>::from(vec![Some(1), Some(2)]);
    assert!(whole.validity().is_none());
    assert_eq!(whole.null_count(), 0);
}

#[test]
fn boolean_arrays() {
    let array = BooleanArray::from(vec![Some(true), None, Some(false)]);
    assert_eq!(array.len(), 3);
    assert_eq!(array.to_options(), vec![Some(true), None, Some(false)]);
    assert_eq!(*array.data_type(), DataType::Boolean);
    assert!(array.value(0) && !array.value(2));
    assert!(!array.is_valid(1));
    assert_eq!(array.slice(1, 2).to_options(), vec![None, Some(false)]);
    assert_eq!(array.values().len(), 3);
    assert_eq!(BooleanArray::new_null(2).to_options(), vec![None, None]);
    assert_eq!(BooleanArray::new_empty().len(), 0);
    let parts = BooleanArray::from_data(
        MutableBitmap::from_trusted_len_iter(vec![true, true]).into(),
        None,
    );
    assert_eq!(parts.clone().to_options(), vec![Some(true), Some(true)]);
}

#[test]
fn string_arrays() {
    let array = Utf8Array::from(vec![Some("one"), None, Some(""), Some("four")]);
    assert_eq!(*array.data_type(), DataType::Utf8);
    assert_eq!(array.len(), 4);
    assert_eq!(array.value(0), b"one");
    assert_eq!(array.value(1), b"");
    assert_eq!(array.value(3), b"four");
    assert!(array.is_valid(2) && !array.is_valid(1));
    let window = array.slice(1, 3);
    assert_eq!(window.to_options(), vec![None, Some(vec![]), Some(b"four".to_vec())]);
    assert_eq!(window.slice(2, 1).value(0), b"four");
    let nulls = BinaryArray::new_null(DataType::LargeBinary, 2);
    assert_eq!(nulls.to_options(), vec![None, None]);
    assert_eq!(BinaryArray::new_empty(DataType::LargeUtf8).len(), 0);
    let parts = BinaryArray::from_data(
        DataType::Binary,
        Buffer::from_vec(vec![0, 2, 2, 3]),
        Buffer::from_vec(vec![7, 8, 9]),
        None,
    );
    assert_eq!(
        parts.clone().to_options(),
        vec![Some(vec![7, 8]), Some(vec![]), Some(vec![9])]
    );
}

#[test]
fn list_arrays() {
    let child = Arc::new(Array::Int32(PrimitiveArray::<i32>::from_slice(&[1, 2, 3, 4, 5])));
    let data_type = DataType::List(Box::new(Field::new("item", DataType::Int32, true)));
    let array = ListArray::from_data(
        data_type.clone(),
        Buffer::from_vec(vec![0, 2, 2, 5]),
        child.clone(),
        None,
    );
    assert_eq!(array.len(), 3);
    assert_eq!(array.bounds(2), (2, 5));
    assert_eq!(items(&array.value(0)), vec![Some(1), Some(2)]);
    assert_eq!(items(&array.value(1)), vec![]);
    assert_eq!(items(&array.value(2)), vec![Some(3), Some(4), Some(5)]);
    let window = array.slice(1, 2);
    assert_eq!(window.len(), 2);
    assert_eq!(items(&window.value(1)), vec![Some(3), Some(4), Some(5)]);
    assert_eq!(window.offsets().as_slice(), &[2, 2, 5]);
    assert_eq!(window.values().len(), 5);
    let nulls = ListArray::new_null(data_type.clone(), child.clone(), 2);
    assert_eq!(nulls.len(), 2);
    assert_eq!(nulls.validity().as_ref().unwrap().null_count(), 2);
    assert_eq!(ListArray::new_empty(data_type, child).clone().len(), 0);
}

#[test]
fn dictionary_arrays() {
    let values = Arc::new(Array::Binary(Utf8Array::from(vec![Some("x"), Some("y")])));
    let keys = Array::Int8(PrimitiveArray::<i8>::from(vec![Some(1), None, Some(0), Some(-1), Some(5)]));
    let array = DictionaryArray::from_data(keys, values);
    assert_eq!(array.len(), 5);
    assert_eq!(
        *array.data_type(),
        DataType::Dictionary(Box::new(DataType::Int8), Box::new(DataType::Utf8))
    );
    assert_eq!(array.key(0), Some(1));
    assert_eq!(array.key(2), Some(0));
    // a key that stands for no value
    assert_eq!(array.key(3), None);
    assert_eq!(array.key(4), None);
    assert_eq!(array.validity().as_ref().unwrap().iter(), vec![true, false, true, true, true]);
    let window = array.slice(2, 2);
    assert_eq!(window.len(), 2);
    assert_eq!(window.key(0), Some(0));
    assert_eq!(window.values().len(), 2);
    assert_eq!(window.keys().len(), 2);
    assert_eq!(array.clone().len(), 5);
}

#[test]
fn arrays_of_any_kind() {
    let array = Array::Int32(PrimitiveArray::<i32>::from(vec![Some(4), None, Some(-2)]));
    assert_eq!(array.len(), 3);
    assert_eq!(*array.data_type(), DataType::Int32);
    assert_eq!(array.validity().as_ref().unwrap().iter(), vec![true, false, true]);
    assert_eq!(array.position(0), Some(4));
    assert_eq!(array.position(2), None);
    assert!(array.rank_lt(2, 0) && !array.rank_lt(0, 2) && !array.rank_lt(0, 0));
    assert!(array.is_flat());
    assert_eq!(items(&array.slice(1, 2)), vec![None, Some(-2)]);
    assert_eq!(items(&array.clone()), vec![Some(4), None, Some(-2)]);
    let strings = Array::Binary(Utf8Array::from(vec![Some("a")]));
    assert_eq!(strings.position(0), None);
    assert!(!strings.rank_lt(0, 0));
    let nothing = Array::Null(NullArray::new_null(4));
    assert_eq!(nothing.len(), 4);
    assert!(nothing.validity().is_none());
    assert_eq!(nothing.slice(1, 2).len(), 2);
    assert_eq!(NullArray::new_empty().len(), 0);
    let lists = new_null_array(FixedSizeListArray::default_datatype(DataType::Int8, 3), 2);
    assert!(!lists.is_flat());
    assert_eq!(lists.len(), 2);
    match &lists {
        Array::FixedSizeList(lists) => assert_eq!(lists.values().len(), 6),
        _ => panic!("another kind of array"),
    }
    let nested = DataType::List(Box::new(Field::new(
        "item",
        DataType::Dictionary(Box::new(DataType::UInt8), Box::new(DataType::LargeUtf8)),
        true,
    )));
    assert_eq!(*new_null_array(nested.clone(), 3).data_type(), nested);
    assert_eq!(new_empty_array(nested).len(), 0);
    for data_type in [
        DataType::Float32,
        DataType::Float64,
        DataType::Interval(IntervalUnit::DayTime),
        DataType::Interval(IntervalUnit::YearMonth),
        DataType::Time64(TimeUnit::Nanosecond),
        DataType::Duration(TimeUnit::Microsecond),
    ] {
        let nulls = new_null_array(data_type.clone(), 2);
        assert_eq!(*nulls.data_type(), data_type);
        assert_eq!(nulls.validity().as_ref().unwrap().null_count(), 2);
    }
}
