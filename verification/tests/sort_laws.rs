use columnar::array::{
    new_empty_array, new_null_array, Array, BinaryArray, BooleanArray, DictionaryArray,
    FixedSizeListArray, ListArray, PrimitiveArray, Utf8Array,
};
use columnar::bitmap::{Bitmap, MutableBitmap};
use columnar::buffer::Buffer;
use columnar::compute::sort::{can_sort, sort, sort_dict, sort_list, sort_to_indices, SortOptions};
use columnar::compute::take::{take, take_positions};
use columnar::datatypes::{DataType, Field, IntervalUnit, TimeUnit};
use columnar::error::{ArrowError, Unsupported};
use columnar::types::{days_ms, Float32, Float64, Index, NativeType};
use std::sync::Arc;

fn all_options() -> Vec<SortOptions> {
    let mut out = vec![];
    for descending in [false, true] {
        for nulls_first in [false, true] {
            out.push(SortOptions { descending, nulls_first });
        }
    }
    out
}

fn indices(array: &Array, options: &SortOptions, limit: Option<usize>) -> Vec<usize> {
    let sorted = sort_to_indices::<u32>(array, options, limit).unwrap();
    assert!(sorted.validity().is_none());
    assert_eq!(*sorted.data_type(), DataType::UInt32);
    sorted.values().as_slice().iter().map(|i| *i as usize).collect()
}

fn numbers() -> (Vec<Option<i32>>, Array) {
    let data = vec![
        Some(5),
        None,
        Some(-3),
        Some(5),
        Some(i32::MIN),
        None,
        Some(0),
        Some(-3),
        Some(i32::MAX),
        Some(5),
        None,
    ];
    (data.clone(), Array::Int32(PrimitiveArray::<i32>::from(data)))
}

#[test]
fn sort_is_a_permutation() {
    let (data, array) = numbers();
    for options in all_options() {
        let mut sorted = indices(&array, &options, None);
        assert_eq!(sorted.len(), data.len());
        sorted.sort();
        assert_eq!(sorted, (0..data.len()).collect::<Vec<_>>());
    }
}

#[test]
fn nulls_stand_together_at_the_end_asked_for() {
    let (data, array) = numbers();
    let nulls = data.iter().filter(|v| v.is_none()).count();
    for options in all_options() {
        let sorted = indices(&array, &options, None);
        let is_null: Vec<bool> = sorted.iter().map(|i| data[*i].is_none()).collect();
        let mut expected = vec![false; data.len() - nulls];
        if options.nulls_first {
            expected.splice(0..0, vec![true; nulls]);
        } else {
            expected.extend(vec![true; nulls]);
        }
        assert_eq!(is_null, expected);
    }
}

#[test]
fn values_are_ordered_and_equal_ones_keep_their_order() {
    let (data, array) = numbers();
    for options in all_options() {
        let sorted = indices(&array, &options, None);
        let valid: Vec<usize> = sorted.into_iter().filter(|i| data[*i].is_some()).collect();
        for pair in valid.windows(2) {
            let (a, b) = (data[pair[0]].unwrap(), data[pair[1]].unwrap());
            if options.descending {
                assert!(a >= b);
            } else {
                assert!(a <= b);
            }
            if a == b {
                assert!(pair[0] < pair[1]);
            }
        }
    }
    let ascending = indices(&array, &SortOptions { descending: false, nulls_first: true }, None);
    assert_eq!(ascending, vec![1, 5, 10, 4, 2, 7, 6, 0, 3, 9, 8]);
    let descending = indices(&array, &SortOptions { descending: true, nulls_first: false }, None);
    assert_eq!(descending, vec![8, 0, 3, 9, 6, 2, 7, 4, 1, 5, 10]);
}

#[test]
fn a_limit_cuts_the_unlimited_sort() {
    let (data, array) = numbers();
    for options in all_options() {
        let full = indices(&array, &options, None);
        for k in 0..data.len() + 3 {
            let part = indices(&array, &options, Some(k));
            let kept = k.min(data.len());
            assert_eq!(part, full[..kept].to_vec());
            let values = match sort(&array, &options, Some(k)).unwrap() {
                Array::Int32(values) => values.to_options(),
                _ => panic!("another kind of array"),
            };
            let expected: Vec<Option<i32>> = full[..kept].iter().map(|i| data[*i]).collect();
            assert_eq!(values, expected);
        }
    }
}

#[test]
fn empty_arrays_sort_to_empty_arrays() {
    for options in all_options() {
        let array = Array::Int8(PrimitiveArray::<i8>::from_slice(&[]));
        assert_eq!(indices(&array, &options, None), Vec::<usize>::new());
        assert_eq!(indices(&array, &options, Some(3)), Vec::<usize>::new());
        let sorted = sort(&new_empty_array(DataType::Utf8), &options, None).unwrap();
        assert_eq!(sorted.len(), 0);
        assert_eq!(*sorted.data_type(), DataType::Utf8);
    }
}

fn f32s(values: &[Option<f32>]) -> Array {
    Array::Float32(PrimitiveArray::<Float32>::from(
        values.iter().map(|v| v.map(|v| Float32::from_bits(v.to_bits()))).collect::<Vec<_>>(),
    ))
}

fn f64s(values: &[Option<f64>]) -> Array {
    Array::Float64(PrimitiveArray::<Float64>::from(
        values.iter().map(|v| v.map(|v| Float64::from_bits(v.to_bits()))).collect::<Vec<_>>(),
    ))
}

#[test]
fn test_nans() {
    let options = |descending, nulls_first| SortOptions { descending, nulls_first };
    let sorted = |data: &[Option<f64>], options: SortOptions| -> Vec<Option<f64>> {
        match sort(&f64s(data), &options, None).unwrap() {
            Array::Float64(values) => values
                .to_options()
                .into_iter()
                .map(|v| v.map(|v| f64::from_bits(v.to_bits())))
                .collect(),
            _ => panic!("another kind of array"),
        }
    };
    let same = |a: &[Option<f64>], b: &[Option<f64>]| {
        assert_eq!(a.len(), b.len());
        for (x, y) in a.iter().zip(b) {
            match (x, y) {
                (Some(x), Some(y)) => assert!(x == y || (x.is_nan() && y.is_nan())),
                (None, None) => {}
                _ => panic!("a null against a value"),
            }
        }
    };
    same(
        &sorted(
            &[None, Some(0.0), Some(2.0), Some(-1.0), Some(f64::NAN), None],
            options(true, true),
        ),
        &[None, None, Some(f64::NAN), Some(2.0), Some(0.0), Some(-1.0)],
    );
    same(
        &sorted(
            &[Some(f64::NAN), Some(f64::NAN), Some(f64::NAN), Some(1.0)],
            options(true, true),
        ),
        &[Some(f64::NAN), Some(f64::NAN), Some(f64::NAN), Some(1.0)],
    );
    same(
        &sorted(
            &[None, Some(0.0), Some(2.0), Some(-1.0), Some(f64::NAN), None],
            options(false, true),
        ),
        &[None, None, Some(-1.0), Some(0.0), Some(2.0), Some(f64::NAN)],
    );
    same(
        &sorted(
            &[Some(f64::NAN), Some(f64::NAN), Some(f64::NAN), Some(1.0)],
            options(false, true),
        ),
        &[Some(1.0), Some(f64::NAN), Some(f64::NAN), Some(f64::NAN)],
    );
}

#[test]
fn floats_follow_the_total_order() {
    let data = [
        Some(1.5f32),
        Some(f32::NAN),
        Some(-0.0),
        Some(f32::NEG_INFINITY),
        Some(0.0),
        Some(-f32::NAN),
        Some(f32::INFINITY),
        Some(-1.5),
        Some(f32::MIN_POSITIVE),
    ];
    let ascending = SortOptions { descending: false, nulls_first: true };
    assert_eq!(indices(&f32s(&data), &ascending, None), vec![5, 3, 7, 2, 4, 8, 0, 6, 1]);
    let data64: Vec<Option<f64>> = data.iter().map(|v| v.map(|v| v as f64)).collect();
    let mut expected = vec![5, 3, 7, 2, 4, 8, 0, 6, 1];
    // the sign of a NaN may be lost where the width changes: take the two out
    let sorted = indices(&f64s(&data64), &ascending, None);
    let without_nan: Vec<usize> = sorted.into_iter().filter(|i| *i != 1 && *i != 5).collect();
    expected.retain(|i| *i != 1 && *i != 5);
    assert_eq!(without_nan, expected);
    assert!(Float32::from_bits(0x8000_0000).total_lt(&Float32::from_bits(0)));
    assert!(!Float32::from_bits(0).total_lt(&Float32::from_bits(0)));
    assert!(Float64::from_bits(f64::MAX.to_bits()).total_lt(&Float64::from_bits(f64::NAN.to_bits())));
    assert_eq!(Float64::from_bits(7).to_bits(), 7);
    assert_eq!(Float32::from_bits(7).to_bits(), 7);
}

#[test]
fn every_fixed_width_type_is_sorted_by_its_own_order() {
    let options = SortOptions { descending: false, nulls_first: false };
    let cases: Vec<(Array, Vec<usize>)> = vec![
        (Array::Int8(PrimitiveArray::<i8>::from_slice(&[3, -128, 127, 0])), vec![1, 3, 0, 2]),
        (Array::Int16(PrimitiveArray::<i16>::from_slice(&[3, -4, 2])), vec![1, 2, 0]),
        (Array::Int64(PrimitiveArray::<i64>::from_slice(&[i64::MAX, i64::MIN, 0])), vec![1, 2, 0]),
        (Array::UInt8(PrimitiveArray::<u8>::from_slice(&[200, 100, 255, 0])), vec![3, 1, 0, 2]),
        (Array::UInt16(PrimitiveArray::<u16>::from_slice(&[40000, 7])), vec![1, 0]),
        (Array::UInt32(PrimitiveArray::<u32>::from_slice(&[u32::MAX, 0, 1 << 31])), vec![1, 2, 0]),
        (Array::UInt64(PrimitiveArray::<u64>::from_slice(&[u64::MAX, 0, 1 << 63])), vec![1, 2, 0]),
        (
            Array::DaysMs(PrimitiveArray::<days_ms>::from_slice(&[
                days_ms::new(1, -5),
                days_ms::new(0, i32::MAX),
                days_ms::new(1, -6),
                days_ms::new(-1, 0),
            ])),
            vec![3, 1, 2, 0],
        ),
        (
            Array::Int32(PrimitiveArray::<i32>::from_slice(&[9, 8]).to(DataType::Date32)),
            vec![1, 0],
        ),
        (
            Array::Int64(
                PrimitiveArray::<i64>::from_slice(&[9, 8])
                    .to(DataType::Timestamp(TimeUnit::Second, None)),
            ),
            vec![1, 0],
        ),
    ];
    for (array, expected) in cases {
        assert!(can_sort(array.data_type()));
        assert_eq!(indices(&array, &options, None), expected);
    }
}

fn list_of(lists: &[Option<Vec<i16>>], large: bool) -> Array {
    let mut offsets = vec![0usize];
    let mut items: Vec<i16> = vec![];
    let mut validity = MutableBitmap::new();
    for list in lists {
        match list {
            Some(list) => {
                items.extend(list);
                validity.push(true);
            }
            None => validity.push(false),
        }
        offsets.push(items.len());
    }
    let field = Box::new(Field::new("item", DataType::Int16, true));
    let data_type = if large { DataType::LargeList(field) } else { DataType::List(field) };
    let validity: Option<Bitmap> = validity.into();
    Array::List(ListArray::from_data(
        data_type,
        Buffer::from_vec(offsets),
        Arc::new(Array::Int16(PrimitiveArray::<i16>::from_slice(&items))),
        validity,
    ))
}

fn lists_in(array: &Array) -> Vec<Option<Vec<i16>>> {
    let items = |child: Array| match child {
        Array::Int16(items) => items.values().as_slice().to_vec(),
        _ => panic!("another kind of items"),
    };
    match array {
        Array::List(lists) => (0..lists.len())
            .map(|i| {
                let valid = lists.validity().as_ref().map_or(true, |v| v.get_bit(i));
                if valid { Some(items(lists.value(i))) } else { None }
            })
            .collect(),
        Array::FixedSizeList(lists) => (0..lists.len())
            .map(|i| {
                let valid = lists.validity().as_ref().map_or(true, |v| v.get_bit(i));
                if valid { Some(items(lists.value(i))) } else { None }
            })
            .collect(),
        _ => panic!("no lists"),
    }
}

#[test]
fn lists_are_ordered_item_by_item_and_the_shorter_comes_first() {
    let data = vec![
        Some(vec![1, 0]),
        Some(vec![4, 3, 2, 1]),
        None,
        Some(vec![2, 3, 4]),
        Some(vec![1]),
        Some(vec![]),
        Some(vec![1, 0, -7]),
        Some(vec![1, 0]),
    ];
    for large in [false, true] {
        let array = list_of(&data, large);
        assert!(can_sort(array.data_type()));
        let ascending = SortOptions { descending: false, nulls_first: false };
        assert_eq!(indices(&array, &ascending, None), vec![5, 4, 0, 7, 6, 3, 1, 2]);
        let descending = SortOptions { descending: true, nulls_first: true };
        assert_eq!(indices(&array, &descending, None), vec![2, 1, 3, 6, 0, 7, 4, 5]);
        assert_eq!(
            sort_list::<i64>(&array, &ascending, Some(3)).values().as_slice(),
            &[5, 4, 0]
        );
        let sorted = sort(&array, &ascending, None).unwrap();
        assert_eq!(sorted.data_type(), array.data_type());
        assert_eq!(
            lists_in(&sorted),
            vec![
                Some(vec![]),
                Some(vec![1]),
                Some(vec![1, 0]),
                Some(vec![1, 0]),
                Some(vec![1, 0, -7]),
                Some(vec![2, 3, 4]),
                Some(vec![4, 3, 2, 1]),
                None,
            ]
        );
    }
}

fn fixed_lists() -> Array {
    let data_type = FixedSizeListArray::default_datatype(DataType::Int16, 2);
    let items = PrimitiveArray::<i16>::from_slice(&[3, 1, 9, 9, 3, 0, -1, 5, 3, 1]);
    let validity: Option<Bitmap> =
        MutableBitmap::from_trusted_len_iter(vec![true, false, true, true, true]).into();
    Array::FixedSizeList(FixedSizeListArray::from_data(
        data_type,
        Arc::new(Array::Int16(items)),
        validity,
    ))
}

#[test]
fn lists_of_a_fixed_size_are_sorted_too() {
    let array = fixed_lists();
    assert!(can_sort(array.data_type()));
    let ascending = SortOptions { descending: false, nulls_first: true };
    assert_eq!(indices(&array, &ascending, None), vec![1, 3, 2, 0, 4]);
    let descending = SortOptions { descending: true, nulls_first: false };
    assert_eq!(indices(&array, &descending, None), vec![0, 4, 2, 3, 1]);
    let sorted = sort(&array, &ascending, Some(4)).unwrap();
    assert_eq!(
        lists_in(&sorted),
        vec![None, Some(vec![-1, 5]), Some(vec![3, 0]), Some(vec![3, 1])]
    );
    assert_eq!(sorted.data_type(), array.data_type());
}

#[test]
fn keys_of_equal_strings_are_equal() {
    // "b" stands twice among the values
    let values = Array::Binary(Utf8Array::from(vec![Some("b"), Some("a"), Some("b"), Some("c")]));
    let keys = Array::UInt8(PrimitiveArray::<u8>::from(vec![
        Some(2u8),
        Some(3),
        Some(0),
        None,
        Some(1),
        Some(0),
        Some(2),
    ]));
    let array = Array::Dictionary(DictionaryArray::from_data(keys, Arc::new(values)));
    let ascending = SortOptions { descending: false, nulls_first: false };
    assert_eq!(indices(&array, &ascending, None), vec![4, 0, 2, 5, 6, 1, 3]);
    let descending = SortOptions { descending: true, nulls_first: false };
    assert_eq!(indices(&array, &descending, None), vec![1, 0, 2, 5, 6, 4, 3]);
    let key_type = DataType::UInt8;
    let by_dict = sort_dict::<u64>(&array, &key_type, &ascending, Some(2)).unwrap();
    assert_eq!(by_dict.values().as_slice(), &[4, 0]);
    let refused = sort_dict::<u64>(&array, &DataType::Float32, &ascending, None).unwrap_err();
    assert!(matches!(
        refused,
        ArrowError::NotYetImplemented(Unsupported::SortOfDictionaryKeys, DataType::Float32)
    ));
}

fn rejected(array: &Array) -> (Unsupported, DataType, String) {
    let options = SortOptions::default();
    assert!(!can_sort(array.data_type()));
    let by_indices = sort_to_indices::<i32>(array, &options, None).unwrap_err();
    let by_values = sort(array, &options, None).unwrap_err();
    assert_eq!(by_indices.message(), by_values.message());
    match by_indices {
        ArrowError::NotYetImplemented(what, data_type) => {
            let message = ArrowError::NotYetImplemented(what, data_type.clone()).message();
            (what, data_type, message)
        }
    }
}

#[test]
fn what_cannot_be_sorted_is_turned_away_by_name() {
    let (what, data_type, message) = rejected(&new_null_array(DataType::Null, 3));
    assert_eq!((what, data_type), (Unsupported::SortOfType, DataType::Null));
    assert_eq!(message, "Sort not supported for data type Null");

    let (what, data_type, message) = rejected(&new_null_array(DataType::LargeBinary, 3));
    assert_eq!((what, data_type), (Unsupported::SortOfType, DataType::LargeBinary));
    assert_eq!(message, "Sort not supported for data type LargeBinary");

    let zoned = DataType::Timestamp(TimeUnit::Millisecond, Some("UTC".to_string()));
    let (what, data_type, message) = rejected(&new_null_array(zoned.clone(), 0));
    assert_eq!((what, data_type), (Unsupported::SortOfType, zoned));
    assert_eq!(
        message,
        "Sort not supported for data type Timestamp(Millisecond, Some(\"UTC\"))"
    );

    let strings = DataType::List(Box::new(Field::new("item", DataType::Utf8, true)));
    let (what, data_type, message) = rejected(&new_null_array(strings, 2));
    assert_eq!((what, data_type), (Unsupported::SortOfListItems, DataType::Utf8));
    assert_eq!(message, "Sort not supported for list type Utf8");

    let floats = FixedSizeListArray::default_datatype(DataType::Float64, 3);
    let (what, data_type, _) = rejected(&new_null_array(floats, 2));
    assert_eq!((what, data_type), (Unsupported::SortOfListItems, DataType::Float64));

    let large = DataType::LargeList(Box::new(Field::new("item", DataType::Boolean, false)));
    let (what, data_type, _) = rejected(&new_empty_array(large));
    assert_eq!((what, data_type), (Unsupported::SortOfListItems, DataType::Boolean));

    let numbers = DataType::Dictionary(Box::new(DataType::Int8), Box::new(DataType::Int32));
    let (what, data_type, message) = rejected(&new_null_array(numbers, 2));
    assert_eq!((what, data_type), (Unsupported::SortOfDictionaryValues, DataType::Int32));
    assert_eq!(message, "Sort not supported for dictionary type with keys Int32");

    assert_eq!(
        ArrowError::NotYetImplemented(Unsupported::SortOfDictionaryKeys, DataType::Utf8).message(),
        "Sort not supported for dictionary key type Utf8"
    );
}

#[test]
fn can_sort_goes_with_the_sort() {
    let integers = [
        DataType::Int8,
        DataType::Int16,
        DataType::Int32,
        DataType::Int64,
        DataType::UInt8,
        DataType::UInt16,
        DataType::UInt32,
        DataType::UInt64,
    ];
    let others = [
        DataType::Null,
        DataType::Boolean,
        DataType::Float32,
        DataType::Float64,
        DataType::Utf8,
        DataType::LargeUtf8,
        DataType::Binary,
        DataType::Date32,
        DataType::Interval(IntervalUnit::DayTime),
        DataType::Interval(IntervalUnit::YearMonth),
        DataType::Timestamp(TimeUnit::Nanosecond, Some("+01:00".to_string())),
    ];
    let mut types: Vec<DataType> = vec![];
    for item in integers.iter().chain(others.iter()) {
        types.push(item.clone());
        types.push(DataType::List(Box::new(Field::new("item", item.clone(), true))));
        types.push(DataType::LargeList(Box::new(Field::new("item", item.clone(), true))));
        types.push(FixedSizeListArray::default_datatype(item.clone(), 2));
        for key in &integers {
            types.push(DataType::Dictionary(Box::new(key.clone()), Box::new(item.clone())));
        }
    }
    let mut sortable = 0;
    for data_type in types {
        assert!(data_type.is_constructible());
        for array in [new_null_array(data_type.clone(), 4), new_empty_array(data_type.clone())] {
            assert_eq!(*array.data_type(), data_type);
            let sorted = sort_to_indices::<u64>(&array, &SortOptions::default(), None);
            assert_eq!(can_sort(&data_type), sorted.is_ok());
            assert_eq!(can_sort(&data_type), sort(&array, &SortOptions::default(), None).is_ok());
            if let Ok(sorted) = sorted {
                assert_eq!(sorted.len(), array.len());
                sortable += 1;
            }
        }
    }
    // strings and all fixed-width types but Null, Binary and the zoned time;
    // lists of the integers; dictionaries of the two string types
    assert_eq!(sortable, 2 * (16 + 3 * 8 + 2 * 8));
    assert!(can_sort(&DataType::Int8));
    assert!(!can_sort(&DataType::LargeBinary));
    let keys_not_integers =
        DataType::Dictionary(Box::new(DataType::Utf8), Box::new(DataType::Utf8));
    assert!(!can_sort(&keys_not_integers));
    assert!(!keys_not_integers.is_constructible());
}

#[test]
fn take_gathers_values_and_nulls() {
    let array = Array::Binary(Utf8Array::from(vec![Some("a"), None, Some("ccc"), Some("")]));
    let taken = take_positions(&array, &vec![2, 2, 1, 0, 3, 1]);
    let strings = match &taken {
        Array::Binary(strings) => strings.to_options(),
        _ => panic!("another kind of array"),
    };
    assert_eq!(
        strings,
        vec![
            Some(b"ccc".to_vec()),
            Some(b"ccc".to_vec()),
            None,
            Some(b"a".to_vec()),
            Some(vec![]),
            None
        ]
    );
    let positions = PrimitiveArray::<i64>::from_slice(&[3, 0]);
    match take(&Array::Boolean(BooleanArray::from(vec![Some(true), None, None, Some(false)])), &positions) {
        Array::Boolean(values) => assert_eq!(values.to_options(), vec![Some(false), Some(true)]),
        _ => panic!("another kind of array"),
    }
    let numbers = Array::UInt16(PrimitiveArray::<u16>::from(vec![Some(7), None, Some(9)]));
    match take_positions(&numbers, &vec![1, 2, 2]) {
        Array::UInt16(values) => {
            assert_eq!(values.to_options(), vec![None, Some(9), Some(9)]);
            assert_eq!(*values.data_type(), DataType::UInt16);
        }
        _ => panic!("another kind of array"),
    }
    assert_eq!(take_positions(&new_null_array(DataType::Null, 5), &vec![4, 4]).len(), 2);
    let bytes: Vec<Option<&[u8]>> = vec![Some(&[1, 2]), None];
    let binary = Array::Binary(BinaryArray::from_bytes(DataType::Binary, &bytes));
    assert_eq!(*take_positions(&binary, &vec![1]).data_type(), DataType::Binary);
}

#[test]
fn positions_fit_where_the_index_type_holds_them() {
    assert_eq!(<i32 as Index>::from_usize(7), Some(7));
    assert_eq!(<i32 as Index>::from_usize(i32::MAX as usize), Some(i32::MAX));
    assert_eq!(<i32 as Index>::from_usize(i32::MAX as usize + 1), None);
    assert_eq!(<u32 as Index>::from_usize(u32::MAX as usize + 1), None);
    assert_eq!(<u64 as Index>::from_usize(usize::MAX), Some(usize::MAX as u64));
    assert_eq!(<i64 as Index>::from_usize(9), Some(9));
    assert_eq!(Index::to_usize(&9i64), 9);
    assert_eq!(Index::to_usize(&9u32), 9);
    assert_eq!(<u8 as NativeType>::zero(), 0);
    assert_eq!(<days_ms as NativeType>::zero(), days_ms::new(0, 0));
    assert_eq!(<i64 as NativeType>::data_type(), DataType::Int64);
    assert!(<i64 as NativeType>::is_valid(&DataType::Duration(TimeUnit::Second)));
    assert!(!<i32 as NativeType>::is_valid(&DataType::Interval(IntervalUnit::DayTime)));
    assert!(<days_ms as NativeType>::is_valid(&DataType::Interval(IntervalUnit::DayTime)));
    assert!(days_ms::new(0, 1).same(&days_ms::new(0, 1)));
    let default = SortOptions::default();
    assert!(!default.descending && default.nulls_first);
}
