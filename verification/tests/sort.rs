use columnar::array::{
    new_null_array, Array, BooleanArray, DictionaryArray, PrimitiveArray, Utf8Array,
};
use columnar::compute::sort::{can_sort, sort, sort_to_indices, SortOptions};
use columnar::datatypes::{DataType, TimeUnit};
use std::sync::Arc;

fn test_sort_to_indices_boolean_arrays(
    data: &[Option<bool>],
    options: SortOptions,
    expected_data: &[i32],
) {
    let output = Array::Boolean(BooleanArray::from(data.to_vec()));
    let expected = PrimitiveArray::<i32>::from_slice(expected_data);
    let output = sort_to_indices(&output, &options, None).unwrap();
    assert_eq!(output, expected)
}

fn test_sort_to_indices_string_arrays(
    data: &[Option<&str>],
    options: SortOptions,
    expected_data: &[i32],
) {
    let input = Array::Binary(Utf8Array::from(data.to_vec()));
    let expected = PrimitiveArray::<i32>::from_slice(expected_data);
    let output = sort_to_indices(&input, &options, None).unwrap();
    assert_eq!(output, expected)
}

#[test]
fn test_sort_boolean() {
    // boolean
    test_sort_to_indices_boolean_arrays(
        &[None, Some(false), Some(true), Some(true), Some(false), None],
        SortOptions {
            descending: false,
            nulls_first: true,
        },
        &[0, 5, 1, 4, 2, 3],
    );

    // boolean, descending
    test_sort_to_indices_boolean_arrays(
        &[None, Some(false), Some(true), Some(true), Some(false), None],
        SortOptions {
            descending: true,
            nulls_first: false,
        },
        &[2, 3, 1, 4, 5, 0],
    );

    // boolean, descending, nulls first
    test_sort_to_indices_boolean_arrays(
        &[None, Some(false), Some(true), Some(true), Some(false), None],
        SortOptions {
            descending: true,
            nulls_first: true,
        },
        &[5, 0, 2, 3, 1, 4],
    );
}

#[test]
fn test_sort_to_indices_strings() {
    test_sort_to_indices_string_arrays(
        &[
            None,
            Some("bad"),
            Some("sad"),
            None,
            Some("glad"),
            Some("-ad"),
        ],
        SortOptions {
            descending: false,
            nulls_first: true,
        },
        &[0, 3, 5, 1, 4, 2],
    );

    test_sort_to_indices_string_arrays(
        &[
            None,
            Some("bad"),
            Some("sad"),
            None,
            Some("glad"),
            Some("-ad"),
        ],
        SortOptions {
            descending: true,
            nulls_first: false,
        },
        &[2, 4, 1, 5, 0, 3],
    );

    test_sort_to_indices_string_arrays(
        &[
            None,
            Some("bad"),
            Some("sad"),
            None,
            Some("glad"),
            Some("-ad"),
        ],
        SortOptions {
            descending: false,
            nulls_first: true,
        },
        &[0, 3, 5, 1, 4, 2],
    );

    test_sort_to_indices_string_arrays(
        &[
            None,
            Some("bad"),
            Some("sad"),
            None,
            Some("glad"),
            Some("-ad"),
        ],
        SortOptions {
            descending: true,
            nulls_first: true,
        },
        &[0, 3, 2, 4, 1, 5],
    );
}

fn strings_of(array: &Array) -> Vec<Option<String>> {
    match array {
        Array::Binary(strings) => strings
            .to_options()
            .into_iter()
            .map(|bytes| bytes.map(|b| String::from_utf8(b).unwrap()))
            .collect(),
        Array::Dictionary(dictionary) => {
            let values = strings_of(dictionary.values());
            (0..dictionary.len())
                .map(|i| {
                    let valid = match dictionary.validity() {
                        Some(bitmap) => bitmap.get_bit(i),
                        None => true,
                    };
                    if valid {
                        values[dictionary.key(i).unwrap()].clone()
                    } else {
                        None
                    }
                })
                .collect()
        }
        _ => panic!("no strings"),
    }
}

fn owned(data: &[Option<&str>]) -> Vec<Option<String>> {
    data.iter().map(|s| s.map(|s| s.to_string())).collect()
}

fn test_sort_string_arrays(
    data: &[Option<&str>],
    options: SortOptions,
    expected_data: &[Option<&str>],
) {
    let input = Array::Binary(Utf8Array::from(data.to_vec()));
    let expected = Array::Binary(Utf8Array::from(expected_data.to_vec()));
    let output = sort(&input, &options, None).unwrap();
    match (&expected, &output) {
        (Array::Binary(expected), Array::Binary(output)) => assert_eq!(expected, output),
        _ => panic!("another kind of array"),
    }
    assert_eq!(strings_of(&output), owned(expected_data));
}

/// Builds the dictionary of `data`: each string once among the values, in
/// the order in which the strings first come, and a key for each position.
fn dictionary_of(keys_of: fn(Vec<Option<i64>>) -> Array, data: &[Option<&str>]) -> Array {
    let mut values: Vec<Option<&str>> = vec![];
    let mut keys: Vec<Option<i64>> = vec![];
    for item in data {
        match item {
            Some(s) => {
                let at = match values.iter().position(|v| *v == Some(*s)) {
                    Some(at) => at,
                    None => {
                        values.push(Some(*s));
                        values.len() - 1
                    }
                };
                keys.push(Some(at as i64));
            }
            None => keys.push(None),
        }
    }
    let values = Array::Binary(Utf8Array::from(values));
    Array::Dictionary(DictionaryArray::from_data(keys_of(keys), Arc::new(values)))
}

fn keys_i8(keys: Vec<Option<i64>>) -> Array {
    Array::Int8(PrimitiveArray::<i8>::from(
        keys.into_iter().map(|k| k.map(|k| k as i8)).collect::<Vec<_>>(),
    ))
}

fn keys_i16(keys: Vec<Option<i64>>) -> Array {
    Array::Int16(PrimitiveArray::<i16>::from(
        keys.into_iter().map(|k| k.map(|k| k as i16)).collect::<Vec<_>>(),
    ))
}

fn keys_i32(keys: Vec<Option<i64>>) -> Array {
    Array::Int32(PrimitiveArray::<i32>::from(
        keys.into_iter().map(|k| k.map(|k| k as i32)).collect::<Vec<_>>(),
    ))
}

fn test_sort_string_dict_arrays(
    keys_of: fn(Vec<Option<i64>>) -> Array,
    data: &[Option<&str>],
    options: SortOptions,
    expected_data: &[Option<&str>],
) {
    let input = dictionary_of(keys_of, data);
    let expected = dictionary_of(keys_of, expected_data);
    let output = sort(&input, &options, None).unwrap();
    assert_eq!(strings_of(&expected), strings_of(&output));
    assert_eq!(strings_of(&output), owned(expected_data));
    assert_eq!(expected.data_type(), output.data_type());
}

#[test]
fn test_sort_strings() {
    test_sort_string_arrays(
        &[
            None,
            Some("bad"),
            Some("sad"),
            None,
            Some("glad"),
            Some("-ad"),
        ],
        SortOptions {
            descending: false,
            nulls_first: true,
        },
        &[
            None,
            None,
            Some("-ad"),
            Some("bad"),
            Some("glad"),
            Some("sad"),
        ],
    );

    test_sort_string_arrays(
        &[
            None,
            Some("bad"),
            Some("sad"),
            None,
            Some("glad"),
            Some("-ad"),
        ],
        SortOptions {
            descending: true,
            nulls_first: false,
        },
        &[
            Some("sad"),
            Some("glad"),
            Some("bad"),
            Some("-ad"),
            None,
            None,
        ],
    );

    test_sort_string_arrays(
        &[
            None,
            Some("bad"),
            Some("sad"),
            None,
            Some("glad"),
            Some("-ad"),
        ],
        SortOptions {
            descending: false,
            nulls_first: true,
        },
        &[
            None,
            None,
            Some("-ad"),
            Some("bad"),
            Some("glad"),
            Some("sad"),
        ],
    );

    test_sort_string_arrays(
        &[
            None,
            Some("bad"),
            Some("sad"),
            None,
            Some("glad"),
            Some("-ad"),
        ],
        SortOptions {
            descending: true,
            nulls_first: true,
        },
        &[
            None,
            None,
            Some("sad"),
            Some("glad"),
            Some("bad"),
            Some("-ad"),
        ],
    );
}

#[test]
fn test_sort_string_dicts() {
    test_sort_string_dict_arrays(
        keys_i8,
        &[
            None,
            Some("bad"),
            Some("sad"),
            None,
            Some("glad"),
            Some("-ad"),
        ],
        SortOptions {
            descending: false,
            nulls_first: true,
        },
        &[
            None,
            None,
            Some("-ad"),
            Some("bad"),
            Some("glad"),
            Some("sad"),
        ],
    );

    test_sort_string_dict_arrays(
        keys_i16,
        &[
            None,
            Some("bad"),
            Some("sad"),
            None,
            Some("glad"),
            Some("-ad"),
        ],
        SortOptions {
            descending: true,
            nulls_first: false,
        },
        &[
            Some("sad"),
            Some("glad"),
            Some("bad"),
            Some("-ad"),
            None,
            None,
        ],
    );

    test_sort_string_dict_arrays(
        keys_i32,
        &[
            None,
            Some("bad"),
            Some("sad"),
            None,
            Some("glad"),
            Some("-ad"),
        ],
        SortOptions {
            descending: false,
            nulls_first: true,
        },
        &[
            None,
            None,
            Some("-ad"),
            Some("bad"),
            Some("glad"),
            Some("sad"),
        ],
    );

    test_sort_string_dict_arrays(
        keys_i16,
        &[
            None,
            Some("bad"),
            Some("sad"),
            None,
            Some("glad"),
            Some("-ad"),
        ],
        SortOptions {
            descending: true,
            nulls_first: true,
        },
        &[
            None,
            None,
            Some("sad"),
            Some("glad"),
            Some("bad"),
            Some("-ad"),
        ],
    );
}

#[test]
fn consistency() {
    let datatypes = vec![
        DataType::Null,
        DataType::Boolean,
        DataType::UInt8,
        DataType::UInt16,
        DataType::UInt32,
        DataType::UInt64,
        DataType::Int8,
        DataType::Int16,
        DataType::Int32,
        DataType::Int64,
        DataType::Float32,
        DataType::Float64,
        DataType::Timestamp(TimeUnit::Second, None),
        DataType::Timestamp(TimeUnit::Millisecond, None),
        DataType::Timestamp(TimeUnit::Microsecond, None),
        DataType::Timestamp(TimeUnit::Nanosecond, None),
        DataType::Time64(TimeUnit::Microsecond),
        DataType::Time64(TimeUnit::Nanosecond),
        DataType::Date32,
        DataType::Time32(TimeUnit::Second),
        DataType::Time32(TimeUnit::Millisecond),
        DataType::Date64,
        DataType::Utf8,
        DataType::LargeUtf8,
        DataType::Binary,
        DataType::LargeBinary,
        DataType::Duration(TimeUnit::Second),
        DataType::Duration(TimeUnit::Millisecond),
        DataType::Duration(TimeUnit::Microsecond),
        DataType::Duration(TimeUnit::Nanosecond),
    ];

    datatypes.into_iter().for_each(|d1| {
        let array = new_null_array(d1.clone(), 10);
        let options = SortOptions {
            descending: true,
            nulls_first: true,
        };
        if can_sort(&d1) {
            assert!(sort(&array, &options, None).is_ok());
        } else {
            assert!(sort(&array, &options, None).is_err());
        }
    });
}
