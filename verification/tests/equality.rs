use columnar::array::{BinaryArray, BooleanArray, PrimitiveArray, Utf8Array};
use columnar::bitmap::{Bitmap, MutableBitmap};
use columnar::buffer::Buffer;
use columnar::datatypes::{DataType, Field, TimeUnit};

#[test]
fn bitmaps_are_equal_by_their_bits() {
    let a: Bitmap = MutableBitmap::from_trusted_len_iter(vec![true, false, true]).into();
    let b = Bitmap::from_u8_slice(&[0b1111_1010], 8).slice(1, 3);
    assert_eq!(a, b);
    assert_ne!(a.as_slice(), b.as_slice());
    assert_ne!(a, Bitmap::from_u8_slice(&[0b0000_0101], 4));
    assert_ne!(a, Bitmap::from_u8_slice(&[0b0000_0111], 3));
    assert_eq!(Bitmap::new(), Bitmap::new_zeroed(0));
}

#[test]
fn arrays_are_equal_by_type_and_values() {
    let a = PrimitiveArray::<i32>::from(vec![Some(1), None, Some(3)]);
    let validity: Bitmap = MutableBitmap::from_trusted_len_iter(vec![true, false, true]).into();
    // another value in the slot of the null, and a window of a longer array
    let b = PrimitiveArray::<i32>::from_data(
        DataType::Int32,
        Buffer::from_vec(vec![0, 1, 77, 3]).slice(1, 3),
        Some(validity),
    );
    assert_eq!(a, b);
    assert_ne!(a, PrimitiveArray::<i32>::from(vec![Some(1), None, Some(4)]));
    assert_ne!(a, PrimitiveArray::<i32>::from(vec![Some(1), Some(0), Some(3)]));
    assert_ne!(a, PrimitiveArray::<i32>::from(vec![Some(1), None]));
    assert_ne!(a.clone(), a.clone().to(DataType::Date32));
    // a bitmap of set bits alone is as good as none
    let all: Bitmap = MutableBitmap::from_trusted_len_iter(vec![true, true]).into();
    assert_eq!(
        PrimitiveArray::<u8>::from_slice(&[5, 6]),
        PrimitiveArray::<u8>::from_data(DataType::UInt8, Buffer::from_vec(vec![5, 6]), Some(all))
    );
    assert_eq!(
        BooleanArray::from(vec![Some(true), None]),
        BooleanArray::from(vec![Some(false), Some(true), None]).slice(1, 2)
    );
    assert_ne!(BooleanArray::from(vec![Some(true)]), BooleanArray::from(vec![Some(false)]));
    assert_ne!(BooleanArray::from(vec![Some(true)]), BooleanArray::from(vec![None]));
}

#[test]
fn strings_are_equal_by_type_and_bytes() {
    let a = Utf8Array::from(vec![Some("ab"), None, Some("")]);
    let b = Utf8Array::from(vec![Some("zz"), Some("ab"), None, Some("")]).slice(1, 3);
    assert_eq!(a, b);
    assert_ne!(a, Utf8Array::from(vec![Some("ab"), None, Some("c")]));
    assert_ne!(a, Utf8Array::from(vec![Some("ab"), Some(""), Some("")]));
    let bytes: Vec<Option<&[u8]>> = vec![Some(b"ab"), None, Some(b"")];
    assert_ne!(a, BinaryArray::from_bytes(DataType::Binary, &bytes));
    assert_eq!(a, BinaryArray::from_bytes(DataType::Utf8, &bytes));
}

#[test]
fn types_are_equal_by_all_that_they_hold() {
    let list = |name: &str, item: DataType, nullable: bool| {
        DataType::List(Box::new(Field::new(name, item, nullable)))
    };
    assert_eq!(list("item", DataType::Int8, true), list("item", DataType::Int8, true));
    assert_ne!(list("item", DataType::Int8, true), list("items", DataType::Int8, true));
    assert_ne!(list("item", DataType::Int8, true), list("item", DataType::Int16, true));
    assert_ne!(list("item", DataType::Int8, true), list("item", DataType::Int8, false));
    assert_ne!(
        list("item", DataType::Int8, true),
        DataType::LargeList(Box::new(Field::new("item", DataType::Int8, true)))
    );
    let zoned = |zone: Option<&str>| {
        DataType::Timestamp(TimeUnit::Second, zone.map(|z| z.to_string()))
    };
    assert_eq!(zoned(Some("UTC")), zoned(Some("UTC")));
    assert_ne!(zoned(Some("UTC")), zoned(Some("CET")));
    assert_ne!(zoned(Some("UTC")), zoned(None));
    assert_ne!(zoned(None), DataType::Timestamp(TimeUnit::Millisecond, None));
    assert_ne!(DataType::Time32(TimeUnit::Second), DataType::Time64(TimeUnit::Second));
    let fixed = |size| DataType::FixedSizeList(Box::new(Field::new("item", DataType::Utf8, true)), size);
    assert_eq!(fixed(3), fixed(3));
    assert_ne!(fixed(3), fixed(4));
    let dictionary = |keys, values| DataType::Dictionary(Box::new(keys), Box::new(values));
    assert_eq!(dictionary(DataType::Int8, zoned(None)), dictionary(DataType::Int8, zoned(None)));
    assert_ne!(dictionary(DataType::Int8, DataType::Utf8), dictionary(DataType::Int16, DataType::Utf8));
    assert_ne!(dictionary(DataType::Int8, DataType::Utf8), dictionary(DataType::Int8, DataType::Binary));
}

#[test]
fn types_as_text() {
    let types = vec![
        DataType::Null,
        DataType::UInt64,
        DataType::LargeUtf8,
        DataType::Time32(TimeUnit::Millisecond),
        DataType::Duration(TimeUnit::Nanosecond),
        DataType::Interval(columnar::datatypes::IntervalUnit::YearMonth),
        DataType::Timestamp(TimeUnit::Microsecond, None),
        DataType::Timestamp(TimeUnit::Second, Some("Europe/Paris".to_string())),
        DataType::List(Box::new(Field::new("item", DataType::Int8, true))),
        DataType::LargeList(Box::new(Field::new("", DataType::Boolean, false))),
        DataType::FixedSizeList(Box::new(Field::new("xy", DataType::Float64, true)), 1203),
        DataType::FixedSizeList(Box::new(Field::new("xy", DataType::Float64, true)), 0),
        DataType::FixedSizeList(Box::new(Field::new("xy", DataType::Float64, true)), -45),
        DataType::FixedSizeList(Box::new(Field::new("xy", DataType::Float64, true)), i32::MIN),
        DataType::Dictionary(
            Box::new(DataType::Int16),
            Box::new(DataType::List(Box::new(Field::new("item", DataType::Utf8, true)))),
        ),
    ];
    for data_type in types {
        assert_eq!(data_type.text(), format!("{:?}", data_type));
    }
    assert_eq!(
        DataType::FixedSizeList(Box::new(Field::new("item", DataType::Date32, false)), 7).text(),
        "FixedSizeList(Field { name: \"item\", data_type: Date32, nullable: false }, 7)"
    );
    assert_eq!(Field::new("a", DataType::Binary, true).text(), "Field { name: \"a\", data_type: Binary, nullable: true }");
    assert_eq!(TimeUnit::Second.text(), "Second");
}
