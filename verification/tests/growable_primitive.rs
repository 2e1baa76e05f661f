use columnar::array::growable::{Growable, GrowablePrimitive};
use columnar::array::{Array, PrimitiveArray};
use columnar::datatypes::DataType;

/// extending from an array without offset and without nulls
#[test]
fn test_primitive() {
    let b = PrimitiveArray::<u8>::from(vec![Some(1), Some(2), Some(3)]).to(DataType::UInt8);
    let mut a = GrowablePrimitive::new(vec![&b], false, 3);
    a.extend(0, 0, 2);
    let result: PrimitiveArray<u8> = a.into();
    let expected = PrimitiveArray::<u8>::from(vec![Some(1), Some(2)]).to(DataType::UInt8);
    assert_eq!(result, expected);
    assert!(result.validity().is_none());
}

/// extending from an array with an offset
#[test]
fn test_primitive_offset() {
    let b = PrimitiveArray::<u8>::from(vec![Some(1), Some(2), Some(3)]).to(DataType::UInt8);
    let b = b.slice(1, 2);
    let mut a = GrowablePrimitive::new(vec![&b], false, 2);
    a.extend(0, 0, 2);
    let result: PrimitiveArray<u8> = a.into();
    let expected = PrimitiveArray::<u8>::from(vec![Some(2), Some(3)]).to(DataType::UInt8);
    assert_eq!(result, expected);
}

/// extending from an array with an offset and nulls
#[test]
fn test_primitive_null_offset() {
    let b = PrimitiveArray::<u8>::from(vec![Some(1), None, Some(3)]).to(DataType::UInt8);
    let b = b.slice(1, 2);
    let mut a = GrowablePrimitive::new(vec![&b], false, 2);
    a.extend(0, 0, 2);
    let result: PrimitiveArray<u8> = a.into();
    let expected = PrimitiveArray::<u8>::from(vec![None, Some(3)]).to(DataType::UInt8);
    assert_eq!(result, expected);
}

#[test]
fn test_primitive_null_offset_validity() {
    let b = PrimitiveArray::<u8>::from(vec![Some(1), Some(2), Some(3)]).to(DataType::UInt8);
    let b = b.slice(1, 2);
    let mut a = GrowablePrimitive::new(vec![&b], true, 2);
    a.extend(0, 0, 2);
    a.extend_validity(3);
    a.extend(0, 1, 1);
    let result: PrimitiveArray<u8> = a.into();
    let expected = PrimitiveArray::<u8>::from(vec![Some(2), Some(3), None, None, None, Some(3)])
        .to(DataType::UInt8);
    assert_eq!(result, expected);
}

#[test]
fn test_primitive_joining_arrays() {
    let b = PrimitiveArray::<u8>::from(vec![Some(1), Some(2), Some(3)]);
    let c = PrimitiveArray::<u8>::from(vec![Some(4), Some(5), Some(6)]);
    let mut a = GrowablePrimitive::new(vec![&b, &c], false, 4);
    a.extend(0, 0, 2);
    a.extend(1, 1, 2);
    let result: PrimitiveArray<u8> = a.into();

    let expected = PrimitiveArray::<u8>::from(vec![Some(1), Some(2), Some(5), Some(6)]);
    assert_eq!(result, expected);
}

/// a builder that kept no bitmap keeps one from the first run of nulls on
#[test]
fn nulls_after_values_without_bitmap() {
    let b = PrimitiveArray::<i32>::from_slice(&[7, 8, 9]);
    let mut a = GrowablePrimitive::new(vec![&b], false, 0);
    a.extend(0, 1, 2);
    a.extend_validity(2);
    a.extend(0, 0, 1);
    let first = a.to();
    assert_eq!(first.to_options(), vec![Some(8), Some(9), None, None, Some(7)]);
    assert_eq!(first.values().as_slice(), &[8, 9, 0, 0, 7]);
    // the builder starts anew on the same sources
    a.extend(0, 0, 3);
    let second: PrimitiveArray<i32> = a.into();
    assert_eq!(second.to_options(), vec![Some(7), Some(8), Some(9)]);
    assert!(second.validity().is_none());
}

/// values and validity of two sources, each with the validity of its own
#[test]
fn concatenation_keeps_values_and_nulls() {
    let a = PrimitiveArray::<i64>::from(vec![Some(10), None, Some(30), Some(40)]);
    let b = PrimitiveArray::<i64>::from_slice(&[5, 6, 7]);
    let mut g = GrowablePrimitive::new(vec![&a, &b], false, 5);
    g.extend(0, 1, 3);
    g.extend(1, 0, 2);
    let out: PrimitiveArray<i64> = g.into();
    assert_eq!(out.to_options(), vec![None, Some(30), Some(40), Some(5), Some(6)]);
    for i in 0..3 {
        assert_eq!(out.is_valid(i), a.is_valid(1 + i));
    }
    for i in 0..2 {
        assert!(out.is_valid(3 + i));
    }
}

/// the builder of any kind hands out arrays of any kind
#[test]
fn builder_as_a_growable() {
    fn feed<G: Growable>(growable: &mut G) {
        growable.extend(0, 1, 2);
        growable.extend_validity(1);
    }
    let b = PrimitiveArray::<u32>::from(vec![Some(1), None, Some(3)]);
    let mut a = GrowablePrimitive::new(vec![&b], false, 3);
    feed(&mut a);
    let boxed = Growable::as_box(&mut a);
    match &*boxed {
        Array::UInt32(values) => assert_eq!(values.to_options(), vec![None, Some(3), None]),
        _ => panic!("another kind of array"),
    }
    feed(&mut a);
    Growable::extend(&mut a, 0, 0, 1);
    let shared = Growable::as_arc(&mut a);
    match &*shared {
        Array::UInt32(values) => {
            assert_eq!(values.to_options(), vec![None, Some(3), None, Some(1)])
        }
        _ => panic!("another kind of array"),
    }
    assert_eq!(Growable::as_box(&mut a).len(), 0);
}
