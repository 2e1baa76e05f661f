use columnar::bitmap::utils::{bytes_for, get_bit, is_set, keep_low, null_count, set_bit};
use columnar::bitmap::{Bitmap, MutableBitmap};
use columnar::buffer::{Buffer, MutableBuffer};
use columnar::trusted_len::{BitmapIter, Repeat, TrustedLen};

fn pattern(n: usize) -> Vec<bool> {
    (0..n).map(|i| (i * i + 3 * i) % 7 < 3).collect()
}

fn frozen(bitmap: MutableBitmap) -> Bitmap {
    bitmap.into()
}

#[test]
fn push_and_bulk_extend_freeze_to_the_same_bitmap() {
    for n in [0usize, 1, 7, 8, 9, 15, 16, 17, 63, 64, 65, 200] {
        for head in [0usize, 1, 3, 8, 13] {
            let values = pattern(n);
            let mut one_by_one = MutableBitmap::new();
            let mut in_bulk = MutableBitmap::new();
            for v in pattern(head) {
                one_by_one.push(v);
                in_bulk.push(v);
            }
            for v in &values {
                one_by_one.push(*v);
            }
            in_bulk.extend_from_trusted_len_iter(values.clone());
            assert!(one_by_one == in_bulk);
            assert_eq!(one_by_one.len(), head + n);
            let a = frozen(one_by_one);
            let b = frozen(in_bulk);
            assert_eq!(a.as_slice(), b.as_slice());
            assert_eq!(a.len(), b.len());
            let mut expected = pattern(head);
            expected.extend(values);
            assert_eq!(a.iter(), expected);
            assert_eq!(b.iter(), expected);
        }
    }
}

#[test]
fn all_valid_collapses_to_no_bitmap() {
    for n in [0usize, 1, 8, 9, 64] {
        let all_set = MutableBitmap::from_trusted_len_iter(vec![true; n]);
        let none: Option<Bitmap> = all_set.into();
        assert!(none.is_none());
        if n > 0 {
            for unset in [0, n / 2, n - 1] {
                let mut one_unset = MutableBitmap::from_trusted_len_iter(vec![true; n]);
                one_unset.set(unset, false);
                let some: Option<Bitmap> = one_unset.into();
                let bitmap = some.unwrap();
                assert_eq!(bitmap.len(), n);
                assert_eq!(bitmap.null_count(), 1);
                assert!(!bitmap.get_bit(unset));
            }
        }
    }
}

#[test]
fn slice_is_a_view() {
    let bits = pattern(100);
    let bitmap = frozen(MutableBitmap::from_trusted_len_iter(bits.clone()));
    for (offset, length) in [(0usize, 100usize), (0, 0), (3, 17), (8, 16), (9, 64), (99, 1), (100, 0)] {
        let window = bitmap.clone().slice(offset, length);
        assert_eq!(window.len(), length);
        for i in 0..length {
            assert_eq!(window.get_bit(i), bitmap.get_bit(offset + i));
            assert_eq!(window.get(i), Some(bits[offset + i]));
        }
        assert_eq!(window.get(length), None);
        let zeros = bits[offset..offset + length].iter().filter(|b| !**b).count();
        assert_eq!(window.null_count(), zeros);
        assert_eq!(window.offset(), offset % 8);
        // a slice of a slice is a view of the first bitmap too
        if length >= 2 {
            let inner = window.clone().slice(1, length - 2);
            assert_eq!(inner.iter(), bits[offset + 1..offset + length - 1].to_vec());
        }
    }
}

#[test]
fn aligned_copy_and_bit_by_bit_copy_agree() {
    // bytes with set bits beyond every window that is taken from them
    let source: Vec<u8> = vec![0b1011_0110, 0xFF, 0b0101_1010, 0xFF, 0x0F, 0xFF];
    for own in [0usize, 8, 16] {
        for offset in [0usize, 8, 16] {
            for length in [0usize, 1, 5, 8, 9, 16, 23] {
                let mut fast = MutableBitmap::from_trusted_len_iter(pattern(own));
                let mut slow = MutableBitmap::from_trusted_len_iter(pattern(own));
                fast.extend_from_slice(&source, offset, length);
                slow.extend_from_trusted_len_iter(BitmapIter::new(&source, offset, length));
                assert!(fast == slow);
                let mut expected = pattern(own);
                expected.extend((0..length).map(|i| get_bit(&source, offset + i)));
                assert_eq!(fast.iter(), expected);
                // what follows must not see bits that lay beyond the window
                fast.push(false);
                slow.push(false);
                fast.extend_constant(9, false);
                slow.extend_constant(9, false);
                expected.extend(vec![false; 10]);
                assert_eq!(fast.iter(), expected);
                let (fast, slow) = (frozen(fast), frozen(slow));
                assert_eq!(fast.as_slice(), slow.as_slice());
            }
        }
    }
}

#[test]
fn unaligned_extend_from_slice() {
    let source: Vec<u8> = vec![0b1100_1010, 0b0011_0101];
    let mut bitmap = MutableBitmap::new();
    bitmap.push(true);
    bitmap.extend_from_slice(&source, 3, 10);
    let expected: Vec<bool> = std::iter::once(true)
        .chain((3..13).map(|i| (source[i / 8] >> (i % 8)) & 1 == 1))
        .collect();
    assert_eq!(bitmap.iter(), expected);
    let other = frozen(MutableBitmap::from_trusted_len_iter(pattern(20))).slice(5, 11);
    bitmap.extend_from_bitmap(&other);
    let mut expected = expected;
    expected.extend(pattern(20)[5..16].iter());
    assert_eq!(bitmap.iter(), expected);
}

#[test]
fn extend_constant_of_both_values() {
    let mut bitmap = MutableBitmap::new();
    bitmap.extend_constant(3, true);
    bitmap.extend_constant(0, true);
    bitmap.extend_constant(6, false);
    bitmap.extend_constant(10, true);
    bitmap.extend_constant(0, false);
    let mut expected = vec![true; 3];
    expected.extend(vec![false; 6]);
    expected.extend(vec![true; 10]);
    assert_eq!(bitmap.iter(), expected);
    assert_eq!(bitmap.null_count(), 6);
    assert_eq!(bitmap.len(), 19);
    assert!(!bitmap.is_empty());
    let bitmap = frozen(bitmap);
    assert_eq!(bitmap.as_slice(), &[0b0000_0111, 0b1111_1110, 0b0000_0111]);
}

#[test]
fn trusted_len_sources() {
    let repeat = Repeat { value: true, count: 4 };
    assert_eq!(TrustedLen::len(&repeat), 4);
    assert!(TrustedLen::get(&repeat, 3));
    let bools: &[bool] = &[true, false];
    assert_eq!(TrustedLen::len(&bools), 2);
    assert!(!TrustedLen::get(&bools, 1));
    let bytes = [0b0000_0110u8];
    let bits = BitmapIter::new(&bytes, 1, 3);
    assert_eq!(bits.len(), 3);
    assert!(bits.get(0) && bits.get(1) && !bits.get(2));
    let bitmap = MutableBitmap::from_trusted_len_iter_unchecked(bits);
    assert_eq!(bitmap.iter(), vec![true, true, false]);
}

#[test]
fn fallible_sources() {
    let good: Vec<Result<bool, String>> = vec![Ok(true), Ok(false), Ok(true)];
    let bitmap = MutableBitmap::try_from_trusted_len_iter(good).unwrap();
    assert_eq!(bitmap.iter(), vec![true, false, true]);
    let bad: Vec<Result<bool, String>> = vec![
        Ok(true),
        Err("first".to_string()),
        Ok(false),
        Err("second".to_string()),
    ];
    assert_eq!(MutableBitmap::try_from_trusted_len_iter(bad).unwrap_err(), "first");
    let bad: Vec<Result<bool, u8>> = vec![Err(7)];
    assert_eq!(MutableBitmap::try_from_trusted_len_iter_unchecked(bad).unwrap_err(), 7);
    let empty: Vec<Result<bool, u8>> = vec![];
    assert!(MutableBitmap::try_from_trusted_len_iter(empty).unwrap().is_empty());
}

#[test]
fn from_iter_of_any_length() {
    for n in [0usize, 1, 7, 8, 9, 16, 65] {
        let bits = pattern(n);
        let bitmap = MutableBitmap::from_iter(bits.clone().into_iter());
        assert_eq!(bitmap.len(), n);
        assert_eq!(bitmap.iter(), bits);
        let same = MutableBitmap::from_trusted_len_iter(bits);
        assert!(bitmap == same);
        assert_eq!(frozen(bitmap).as_slice().len(), (n + 7) / 8);
    }
    let filtered = MutableBitmap::from_iter((0..10).filter(|i| i % 3 != 0).map(|i| i % 2 == 0));
    assert_eq!(filtered.iter(), vec![false, true, true, false, false, true]);
}

#[test]
fn equality_is_by_bits() {
    let a = MutableBitmap::from_trusted_len_iter(vec![true, false]);
    let mut b = MutableBitmap::with_capacity(1000);
    b.push(true);
    assert!(a != b);
    b.push(false);
    assert!(a == b);
    b.set(1, true);
    assert!(a != b);
    assert!(MutableBitmap::default() == MutableBitmap::new());
}

#[test]
fn capacity_moves_in_steps_of_64_bytes() {
    let mut bitmap = MutableBitmap::new();
    assert_eq!(bitmap.capacity(), 0);
    bitmap.push(true);
    assert_eq!(bitmap.capacity(), 512);
    bitmap.reserve(511);
    assert_eq!(bitmap.capacity(), 512);
    bitmap.reserve(512);
    assert_eq!(bitmap.capacity(), 1024);
    bitmap.extend_constant(1024, false);
    assert_eq!(bitmap.capacity(), 2048);
    bitmap.extend_constant(8 * 1000, true);
    assert_eq!(bitmap.capacity(), 8 * 1152);
    let mut bitmap = MutableBitmap::with_capacity(513);
    assert_eq!(bitmap.capacity(), 1024);
    for _ in 0..1024 {
        bitmap.push_unchecked(true);
    }
    assert_eq!(bitmap.capacity(), 1024);
    assert_eq!(bitmap.len(), 1024);
}

#[test]
fn byte_buffer() {
    let mut buffer = MutableBuffer::new();
    assert!(buffer.is_empty());
    assert_eq!(buffer.capacity(), 0);
    buffer.push(1);
    assert_eq!(buffer.capacity(), 64);
    buffer.extend_from_slice(&[2, 3]);
    buffer.extend_constant(2, 9);
    assert_eq!(buffer.as_slice(), &[1, 2, 3, 9, 9]);
    buffer.set(0, 7);
    assert_eq!(buffer.get(0), 7);
    buffer.resize(70, 5);
    assert_eq!(buffer.len(), 70);
    assert_eq!(buffer.get(69), 5);
    assert_eq!(buffer.capacity(), 128);
    buffer.reserve(59);
    assert_eq!(buffer.capacity(), 256);
    buffer.truncate(3);
    assert_eq!(buffer.as_slice(), &[7, 2, 3]);
    buffer.truncate(10);
    assert_eq!(buffer.len(), 3);
    buffer.resize(1, 0);
    assert_eq!(buffer.capacity(), 256);
    buffer.push_unchecked(4);
    assert_eq!(buffer.into_vec(), vec![7, 4]);
    assert_eq!(MutableBuffer::with_capacity(65).capacity(), 128);
    assert_eq!(MutableBuffer::with_capacity(64).capacity(), 64);
    let zeroed = MutableBuffer::from_len_zeroed(3);
    assert_eq!(zeroed.as_slice(), &[0, 0, 0]);
    assert_eq!(zeroed.capacity(), 64);
}

#[test]
fn shared_buffer() {
    let buffer = Buffer::from_vec(vec![10, 20, 30, 40, 50]);
    let other = buffer.clone();
    let window = buffer.slice(1, 3);
    assert_eq!(window.as_slice(), &[20, 30, 40]);
    assert_eq!(window.len(), 3);
    assert_eq!(*window.get(2), 40);
    let inner = window.clone().slice(2, 1);
    assert_eq!(inner.as_slice(), &[40]);
    // the slices and the clone look at one vector
    assert!(std::ptr::eq(&other.as_slice()[3], &inner.as_slice()[0]));
    assert_eq!(other.as_slice(), &[10, 20, 30, 40, 50]);
    assert!(Buffer::<u8>::new().is_empty());
}

#[test]
fn bits_of_bytes() {
    assert!(is_set(0b0000_0100, 2));
    assert!(!is_set(0b0000_0100, 3));
    assert_eq!(columnar::bitmap::utils::set(0b0000_0100, 0, true), 0b0000_0101);
    assert_eq!(columnar::bitmap::utils::set(0b0000_0101, 2, false), 0b0000_0001);
    assert_eq!(columnar::bitmap::utils::set(0b0000_0101, 2, true), 0b0000_0101);
    assert_eq!(keep_low(0xFF, 3), 0b0000_0111);
    assert_eq!(keep_low(0xFF, 0), 0);
    let mut bytes = vec![0u8, 0];
    set_bit(&mut bytes, 9, true);
    assert_eq!(bytes, vec![0, 0b0000_0010]);
    assert!(get_bit(&bytes, 9));
    assert!(!get_bit(&bytes, 8));
    assert_eq!(null_count(&bytes, 0, 16), 15);
    assert_eq!(null_count(&bytes, 9, 1), 0);
    assert_eq!(null_count(&bytes, 4, 0), 0);
    assert_eq!(bytes_for(0), 0);
    assert_eq!(bytes_for(1), 1);
    assert_eq!(bytes_for(8), 1);
    assert_eq!(bytes_for(9), 2);
}

#[test]
fn bitmap_constructors() {
    let empty = Bitmap::new();
    assert!(empty.is_empty());
    assert_eq!(empty.as_slice(), &[] as &[u8]);
    assert_eq!(empty.offset(), 0);
    assert_eq!(empty.null_count(), 0);
    let zeroed = Bitmap::new_zeroed(10);
    assert_eq!(zeroed.len(), 10);
    assert_eq!(zeroed.null_count(), 10);
    let bitmap = Bitmap::from_u8_slice(&[0b0000_0101, 0xFF], 9);
    assert_eq!(bitmap.len(), 9);
    assert_eq!(bitmap.null_count(), 6);
    assert_eq!(bitmap.as_slice(), &[0b0000_0101, 0xFF]);
    let bitmap = Bitmap::from_bytes(vec![0b0000_0101], 3);
    assert_eq!(bitmap.iter(), vec![true, false, true]);
}
