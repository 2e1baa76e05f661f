//! The bitmap builder: an append-only sequence of booleans, one bit each,
//! that freezes into a [`Bitmap`] without a copy.

use crate::bitmap::immutable::Bitmap;
use crate::bitmap::utils::{
    bit_at, bit_of, bits_of, bytes_for, bytes_needed, canonical, count_zeros, get_bit, keep_low,
    lemma_canonical_is_packed, lemma_count_zeros_none, lemma_push_byte, lemma_update_byte,
    lemma_zero_byte, null_count, pack, trailing_clear,
};
use crate::buffer::{grown_capacity, round_capacity, MutableBuffer};
use crate::trusted_len::{BitmapIter, Repeat, TrustedLen};
use vstd::prelude::*;
use vstd::std_specs::iter::IteratorSpec;

verus! {

/// A container of booleans, each stored as one bit. It is to `Vec<bool>`
/// what the byte buffer is to `Vec<u8>`, and freezes into a [`Bitmap`] in
/// constant time.
///
/// The bytes are as many as the bits need, and the bits of the last byte
/// that lie beyond the length are unset.
#[derive(Debug)]
pub struct MutableBitmap {
    buffer: MutableBuffer,
    length: usize,
}

impl View for MutableBitmap {
    type V = Seq<bool>;

    closed spec fn view(&self) -> Seq<bool> {
        bits_of(self.buffer@, 0, self.length as int)
    }
}

/// Appends the bit `value` to the `length` bits of `buffer`. Where
/// `has_room` holds the buffer has room for the bit, and is not asked to
/// make room.
fn push_bit(buffer: &mut MutableBuffer, length: usize, value: bool, has_room: bool)
    requires
        canonical(old(buffer)@, length as int),
        length < usize::MAX,
        has_room ==> length < old(buffer).spec_capacity() * 8,
    ensures
        canonical(final(buffer)@, length + 1),
        bits_of(final(buffer)@, 0, length + 1) == bits_of(old(buffer)@, 0, length as int).push(
            value,
        ),
        final(buffer).spec_capacity() == grown_capacity(
            old(buffer).spec_capacity() as int,
            bytes_needed(length + 1),
        ),
{
    let ghost before = buffer@;
    let count = buffer.len();
    if length % 8 == 0 {
        if has_room {
            buffer.push_unchecked(0);
        } else {
            buffer.push(0);
        }
        proof {
            lemma_push_byte(before, 0u8);
            assert forall|j: int| before.len() * 8 <= j < (before.len() + 1)
                * 8 implies !#[trigger] bit_at(buffer@, j) by {
                lemma_zero_byte(j % 8);
            }
        }
    }
    let ghost grown = buffer@;
    assert(forall|j: int| 0 <= j < length ==> bit_at(grown, j) == bit_at(before, j));
    assert(trailing_clear(grown, length as int));
    if value {
        let last = buffer.len() - 1;
        let byte = buffer.get(last);
        let written = crate::bitmap::utils::set(byte, length % 8, true);
        buffer.set(last, written);
        proof {
            lemma_update_byte(grown, last as int, written);
            assert forall|j: int| 0 <= j < grown.len() * 8 implies #[trigger] bit_at(buffer@, j)
                == if j == length {
                true
            } else {
                bit_at(grown, j)
            } by {
                if j / 8 == last {
                    assert(bit_of(written, j % 8) == if j % 8 == length % 8 {
                        true
                    } else {
                        bit_of(byte, j % 8)
                    });
                }
            }
        }
    }
    proof {
        let after = bits_of(buffer@, 0, length + 1);
        let expected = bits_of(before, 0, length as int).push(value);
        assert forall|j: int| 0 <= j < length + 1 implies after[j] == expected[j] by {
            if j < length {
                assert(expected[j] == bit_at(before, 0 + j));
            }
        }
        assert(after =~= expected);
        assert(trailing_clear(buffer@, length + 1));
    }
}

/// Returns `byte` with its bits from `first` on, `count` of them, written to
/// the booleans of `source` from `from` on. The bits of `byte` from `first`
/// on are unset before.
fn fill_byte<S: TrustedLen>(byte: u8, first: usize, count: usize, source: &S, from: usize) -> (r:
    u8)
    requires
        first + count <= 8,
        from + count <= source.items().len(),
        source.items().len() <= usize::MAX,
        forall|t: int| first <= t < 8 ==> !#[trigger] bit_of(byte, t),
    ensures
        forall|t: int|
            0 <= t < 8 ==> #[trigger] bit_of(r, t) == if first <= t < first + count {
                source.items()[from + t - first]
            } else {
                bit_of(byte, t)
            },
{
    let mut r = byte;
    let mut i: usize = 0;
    while i < count
        invariant
            i <= count,
            first + count <= 8,
            from + count <= source.items().len(),
            source.items().len() <= usize::MAX,
            forall|t: int| first <= t < 8 ==> !#[trigger] bit_of(byte, t),
            forall|t: int|
                0 <= t < 8 ==> #[trigger] bit_of(r, t) == if first <= t < first + i {
                    source.items()[from + t - first]
                } else {
                    bit_of(byte, t)
                },
        decreases count - i,
    {
        if source.get(from + i) {
            r = crate::bitmap::utils::set(r, first + i, true);
        }
        i += 1;
    }
    r
}

/// Writes the `length` booleans of `source` from `from` on to the bits of
/// `buffer` from byte `start` on, eight at a time. These bytes are the last
/// of the buffer, as many as the bits need, and zero before.
fn extend<S: TrustedLen>(
    buffer: &mut MutableBuffer,
    start: usize,
    length: usize,
    source: &S,
    from: usize,
)
    requires
        from + length <= source.items().len(),
        source.items().len() <= usize::MAX,
        start + bytes_needed(length as int) == old(buffer)@.len(),
        start * 8 + length <= usize::MAX,
        trailing_clear(old(buffer)@, start * 8),
    ensures
        final(buffer)@.len() == old(buffer)@.len(),
        final(buffer).spec_capacity() == old(buffer).spec_capacity(),
        forall|j: int|
            0 <= j < start * 8 ==> #[trigger] bit_at(final(buffer)@, j) == bit_at(old(buffer)@, j),
        forall|j: int|
            start * 8 <= j < start * 8 + length ==> #[trigger] bit_at(final(buffer)@, j)
                == source.items()[from + j - start * 8],
        trailing_clear(final(buffer)@, start * 8 + length),
{
    let chunks = length / 8;
    let remainder = length % 8;
    let mut c: usize = 0;
    while c < chunks
        invariant
            c <= chunks,
            chunks == length / 8,
            from + length <= source.items().len(),
            source.items().len() <= usize::MAX,
            start + bytes_needed(length as int) == buffer@.len(),
            buffer@.len() == old(buffer)@.len(),
            buffer.spec_capacity() == old(buffer).spec_capacity(),
            start * 8 + length <= usize::MAX,
            forall|j: int|
                0 <= j < start * 8 ==> #[trigger] bit_at(buffer@, j) == bit_at(old(buffer)@, j),
            forall|j: int|
                start * 8 <= j < (start + c) * 8 ==> #[trigger] bit_at(buffer@, j)
                    == source.items()[from + j - start * 8],
            trailing_clear(buffer@, (start + c) * 8),
        decreases chunks - c,
    {
        let ghost before = buffer@;
        let byte = buffer.get(start + c);
        assert forall|t: int| 0 <= t < 8 implies !#[trigger] bit_of(byte, t) by {
            assert(!bit_at(before, (start + c) * 8 + t));
        }
        let filled = fill_byte(byte, 0, 8, source, from + c * 8);
        buffer.set(start + c, filled);
        proof {
            lemma_update_byte(before, (start + c) as int, filled);
        }
        c += 1;
    }
    if remainder != 0 {
        let ghost before = buffer@;
        let byte = buffer.get(start + chunks);
        assert forall|t: int| 0 <= t < 8 implies !#[trigger] bit_of(byte, t) by {
            assert(!bit_at(before, (start + chunks) * 8 + t));
        }
        let filled = fill_byte(byte, 0, remainder, source, from + chunks * 8);
        buffer.set(start + chunks, filled);
        proof {
            lemma_update_byte(before, (start + chunks) as int, filled);
        }
    }
}

/// Appends `count` booleans of `source`, from `from` on, to the `length`
/// bits of `buffer`. They fit in the byte in which the bits end, or in one
/// new byte where the bits end with a byte.
fn fill_last<S: TrustedLen>(
    buffer: &mut MutableBuffer,
    length: usize,
    count: usize,
    source: &S,
    from: usize,
)
    requires
        canonical(old(buffer)@, length as int),
        0 < count,
        length % 8 + count <= 8,
        length + count <= usize::MAX,
        from + count <= source.items().len(),
        source.items().len() <= usize::MAX,
    ensures
        canonical(final(buffer)@, length + count),
        bits_of(final(buffer)@, 0, length + count) == bits_of(old(buffer)@, 0, length as int)
            + source.items().subrange(from as int, from + count),
        final(buffer).spec_capacity() == grown_capacity(
            old(buffer).spec_capacity() as int,
            bytes_needed(length + count),
        ),
{
    let ghost before = buffer@;
    let ghost expected = bits_of(before, 0, length as int) + source.items().subrange(
        from as int,
        from + count,
    );
    let bit_offset = length % 8;
    let held = buffer.len();
    if bit_offset == 0 {
        buffer.push(0);
        proof {
            lemma_push_byte(before, 0u8);
            assert forall|j: int| before.len() * 8 <= j < (before.len() + 1)
                * 8 implies !#[trigger] bit_at(buffer@, j) by {
                lemma_zero_byte(j % 8);
            }
        }
    }
    let ghost grown = buffer@;
    let last = buffer.len() - 1;
    let byte = buffer.get(last);
    assert forall|t: int| bit_offset <= t < 8 implies !#[trigger] bit_of(byte, t) by {
        assert(!bit_at(grown, last * 8 + t));
    }
    let filled = fill_byte(byte, bit_offset, count, source, from);
    buffer.set(last, filled);
    proof {
        lemma_update_byte(grown, last as int, filled);
        let after = bits_of(buffer@, 0, length + count);
        assert forall|j: int| 0 <= j < length + count implies after[j] == expected[j] by {
            if j < length {
                assert(expected[j] == bit_at(before, 0 + j));
                assert(bit_at(grown, j) == bit_at(before, j));
            }
        }
        assert(after =~= expected);
        assert forall|j: int| length + count <= j < buffer@.len() * 8 implies !#[trigger] bit_at(
            buffer@,
            j,
        ) by {
            assert(!bit_at(grown, j));
        }
    }
}

/// Appends `count` booleans of `source`, from `from` on, to the `length`
/// bits of `buffer`, which end with a byte: into new zero bytes, eight at a
/// time.
fn append_aligned<S: TrustedLen>(
    buffer: &mut MutableBuffer,
    length: usize,
    count: usize,
    source: &S,
    from: usize,
)
    requires
        canonical(old(buffer)@, length as int),
        length % 8 == 0,
        length + count <= usize::MAX,
        from + count <= source.items().len(),
        source.items().len() <= usize::MAX,
    ensures
        canonical(final(buffer)@, length + count),
        bits_of(final(buffer)@, 0, length + count) == bits_of(old(buffer)@, 0, length as int)
            + source.items().subrange(from as int, from + count),
        final(buffer).spec_capacity() == grown_capacity(
            old(buffer).spec_capacity() as int,
            bytes_needed(length + count),
        ),
{
    let ghost before = buffer@;
    let ghost expected = bits_of(before, 0, length as int) + source.items().subrange(
        from as int,
        from + count,
    );
    let held = buffer.len();
    buffer.extend_constant(bytes_for(count), 0);
    let ghost grown = buffer@;
    proof {
        assert forall|j: int| 0 <= j < grown.len() * 8 implies #[trigger] bit_at(grown, j) == if j
            < held * 8 {
            bit_at(before, j)
        } else {
            false
        } by {
            if j >= held * 8 {
                lemma_zero_byte(j % 8);
            }
        }
    }
    extend(buffer, held, count, source, from);
    proof {
        let after = bits_of(buffer@, 0, length + count);
        assert forall|j: int| 0 <= j < length + count implies after[j] == expected[j] by {
            if j < length {
                assert(bit_at(buffer@, j) == bit_at(grown, j));
                assert(expected[j] == bit_at(before, 0 + j));
            }
        }
        assert(after =~= expected);
    }
}

/// Appends the booleans of `source` to the `length` bits of `buffer`: into
/// the last byte alone where they fit there, else up to the end of that byte
/// bit by bit and then into new bytes, eight at a time.
fn extend_bits<S: TrustedLen>(buffer: &mut MutableBuffer, length: usize, source: &S)
    requires
        canonical(old(buffer)@, length as int),
        length + source.items().len() <= usize::MAX,
    ensures
        canonical(final(buffer)@, length + source.items().len()),
        bits_of(final(buffer)@, 0, length + source.items().len()) == bits_of(
            old(buffer)@,
            0,
            length as int,
        ) + source.items(),
        final(buffer).spec_capacity() == grown_capacity(
            old(buffer).spec_capacity() as int,
            bytes_needed(length + source.items().len()),
        ),
{
    let ghost items = source.items();
    let ghost before = bits_of(buffer@, 0, length as int);
    let ghost capacity = buffer.spec_capacity();
    let additional = source.len();
    let bit_offset = length % 8;
    let held = buffer.len();
    if additional == 0 {
        assert(before + items =~= before);
        return ;
    }
    if additional < 8 - bit_offset {
        fill_last(buffer, length, additional, source, 0);
        assert(items.subrange(0, additional as int) =~= items);
        return ;
    }
    let mut consumed: usize = 0;
    if bit_offset != 0 {
        consumed = 8 - bit_offset;
        fill_last(buffer, length, consumed, source, 0);
        assert(bytes_needed(length + consumed) == held);
        assert(buffer.spec_capacity() == capacity);
    }
    let ghost middle = bits_of(buffer@, 0, length + consumed);
    assert(middle == before + items.subrange(0, consumed as int)) by {
        if bit_offset == 0 {
            assert(before + items.subrange(0, 0) =~= before);
        }
    }
    append_aligned(buffer, length + consumed, additional - consumed, source, consumed);
    assert(before + items.subrange(0, consumed as int) + items.subrange(
        consumed as int,
        additional as int,
    ) =~= before + items);
}

/// Bit `j` of bytes that were copied from byte `from` of `source` to byte
/// `to` of `target` is bit `j - 8 * to + 8 * from` of `source`.
proof fn lemma_copied_bit(target: Seq<u8>, to: int, source: Seq<u8>, from: int, j: int)
    requires
        0 <= to,
        0 <= from,
        to * 8 <= j < target.len() * 8,
        from + (j / 8 - to) < source.len(),
        target[j / 8] == source[from + (j / 8 - to)],
    ensures
        bit_at(target, j) == bit_at(source, from * 8 + j - to * 8),
{
    let k = from * 8 + j - to * 8;
    assert(k / 8 == from + (j / 8 - to));
    assert(k % 8 == j % 8);
}

/// Appends the `length` bits of `slice` that start at bit `offset`, which
/// starts a byte, to the `own` bits of `buffer`, which end with one: the
/// bytes are copied as they are, and what the last one holds beyond the bits
/// is unset.
fn extend_aligned(
    buffer: &mut MutableBuffer,
    own: usize,
    slice: &[u8],
    offset: usize,
    length: usize,
)
    requires
        canonical(old(buffer)@, own as int),
        own % 8 == 0,
        offset % 8 == 0,
        offset + length <= slice@.len() * 8,
        offset + length <= usize::MAX,
        own + length <= usize::MAX,
    ensures
        canonical(final(buffer)@, own + length),
        bits_of(final(buffer)@, 0, own + length) == bits_of(old(buffer)@, 0, own as int) + bits_of(
            slice@,
            offset as int,
            length as int,
        ),
        final(buffer).spec_capacity() == grown_capacity(
            old(buffer).spec_capacity() as int,
            bytes_needed(own + length),
        ),
{
    let ghost before = buffer@;
    let held = buffer.len();
    let aligned_offset = offset / 8;
    let bytes_len = bytes_for(length);
    let items = &slice[aligned_offset..aligned_offset + bytes_len];
    buffer.extend_from_slice(items);
    let ghost copied = buffer@;
    assert forall|j: int| held * 8 <= j < own + length implies #[trigger] bit_at(copied, j)
        == bit_at(slice@, offset + j - own) by {
        assert(copied[j / 8] == items@[j / 8 - held]);
        lemma_copied_bit(copied, held as int, slice@, aligned_offset as int, j);
    }
    assert forall|j: int| 0 <= j < held * 8 implies #[trigger] bit_at(copied, j) == bit_at(
        before,
        j,
    ) by {
        assert(copied[j / 8] == before[j / 8]);
    }
    if length % 8 != 0 {
        let last = buffer.len() - 1;
        let kept = keep_low(buffer.get(last), length % 8);
        buffer.set(last, kept);
        proof {
            lemma_update_byte(copied, last as int, kept);
            assert forall|j: int| 0 <= j < own + length implies #[trigger] bit_at(buffer@, j)
                == bit_at(copied, j) by {
                if j / 8 == last {
                    assert(bit_of(kept, j % 8) == bit_of(copied[last as int], j % 8));
                }
            }
            assert forall|j: int| own + length <= j < buffer@.len() * 8 implies !#[trigger] bit_at(
                buffer@,
                j,
            ) by {
                assert(j / 8 == last);
            }
        }
    }
    proof {
        let after = bits_of(buffer@, 0, own + length);
        let expected = bits_of(before, 0, own as int) + bits_of(
            slice@,
            offset as int,
            length as int,
        );
        assert forall|j: int| 0 <= j < own + length implies after[j] == expected[j] by {
            assert(after[j] == bit_at(copied, j));
            if j < own {
                assert(expected[j] == bit_at(before, 0 + j));
            } else {
                assert(expected[j] == bit_at(slice@, offset + (j - own)));
            }
        }
        assert(after =~= expected);
    }
}

impl MutableBitmap {
    /// The bytes are as many as the bits need, and no bit beyond the length
    /// is set.
    #[verifier::type_invariant]
    spec fn packed(&self) -> bool {
        canonical(self.buffer@, self.length as int)
    }

    /// The number of bytes that the bitmap holds without growing.
    pub closed spec fn spec_byte_capacity(&self) -> nat {
        self.buffer.spec_capacity()
    }

    /// The number of bits that the bitmap holds without growing, or
    /// `usize::MAX` where that number does not fit in a `usize`.
    pub open spec fn spec_capacity(&self) -> nat {
        if self.spec_byte_capacity() * 8 <= usize::MAX {
            self.spec_byte_capacity() * 8
        } else {
            usize::MAX as nat
        }
    }

    /// Takes the bytes and the length out and leaves the bitmap empty.
    fn take(&mut self) -> (r: (MutableBuffer, usize))
        ensures
            canonical(r.0@, r.1 as int),
            bits_of(r.0@, 0, r.1 as int) == old(self)@,
            r.1 == old(self)@.len(),
            r.0.spec_capacity() == old(self).spec_byte_capacity(),
    {
        proof {
            use_type_invariant(&*self);
        }
        let mut this = MutableBitmap::new();
        core::mem::swap(self, &mut this);
        let MutableBitmap { buffer, length } = this;
        (buffer, length)
    }

    /// Creates an empty bitmap.
    pub fn new() -> (r: Self)
        ensures
            r@ == Seq::<bool>::empty(),
            r.spec_byte_capacity() == 0,
    {
        let r = MutableBitmap { buffer: MutableBuffer::new(), length: 0 };
        assert(r@ =~= Seq::<bool>::empty());
        r
    }

    /// Creates a bitmap of `length` unset bits.
    pub fn from_len_zeroed(length: usize) -> (r: Self)
        ensures
            r@ == Seq::new(length as nat, |i: int| false),
    {
        let buffer = MutableBuffer::from_len_zeroed(bytes_for(length));
        proof {
            assert forall|i: int| 0 <= i < buffer@.len() * 8 implies !#[trigger] bit_at(
                buffer@,
                i,
            ) by {
                lemma_zero_byte(i % 8);
            }
        }
        let r = MutableBitmap { buffer, length };
        assert(r@ =~= Seq::new(length as nat, |i: int| false));
        r
    }

    /// Creates an empty bitmap with room for at least `capacity` bits.
    pub fn with_capacity(capacity: usize) -> (r: Self)
        ensures
            r@ == Seq::<bool>::empty(),
            r.spec_byte_capacity() == round_capacity(bytes_needed(capacity as int)),
    {
        let r = MutableBitmap { buffer: MutableBuffer::with_capacity(bytes_for(capacity)), length: 0 };
        assert(r@ =~= Seq::<bool>::empty());
        r
    }

    /// Makes room for `additional` more bits.
    pub fn reserve(&mut self, additional: usize)
        requires
            old(self)@.len() + additional <= usize::MAX,
        ensures
            final(self)@ == old(self)@,
            final(self).spec_byte_capacity() == grown_capacity(
                old(self).spec_byte_capacity() as int,
                bytes_needed(old(self)@.len() as int + additional),
            ),
    {
        let (mut buffer, length) = self.take();
        let needed = bytes_for(length + additional);
        buffer.reserve(needed - buffer.len());
        *self = MutableBitmap { buffer, length };
    }

    /// Appends one bit. The bytes grow by one where the bit starts a new
    /// byte, and not otherwise.
    pub fn push(&mut self, value: bool)
        requires
            old(self)@.len() < usize::MAX,
        ensures
            final(self)@ == old(self)@.push(value),
            final(self).spec_byte_capacity() == grown_capacity(
                old(self).spec_byte_capacity() as int,
                bytes_needed(old(self)@.len() as int + 1),
            ),
    {
        let (mut buffer, length) = self.take();
        push_bit(&mut buffer, length, value, false);
        *self = MutableBitmap { buffer, length: length + 1 };
    }

    /// Returns the number of bits that the bitmap holds without growing.
    pub fn capacity(&self) -> (r: usize)
        ensures
            r == self.spec_capacity(),
    {
        let bytes = self.buffer.capacity();
        if bytes <= usize::MAX / 8 {
            bytes * 8
        } else {
            usize::MAX
        }
    }

    /// Appends one bit to a bitmap that has room for it, which the caller
    /// answers for.
    pub fn push_unchecked(&mut self, value: bool)
        requires
            old(self)@.len() < old(self).spec_byte_capacity() * 8,
            old(self)@.len() < usize::MAX,
        ensures
            final(self)@ == old(self)@.push(value),
            final(self).spec_byte_capacity() == old(self).spec_byte_capacity(),
    {
        let (mut buffer, length) = self.take();
        push_bit(&mut buffer, length, value, true);
        *self = MutableBitmap { buffer, length: length + 1 };
    }

    /// Returns the number of unset bits, counted over the bytes.
    pub fn null_count(&self) -> (r: usize)
        ensures
            r == count_zeros(self@),
            r <= self@.len(),
    {
        proof {
            use_type_invariant(self);
        }
        null_count(self.buffer.as_slice(), 0, self.length)
    }

    /// Returns the number of bits.
    pub fn len(&self) -> (r: usize)
        ensures
            r == self@.len(),
    {
        self.length
    }

    /// Returns whether the bitmap holds no bit.
    pub fn is_empty(&self) -> (r: bool)
        ensures
            r == (self@.len() == 0),
    {
        self.len() == 0
    }

    /// Appends `additional` bits of the value `value`. Unset bits come by
    /// growing the bytes, which are zero; set ones are written bit by bit.
    pub fn extend_constant(&mut self, additional: usize, value: bool)
        requires
            old(self)@.len() + additional <= usize::MAX,
        ensures
            final(self)@ == old(self)@ + Seq::new(additional as nat, |i: int| value),
            final(self).spec_byte_capacity() == grown_capacity(
                old(self).spec_byte_capacity() as int,
                bytes_needed(old(self)@.len() as int + additional),
            ),
    {
        if value {
            self.extend_from_trusted_len_iter(Repeat { value: true, count: additional });
        } else {
            let (mut buffer, length) = self.take();
            let ghost before = buffer@;
            buffer.resize(bytes_for(length + additional), 0);
            proof {
                assert forall|j: int| 0 <= j < buffer@.len() * 8 implies #[trigger] bit_at(
                    buffer@,
                    j,
                ) == if j < length {
                    bit_at(before, j)
                } else {
                    false
                } by {
                    if j / 8 >= before.len() {
                        lemma_zero_byte(j % 8);
                    } else if j >= length {
                        assert(!bit_at(before, j));
                    }
                }
            }
            *self = MutableBitmap { buffer, length: length + additional };
            proof {
                let expected = old(self)@ + Seq::new(additional as nat, |i: int| value);
                assert forall|j: int| 0 <= j < length + additional implies self@[j]
                    == expected[j] by {
                    if j < length {
                        assert(expected[j] == bit_at(before, 0 + j));
                    }
                }
                assert(self@ =~= expected);
            }
        }
    }

    /// Returns the bit at `index`.
    pub fn get(&self, index: usize) -> (r: bool)
        requires
            index < self@.len(),
        ensures
            r == self@[index as int],
    {
        proof {
            use_type_invariant(self);
        }
        get_bit(self.buffer.as_slice(), index)
    }

    /// Writes the bit at `index` to `value`.
    pub fn set(&mut self, index: usize, value: bool)
        requires
            index < old(self)@.len(),
        ensures
            final(self)@ == old(self)@.update(index as int, value),
            final(self).spec_byte_capacity() == old(self).spec_byte_capacity(),
    {
        let (mut buffer, length) = self.take();
        let ghost before = buffer@;
        let byte = buffer.get(index / 8);
        let written = crate::bitmap::utils::set(byte, index % 8, value);
        buffer.set(index / 8, written);
        proof {
            lemma_update_byte(before, index as int / 8, written);
            assert forall|j: int| 0 <= j < before.len() * 8 implies #[trigger] bit_at(buffer@, j)
                == if j == index {
                value
            } else {
                bit_at(before, j)
            } by {
                if j / 8 == index / 8 {
                    assert(bit_of(written, j % 8) == if j % 8 == index % 8 {
                        value
                    } else {
                        bit_of(byte, j % 8)
                    });
                }
            }
            assert(trailing_clear(buffer@, length as int));
        }
        *self = MutableBitmap { buffer, length };
        proof {
            let expected = old(self)@.update(index as int, value);
            assert forall|j: int| 0 <= j < length implies self@[j] == expected[j] by {
                assert(old(self)@[j] == bit_at(before, 0 + j));
            }
            assert(self@ =~= expected);
        }
    }

    /// Creates a bitmap of the first `length` bits of `buffer`. The bytes
    /// that these bits do not need are cut off, and the bits of the last
    /// byte beyond them are unset.
    pub fn from_buffer(buffer: MutableBuffer, length: usize) -> (r: Self)
        requires
            length <= buffer@.len() * 8,
        ensures
            r@ == bits_of(buffer@, 0, length as int),
    {
        let mut buffer = buffer;
        let ghost before = buffer@;
        buffer.truncate(bytes_for(length));
        if length % 8 != 0 {
            let last = buffer.len() - 1;
            let ghost cut = buffer@;
            let kept = keep_low(buffer.get(last), length % 8);
            buffer.set(last, kept);
            proof {
                lemma_update_byte(cut, last as int, kept);
            }
        }
        let r = MutableBitmap { buffer, length };
        assert(r@ =~= bits_of(before, 0, length as int));
        r
    }

    /// Returns the bits as a vector of booleans.
    pub fn iter(&self) -> (r: Vec<bool>)
        ensures
            r@ == self@,
    {
        let mut out: Vec<bool> = Vec::with_capacity(self.length);
        let mut i: usize = 0;
        while i < self.length
            invariant
                i <= self.length,
                self.length == self@.len(),
                out@ == self@.subrange(0, i as int),
            decreases self.length - i,
        {
            let bit = self.get(i);
            out.push(bit);
            assert(out@ =~= self@.subrange(0, i as int + 1));
            i += 1;
        }
        assert(out@ =~= self@);
        out
    }

    /// Appends the booleans of `iterator`, whose length is known before
    /// they are read.
    pub fn extend_from_trusted_len_iter<I: TrustedLen>(&mut self, iterator: I)
        requires
            old(self)@.len() + iterator.items().len() <= usize::MAX,
        ensures
            final(self)@ == old(self)@ + iterator.items(),
            final(self).spec_byte_capacity() == grown_capacity(
                old(self).spec_byte_capacity() as int,
                bytes_needed((old(self)@.len() + iterator.items().len()) as int),
            ),
    {
        self.extend_from_trusted_len_iter_unchecked(iterator)
    }

    /// Appends the booleans of `iterator`: into the last byte alone where
    /// they fit there, else up to the end of that byte bit by bit and then
    /// into new bytes, eight at a time. The length that the source reports
    /// is relied upon, which its contract answers for.
    pub fn extend_from_trusted_len_iter_unchecked<I: TrustedLen>(&mut self, iterator: I)
        requires
            old(self)@.len() + iterator.items().len() <= usize::MAX,
        ensures
            final(self)@ == old(self)@ + iterator.items(),
            final(self).spec_byte_capacity() == grown_capacity(
                old(self).spec_byte_capacity() as int,
                bytes_needed((old(self)@.len() + iterator.items().len()) as int),
            ),
    {
        let (mut buffer, length) = self.take();
        let additional = iterator.len();
        extend_bits(&mut buffer, length, &iterator);
        *self = MutableBitmap { buffer, length: length + additional };
    }

    /// Creates a bitmap of the booleans of `iterator`: into zeroed bytes,
    /// as many as the length needs that the source reports, eight at a
    /// time.
    pub fn from_trusted_len_iter_unchecked<I: TrustedLen>(iterator: I) -> (r: Self)
        ensures
            r@ == iterator.items(),
    {
        let length = iterator.len();
        let mut buffer = MutableBuffer::from_len_zeroed(bytes_for(length));
        proof {
            assert forall|i: int| 0 <= i < buffer@.len() * 8 implies !#[trigger] bit_at(
                buffer@,
                i,
            ) by {
                lemma_zero_byte(i % 8);
            }
        }
        extend(&mut buffer, 0, length, &iterator, 0);
        let r = MutableBitmap { buffer, length };
        assert(r@ =~= iterator.items());
        r
    }

    /// Creates a bitmap of the booleans of `iterator`.
    pub fn from_trusted_len_iter<I: TrustedLen>(iterator: I) -> (r: Self)
        ensures
            r@ == iterator.items(),
    {
        Self::from_trusted_len_iter_unchecked(iterator)
    }

    /// Appends the `length` bits of `slice` that start at bit `offset`.
    /// Where the bitmap ends on a byte and `offset` starts one, the bytes
    /// are copied as they are; else the bits are appended one by one.
    pub fn extend_from_slice(&mut self, slice: &[u8], offset: usize, length: usize)
        requires
            offset + length <= slice@.len() * 8,
            offset + length <= usize::MAX,
            old(self)@.len() + length <= usize::MAX,
        ensures
            final(self)@ == old(self)@ + bits_of(slice@, offset as int, length as int),
            final(self).spec_byte_capacity() == grown_capacity(
                old(self).spec_byte_capacity() as int,
                bytes_needed(old(self)@.len() + length),
            ),
    {
        let is_aligned = self.length % 8 == 0;
        let other_is_aligned = offset % 8 == 0;
        if is_aligned && other_is_aligned {
            let (mut buffer, own) = self.take();
            extend_aligned(&mut buffer, own, slice, offset, length);
            *self = MutableBitmap { buffer, length: own + length };
        } else {
            self.extend_from_trusted_len_iter(BitmapIter::new(slice, offset, length))
        }
    }

    /// Appends the bits of `bitmap`.
    pub fn extend_from_bitmap(&mut self, bitmap: &Bitmap)
        requires
            old(self)@.len() + bitmap@.len() <= usize::MAX,
        ensures
            final(self)@ == old(self)@ + bitmap@,
            final(self).spec_byte_capacity() == grown_capacity(
                old(self).spec_byte_capacity() as int,
                bytes_needed((old(self)@.len() + bitmap@.len()) as int),
            ),
    {
        let slice = bitmap.as_slice();
        self.extend_from_slice(slice, bitmap.offset(), bitmap.len());
    }
}

impl From<MutableBitmap> for Bitmap {
    /// Freezes the builder into a bitmap of the same bits. The bytes are
    /// moved, not copied; they are the bytes that hold the bits, whichever
    /// way the builder came by them.
    fn from(buffer: MutableBitmap) -> (r: Bitmap)
        ensures
            r@ == buffer@,
            r.spec_bytes() == pack(buffer@),
            r.spec_offset() == 0,
    {
        proof {
            use_type_invariant(&buffer);
            lemma_canonical_is_packed(buffer.buffer@, buffer.length as int);
        }
        let MutableBitmap { buffer: bytes, length } = buffer;
        let ghost held = bytes@;
        let r = Bitmap::from_bytes(bytes.into_vec(), length);
        assert(held.subrange(0, (length + 7) / 8) =~= held);
        r
    }
}

impl vstd::std_specs::convert::FromSpecImpl<MutableBitmap> for Bitmap {
    open spec fn obeys_from_spec() -> bool {
        false
    }

    open spec fn from_spec(buffer: MutableBitmap) -> Bitmap {
        arbitrary()
    }
}

impl From<MutableBitmap> for Option<Bitmap> {
    /// Freezes the builder into a bitmap of the same bits where one of them
    /// is unset, and into no bitmap where all are set.
    fn from(buffer: MutableBitmap) -> (r: Option<Bitmap>)
        ensures
            r is Some <==> exists|i: int| 0 <= i < buffer@.len() && !buffer@[i],
            r is Some <==> count_zeros(buffer@) > 0,
            r matches Some(bitmap) ==> bitmap@ == buffer@ && bitmap.spec_bytes() == pack(buffer@)
                && bitmap.spec_offset() == 0,
    {
        proof {
            lemma_count_zeros_none(buffer@);
        }
        if buffer.null_count() > 0 {
            Some(Bitmap::from(buffer))
        } else {
            None
        }
    }
}

impl vstd::std_specs::convert::FromSpecImpl<MutableBitmap> for Option<Bitmap> {
    open spec fn obeys_from_spec() -> bool {
        false
    }

    open spec fn from_spec(buffer: MutableBitmap) -> Option<Bitmap> {
        arbitrary()
    }
}

impl<'a> From<&'a [bool]> for MutableBitmap {
    /// Creates a bitmap of the booleans of `slice`.
    fn from(slice: &'a [bool]) -> (r: MutableBitmap)
        ensures
            r@ == slice@,
    {
        MutableBitmap::from_trusted_len_iter(slice)
    }
}

impl<'a> vstd::std_specs::convert::FromSpecImpl<&'a [bool]> for MutableBitmap {
    open spec fn obeys_from_spec() -> bool {
        false
    }

    open spec fn from_spec(slice: &'a [bool]) -> MutableBitmap {
        arbitrary()
    }
}

impl<'a> From<&'a [bool]> for Bitmap {
    /// Creates a bitmap of the booleans of `slice`.
    fn from(slice: &'a [bool]) -> (r: Bitmap)
        ensures
            r@ == slice@,
            r.spec_bytes() == pack(slice@),
            r.spec_offset() == 0,
    {
        Bitmap::from(MutableBitmap::from_trusted_len_iter(slice))
    }
}

impl<'a> vstd::std_specs::convert::FromSpecImpl<&'a [bool]> for Bitmap {
    open spec fn obeys_from_spec() -> bool {
        false
    }

    open spec fn from_spec(slice: &'a [bool]) -> Bitmap {
        arbitrary()
    }
}

impl Default for MutableBitmap {
    fn default() -> (r: Self)
        ensures
            r@ == Seq::<bool>::empty(),
    {
        Self::new()
    }
}

impl PartialEq for MutableBitmap {
    /// Two bitmaps are equal where they hold the same bits.
    fn eq(&self, other: &Self) -> (r: bool) {
        if self.len() != other.len() {
            return false;
        }
        let mut i: usize = 0;
        while i < self.len()
            invariant
                i <= self@.len(),
                self@.len() == other@.len(),
                forall|j: int| 0 <= j < i ==> self@[j] == other@[j],
            decreases self@.len() - i,
        {
            if self.get(i) != other.get(i) {
                return false;
            }
            i += 1;
        }
        assert(self@ =~= other@);
        true
    }
}

impl vstd::std_specs::cmp::PartialEqSpecImpl for MutableBitmap {
    open spec fn obeys_eq_spec() -> bool {
        true
    }

    open spec fn eq_spec(&self, other: &Self) -> bool {
        self@ == other@
    }
}

impl MutableBitmap {
    /// Creates a bitmap of the booleans of `iterator`, or returns the first
    /// error among them.
    pub fn try_from_trusted_len_iter<E>(iterator: Vec<Result<bool, E>>) -> (r: Result<Self, E>)
        ensures
            r is Ok <==> forall|i: int| 0 <= i < iterator@.len() ==> iterator@[i] is Ok,
            r matches Ok(bitmap) ==> bitmap@.len() == iterator@.len() && forall|i: int|
                0 <= i < iterator@.len() ==> iterator@[i] == Ok::<bool, E>(#[trigger] bitmap@[i]),
            r matches Err(e) ==> exists|k: int|
                0 <= k < iterator@.len() && iterator@[k] == Err::<bool, E>(e) && forall|j: int|
                    0 <= j < k ==> iterator@[j] is Ok,
    {
        Self::try_from_trusted_len_iter_unchecked(iterator)
    }

    /// Creates a bitmap of the booleans of `iterator`, or returns the first
    /// error among them: into zeroed bytes, as many as the booleans need.
    pub fn try_from_trusted_len_iter_unchecked<E>(iterator: Vec<Result<bool, E>>) -> (r: Result<
        Self,
        E,
    >)
        ensures
            r is Ok <==> forall|i: int| 0 <= i < iterator@.len() ==> iterator@[i] is Ok,
            r matches Ok(bitmap) ==> bitmap@.len() == iterator@.len() && forall|i: int|
                0 <= i < iterator@.len() ==> iterator@[i] == Ok::<bool, E>(#[trigger] bitmap@[i]),
            r matches Err(e) ==> exists|k: int|
                0 <= k < iterator@.len() && iterator@[k] == Err::<bool, E>(e) && forall|j: int|
                    0 <= j < k ==> iterator@[j] is Ok,
    {
        let length = iterator.len();
        let mut bitmap = MutableBitmap::from_len_zeroed(length);
        let mut i: usize = 0;
        for item in it: iterator.into_iter()
            invariant
                i == it.index(),
                it.seq() == iterator@,
                length == iterator@.len(),
                bitmap@.len() == length,
                forall|j: int| 0 <= j < i ==> iterator@[j] == Ok::<bool, E>(#[trigger] bitmap@[j]),
                forall|j: int| 0 <= j < i ==> (#[trigger] iterator@[j]) is Ok,
                forall|j: int| i <= j < length ==> !#[trigger] bitmap@[j],
        {
            assert(item == iterator@[i as int]);
            match item {
                Ok(value) => {
                    if value {
                        bitmap.set(i, true);
                    }
                },
                Err(e) => {
                    assert(iterator@[i as int] == Err::<bool, E>(e));
                    return Err(e);
                },
            }
            i += 1;
        }
        Ok(bitmap)
    }

    /// Creates a bitmap of the booleans that `iter` hands out, eight to a
    /// byte.
    pub fn from_iter<I: Iterator<Item = bool>>(iter: I) -> (r: Self)
        requires
            iter.obeys_prophetic_iter_laws(),
            iter.decrease() is Some,
            iter.remaining().len() <= usize::MAX,
        ensures
            r@ == iter.remaining(),
    {
        let mut iterator = iter;
        let mut buffer = MutableBuffer::new();
        let mut length: usize = 0;
        let mut byte_accum: u8 = 0;
        let mut filled: usize = 0;
        proof {
            assert forall|t: int| 0 <= t < 8 implies !#[trigger] bit_of(byte_accum, t) by {
                lemma_zero_byte(t);
            }
            assert(bits_of(buffer@, 0, 0) + Seq::new(0, |t: int| bit_of(byte_accum, t))
                + iterator.remaining() =~= iter.remaining());
        }
        loop
            invariant
                iterator.obeys_prophetic_iter_laws(),
                iterator.decrease() is Some,
                filled < 8,
                length % 8 == 0,
                canonical(buffer@, length as int),
                forall|t: int| filled <= t < 8 ==> !#[trigger] bit_of(byte_accum, t),
                bits_of(buffer@, 0, length as int) + Seq::new(
                    filled as nat,
                    |t: int| bit_of(byte_accum, t),
                ) + iterator.remaining() == iter.remaining(),
                iter.remaining().len() <= usize::MAX,
            ensures
                filled < 8,
                length % 8 == 0,
                canonical(buffer@, length as int),
                forall|t: int| filled <= t < 8 ==> !#[trigger] bit_of(byte_accum, t),
                bits_of(buffer@, 0, length as int) + Seq::new(
                    filled as nat,
                    |t: int| bit_of(byte_accum, t),
                ) == iter.remaining(),
                iter.remaining().len() <= usize::MAX,
                iterator.remaining().len() == 0,
            decreases iterator.decrease()->0,
        {
            let ghost stored = bits_of(buffer@, 0, length as int);
            let ghost pending = Seq::new(filled as nat, |t: int| bit_of(byte_accum, t));
            let ghost rest = iterator.remaining();
            match iterator.next() {
                Some(value) => {
                    let ghost previous = byte_accum;
                    if value {
                        byte_accum = crate::bitmap::utils::set(byte_accum, filled, true);
                    }
                    filled += 1;
                    let ghost grown = Seq::new(filled as nat, |t: int| bit_of(byte_accum, t));
                    assert(grown =~= pending.push(value));
                    assert(stored + grown + iterator.remaining() =~= stored + pending + rest);
                    if filled == 8 {
                        let ghost before = buffer@;
                        buffer.push(byte_accum);
                        proof {
                            lemma_push_byte(before, byte_accum);
                            let after = bits_of(buffer@, 0, length + 8);
                            assert forall|j: int| 0 <= j < length + 8 implies after[j] == (stored
                                + grown)[j] by {
                                if j < length {
                                    assert(stored[j] == bit_at(before, 0 + j));
                                }
                            }
                            assert(after =~= stored + grown);
                        }
                        length += 8;
                        byte_accum = 0;
                        filled = 0;
                        proof {
                            assert forall|t: int| 0 <= t < 8 implies !#[trigger] bit_of(
                                byte_accum,
                                t,
                            ) by {
                                lemma_zero_byte(t);
                            }
                            assert(bits_of(buffer@, 0, length as int) + Seq::new(
                                0,
                                |t: int| bit_of(byte_accum, t),
                            ) =~= stored + grown);
                        }
                    }
                },
                None => {
                    assert(stored + pending + rest =~= stored + pending);
                    break ;
                },
            }
        }
        if filled > 0 {
            let ghost before = buffer@;
            let ghost stored = bits_of(buffer@, 0, length as int);
            let ghost pending = Seq::new(filled as nat, |t: int| bit_of(byte_accum, t));
            buffer.push(byte_accum);
            proof {
                lemma_push_byte(before, byte_accum);
                let after = bits_of(buffer@, 0, length + filled);
                assert forall|j: int| 0 <= j < length + filled implies after[j] == (stored
                    + pending)[j] by {
                    if j < length {
                        assert(stored[j] == bit_at(before, 0 + j));
                    }
                }
                assert(after =~= stored + pending);
            }
            length += filled;
        } else {
            assert(bits_of(buffer@, 0, length as int) + Seq::new(
                0,
                |t: int| bit_of(byte_accum, t),
            ) =~= bits_of(buffer@, 0, length as int));
        }
        MutableBitmap { buffer, length }
    }
}

/// The bits `bits` after each of `values` was pushed to them, one by one.
pub open spec fn pushed_each(bits: Seq<bool>, values: Seq<bool>) -> Seq<bool>
    decreases values.len(),
{
    if values.len() == 0 {
        bits
    } else {
        pushed_each(bits, values.drop_last()).push(values.last())
    }
}

/// To push booleans one by one and to append them in one go gives the same
/// bits, and so the same bytes once the builder is frozen.
pub proof fn lemma_round_trip(bits: Seq<bool>, values: Seq<bool>)
    ensures
        pushed_each(bits, values) == bits + values,
        pack(pushed_each(bits, values)) == pack(bits + values),
    decreases values.len(),
{
    if values.len() == 0 {
        assert(bits + values =~= bits);
    } else {
        lemma_round_trip(bits, values.drop_last());
        assert((bits + values.drop_last()).push(values.last()) =~= bits + values);
    }
}

} // verus!
