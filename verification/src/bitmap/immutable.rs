//! The immutable bitmap: a window of bits on shared bytes.

use crate::bitmap::utils::{
    bit_at, bits_of, bytes_for, count_zeros, get_bit, lemma_zero_byte, null_count,
};
use crate::buffer::Buffer;
use vstd::prelude::*;

verus! {

/// An immutable sequence of booleans, one bit each: the `length` bits that
/// start at bit `offset` of bytes that slices and clones share. The number of
/// unset bits is kept beside them.
#[derive(Debug)]
pub struct Bitmap {
    bytes: Buffer<u8>,
    offset: usize,
    length: usize,
    null_count: usize,
}

impl View for Bitmap {
    type V = Seq<bool>;

    closed spec fn view(&self) -> Seq<bool> {
        bits_of(self.bytes@, self.offset as int, self.length as int)
    }
}

/// The bits of an optional bitmap.
pub open spec fn optional_bits(validity: Option<Bitmap>) -> Option<Seq<bool>> {
    match validity {
        Some(bitmap) => Some(bitmap@),
        None => None,
    }
}

impl Bitmap {
    /// The window lies within the bytes, and the count kept beside the bits
    /// is the number of unset ones.
    #[verifier::type_invariant]
    spec fn within(&self) -> bool {
        &&& self.offset + self.length <= self.bytes@.len() * 8
        &&& self.offset + self.length <= usize::MAX
        &&& self.null_count == count_zeros(self@)
    }

    /// The bytes that hold the bits, from the byte of the first bit to the
    /// byte of the last one.
    pub closed spec fn spec_bytes(&self) -> Seq<u8> {
        self.bytes@.subrange(self.offset as int / 8, (self.offset + self.length + 7) / 8)
    }

    /// The bit of the first byte of `spec_bytes` at which the bitmap starts.
    pub closed spec fn spec_offset(&self) -> nat {
        (self.offset % 8) as nat
    }

    /// Creates an empty bitmap: no bit, held in no byte.
    pub fn new() -> (r: Self)
        ensures
            r@ == Seq::<bool>::empty(),
            r.spec_bytes() == Seq::<u8>::empty(),
            r.spec_offset() == 0,
    {
        let r = Bitmap { bytes: Buffer::new(), offset: 0, length: 0, null_count: 0 };
        assert(r@ =~= Seq::<bool>::empty());
        assert(r.spec_bytes() =~= Seq::<u8>::empty());
        r
    }

    /// Creates a bitmap of `length` unset bits.
    pub fn new_zeroed(length: usize) -> (r: Self)
        ensures
            r@ == Seq::new(length as nat, |i: int| false),
    {
        let n_bytes = bytes_for(length);
        let mut bytes: Vec<u8> = Vec::new();
        bytes.resize(n_bytes, 0u8);
        proof {
            assert forall|i: int| 0 <= i < length implies !(#[trigger] bits_of(
                bytes@,
                0,
                length as int,
            )[i]) by {
                lemma_zero_byte(i % 8);
            }
            assert(bits_of(bytes@, 0, length as int) =~= Seq::new(length as nat, |i: int| false));
        }
        Self::from_bytes(bytes, length)
    }

    /// Creates a bitmap from the first `length` bits of `bytes`, without
    /// copying them.
    pub fn from_bytes(bytes: Vec<u8>, length: usize) -> (r: Self)
        requires
            length <= bytes@.len() * 8,
        ensures
            r@ == bits_of(bytes@, 0, length as int),
            r.spec_bytes() == bytes@.subrange(0, (length + 7) / 8),
            r.spec_offset() == 0,
    {
        let null_count = null_count(bytes.as_slice(), 0, length);
        Bitmap { bytes: Buffer::from_vec(bytes), offset: 0, length, null_count }
    }

    /// Creates a bitmap from a copy of the first `length` bits of `slice`.
    pub fn from_u8_slice(slice: &[u8], length: usize) -> (r: Self)
        requires
            length <= slice@.len() * 8,
        ensures
            r@ == bits_of(slice@, 0, length as int),
            r.spec_bytes() == slice@.subrange(0, (length + 7) / 8),
            r.spec_offset() == 0,
    {
        let mut bytes: Vec<u8> = Vec::with_capacity(slice.len());
        bytes.extend_from_slice(slice);
        assert(bytes@ =~= slice@);
        Self::from_bytes(bytes, length)
    }

    /// Returns the number of bits.
    pub fn len(&self) -> (r: usize)
        ensures
            r == self@.len(),
    {
        self.length
    }

    /// Returns whether the bitmap holds no bit.
    pub fn is_empty(&self) -> (r: bool)
        ensures
            r == (self@.len() == 0),
    {
        self.length == 0
    }

    /// Returns the number of unset bits, which is kept and not counted anew.
    pub fn null_count(&self) -> (r: usize)
        ensures
            r == count_zeros(self@),
            r <= self@.len(),
    {
        proof {
            use_type_invariant(self);
            crate::bitmap::utils::lemma_count_zeros_bound(self@);
        }
        self.null_count
    }

    /// Returns the bit at `i`.
    pub fn get_bit(&self, i: usize) -> (r: bool)
        requires
            i < self@.len(),
        ensures
            r == self@[i as int],
    {
        proof {
            use_type_invariant(self);
        }
        get_bit(self.bytes.as_slice(), self.offset + i)
    }

    /// Returns the bit at `i`, or `None` where the bitmap has no such bit.
    pub fn get(&self, i: usize) -> (r: Option<bool>)
        ensures
            r == if i < self@.len() {
                Some(self@[i as int])
            } else {
                None
            },
    {
        if i < self.length {
            Some(self.get_bit(i))
        } else {
            None
        }
    }

    /// Narrows the bitmap to the `length` bits that start at `offset`. The
    /// bytes are shared, not copied.
    pub fn slice(self, offset: usize, length: usize) -> (r: Self)
        requires
            offset + length <= self@.len(),
        ensures
            r@ == self@.subrange(offset as int, offset + length),
            r@.len() == length,
            forall|i: int| 0 <= i < length ==> #[trigger] r@[i] == self@[offset + i],
    {
        proof {
            use_type_invariant(&self);
        }
        let new_offset = self.offset + offset;
        let null_count = null_count(self.bytes.as_slice(), new_offset, length);
        let r = Bitmap { bytes: self.bytes, offset: new_offset, length, null_count };
        assert(r@ =~= self@.subrange(offset as int, offset + length));
        r
    }

    /// Returns the bytes that hold the bits, from the byte of the first bit.
    /// The bitmap is the window of these bytes that starts at bit
    /// `offset()`.
    pub fn as_slice(&self) -> (r: &[u8])
        ensures
            r@ == self.spec_bytes(),
            r@.len() == (self.spec_offset() + self@.len() + 7) / 8,
            self@ == bits_of(r@, self.spec_offset() as int, self@.len() as int),
    {
        proof {
            use_type_invariant(self);
        }
        let start = self.offset / 8;
        let total = self.offset + self.length;
        let end = bytes_for(total);
        let all = self.bytes.as_slice();
        let r = &all[start..end];
        proof {
            assert forall|i: int| 0 <= i < self.length implies #[trigger] bits_of(
                r@,
                self.offset as int % 8,
                self.length as int,
            )[i] == bit_at(all@, self.offset + i) by {
                let k = self.offset % 8 + i;
                assert(r@[k / 8] == all@[start + k / 8]);
                assert((self.offset + i) / 8 == start + k / 8);
                assert((self.offset + i) % 8 == k % 8);
            }
            assert(self@ =~= bits_of(r@, self.spec_offset() as int, self@.len() as int));
        }
        r
    }

    /// Returns the bit of the first byte of `as_slice` at which the bitmap
    /// starts.
    pub fn offset(&self) -> (r: usize)
        ensures
            r == self.spec_offset(),
            r < 8,
            r + self@.len() <= usize::MAX,
    {
        proof {
            use_type_invariant(self);
        }
        self.offset % 8
    }

    /// Returns the bits as a vector of booleans.
    pub fn iter(&self) -> (r: Vec<bool>)
        ensures
            r@ == self@,
    {
        let mut out: Vec<bool> = Vec::with_capacity(self.length);
        let mut i: usize = 0;
        while i < self.length
            invariant
                i <= self.length,
                self.length == self@.len(),
                out@ == self@.subrange(0, i as int),
            decreases self.length - i,
        {
            let bit = self.get_bit(i);
            out.push(bit);
            assert(out@ =~= self@.subrange(0, i as int + 1));
            i += 1;
        }
        assert(out@ =~= self@);
        out
    }
}

impl Clone for Bitmap {
    /// Returns another handle on the same bits. The bytes are shared.
    fn clone(&self) -> (r: Self)
        ensures
            r == *self,
    {
        proof {
            use_type_invariant(self);
        }
        Bitmap {
            bytes: self.bytes.clone(),
            offset: self.offset,
            length: self.length,
            null_count: self.null_count,
        }
    }
}

impl PartialEq for Bitmap {
    /// Two bitmaps are equal where they hold the same bits, whatever bytes
    /// they hold them in.
    fn eq(&self, other: &Self) -> (r: bool) {
        if self.len() != other.len() {
            return false;
        }
        let mut i: usize = 0;
        while i < self.len()
            invariant
                i <= self@.len(),
                self@.len() == other@.len(),
                forall|j: int| 0 <= j < i ==> self@[j] == other@[j],
            decreases self@.len() - i,
        {
            if self.get_bit(i) != other.get_bit(i) {
                return false;
            }
            i += 1;
        }
        assert(self@ =~= other@);
        true
    }
}

impl vstd::std_specs::cmp::PartialEqSpecImpl for Bitmap {
    open spec fn obeys_eq_spec() -> bool {
        true
    }

    open spec fn eq_spec(&self, other: &Self) -> bool {
        self@ == other@
    }
}

} // verus!
