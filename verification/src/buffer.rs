//! Contiguous value stores: a growable byte buffer whose capacity moves in
//! steps of 64 bytes, and an immutable typed buffer that shares its storage
//! between its slices.

use std::sync::Arc;
use vstd::prelude::*;

verus! {

/// `n` rounded up to the next multiple of 64, or `n` itself where that
/// multiple does not fit in a `usize`.
pub open spec fn round_capacity(n: int) -> int {
    if n + 63 <= usize::MAX {
        (n + 63) / 64 * 64
    } else {
        n
    }
}

/// Twice `capacity`, or `usize::MAX` where that does not fit in a `usize`.
pub open spec fn double_capacity(capacity: int) -> int {
    if 2 * capacity <= usize::MAX {
        2 * capacity
    } else {
        usize::MAX as int
    }
}

/// The capacity of a buffer of capacity `capacity` once it has room for
/// `required` bytes: unchanged where they fit, else the larger of
/// `required` rounded up to a multiple of 64 and twice the old capacity.
pub open spec fn grown_capacity(capacity: int, required: int) -> int {
    if required <= capacity {
        capacity
    } else if round_capacity(required) >= double_capacity(capacity) {
        round_capacity(required)
    } else {
        double_capacity(capacity)
    }
}

/// A growable buffer of bytes. Its capacity is a multiple of 64 bytes
/// wherever such a multiple fits.
#[derive(Debug)]
pub struct MutableBuffer {
    data: Vec<u8>,
    capacity: usize,
}

impl View for MutableBuffer {
    type V = Seq<u8>;

    closed spec fn view(&self) -> Seq<u8> {
        self.data@
    }
}

/// Returns `n` rounded up to the next multiple of 64 that fits.
fn rounded(n: usize) -> (r: usize)
    ensures
        r == round_capacity(n as int),
        r >= n,
{
    if n <= usize::MAX - 63 {
        (n + 63) / 64 * 64
    } else {
        n
    }
}

/// Returns the capacity of a buffer of capacity `capacity` once it has
/// room for `required` bytes.
fn grown(capacity: usize, required: usize) -> (r: usize)
    ensures
        r == grown_capacity(capacity as int, required as int),
        r >= required,
        r >= capacity,
{
    if required <= capacity {
        capacity
    } else {
        let a = rounded(required);
        let b = if capacity <= usize::MAX / 2 {
            2 * capacity
        } else {
            usize::MAX
        };
        if a >= b {
            a
        } else {
            b
        }
    }
}

impl MutableBuffer {
    /// The buffer holds no more bytes than its capacity.
    #[verifier::type_invariant]
    spec fn within(&self) -> bool {
        self.data@.len() <= self.capacity
    }

    /// The number of bytes the buffer holds without growing.
    pub closed spec fn spec_capacity(&self) -> nat {
        self.capacity as nat
    }

    /// Takes the bytes out and leaves the buffer empty.
    fn take(&mut self) -> (r: Vec<u8>)
        ensures
            r@ == old(self)@,
            r@.len() <= old(self).spec_capacity(),
            final(self)@ == Seq::<u8>::empty(),
            final(self).spec_capacity() == old(self).spec_capacity(),
    {
        proof {
            use_type_invariant(&*self);
        }
        let mut data: Vec<u8> = Vec::new();
        core::mem::swap(&mut data, &mut self.data);
        data
    }

    /// Creates an empty buffer of capacity 0.
    pub fn new() -> (r: Self)
        ensures
            r@ == Seq::<u8>::empty(),
            r.spec_capacity() == 0,
    {
        MutableBuffer { data: Vec::new(), capacity: 0 }
    }

    /// Creates an empty buffer with room for at least `capacity` bytes.
    pub fn with_capacity(capacity: usize) -> (r: Self)
        ensures
            r@ == Seq::<u8>::empty(),
            r.spec_capacity() == round_capacity(capacity as int),
    {
        let capacity = rounded(capacity);
        MutableBuffer { data: Vec::with_capacity(capacity), capacity }
    }

    /// Creates a buffer of `len` zero bytes.
    pub fn from_len_zeroed(len: usize) -> (r: Self)
        ensures
            r@ == Seq::new(len as nat, |i: int| 0u8),
            r.spec_capacity() == round_capacity(len as int),
    {
        let capacity = rounded(len);
        let mut data: Vec<u8> = Vec::with_capacity(capacity);
        data.resize(len, 0u8);
        assert(data@ =~= Seq::new(len as nat, |i: int| 0u8));
        MutableBuffer { data, capacity }
    }

    /// Returns the number of bytes in the buffer.
    pub fn len(&self) -> (r: usize)
        ensures
            r == self@.len(),
            r <= self.spec_capacity(),
    {
        proof {
            use_type_invariant(self);
        }
        self.data.len()
    }

    /// Returns whether the buffer holds no byte.
    pub fn is_empty(&self) -> (r: bool)
        ensures
            r == (self@.len() == 0),
    {
        self.data.len() == 0
    }

    /// Returns the number of bytes the buffer holds without growing.
    pub fn capacity(&self) -> (r: usize)
        ensures
            r == self.spec_capacity(),
            r >= self@.len(),
    {
        proof {
            use_type_invariant(self);
        }
        self.capacity
    }

    /// Makes room for `additional` more bytes.
    pub fn reserve(&mut self, additional: usize)
        requires
            old(self)@.len() + additional <= usize::MAX,
        ensures
            final(self)@ == old(self)@,
            final(self).spec_capacity() == grown_capacity(
                old(self).spec_capacity() as int,
                old(self)@.len() + additional,
            ),
    {
        let required = self.data.len() + additional;
        let capacity = grown(self.capacity, required);
        let mut data = self.take();
        if capacity > self.capacity {
            data.reserve(capacity - data.len());
        }
        *self = MutableBuffer { data, capacity };
    }

    /// Appends one byte.
    pub fn push(&mut self, value: u8)
        requires
            old(self)@.len() < usize::MAX,
        ensures
            final(self)@ == old(self)@.push(value),
            final(self).spec_capacity() == grown_capacity(
                old(self).spec_capacity() as int,
                (old(self)@.len() + 1) as int,
            ),
    {
        self.reserve(1);
        let capacity = self.capacity;
        let mut data = self.take();
        data.push(value);
        *self = MutableBuffer { data, capacity };
    }

    /// Appends one byte to a buffer that has room for it.
    pub fn push_unchecked(&mut self, value: u8)
        requires
            old(self)@.len() < old(self).spec_capacity(),
        ensures
            final(self)@ == old(self)@.push(value),
            final(self).spec_capacity() == old(self).spec_capacity(),
    {
        let capacity = self.capacity;
        let mut data = self.take();
        data.push(value);
        *self = MutableBuffer { data, capacity };
    }

    /// Appends the bytes of `other`.
    pub fn extend_from_slice(&mut self, other: &[u8])
        requires
            old(self)@.len() + other@.len() <= usize::MAX,
        ensures
            final(self)@ == old(self)@ + other@,
            final(self).spec_capacity() == grown_capacity(
                old(self).spec_capacity() as int,
                (old(self)@.len() + other@.len()) as int,
            ),
    {
        self.reserve(other.len());
        let capacity = self.capacity;
        let mut data = self.take();
        let ghost before = data@;
        data.extend_from_slice(other);
        assert(data@ =~= before + other@);
        *self = MutableBuffer { data, capacity };
    }

    /// Sets the length to `new_len`: cuts the buffer, or fills it up with
    /// `value`.
    pub fn resize(&mut self, new_len: usize, value: u8)
        ensures
            final(self)@.len() == new_len,
            forall|i: int|
                0 <= i < new_len ==> #[trigger] final(self)@[i] == if i < old(self)@.len() {
                    old(self)@[i]
                } else {
                    value
                },
            final(self).spec_capacity() == grown_capacity(
                old(self).spec_capacity() as int,
                new_len as int,
            ),
    {
        if new_len > self.data.len() {
            self.reserve(new_len - self.data.len());
        }
        let capacity = self.capacity;
        let mut data = self.take();
        let ghost before = data@;
        data.resize(new_len, value);
        proof {
            if new_len > before.len() {
                assert forall|i: int| 0 <= i < new_len implies #[trigger] data@[i] == if i
                    < before.len() {
                    before[i]
                } else {
                    value
                } by {
                    if i < before.len() {
                        assert(data@.subrange(0, before.len() as int)[i] == before[i]);
                    }
                }
            }
        }
        *self = MutableBuffer { data, capacity };
    }

    /// Appends `additional` copies of `value`.
    pub fn extend_constant(&mut self, additional: usize, value: u8)
        requires
            old(self)@.len() + additional <= usize::MAX,
        ensures
            final(self)@ == old(self)@ + Seq::new(additional as nat, |i: int| value),
            final(self).spec_capacity() == grown_capacity(
                old(self).spec_capacity() as int,
                old(self)@.len() + additional,
            ),
    {
        let ghost before = self@;
        let new_len = self.data.len() + additional;
        self.resize(new_len, value);
        assert(self@ =~= before + Seq::new(additional as nat, |i: int| value));
    }

    /// Cuts the buffer to its first `len` bytes, where it has more.
    pub fn truncate(&mut self, len: usize)
        ensures
            final(self)@ == if len <= old(self)@.len() {
                old(self)@.subrange(0, len as int)
            } else {
                old(self)@
            },
            final(self).spec_capacity() == old(self).spec_capacity(),
    {
        let capacity = self.capacity;
        let mut data = self.take();
        data.truncate(len);
        *self = MutableBuffer { data, capacity };
    }

    /// Returns the byte at `index`.
    pub fn get(&self, index: usize) -> (r: u8)
        requires
            index < self@.len(),
        ensures
            r == self@[index as int],
    {
        self.data[index]
    }

    /// Writes `value` to the byte at `index`.
    pub fn set(&mut self, index: usize, value: u8)
        requires
            index < old(self)@.len(),
        ensures
            final(self)@ == old(self)@.update(index as int, value),
            final(self).spec_capacity() == old(self).spec_capacity(),
    {
        let capacity = self.capacity;
        let mut data = self.take();
        data.set(index, value);
        *self = MutableBuffer { data, capacity };
    }

    /// Returns the bytes as a slice.
    pub fn as_slice(&self) -> (r: &[u8])
        ensures
            r@ == self@,
    {
        self.data.as_slice()
    }

    /// Gives up the bytes as a vector.
    pub fn into_vec(self) -> (r: Vec<u8>)
        ensures
            r@ == self@,
    {
        self.data
    }
}

/// Another handle on what `data` points to.
///
/// Calls `Arc::clone`, which copies the pointer and leaves the pointee as it
/// is: the result points to the same value.
#[verifier::external_body]
pub(crate) fn share<T>(data: &Arc<T>) -> (r: Arc<T>)
    ensures
        r == *data,
{
    Arc::clone(data)
}

/// An immutable window of `length` values, starting at `offset`, on a
/// vector that its slices and clones share.
#[derive(Debug)]
pub struct Buffer<T> {
    data: Arc<Vec<T>>,
    offset: usize,
    length: usize,
}

impl<T> View for Buffer<T> {
    type V = Seq<T>;

    closed spec fn view(&self) -> Seq<T> {
        self.data@.subrange(self.offset as int, self.offset + self.length)
    }
}

impl<T> Buffer<T> {
    /// The window lies within the storage.
    #[verifier::type_invariant]
    spec fn within(&self) -> bool {
        self.offset + self.length <= self.data.len()
    }

    /// Creates an empty buffer.
    pub fn new() -> (r: Self)
        ensures
            r@ == Seq::<T>::empty(),
    {
        let r = Buffer { data: Arc::new(Vec::new()), offset: 0, length: 0 };
        assert(r@ =~= Seq::<T>::empty());
        r
    }

    /// Freezes `values` into a buffer, without copying them.
    pub fn from_vec(values: Vec<T>) -> (r: Self)
        ensures
            r@ == values@,
    {
        let length = values.len();
        let r = Buffer { data: Arc::new(values), offset: 0, length };
        assert(r@ =~= values@);
        r
    }

    /// Returns the number of values.
    pub fn len(&self) -> (r: usize)
        ensures
            r == self@.len(),
    {
        proof {
            use_type_invariant(self);
        }
        self.length
    }

    /// Returns whether the buffer holds no value.
    pub fn is_empty(&self) -> (r: bool)
        ensures
            r == (self@.len() == 0),
    {
        proof {
            use_type_invariant(self);
        }
        self.length == 0
    }

    /// Returns a reference to the value at `index`.
    pub fn get(&self, index: usize) -> (r: &T)
        requires
            index < self@.len(),
        ensures
            *r == self@[index as int],
    {
        proof {
            use_type_invariant(self);
        }
        &self.data[self.offset + index]
    }

    /// Returns the values as a slice.
    pub fn as_slice(&self) -> (r: &[T])
        ensures
            r@ == self@,
    {
        proof {
            use_type_invariant(self);
        }
        let all = self.data.as_slice();
        &all[self.offset..self.offset + self.length]
    }

    /// Narrows the window to the `length` values that start at `offset`.
    /// The storage is shared, not copied.
    pub fn slice(self, offset: usize, length: usize) -> (r: Self)
        requires
            offset + length <= self@.len(),
        ensures
            r@ == self@.subrange(offset as int, offset + length),
    {
        proof {
            use_type_invariant(&self);
        }
        let r = Buffer { data: self.data, offset: self.offset + offset, length };
        assert(r@ =~= self@.subrange(offset as int, offset + length));
        r
    }
}

impl<T> Clone for Buffer<T> {
    /// Returns another handle on the same window of the same storage.
    fn clone(&self) -> (r: Self)
        ensures
            r == *self,
    {
        proof {
            use_type_invariant(self);
        }
        Buffer { data: share(&self.data), offset: self.offset, length: self.length }
    }
}

} // verus!
