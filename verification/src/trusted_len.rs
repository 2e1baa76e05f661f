//! Sources of booleans whose exact length is known before they are read.

use crate::bitmap::utils::{bits_of, get_bit};
use vstd::prelude::*;

verus! {

/// A source of booleans that knows how many it holds and hands out each by
/// its position.
pub trait TrustedLen {
    /// The booleans of the source, in order.
    spec fn items(&self) -> Seq<bool>;

    /// Returns the number of booleans of the source.
    fn len(&self) -> (r: usize)
        ensures
            r == self.items().len(),
    ;

    /// Returns the boolean at `index`.
    fn get(&self, index: usize) -> (r: bool)
        requires
            index < self.items().len(),
        ensures
            r == self.items()[index as int],
    ;
}

impl TrustedLen for Vec<bool> {
    open spec fn items(&self) -> Seq<bool> {
        self@
    }

    fn len(&self) -> (r: usize) {
        Vec::len(self)
    }

    fn get(&self, index: usize) -> (r: bool) {
        self[index]
    }
}

impl<'a> TrustedLen for &'a [bool] {
    open spec fn items(&self) -> Seq<bool> {
        self@
    }

    fn len(&self) -> (r: usize) {
        <[bool]>::len(self)
    }

    fn get(&self, index: usize) -> (r: bool) {
        self[index]
    }
}

/// `count` copies of `value`.
#[derive(Clone, Copy, Debug)]
pub struct Repeat {
    pub value: bool,
    pub count: usize,
}

impl TrustedLen for Repeat {
    open spec fn items(&self) -> Seq<bool> {
        Seq::new(self.count as nat, |i: int| self.value)
    }

    fn len(&self) -> (r: usize) {
        self.count
    }

    fn get(&self, index: usize) -> (r: bool) {
        self.value
    }
}

/// The `len` bits of `bytes` that start at bit `offset`.
#[derive(Clone, Copy, Debug)]
pub struct BitmapIter<'a> {
    bytes: &'a [u8],
    offset: usize,
    len: usize,
}

impl<'a> BitmapIter<'a> {
    /// The window lies within the bytes.
    #[verifier::type_invariant]
    spec fn within(&self) -> bool {
        &&& self.offset + self.len <= self.bytes@.len() * 8
        &&& self.offset + self.len <= usize::MAX
    }

    /// Creates the source of the `len` bits of `bytes` that start at bit
    /// `offset`.
    pub fn new(bytes: &'a [u8], offset: usize, len: usize) -> (r: Self)
        requires
            offset + len <= bytes@.len() * 8,
            offset + len <= usize::MAX,
        ensures
            r.items() == bits_of(bytes@, offset as int, len as int),
    {
        BitmapIter { bytes, offset, len }
    }
}

impl<'a> TrustedLen for BitmapIter<'a> {
    closed spec fn items(&self) -> Seq<bool> {
        bits_of(self.bytes@, self.offset as int, self.len as int)
    }

    fn len(&self) -> (r: usize) {
        self.len
    }

    fn get(&self, index: usize) -> (r: bool) {
        proof {
            use_type_invariant(self);
        }
        get_bit(self.bytes, self.offset + index)
    }
}

} // verus!
