//! Arrays of byte strings of any length, among them the UTF-8 strings.

use crate::bitmap::{optional_bits, Bitmap, MutableBitmap};
use crate::buffer::Buffer;
use crate::compute::sort::common::SortKeys;
use crate::compute::sort::order::{lex_lt, lex_lt_from};
use crate::datatypes::DataType;
use vstd::prelude::*;
use vstd::string::StringSliceAdditionalSpecFns;

verus! {

/// Whether `offsets` cut `length` bytes into consecutive strings: they
/// start the first string, each ends one string and starts the next, none
/// lies before the one in front of it, and the last lies within the bytes.
pub open spec fn cuts(offsets: Seq<usize>, length: nat) -> bool {
    &&& offsets.len() >= 1
    &&& forall|i: int, j: int| 0 <= i <= j < offsets.len() ==> #[trigger] offsets[i] <= #[trigger] offsets[j]
    &&& offsets.last() <= length
}

/// The bytes `bytes` as integers.
pub open spec fn as_ints(bytes: Seq<u8>) -> Seq<int> {
    bytes.map_values(|b: u8| b as int)
}

/// Whether the logical type is one of byte strings.
pub open spec fn is_binary(data_type: DataType) -> bool {
    data_type is Binary || data_type is LargeBinary || data_type is Utf8 || data_type is LargeUtf8
}

/// An immutable array of byte strings, each of which may be null. The
/// strings lie one behind the other in a shared buffer of bytes; a shared
/// buffer of offsets, one more than there are strings, says where each
/// starts and ends; an optional bitmap says which of them are valid. The
/// logical type says whether the strings are UTF-8.
#[derive(Debug)]
pub struct BinaryArray {
    data_type: DataType,
    offsets: Buffer<usize>,
    values: Buffer<u8>,
    validity: Option<Bitmap>,
}

/// An array of UTF-8 strings: an array of byte strings of the logical type
/// `Utf8` or `LargeUtf8`.
pub type Utf8Array = BinaryArray;

impl View for BinaryArray {
    type V = Seq<Option<Seq<u8>>>;

    open spec fn view(&self) -> Seq<Option<Seq<u8>>> {
        Seq::new(
            (self.spec_offsets().len() - 1) as nat,
            |i: int|
                if self.spec_validity() is None || self.spec_validity()->0[i] {
                    Some(self.spec_value(i))
                } else {
                    None
                },
        )
    }
}

/// Returns whether `a` comes before `b` in the lexicographic order of their
/// bytes.
pub fn bytes_lt(a: &[u8], b: &[u8]) -> (r: bool)
    ensures
        r == lex_lt(as_ints(a@), as_ints(b@)),
{
    let ghost x = as_ints(a@);
    let ghost y = as_ints(b@);
    let mut k: usize = 0;
    while k < a.len() && k < b.len()
        invariant
            k <= a@.len(),
            k <= b@.len(),
            x == as_ints(a@),
            y == as_ints(b@),
            lex_lt(x, y) == lex_lt_from(x, y, k as int),
        decreases a@.len() - k,
    {
        if a[k] != b[k] {
            return a[k] < b[k];
        }
        k += 1;
    }
    k < b.len()
}

impl BinaryArray {
    /// The offsets cut the bytes into strings, the bitmap has a bit for
    /// each string, and the logical type is one of byte strings.
    #[verifier::type_invariant]
    spec fn consistent(&self) -> bool {
        &&& cuts(self.offsets@, self.values@.len())
        &&& self.validity matches Some(bitmap) ==> bitmap@.len() == self.offsets@.len() - 1
        &&& is_binary(self.data_type)
    }

    /// The logical type of the array.
    pub closed spec fn spec_data_type(&self) -> DataType {
        self.data_type
    }

    /// The offsets of the strings.
    pub closed spec fn spec_offsets(&self) -> Seq<usize> {
        self.offsets@
    }

    /// The bytes of all strings, one behind the other.
    pub closed spec fn spec_bytes(&self) -> Seq<u8> {
        self.values@
    }

    /// The validity bits of the array, where it has a bitmap.
    pub closed spec fn spec_validity(&self) -> Option<Seq<bool>> {
        optional_bits(self.validity)
    }

    /// The string at `i`, whether it is valid or not.
    pub open spec fn spec_value(&self, i: int) -> Seq<u8> {
        self.spec_bytes().subrange(self.spec_offsets()[i] as int, self.spec_offsets()[i + 1] as int)
    }

    /// What the array holds at each position: the bytes of the string, or
    /// a null.
    pub open spec fn scalars(&self) -> Seq<crate::array::Scalar> {
        Seq::new(
            self@.len(),
            |i: int|
                match self@[i] {
                    Some(bytes) => crate::array::Scalar::Bytes(bytes),
                    None => crate::array::Scalar::Null,
                },
        )
    }

    /// Creates an array of no string.
    pub fn new_empty(data_type: DataType) -> (r: Self)
        requires
            is_binary(data_type),
        ensures
            r@.len() == 0,
            r.spec_data_type() == data_type,
            r.spec_validity() is None,
    {
        let mut offsets: Vec<usize> = Vec::new();
        offsets.push(0);
        BinaryArray {
            data_type,
            offsets: Buffer::from_vec(offsets),
            values: Buffer::new(),
            validity: None,
        }
    }

    /// Creates an array of `length` nulls.
    pub fn new_null(data_type: DataType, length: usize) -> (r: Self)
        requires
            is_binary(data_type),
            length < usize::MAX,
        ensures
            r@ == Seq::new(length as nat, |i: int| None::<Seq<u8>>),
            r.spec_data_type() == data_type,
            r.spec_validity() == Some(Seq::new(length as nat, |i: int| false)),
    {
        let mut offsets: Vec<usize> = Vec::with_capacity(length + 1);
        let mut i: usize = 0;
        while i <= length
            invariant
                i <= length + 1,
                length < usize::MAX,
                offsets@.len() == i,
                forall|j: int| 0 <= j < i ==> #[trigger] offsets@[j] == 0,
            decreases length + 1 - i,
        {
            offsets.push(0);
            i += 1;
        }
        let r = BinaryArray {
            data_type,
            offsets: Buffer::from_vec(offsets),
            values: Buffer::new(),
            validity: Some(Bitmap::new_zeroed(length)),
        };
        assert(r@ =~= Seq::new(length as nat, |i: int| None::<Seq<u8>>));
        r
    }

    /// Creates an array from its parts: the logical type, the offsets, the
    /// bytes and the validity bitmap.
    pub fn from_data(
        data_type: DataType,
        offsets: Buffer<usize>,
        values: Buffer<u8>,
        validity: Option<Bitmap>,
    ) -> (r: Self)
        requires
            is_binary(data_type),
            cuts(offsets@, values@.len()),
            validity matches Some(bitmap) ==> bitmap@.len() == offsets@.len() - 1,
        ensures
            r.spec_data_type() == data_type,
            r.spec_offsets() == offsets@,
            r.spec_bytes() == values@,
            r.spec_validity() == optional_bits(validity),
    {
        BinaryArray { data_type, offsets, values, validity }
    }

    /// Returns the number of strings, nulls included.
    pub fn len(&self) -> (r: usize)
        ensures
            r == self@.len(),
            r == self.spec_offsets().len() - 1,
            self.spec_validity() matches Some(bits) ==> bits.len() == r,
    {
        proof {
            use_type_invariant(self);
        }
        self.offsets.len() - 1
    }

    /// Returns the logical type.
    pub fn data_type(&self) -> (r: &DataType)
        ensures
            *r == self.spec_data_type(),
            is_binary(*r),
    {
        proof {
            use_type_invariant(self);
        }
        &self.data_type
    }

    /// Returns the validity bitmap, where the array has one.
    pub fn validity(&self) -> (r: &Option<Bitmap>)
        ensures
            self.spec_validity() == optional_bits(*r),
            *r matches Some(bitmap) ==> bitmap@.len() == self@.len(),
    {
        proof {
            use_type_invariant(self);
        }
        &self.validity
    }

    /// Returns the string at `i`, whether it is valid or not.
    pub fn value(&self, i: usize) -> (r: &[u8])
        requires
            i < self@.len(),
        ensures
            r@ == self.spec_value(i as int),
            self@[i as int] matches Some(v) ==> v == r@,
    {
        proof {
            use_type_invariant(self);
        }
        let count = self.offsets.len();
        let start = *self.offsets.get(i);
        let end = *self.offsets.get(i + 1);
        assert(self.offsets@[i as int] <= self.offsets@[i + 1]);
        assert(self.offsets@[i + 1] <= self.offsets@[self.offsets@.len() - 1]);
        let all = self.values.as_slice();
        &all[start..end]
    }

    /// Returns whether the string at `i` is valid.
    pub fn is_valid(&self, i: usize) -> (r: bool)
        requires
            i < self@.len(),
        ensures
            r == self@[i as int] is Some,
    {
        proof {
            use_type_invariant(self);
        }
        match &self.validity {
            Some(bitmap) => bitmap.get_bit(i),
            None => true,
        }
    }

    /// Returns the window of `length` strings that starts at `offset`. The
    /// bytes, the offsets and the bitmap are shared, not copied.
    pub fn slice(&self, offset: usize, length: usize) -> (r: Self)
        requires
            offset + length <= self@.len(),
        ensures
            r@ == self@.subrange(offset as int, offset + length),
            r.spec_data_type() == self.spec_data_type(),
            r.spec_bytes() == self.spec_bytes(),
            r.spec_offsets() == self.spec_offsets().subrange(offset as int, offset + length + 1),
            r.spec_validity() == match self.spec_validity() {
                Some(bits) => Some(bits.subrange(offset as int, offset + length)),
                None => None,
            },
            r.scalars() == self.scalars().subrange(offset as int, offset + length),
            r.keys() == self.keys().subrange(offset as int, offset + length),
    {
        proof {
            use_type_invariant(self);
        }
        let validity = match &self.validity {
            Some(bitmap) => Some(bitmap.clone().slice(offset, length)),
            None => None,
        };
        let count = self.offsets.len();
        let offsets = self.offsets.clone().slice(offset, length + 1);
        proof {
            assert forall|i: int, j: int| 0 <= i <= j < offsets@.len() implies #[trigger] offsets@[i]
                <= #[trigger] offsets@[j] by {
                assert(self.offsets@[offset + i] <= self.offsets@[offset + j]);
            }
            assert(self.offsets@[offset + length] <= self.offsets@[self.offsets@.len() - 1]);
        }
        let r = BinaryArray {
            data_type: self.data_type.clone(),
            offsets,
            values: self.values.clone(),
            validity,
        };
        assert(r@ =~= self@.subrange(offset as int, offset + length));
        assert(r.scalars() =~= self.scalars().subrange(offset as int, offset + length));
        assert(r.keys() =~= self.keys().subrange(offset as int, offset + length));
        r
    }

    /// Returns the strings as a vector of their bytes, `None` for each
    /// null.
    pub fn to_options(&self) -> (r: Vec<Option<Vec<u8>>>)
        ensures
            r@.len() == self@.len(),
            forall|i: int|
                0 <= i < self@.len() ==> match #[trigger] r@[i] {
                    Some(bytes) => self@[i] == Some(bytes@),
                    None => self@[i] is None,
                },
    {
        let n = self.len();
        let mut out: Vec<Option<Vec<u8>>> = Vec::with_capacity(n);
        let mut i: usize = 0;
        while i < n
            invariant
                i <= n,
                n == self@.len(),
                out@.len() == i,
                forall|j: int|
                    0 <= j < i ==> match #[trigger] out@[j] {
                        Some(bytes) => self@[j] == Some(bytes@),
                        None => self@[j] is None,
                    },
            decreases n - i,
        {
            if self.is_valid(i) {
                let value = self.value(i);
                let mut bytes: Vec<u8> = Vec::with_capacity(value.len());
                bytes.extend_from_slice(value);
                assert(bytes@ =~= value@);
                out.push(Some(bytes));
            } else {
                out.push(None);
            }
            i += 1;
        }
        out
    }
}

/// Appends the bytes of each string of `values` to `bytes`, and where each
/// ends to `offsets`; a null adds no byte.
fn pack(values: &Vec<Option<&[u8]>>) -> (r: (Vec<usize>, Vec<u8>, MutableBitmap))
    ensures
        cuts(r.0@, r.1@.len()),
        r.0@.len() == values@.len() + 1,
        r.2@.len() == values@.len(),
        forall|i: int| 0 <= i < values@.len() ==> #[trigger] r.2@[i] == values@[i] is Some,
        forall|i: int|
            0 <= i < values@.len() && values@[i] is Some ==> #[trigger] r.1@.subrange(
                r.0@[i] as int,
                r.0@[i + 1] as int,
            ) == values@[i]->0@,
{
    let n = values.len();
    let mut offsets: Vec<usize> = Vec::new();
    let mut bytes: Vec<u8> = Vec::new();
    let mut validity = MutableBitmap::with_capacity(n);
    offsets.push(0);
    let mut i: usize = 0;
    while i < n
        invariant
            i <= n,
            n == values@.len(),
            offsets@.len() == i + 1,
            validity@.len() == i,
            cuts(offsets@, bytes@.len()),
            offsets@[i as int] == bytes@.len(),
            forall|j: int| 0 <= j < i ==> #[trigger] validity@[j] == values@[j] is Some,
            forall|j: int|
                0 <= j < i && values@[j] is Some ==> #[trigger] bytes@.subrange(
                    offsets@[j] as int,
                    offsets@[j + 1] as int,
                ) == values@[j]->0@,
        decreases n - i,
    {
        let ghost held = bytes@;
        let ghost marks = offsets@;
        match values[i] {
            Some(value) => {
                bytes.extend_from_slice(value);
                assert(bytes@ =~= held + value@);
                validity.push(true);
            },
            None => {
                validity.push(false);
            },
        }
        offsets.push(bytes.len());
        proof {
            assert forall|a: int, b: int| 0 <= a <= b < offsets@.len() implies #[trigger] offsets@[a]
                <= #[trigger] offsets@[b] by {
                if b < marks.len() {
                    assert(marks[a] <= marks[b]);
                } else if a < marks.len() {
                    assert(marks[a] <= marks[marks.len() - 1]);
                }
            }
            assert forall|j: int| 0 <= j < i + 1 && values@[j] is Some implies #[trigger] bytes@.subrange(
                offsets@[j] as int,
                offsets@[j + 1] as int,
            ) == values@[j]->0@ by {
                if j < i {
                    assert(marks[j + 1] <= marks[marks.len() - 1]);
                    assert(bytes@.subrange(offsets@[j] as int, offsets@[j + 1] as int) =~= held.subrange(
                        marks[j] as int,
                        marks[j + 1] as int,
                    ));
                } else {
                    assert(bytes@.subrange(offsets@[j] as int, offsets@[j + 1] as int)
                        =~= values@[j]->0@);
                }
            }
        }
        i += 1;
    }
    (offsets, bytes, validity)
}

impl BinaryArray {
    /// Creates an array of the byte strings of `values`, null where they
    /// are `None`, of the logical type `data_type`. It has a validity
    /// bitmap where one of them is null.
    pub fn from_bytes(data_type: DataType, values: &Vec<Option<&[u8]>>) -> (r: Self)
        requires
            is_binary(data_type),
        ensures
            r@.len() == values@.len(),
            forall|i: int|
                0 <= i < values@.len() ==> #[trigger] r@[i] == match values@[i] {
                    Some(bytes) => Some(bytes@),
                    None => None,
                },
            r.spec_data_type() == data_type,
            r.spec_validity() is Some <==> exists|i: int| 0 <= i < values@.len() && values@[i] is None,
    {
        let (offsets, bytes, validity) = pack(values);
        let ghost bits = validity@;
        let validity: Option<Bitmap> = validity.into();
        let r = BinaryArray {
            data_type,
            offsets: Buffer::from_vec(offsets),
            values: Buffer::from_vec(bytes),
            validity,
        };
        proof {
            assert forall|i: int| 0 <= i < values@.len() implies #[trigger] r@[i] == match values@[i] {
                Some(bytes) => Some(bytes@),
                None => None,
            } by {
                assert(bits[i] == values@[i] is Some);
                if validity is None {
                    assert(bits[i]);
                }
                if values@[i] is Some {
                    assert(bytes@.subrange(offsets@[i] as int, offsets@[i + 1] as int)
                        == values@[i]->0@);
                }
            }
            if r.spec_validity() is Some {
                let k = choose|k: int| 0 <= k < bits.len() && !bits[k];
                assert(values@[k] is None);
            }
            if exists|i: int| 0 <= i < values@.len() && values@[i] is None {
                let k = choose|i: int| 0 <= i < values@.len() && values@[i] is None;
                assert(!bits[k]);
            }
        }
        r
    }
}

impl<'a> From<Vec<Option<&'a str>>> for BinaryArray {
    /// Creates an array of the strings of `values`, null where they are
    /// `None`, of the logical type `Utf8`. It has a validity bitmap where
    /// one of them is null.
    fn from(values: Vec<Option<&'a str>>) -> (r: Self)
        ensures
            r@.len() == values@.len(),
            forall|i: int|
                0 <= i < values@.len() ==> #[trigger] r@[i] == match values@[i] {
                    Some(s) => Some(s.spec_bytes()),
                    None => None,
                },
            r.spec_data_type() == DataType::Utf8,
            r.spec_validity() is Some <==> exists|i: int| 0 <= i < values@.len() && values@[i] is None,
    {
        let n = values.len();
        let mut slices: Vec<Option<&[u8]>> = Vec::with_capacity(n);
        let mut i: usize = 0;
        while i < n
            invariant
                i <= n,
                n == values@.len(),
                slices@.len() == i,
                forall|j: int|
                    0 <= j < i ==> match #[trigger] slices@[j] {
                        Some(bytes) => values@[j] is Some && bytes@ == values@[j]->0.spec_bytes(),
                        None => values@[j] is None,
                    },
            decreases n - i,
        {
            match values[i] {
                Some(s) => {
                    slices.push(Some(s.as_bytes()));
                },
                None => {
                    slices.push(None);
                },
            }
            i += 1;
        }
        let r = BinaryArray::from_bytes(DataType::Utf8, &slices);
        proof {
            assert forall|i: int| 0 <= i < values@.len() implies #[trigger] r@[i] == match values@[i] {
                Some(s) => Some(s.spec_bytes()),
                None => None,
            } by {
                assert(r@[i] == match slices@[i] {
                    Some(bytes) => Some(bytes@),
                    None => None,
                });
            }
            if exists|i: int| 0 <= i < slices@.len() && slices@[i] is None {
                let k = choose|i: int| 0 <= i < slices@.len() && slices@[i] is None;
                assert(values@[k] is None);
            }
            if exists|i: int| 0 <= i < values@.len() && values@[i] is None {
                let k = choose|i: int| 0 <= i < values@.len() && values@[i] is None;
                assert(slices@[k] is None);
            }
        }
        r
    }
}

impl<'a> vstd::std_specs::convert::FromSpecImpl<Vec<Option<&'a str>>> for BinaryArray {
    open spec fn obeys_from_spec() -> bool {
        false
    }

    open spec fn from_spec(values: Vec<Option<&'a str>>) -> Self {
        arbitrary()
    }
}

impl Clone for BinaryArray {
    /// Returns another handle on the same array. The bytes, the offsets and
    /// the bitmap are shared.
    fn clone(&self) -> (r: Self)
        ensures
            r == *self,
    {
        proof {
            use_type_invariant(self);
        }
        let validity = match &self.validity {
            Some(bitmap) => Some(bitmap.clone()),
            None => None,
        };
        BinaryArray {
            data_type: self.data_type.clone(),
            offsets: self.offsets.clone(),
            values: self.values.clone(),
            validity,
        }
    }
}

/// Returns whether `a` and `b` hold the same bytes.
pub fn bytes_eq(a: &[u8], b: &[u8]) -> (r: bool)
    ensures
        r == (a@ == b@),
{
    if a.len() != b.len() {
        return false;
    }
    let mut k: usize = 0;
    while k < a.len()
        invariant
            k <= a@.len(),
            a@.len() == b@.len(),
            forall|t: int| 0 <= t < k ==> a@[t] == b@[t],
        decreases a@.len() - k,
    {
        if a[k] != b[k] {
            return false;
        }
        k += 1;
    }
    assert(a@ =~= b@);
    true
}

impl PartialEq for BinaryArray {
    /// Two arrays are equal where they are of the same logical type and
    /// hold the same strings, null where the other is null. What lies in
    /// the slots of nulls does not count.
    fn eq(&self, other: &Self) -> (r: bool) {
        if *self.data_type() != *other.data_type() || self.len() != other.len() {
            return false;
        }
        let n = self.len();
        let mut i: usize = 0;
        while i < n
            invariant
                i <= n,
                n == self@.len(),
                n == other@.len(),
                forall|j: int| 0 <= j < i ==> self@[j] == other@[j],
            decreases n - i,
        {
            let same = match (self.is_valid(i), other.is_valid(i)) {
                (true, true) => bytes_eq(self.value(i), other.value(i)),
                (false, false) => true,
                _ => false,
            };
            if !same {
                return false;
            }
            i += 1;
        }
        assert(self@ =~= other@);
        true
    }
}

impl vstd::std_specs::cmp::PartialEqSpecImpl for BinaryArray {
    open spec fn obeys_eq_spec() -> bool {
        true
    }

    open spec fn eq_spec(&self, other: &Self) -> bool {
        self.spec_data_type().same_as(&other.spec_data_type()) && self@ == other@
    }
}

impl SortKeys for BinaryArray {
    /// The key of a position is its string, byte by byte.
    open spec fn keys(&self) -> Seq<Seq<int>> {
        Seq::new((self.spec_offsets().len() - 1) as nat, |i: int| as_ints(self.spec_value(i)))
    }

    fn key_lt(&self, i: usize, j: usize) -> (r: bool) {
        let n = self.len();
        bytes_lt(self.value(i), self.value(j))
    }
}

} // verus!
