//! Arrays of fixed-width values.

use crate::bitmap::utils::count_zeros;
use crate::bitmap::{optional_bits, Bitmap, MutableBitmap};
use crate::buffer::Buffer;
use crate::compute::sort::common::SortKeys;
use crate::compute::sort::order::lemma_lex_single;
use crate::datatypes::DataType;
use crate::types::NativeType;
use vstd::prelude::*;

verus! {

/// An immutable array of fixed-width values, each of which may be null. The
/// values lie in a shared buffer, nulls included; an optional bitmap, one
/// bit for each value, says which of them are valid. Without a bitmap all
/// are.
#[derive(Debug)]
pub struct PrimitiveArray<T: NativeType> {
    data_type: DataType,
    values: Buffer<T>,
    validity: Option<Bitmap>,
}

/// The value at each position of `values`, or `None` where `validity` has an
/// unset bit there.
pub open spec fn masked<T>(values: Seq<T>, validity: Option<Seq<bool>>) -> Seq<Option<T>> {
    Seq::new(
        values.len(),
        |i: int|
            if validity is None || validity->0[i] {
                Some(values[i])
            } else {
                None
            },
    )
}

impl<T: NativeType> View for PrimitiveArray<T> {
    type V = Seq<Option<T>>;

    open spec fn view(&self) -> Seq<Option<T>> {
        masked(self.spec_values(), self.spec_validity())
    }
}

impl<T: NativeType> PrimitiveArray<T> {
    /// The bitmap has a bit for each value, and the values are of a kind
    /// that the logical type takes.
    #[verifier::type_invariant]
    spec fn consistent(&self) -> bool {
        &&& self.validity matches Some(bitmap) ==> bitmap@.len() == self.values@.len()
        &&& T::accepts(self.data_type)
    }

    /// The logical type of the array.
    pub closed spec fn spec_data_type(&self) -> DataType {
        self.data_type
    }

    /// The values of the array, those in the slots of nulls too.
    pub closed spec fn spec_values(&self) -> Seq<T> {
        self.values@
    }

    /// The validity bits of the array, where it has a bitmap.
    pub closed spec fn spec_validity(&self) -> Option<Seq<bool>> {
        match self.validity {
            Some(bitmap) => Some(bitmap@),
            None => None,
        }
    }

    /// What the array holds at each position: the rank of the value, or a
    /// null.
    pub open spec fn scalars(&self) -> Seq<crate::array::Scalar> {
        crate::array::scalars_of(
            self.spec_values(),
            self.spec_validity(),
            |v: T| crate::array::Scalar::Number(v.rank()),
        )
    }

    /// Creates an array of no value.
    pub fn new_empty(data_type: DataType) -> (r: Self)
        requires
            T::accepts(data_type),
        ensures
            r@.len() == 0,
            r.spec_data_type() == data_type,
            r.spec_validity() is None,
    {
        PrimitiveArray { data_type, values: Buffer::new(), validity: None }
    }

    /// Creates an array of `length` nulls.
    pub fn new_null(data_type: DataType, length: usize) -> (r: Self)
        requires
            T::accepts(data_type),
        ensures
            r@ == Seq::new(length as nat, |i: int| None::<T>),
            r.spec_data_type() == data_type,
            r.spec_validity() == Some(Seq::new(length as nat, |i: int| false)),
            r.spec_values() == Seq::new(length as nat, |i: int| T::spec_zero()),
            r.scalars() == Seq::new(length as nat, |i: int| crate::array::Scalar::Null),
    {
        let mut values: Vec<T> = Vec::with_capacity(length);
        let mut i: usize = 0;
        while i < length
            invariant
                i <= length,
                values@.len() == i,
                forall|j: int| 0 <= j < i ==> #[trigger] values@[j] == T::spec_zero(),
            decreases length - i,
        {
            values.push(T::zero());
            i += 1;
        }
        let r = PrimitiveArray {
            data_type,
            values: Buffer::from_vec(values),
            validity: Some(Bitmap::new_zeroed(length)),
        };
        assert(r@ =~= Seq::new(length as nat, |i: int| None::<T>));
        assert(r.spec_values() =~= Seq::new(length as nat, |i: int| T::spec_zero()));
        assert(r.scalars() =~= Seq::new(length as nat, |i: int| crate::array::Scalar::Null));
        r
    }

    /// Creates an array from its parts: the logical type, the values and
    /// the validity bitmap.
    pub fn from_data(data_type: DataType, values: Buffer<T>, validity: Option<Bitmap>) -> (r: Self)
        requires
            T::accepts(data_type),
            validity matches Some(bitmap) ==> bitmap@.len() == values@.len(),
        ensures
            r.spec_data_type() == data_type,
            r.spec_values() == values@,
            r.spec_validity() == optional_bits(validity),
    {
        PrimitiveArray { data_type, values, validity }
    }

    /// Creates an array of the values of `slice`, none of them null, of the
    /// logical type that goes with the values' type.
    pub fn from_slice(slice: &[T]) -> (r: Self)
        ensures
            r.spec_data_type() == T::spec_data_type(),
            r.spec_values() == slice@,
            r.spec_validity() is None,
    {
        let mut values: Vec<T> = Vec::with_capacity(slice.len());
        let mut i: usize = 0;
        while i < slice.len()
            invariant
                i <= slice@.len(),
                values@ == slice@.subrange(0, i as int),
            decreases slice@.len() - i,
        {
            values.push(slice[i]);
            assert(values@ =~= slice@.subrange(0, i as int + 1));
            i += 1;
        }
        assert(values@ =~= slice@);
        PrimitiveArray { data_type: T::data_type(), values: Buffer::from_vec(values), validity: None }
    }

    /// Returns the array with another logical type of the same values.
    pub fn to(self, data_type: DataType) -> (r: Self)
        requires
            T::accepts(data_type),
        ensures
            r.spec_data_type() == data_type,
            r.spec_values() == self.spec_values(),
            r.spec_validity() == self.spec_validity(),
    {
        proof {
            use_type_invariant(&self);
        }
        PrimitiveArray { data_type, values: self.values, validity: self.validity }
    }

    /// Returns the number of values, nulls included.
    pub fn len(&self) -> (r: usize)
        ensures
            r == self@.len(),
            r == self.spec_values().len(),
            self.spec_validity() matches Some(bits) ==> bits.len() == r,
    {
        proof {
            use_type_invariant(self);
        }
        self.values.len()
    }

    /// Returns whether the array holds no value.
    pub fn is_empty(&self) -> (r: bool)
        ensures
            r == (self@.len() == 0),
    {
        self.values.len() == 0
    }

    /// Returns the logical type.
    pub fn data_type(&self) -> (r: &DataType)
        ensures
            *r == self.spec_data_type(),
            T::accepts(*r),
    {
        proof {
            use_type_invariant(self);
        }
        &self.data_type
    }

    /// Returns the validity bitmap, where the array has one.
    pub fn validity(&self) -> (r: &Option<Bitmap>)
        ensures
            self.spec_validity() == optional_bits(*r),
            *r matches Some(bitmap) ==> bitmap@.len() == self@.len(),
    {
        proof {
            use_type_invariant(self);
        }
        &self.validity
    }

    /// Returns the values, those in the slots of nulls too.
    pub fn values(&self) -> (r: &Buffer<T>)
        ensures
            r@ == self.spec_values(),
    {
        &self.values
    }

    /// Returns the value at `i`, whether it is valid or not.
    pub fn value(&self, i: usize) -> (r: T)
        requires
            i < self@.len(),
        ensures
            r == self.spec_values()[i as int],
            self@[i as int] matches Some(v) ==> v == r,
    {
        *self.values.get(i)
    }

    /// Returns whether the value at `i` is valid.
    pub fn is_valid(&self, i: usize) -> (r: bool)
        requires
            i < self@.len(),
        ensures
            r == self@[i as int] is Some,
    {
        proof {
            use_type_invariant(self);
        }
        match &self.validity {
            Some(bitmap) => bitmap.get_bit(i),
            None => true,
        }
    }

    /// Returns whether the value at `i` is null.
    pub fn is_null(&self, i: usize) -> (r: bool)
        requires
            i < self@.len(),
        ensures
            r == self@[i as int] is None,
    {
        !self.is_valid(i)
    }

    /// Returns the value at `i`, or `None` where it is null.
    pub fn get(&self, i: usize) -> (r: Option<T>)
        requires
            i < self@.len(),
        ensures
            r == self@[i as int],
    {
        if self.is_valid(i) {
            Some(self.value(i))
        } else {
            None
        }
    }

    /// Returns the number of nulls.
    pub fn null_count(&self) -> (r: usize)
        ensures
            r == match self.spec_validity() {
                Some(bits) => count_zeros(bits),
                None => 0,
            },
            r <= self@.len(),
    {
        proof {
            use_type_invariant(self);
        }
        match &self.validity {
            Some(bitmap) => bitmap.null_count(),
            None => 0,
        }
    }

    /// Returns the window of `length` values that starts at `offset`. The
    /// values and the bitmap are shared, not copied.
    pub fn slice(&self, offset: usize, length: usize) -> (r: Self)
        requires
            offset + length <= self@.len(),
        ensures
            r@ == self@.subrange(offset as int, offset + length),
            r.spec_data_type() == self.spec_data_type(),
            r.spec_values() == self.spec_values().subrange(offset as int, offset + length),
            r.spec_validity() == match self.spec_validity() {
                Some(bits) => Some(bits.subrange(offset as int, offset + length)),
                None => None,
            },
            r.scalars() == self.scalars().subrange(offset as int, offset + length),
            r.keys() == self.keys().subrange(offset as int, offset + length),
    {
        proof {
            use_type_invariant(self);
        }
        let validity = match &self.validity {
            Some(bitmap) => Some(bitmap.clone().slice(offset, length)),
            None => None,
        };
        let r = PrimitiveArray {
            data_type: self.data_type.clone(),
            values: self.values.clone().slice(offset, length),
            validity,
        };
        assert(r@ =~= self@.subrange(offset as int, offset + length));
        assert(r.scalars() =~= self.scalars().subrange(offset as int, offset + length));
        assert(r.keys() =~= self.keys().subrange(offset as int, offset + length));
        r
    }

    /// Returns the values as a vector, `None` for each null.
    pub fn to_options(&self) -> (r: Vec<Option<T>>)
        ensures
            r@ == self@,
    {
        let n = self.len();
        let mut out: Vec<Option<T>> = Vec::with_capacity(n);
        let mut i: usize = 0;
        while i < n
            invariant
                i <= n,
                n == self@.len(),
                out@ == self@.subrange(0, i as int),
            decreases n - i,
        {
            out.push(self.get(i));
            assert(out@ =~= self@.subrange(0, i as int + 1));
            i += 1;
        }
        assert(out@ =~= self@);
        out
    }
}

impl<T: NativeType> From<Vec<Option<T>>> for PrimitiveArray<T> {
    /// Creates an array of the values of `values`, null where they are
    /// `None`, of the logical type that goes with the values' type. It has a
    /// bitmap where one of them is null.
    fn from(values: Vec<Option<T>>) -> (r: Self)
        ensures
            r@ == values@,
            r.spec_data_type() == T::spec_data_type(),
            r.spec_validity() is Some <==> exists|i: int| 0 <= i < values@.len() && values@[i] is None,
            forall|i: int|
                0 <= i < values@.len() && values@[i] is None ==> #[trigger] r.spec_values()[i]
                    == T::spec_zero(),
    {
        let n = values.len();
        let mut validity = MutableBitmap::with_capacity(n);
        let mut flat: Vec<T> = Vec::with_capacity(n);
        let mut i: usize = 0;
        while i < n
            invariant
                i <= n,
                n == values@.len(),
                flat@.len() == i,
                validity@.len() == i,
                forall|j: int| 0 <= j < i ==> #[trigger] validity@[j] == values@[j] is Some,
                forall|j: int|
                    0 <= j < i && values@[j] is Some ==> #[trigger] flat@[j] == values@[j]->0,
                forall|j: int|
                    0 <= j < i && values@[j] is None ==> #[trigger] flat@[j] == T::spec_zero(),
            decreases n - i,
        {
            match values[i] {
                Some(v) => {
                    flat.push(v);
                    validity.push(true);
                },
                None => {
                    flat.push(T::zero());
                    validity.push(false);
                },
            }
            i += 1;
        }
        let ghost bits = validity@;
        let validity: Option<Bitmap> = validity.into();
        let r = PrimitiveArray { data_type: T::data_type(), values: Buffer::from_vec(flat), validity };
        proof {
            assert forall|j: int| 0 <= j < n implies r@[j] == values@[j] by {
                assert(bits[j] == values@[j] is Some);
                if validity is None {
                    assert(bits[j]);
                }
                if values@[j] is Some {
                    assert(flat@[j] == values@[j]->0);
                }
            }
            assert(r@ =~= values@);
            if r.spec_validity() is Some {
                let k = choose|k: int| 0 <= k < bits.len() && !bits[k];
                assert(values@[k] is None);
            }
            if exists|i: int| 0 <= i < values@.len() && values@[i] is None {
                let k = choose|i: int| 0 <= i < values@.len() && values@[i] is None;
                assert(!bits[k]);
            }
        }
        r
    }
}

impl<T: NativeType> vstd::std_specs::convert::FromSpecImpl<Vec<Option<T>>> for PrimitiveArray<T> {
    open spec fn obeys_from_spec() -> bool {
        false
    }

    open spec fn from_spec(values: Vec<Option<T>>) -> Self {
        arbitrary()
    }
}

impl<T: NativeType> Clone for PrimitiveArray<T> {
    /// Returns another handle on the same array. The values and the bitmap
    /// are shared.
    fn clone(&self) -> (r: Self)
        ensures
            r == *self,
    {
        proof {
            use_type_invariant(self);
        }
        let validity = match &self.validity {
            Some(bitmap) => Some(bitmap.clone()),
            None => None,
        };
        PrimitiveArray { data_type: self.data_type.clone(), values: self.values.clone(), validity }
    }
}

impl<T: NativeType> PartialEq for PrimitiveArray<T> {
    /// Two arrays are equal where they are of the same logical type and
    /// hold the same values, null where the other is null. What lies in the
    /// slots of nulls does not count.
    fn eq(&self, other: &Self) -> (r: bool) {
        if *self.data_type() != *other.data_type() || self.len() != other.len() {
            return false;
        }
        let n = self.len();
        let mut i: usize = 0;
        while i < n
            invariant
                i <= n,
                n == self@.len(),
                n == other@.len(),
                forall|j: int| 0 <= j < i ==> self@[j] == other@[j],
            decreases n - i,
        {
            let same = match (self.get(i), other.get(i)) {
                (Some(a), Some(b)) => a.same(&b),
                (None, None) => true,
                _ => false,
            };
            if !same {
                return false;
            }
            i += 1;
        }
        assert(self@ =~= other@);
        true
    }
}

impl<T: NativeType> vstd::std_specs::cmp::PartialEqSpecImpl for PrimitiveArray<T> {
    open spec fn obeys_eq_spec() -> bool {
        true
    }

    open spec fn eq_spec(&self, other: &Self) -> bool {
        self.spec_data_type().same_as(&other.spec_data_type()) && self@ == other@
    }
}

impl<T: NativeType> SortKeys for PrimitiveArray<T> {
    /// The key of a position is the rank of its value.
    open spec fn keys(&self) -> Seq<Seq<int>> {
        Seq::new(self.spec_values().len(), |i: int| seq![self.spec_values()[i].rank()])
    }

    fn key_lt(&self, i: usize, j: usize) -> (r: bool) {
        proof {
            lemma_lex_single(self.spec_values()[i as int].rank(), self.spec_values()[j as int].rank());
        }
        let n = self.len();
        let a = self.value(i);
        let b = self.value(j);
        a.total_lt(&b)
    }
}

} // verus!
