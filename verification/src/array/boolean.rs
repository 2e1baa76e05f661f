//! Arrays of booleans.

use crate::array::primitive::masked;
use crate::bitmap::{optional_bits, Bitmap, MutableBitmap};
use crate::compute::sort::common::SortKeys;
use crate::compute::sort::order::lemma_lex_single;
use crate::datatypes::DataType;
use vstd::prelude::*;

verus! {

/// An immutable array of booleans, each of which may be null. The values
/// are the bits of one bitmap, nulls included; an optional second bitmap
/// says which of them are valid.
#[derive(Debug)]
pub struct BooleanArray {
    data_type: DataType,
    values: Bitmap,
    validity: Option<Bitmap>,
}

impl View for BooleanArray {
    type V = Seq<Option<bool>>;

    open spec fn view(&self) -> Seq<Option<bool>> {
        masked(self.spec_values(), self.spec_validity())
    }
}

impl BooleanArray {
    /// The validity bitmap has a bit for each value, and the logical type
    /// is `Boolean`.
    #[verifier::type_invariant]
    spec fn consistent(&self) -> bool {
        &&& self.validity matches Some(bitmap) ==> bitmap@.len() == self.values@.len()
        &&& self.data_type is Boolean
    }

    /// The logical type of the array.
    pub closed spec fn spec_data_type(&self) -> DataType {
        self.data_type
    }

    /// The values of the array, those in the slots of nulls too.
    pub closed spec fn spec_values(&self) -> Seq<bool> {
        self.values@
    }

    /// The validity bits of the array, where it has a bitmap.
    pub closed spec fn spec_validity(&self) -> Option<Seq<bool>> {
        optional_bits(self.validity)
    }

    /// What the array holds at each position: the boolean, or a null.
    pub open spec fn scalars(&self) -> Seq<crate::array::Scalar> {
        crate::array::scalars_of(
            self.spec_values(),
            self.spec_validity(),
            |v: bool| crate::array::Scalar::Boolean(v),
        )
    }

    /// Creates an array of no value.
    pub fn new_empty() -> (r: Self)
        ensures
            r@.len() == 0,
            r.spec_data_type() == DataType::Boolean,
            r.spec_validity() is None,
    {
        BooleanArray { data_type: DataType::Boolean, values: Bitmap::new(), validity: None }
    }

    /// Creates an array of `length` nulls.
    pub fn new_null(length: usize) -> (r: Self)
        ensures
            r@ == Seq::new(length as nat, |i: int| None::<bool>),
            r.spec_data_type() == DataType::Boolean,
            r.spec_validity() == Some(Seq::new(length as nat, |i: int| false)),
            r.scalars() == Seq::new(length as nat, |i: int| crate::array::Scalar::Null),
    {
        let r = BooleanArray {
            data_type: DataType::Boolean,
            values: Bitmap::new_zeroed(length),
            validity: Some(Bitmap::new_zeroed(length)),
        };
        assert(r@ =~= Seq::new(length as nat, |i: int| None::<bool>));
        assert(r.scalars() =~= Seq::new(length as nat, |i: int| crate::array::Scalar::Null));
        r
    }

    /// Creates an array from its parts: the values and the validity bitmap.
    pub fn from_data(values: Bitmap, validity: Option<Bitmap>) -> (r: Self)
        requires
            validity matches Some(bitmap) ==> bitmap@.len() == values@.len(),
        ensures
            r.spec_data_type() == DataType::Boolean,
            r.spec_values() == values@,
            r.spec_validity() == optional_bits(validity),
    {
        BooleanArray { data_type: DataType::Boolean, values, validity }
    }

    /// Returns the number of values, nulls included.
    pub fn len(&self) -> (r: usize)
        ensures
            r == self@.len(),
            r == self.spec_values().len(),
            self.spec_validity() matches Some(bits) ==> bits.len() == r,
    {
        proof {
            use_type_invariant(self);
        }
        self.values.len()
    }

    /// Returns the logical type, which is `Boolean`.
    pub fn data_type(&self) -> (r: &DataType)
        ensures
            *r == self.spec_data_type(),
            *r == DataType::Boolean,
    {
        proof {
            use_type_invariant(self);
        }
        &self.data_type
    }

    /// Returns the validity bitmap, where the array has one.
    pub fn validity(&self) -> (r: &Option<Bitmap>)
        ensures
            self.spec_validity() == optional_bits(*r),
            *r matches Some(bitmap) ==> bitmap@.len() == self@.len(),
    {
        proof {
            use_type_invariant(self);
        }
        &self.validity
    }

    /// Returns the values, those in the slots of nulls too.
    pub fn values(&self) -> (r: &Bitmap)
        ensures
            r@ == self.spec_values(),
    {
        &self.values
    }

    /// Returns the value at `i`, whether it is valid or not.
    pub fn value(&self, i: usize) -> (r: bool)
        requires
            i < self@.len(),
        ensures
            r == self.spec_values()[i as int],
            self@[i as int] matches Some(v) ==> v == r,
    {
        self.values.get_bit(i)
    }

    /// Returns whether the value at `i` is valid.
    pub fn is_valid(&self, i: usize) -> (r: bool)
        requires
            i < self@.len(),
        ensures
            r == self@[i as int] is Some,
    {
        proof {
            use_type_invariant(self);
        }
        match &self.validity {
            Some(bitmap) => bitmap.get_bit(i),
            None => true,
        }
    }

    /// Returns the value at `i`, or `None` where it is null.
    pub fn get(&self, i: usize) -> (r: Option<bool>)
        requires
            i < self@.len(),
        ensures
            r == self@[i as int],
    {
        if self.is_valid(i) {
            Some(self.value(i))
        } else {
            None
        }
    }

    /// Returns the window of `length` values that starts at `offset`. The
    /// bitmaps are shared, not copied.
    pub fn slice(&self, offset: usize, length: usize) -> (r: Self)
        requires
            offset + length <= self@.len(),
        ensures
            r@ == self@.subrange(offset as int, offset + length),
            r.spec_data_type() == self.spec_data_type(),
            r.spec_values() == self.spec_values().subrange(offset as int, offset + length),
            r.spec_validity() == match self.spec_validity() {
                Some(bits) => Some(bits.subrange(offset as int, offset + length)),
                None => None,
            },
            r.scalars() == self.scalars().subrange(offset as int, offset + length),
            r.keys() == self.keys().subrange(offset as int, offset + length),
    {
        proof {
            use_type_invariant(self);
        }
        let validity = match &self.validity {
            Some(bitmap) => Some(bitmap.clone().slice(offset, length)),
            None => None,
        };
        let r = BooleanArray {
            data_type: DataType::Boolean,
            values: self.values.clone().slice(offset, length),
            validity,
        };
        assert(r@ =~= self@.subrange(offset as int, offset + length));
        assert(r.scalars() =~= self.scalars().subrange(offset as int, offset + length));
        assert(r.keys() =~= self.keys().subrange(offset as int, offset + length));
        r
    }

    /// Returns the values as a vector, `None` for each null.
    pub fn to_options(&self) -> (r: Vec<Option<bool>>)
        ensures
            r@ == self@,
    {
        let n = self.len();
        let mut out: Vec<Option<bool>> = Vec::with_capacity(n);
        let mut i: usize = 0;
        while i < n
            invariant
                i <= n,
                n == self@.len(),
                out@ == self@.subrange(0, i as int),
            decreases n - i,
        {
            out.push(self.get(i));
            assert(out@ =~= self@.subrange(0, i as int + 1));
            i += 1;
        }
        assert(out@ =~= self@);
        out
    }
}

impl From<Vec<Option<bool>>> for BooleanArray {
    /// Creates an array of the values of `values`, null where they are
    /// `None`. It has a validity bitmap where one of them is null.
    fn from(values: Vec<Option<bool>>) -> (r: Self)
        ensures
            r@ == values@,
            r.spec_data_type() == DataType::Boolean,
            r.spec_validity() is Some <==> exists|i: int| 0 <= i < values@.len() && values@[i] is None,
    {
        let n = values.len();
        let mut validity = MutableBitmap::with_capacity(n);
        let mut flat = MutableBitmap::with_capacity(n);
        let mut i: usize = 0;
        while i < n
            invariant
                i <= n,
                n == values@.len(),
                flat@.len() == i,
                validity@.len() == i,
                forall|j: int| 0 <= j < i ==> #[trigger] validity@[j] == values@[j] is Some,
                forall|j: int|
                    0 <= j < i && values@[j] is Some ==> #[trigger] flat@[j] == values@[j]->0,
            decreases n - i,
        {
            match values[i] {
                Some(v) => {
                    flat.push(v);
                    validity.push(true);
                },
                None => {
                    flat.push(false);
                    validity.push(false);
                },
            }
            i += 1;
        }
        let ghost bits = validity@;
        let ghost held = flat@;
        let validity: Option<Bitmap> = validity.into();
        let r = BooleanArray { data_type: DataType::Boolean, values: flat.into(), validity };
        proof {
            assert forall|j: int| 0 <= j < n implies r@[j] == values@[j] by {
                assert(bits[j] == values@[j] is Some);
                if validity is None {
                    assert(bits[j]);
                }
                if values@[j] is Some {
                    assert(held[j] == values@[j]->0);
                }
            }
            assert(r@ =~= values@);
            if r.spec_validity() is Some {
                let k = choose|k: int| 0 <= k < bits.len() && !bits[k];
                assert(values@[k] is None);
            }
            if exists|i: int| 0 <= i < values@.len() && values@[i] is None {
                let k = choose|i: int| 0 <= i < values@.len() && values@[i] is None;
                assert(!bits[k]);
            }
        }
        r
    }
}

impl vstd::std_specs::convert::FromSpecImpl<Vec<Option<bool>>> for BooleanArray {
    open spec fn obeys_from_spec() -> bool {
        false
    }

    open spec fn from_spec(values: Vec<Option<bool>>) -> Self {
        arbitrary()
    }
}

impl Clone for BooleanArray {
    /// Returns another handle on the same array. The bitmaps are shared.
    fn clone(&self) -> (r: Self)
        ensures
            r == *self,
    {
        proof {
            use_type_invariant(self);
        }
        let validity = match &self.validity {
            Some(bitmap) => Some(bitmap.clone()),
            None => None,
        };
        BooleanArray { data_type: self.data_type.clone(), values: self.values.clone(), validity }
    }
}

impl PartialEq for BooleanArray {
    /// Two arrays are equal where they hold the same values, null where
    /// the other is null. What lies in the slots of nulls does not count.
    fn eq(&self, other: &Self) -> (r: bool) {
        if self.len() != other.len() {
            return false;
        }
        let n = self.len();
        let mut i: usize = 0;
        while i < n
            invariant
                i <= n,
                n == self@.len(),
                n == other@.len(),
                forall|j: int| 0 <= j < i ==> self@[j] == other@[j],
            decreases n - i,
        {
            let same = match (self.get(i), other.get(i)) {
                (Some(a), Some(b)) => a == b,
                (None, None) => true,
                _ => false,
            };
            if !same {
                return false;
            }
            i += 1;
        }
        assert(self@ =~= other@);
        true
    }
}

impl vstd::std_specs::cmp::PartialEqSpecImpl for BooleanArray {
    open spec fn obeys_eq_spec() -> bool {
        true
    }

    open spec fn eq_spec(&self, other: &Self) -> bool {
        self@ == other@
    }
}

impl SortKeys for BooleanArray {
    /// The key of a position is 0 where its value is `false` and 1 where it
    /// is `true`.
    open spec fn keys(&self) -> Seq<Seq<int>> {
        Seq::new(
            self.spec_values().len(),
            |i: int|
                seq![if self.spec_values()[i] {
                    1int
                } else {
                    0int
                }],
        )
    }

    fn key_lt(&self, i: usize, j: usize) -> (r: bool) {
        proof {
            lemma_lex_single(
                if self.spec_values()[i as int] {
                    1int
                } else {
                    0int
                },
                if self.spec_values()[j as int] {
                    1int
                } else {
                    0int
                },
            );
        }
        let n = self.len();
        !self.value(i) && self.value(j)
    }
}

} // verus!
