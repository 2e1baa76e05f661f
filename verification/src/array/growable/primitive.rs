//! The builder of arrays of fixed-width values.

use crate::array::growable::utils::extend_validity;
use crate::array::growable::Growable;
use crate::array::{scalars_of, Array, IntoArray, Scalar};
use std::sync::Arc;
use crate::array::primitive::{masked, PrimitiveArray};
use crate::bitmap::{Bitmap, MutableBitmap};
use crate::buffer::Buffer;
use crate::datatypes::DataType;
use crate::types::NativeType;
use vstd::prelude::*;

verus! {

/// A builder of one array of fixed-width values out of ranges of source
/// arrays and of runs of nulls. It keeps a validity bitmap from the start
/// where it is asked to or where a source has one, and from the first run of
/// nulls on otherwise.
pub struct GrowablePrimitive<'a, T: NativeType> {
    data_type: DataType,
    arrays: Vec<&'a PrimitiveArray<T>>,
    use_validity: bool,
    validity: MutableBitmap,
    values: Vec<T>,
}

impl<'a, T: NativeType> View for GrowablePrimitive<'a, T> {
    type V = Seq<Option<T>>;

    /// The values of the output so far, `None` for each null.
    open spec fn view(&self) -> Seq<Option<T>> {
        masked(self.spec_values(), self.spec_validity())
    }
}

impl<'a, T: NativeType> GrowablePrimitive<'a, T> {
    /// The bitmap, where one is kept, has a bit for each value, and none is
    /// kept only where no source has one.
    #[verifier::type_invariant]
    spec fn consistent(&self) -> bool {
        &&& T::accepts(self.data_type)
        &&& self.use_validity ==> self.validity@.len() == self.values@.len()
        &&& !self.use_validity ==> self.validity@.len() == 0
        &&& !self.use_validity ==> forall|k: int|
            0 <= k < self.arrays@.len() ==> (#[trigger] self.arrays@[k]).spec_validity() is None
    }

    /// The source arrays.
    pub closed spec fn spec_arrays(&self) -> Seq<&'a PrimitiveArray<T>> {
        self.arrays@
    }

    /// The logical type of the output, which is that of the first source.
    pub closed spec fn spec_data_type(&self) -> DataType {
        self.data_type
    }

    /// The values of the output so far, those in the slots of nulls too.
    pub closed spec fn spec_values(&self) -> Seq<T> {
        self.values@
    }

    /// The validity bits of the output so far, where a bitmap is kept.
    pub closed spec fn spec_validity(&self) -> Option<Seq<bool>> {
        if self.use_validity {
            Some(self.validity@)
        } else {
            None
        }
    }

    /// Whether a validity bitmap is kept.
    pub closed spec fn spec_use_validity(&self) -> bool {
        self.use_validity
    }

    /// Creates a builder on the sources `arrays`, with room for `capacity`
    /// values. It keeps a validity bitmap where `use_validity` holds or
    /// where one of the sources has one.
    pub fn new(arrays: Vec<&'a PrimitiveArray<T>>, use_validity: bool, capacity: usize) -> (r: Self)
        requires
            arrays@.len() > 0,
        ensures
            r.spec_arrays() == arrays@,
            r.spec_data_type() == arrays@[0].spec_data_type(),
            r@.len() == 0,
            r.spec_values().len() == 0,
            r.spec_use_validity() == (use_validity || exists|k: int|
                0 <= k < arrays@.len() && (#[trigger] arrays@[k]).spec_validity() is Some),
    {
        let asked = use_validity;
        let mut use_validity = use_validity;
        let mut k: usize = 0;
        while k < arrays.len()
            invariant
                k <= arrays@.len(),
                use_validity == (asked || exists|j: int|
                    0 <= j < k && (#[trigger] arrays@[j]).spec_validity() is Some),
            decreases arrays@.len() - k,
        {
            if arrays[k].validity().is_some() {
                use_validity = true;
            }
            k += 1;
        }
        let data_type = arrays[0].data_type().clone();
        GrowablePrimitive {
            data_type,
            arrays,
            use_validity,
            values: Vec::with_capacity(capacity),
            validity: MutableBitmap::with_capacity(capacity),
        }
    }

    /// Takes the parts out and leaves a builder without sources.
    fn take(&mut self) -> (r: (DataType, Vec<&'a PrimitiveArray<T>>, bool, MutableBitmap, Vec<T>))
        ensures
            r.0 == old(self).spec_data_type(),
            r.1@ == old(self).spec_arrays(),
            r.2 == old(self).spec_use_validity(),
            r.4@ == old(self).spec_values(),
            old(self).spec_validity() == if r.2 {
                Some(r.3@)
            } else {
                None
            },
            T::accepts(r.0),
            r.2 ==> r.3@.len() == r.4@.len(),
            !r.2 ==> r.3@.len() == 0,
            !r.2 ==> forall|k: int|
                0 <= k < r.1@.len() ==> (#[trigger] r.1@[k]).spec_validity() is None,
    {
        proof {
            use_type_invariant(&*self);
        }
        let mut this = GrowablePrimitive {
            data_type: T::data_type(),
            arrays: Vec::new(),
            use_validity: true,
            values: Vec::new(),
            validity: MutableBitmap::new(),
        };
        core::mem::swap(self, &mut this);
        let GrowablePrimitive { data_type, arrays, use_validity, validity, values } = this;
        (data_type, arrays, use_validity, validity, values)
    }

    /// Hands out the output as an array and starts a new, empty one on the
    /// same sources. The array has a bitmap where the output holds a null.
    pub fn to(&mut self) -> (r: PrimitiveArray<T>)
        ensures
            r@ == old(self)@,
            r.spec_values() == old(self).spec_values(),
            r.spec_data_type() == old(self).spec_data_type(),
            r.spec_validity() is Some <==> exists|i: int|
                0 <= i < old(self)@.len() && old(self)@[i] is None,
            final(self)@.len() == 0,
            final(self).spec_values().len() == 0,
            final(self).spec_arrays() == old(self).spec_arrays(),
            final(self).spec_data_type() == old(self).spec_data_type(),
            final(self).spec_use_validity() == old(self).spec_use_validity(),
    {
        let (data_type, arrays, use_validity, validity, values) = self.take();
        *self = GrowablePrimitive {
            data_type: data_type.clone(),
            arrays,
            use_validity,
            validity: MutableBitmap::new(),
            values: Vec::new(),
        };
        finish(data_type, use_validity, validity, values)
    }

    /// Appends the `len` values of source `index` that start at `start`,
    /// with their validity.
    pub fn extend(&mut self, index: usize, start: usize, len: usize)
        requires
            index < old(self).spec_arrays().len(),
            start + len <= old(self).spec_arrays()[index as int]@.len(),
            old(self)@.len() + len <= usize::MAX,
        ensures
            final(self)@ == old(self)@ + old(self).spec_arrays()[index as int]@.subrange(
                start as int,
                start + len,
            ),
            final(self).spec_values() == old(self).spec_values() + old(
                self,
            ).spec_arrays()[index as int].spec_values().subrange(start as int, start + len),
            final(self).spec_arrays() == old(self).spec_arrays(),
            final(self).spec_data_type() == old(self).spec_data_type(),
            final(self).spec_use_validity() == old(self).spec_use_validity(),
    {
        let (data_type, arrays, use_validity, mut validity, mut values) = self.take();
        let array = arrays[index];
        let ghost held = values@;
        let ghost bits = validity@;
        let count = array.len();
        extend_validity(&mut validity, array.validity(), start, len, use_validity);
        let source = array.values().as_slice();
        let total = source.len();
        let mut i: usize = 0;
        while i < len
            invariant
                i <= len,
                start + len <= total,
                total == source@.len(),
                values@ == held + source@.subrange(start as int, start + i),
            decreases len - i,
        {
            values.push(source[start + i]);
            assert(values@ =~= held + source@.subrange(start as int, start + i + 1));
            i += 1;
        }
        *self = GrowablePrimitive { data_type, arrays, use_validity, validity, values };
        proof {
            let added = array@.subrange(start as int, start + len);
            assert forall|j: int| 0 <= j < held.len() + len implies self@[j] == (old(self)@
                + added)[j] by {
                if j >= held.len() {
                    assert(added[j - held.len()] == array@[start + j - held.len()]);
                }
            }
            assert(self@ =~= old(self)@ + added);
        }
    }

    /// Appends `additional` nulls: default values, and unset validity bits.
    /// A builder that kept no bitmap keeps one from here on.
    pub fn extend_validity(&mut self, additional: usize)
        requires
            old(self)@.len() + additional <= usize::MAX,
        ensures
            final(self)@ == old(self)@ + Seq::new(additional as nat, |i: int| None::<T>),
            final(self).spec_values() == old(self).spec_values() + Seq::new(
                additional as nat,
                |i: int| T::spec_zero(),
            ),
            final(self).spec_arrays() == old(self).spec_arrays(),
            final(self).spec_data_type() == old(self).spec_data_type(),
            final(self).spec_use_validity(),
    {
        let (data_type, arrays, use_validity, mut validity, mut values) = self.take();
        let ghost held = values@;
        if !use_validity {
            validity.extend_constant(values.len(), true);
        }
        let ghost bits = validity@;
        let mut i: usize = 0;
        while i < additional
            invariant
                i <= additional,
                values@ == held + Seq::new(i as nat, |i: int| T::spec_zero()),
            decreases additional - i,
        {
            values.push(T::zero());
            assert(values@ =~= held + Seq::new((i + 1) as nat, |i: int| T::spec_zero()));
            i += 1;
        }
        validity.extend_constant(additional, false);
        *self = GrowablePrimitive { data_type, arrays, use_validity: true, validity, values };
        proof {
            let added = Seq::new(additional as nat, |i: int| None::<T>);
            assert forall|j: int| 0 <= j < held.len() + additional implies self@[j] == (old(self)@
                + added)[j] by {
                if j < held.len() {
                    assert(validity@[j] == bits[j]);
                }
            }
            assert(self@ =~= old(self)@ + added);
        }
    }
}

/// Freezes the parts of a builder into an array.
fn finish<T: NativeType>(
    data_type: DataType,
    use_validity: bool,
    validity: MutableBitmap,
    values: Vec<T>,
) -> (r: PrimitiveArray<T>)
    requires
        T::accepts(data_type),
        use_validity ==> validity@.len() == values@.len(),
        !use_validity ==> validity@.len() == 0,
    ensures
        r@ == masked(
            values@,
            if use_validity {
                Some(validity@)
            } else {
                None
            },
        ),
        r.spec_values() == values@,
        r.spec_data_type() == data_type,
        r.spec_validity() is Some <==> exists|i: int| 0 <= i < r@.len() && r@[i] is None,
{
    let ghost bits = validity@;
    let frozen: Option<Bitmap> = validity.into();
    let r = PrimitiveArray::from_data(data_type, Buffer::from_vec(values), frozen);
    proof {
        let expected = masked(
            values@,
            if use_validity {
                Some(bits)
            } else {
                None
            },
        );
        assert forall|j: int| 0 <= j < values@.len() implies r@[j] == expected[j] by {
            if frozen is None && use_validity {
                assert(bits[j]);
            }
        }
        assert(r@ =~= expected);
        if r.spec_validity() is Some {
            let k = choose|k: int| 0 <= k < bits.len() && !bits[k];
            assert(r@[k] is None);
        }
    }
    r
}

impl<'a, T: NativeType> From<GrowablePrimitive<'a, T>> for PrimitiveArray<T> {
    /// Freezes the output of the builder into an array, which has a bitmap
    /// where the output holds a null.
    fn from(val: GrowablePrimitive<'a, T>) -> (r: Self)
        ensures
            r@ == val@,
            r.spec_values() == val.spec_values(),
            r.spec_data_type() == val.spec_data_type(),
            r.spec_validity() is Some <==> exists|i: int| 0 <= i < val@.len() && val@[i] is None,
    {
        proof {
            use_type_invariant(&val);
        }
        let GrowablePrimitive { data_type, arrays, use_validity, validity, values } = val;
        finish(data_type, use_validity, validity, values)
    }
}

impl<'a, T: NativeType> vstd::std_specs::convert::FromSpecImpl<GrowablePrimitive<'a, T>> for PrimitiveArray<T> {
    open spec fn obeys_from_spec() -> bool {
        false
    }

    open spec fn from_spec(val: GrowablePrimitive<'a, T>) -> Self {
        arbitrary()
    }
}

impl<'a, T: IntoArray> Growable for GrowablePrimitive<'a, T> {
    open spec fn spec_sources(&self) -> Seq<Seq<Scalar>> {
        Seq::new(self.spec_arrays().len(), |k: int| self.spec_arrays()[k].scalars())
    }

    open spec fn spec_output(&self) -> Seq<Scalar> {
        scalars_of(self.spec_values(), self.spec_validity(), |v: T| Scalar::Number(v.rank()))
    }

    fn extend(&mut self, index: usize, start: usize, len: usize) {
        let ghost source = self.spec_arrays()[index as int];
        let ghost before = self.spec_output();
        let ghost held = self@;
        proof {
            assert(self.spec_sources()[index as int] == source.scalars());
            assert(source.scalars().len() == source@.len());
            assert(before.len() == held.len());
        }
        GrowablePrimitive::extend(self, index, start, len);
        proof {
            let added = source.scalars().subrange(start as int, start + len);
            assert forall|j: int| 0 <= j < self.spec_output().len() implies self.spec_output()[j] == (
            before + added)[j] by {
                if j < held.len() {
                    assert(self@[j] == held[j]);
                } else {
                    assert(self@[j] == source@[start + j - held.len()]);
                }
            }
            assert(self.spec_output() =~= before + added);
            assert(self.spec_sources() =~= old(self).spec_sources());
        }
    }

    fn extend_validity(&mut self, additional: usize) {
        let ghost before = self.spec_output();
        let ghost held = self@;
        proof {
            assert(before.len() == held.len());
        }
        GrowablePrimitive::extend_validity(self, additional);
        proof {
            let added = Seq::new(additional as nat, |i: int| Scalar::Null);
            assert forall|j: int| 0 <= j < self.spec_output().len() implies self.spec_output()[j] == (
            before + added)[j] by {
                if j < held.len() {
                    assert(self@[j] == held[j]);
                } else {
                    assert(self@[j] is None);
                }
            }
            assert(self.spec_output() =~= before + added);
            assert(self.spec_sources() =~= old(self).spec_sources());
        }
    }

    fn as_arc(&mut self) -> (r: Arc<Array>) {
        let ghost before = self.spec_output();
        let ghost held = self@;
        let array = self.to();
        proof {
            assert(before.len() == held.len());
            assert forall|j: int| 0 <= j < before.len() implies array.scalars()[j] == before[j] by {
                assert(array@[j] == held[j]);
            }
            assert(array.scalars() =~= before);
            assert(self.spec_sources() =~= old(self).spec_sources());
        }
        Arc::new(T::into_array(array))
    }

    fn as_box(&mut self) -> (r: Box<Array>) {
        let ghost before = self.spec_output();
        let ghost held = self@;
        let array = self.to();
        proof {
            assert(before.len() == held.len());
            assert forall|j: int| 0 <= j < before.len() implies array.scalars()[j] == before[j] by {
                assert(array@[j] == held[j]);
            }
            assert(array.scalars() =~= before);
            assert(self.spec_sources() =~= old(self).spec_sources());
        }
        Box::new(T::into_array(array))
    }
}

/// A builder that is fed a range of one source and then a range of
/// another holds the values of the one range and behind them those of the
/// other, each valid where it is valid in its source.
pub proof fn lemma_concatenation<T>(
    a: Seq<Option<T>>,
    start_a: int,
    len_a: int,
    b: Seq<Option<T>>,
    start_b: int,
    len_b: int,
)
    requires
        0 <= start_a,
        0 <= len_a,
        start_a + len_a <= a.len(),
        0 <= start_b,
        0 <= len_b,
        start_b + len_b <= b.len(),
    ensures
        ({
            let out = Seq::<Option<T>>::empty() + a.subrange(start_a, start_a + len_a) + b.subrange(
                start_b,
                start_b + len_b,
            );
            &&& out.len() == len_a + len_b
            &&& forall|k: int| 0 <= k < len_a ==> #[trigger] out[k] == a[start_a + k]
            &&& forall|k: int| len_a <= k < len_a + len_b ==> #[trigger] out[k] == b[start_b + k - len_a]
        }),
{
}

} // verus!
