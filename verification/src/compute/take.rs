//! The indexing kernel: a new array of the values of an array at given
//! positions.

use crate::array::binary::cuts;
use crate::array::growable::GrowablePrimitive;
use crate::array::{
    gather, Array, BinaryArray, BooleanArray, DictionaryArray, FixedSizeListArray, ListArray,
    NullArray, PrimitiveArray,
};
use crate::bitmap::{Bitmap, MutableBitmap};
use crate::buffer::{share, Buffer};
use crate::compute::sort::common::{index_positions, validity_bits};
use crate::compute::sort::order::as_positions;
use crate::types::{Index, NativeType};
use std::sync::Arc;
use vstd::prelude::*;

verus! {

/// Whether each of `positions` is a position of an array of `n` values.
pub open spec fn within(positions: Seq<usize>, n: nat) -> bool {
    forall|a: int| 0 <= a < positions.len() ==> (#[trigger] positions[a]) < n
}

/// The number of items of the lists at `positions`, where `offsets` cut
/// the items into lists.
pub open spec fn total_items(offsets: Seq<usize>, positions: Seq<usize>) -> int
    decreases positions.len(),
{
    if positions.len() == 0 {
        0
    } else {
        total_items(offsets, positions.drop_last()) + offsets[positions.last() + 1]
            - offsets[positions.last() as int]
    }
}

/// Whether the values of `values` at `positions` can be held in one array:
/// the items of the lists among them are no lists themselves, and no more
/// than a `usize` counts.
pub open spec fn gather_fits(values: Array, positions: Seq<usize>) -> bool {
    match values {
        Array::List(a) => total_items(a.spec_offsets(), positions) <= usize::MAX
            && a.spec_values().flat(),
        Array::FixedSizeList(a) => positions.len() * a.spec_size() <= usize::MAX
            && a.spec_values().flat(),
        _ => true,
    }
}

/// Whether `r` holds the values of `values` at `positions`: it is of the
/// same logical type, holds at each position what `values` holds at the
/// position given for it, and is valid there where `values` is, with a
/// value of the same rank.
pub open spec fn taken(r: Array, values: Array, positions: Seq<int>) -> bool {
    &&& r.spec_data_type() == values.spec_data_type()
    &&& r.spec_len() == positions.len()
    &&& r.scalars() == gather(values.scalars(), positions)
    &&& forall|a: int|
        0 <= a < positions.len() ==> #[trigger] validity_bits(r.spec_validity(), r.spec_len())[a]
            == validity_bits(values.spec_validity(), values.spec_len())[positions[a]]
    &&& forall|a: int|
        0 <= a < positions.len() && validity_bits(r.spec_validity(), r.spec_len())[a]
            ==> #[trigger] r.spec_ranks()[a] == values.spec_ranks()[positions[a]]
}

/// Returns the values of `values` at `positions`, by a builder that is fed
/// one value at a time.
fn take_primitive<T: NativeType>(values: &PrimitiveArray<T>, positions: &Vec<usize>) -> (r:
    PrimitiveArray<T>)
    requires
        within(positions@, values@.len()),
    ensures
        r.spec_data_type() == values.spec_data_type(),
        r@ == Seq::new(positions@.len(), |a: int| values@[positions@[a] as int]),
        r.spec_values() == Seq::new(
            positions@.len(),
            |a: int| values.spec_values()[positions@[a] as int],
        ),
{
    let n = positions.len();
    let mut sources: Vec<&PrimitiveArray<T>> = Vec::new();
    sources.push(values);
    let mut growable = GrowablePrimitive::new(sources, false, n);
    let mut a: usize = 0;
    while a < n
        invariant
            a <= n,
            n == positions@.len(),
            within(positions@, values@.len()),
            growable.spec_arrays() == seq![values],
            growable.spec_data_type() == values.spec_data_type(),
            growable@ == Seq::new(a as nat, |t: int| values@[positions@[t] as int]),
            growable.spec_values() == Seq::new(
                a as nat,
                |t: int| values.spec_values()[positions@[t] as int],
            ),
        decreases n - a,
    {
        let ghost before = growable@;
        let ghost held = growable.spec_values();
        let count = values.len();
        growable.extend(0, positions[a], 1);
        proof {
            assert(growable@ =~= Seq::new((a + 1) as nat, |t: int| values@[positions@[t] as int]));
            assert(growable.spec_values() =~= Seq::new(
                (a + 1) as nat,
                |t: int| values.spec_values()[positions@[t] as int],
            ));
        }
        a += 1;
    }
    growable.into()
}

/// An array of fixed-width values that holds the values of another at
/// `positions` holds the same scalars there, with the same validity and
/// the same ranks.
proof fn lemma_taken_primitive<T: NativeType>(
    r: PrimitiveArray<T>,
    values: PrimitiveArray<T>,
    positions: Seq<usize>,
)
    requires
        within(positions, values@.len()),
        r@ == Seq::new(positions.len(), |a: int| values@[positions[a] as int]),
        r.spec_values() == Seq::new(
            positions.len(),
            |a: int| values.spec_values()[positions[a] as int],
        ),
    ensures
        r.scalars() == gather(values.scalars(), as_positions(positions)),
        forall|a: int|
            0 <= a < positions.len() ==> #[trigger] validity_bits(r.spec_validity(), r@.len())[a]
                == validity_bits(values.spec_validity(), values@.len())[positions[a] as int],
{
    assert(r@.len() == positions.len());
    assert(r.scalars().len() == positions.len());
    assert forall|a: int| 0 <= a < positions.len() implies #[trigger] validity_bits(
        r.spec_validity(),
        r@.len(),
    )[a] == validity_bits(values.spec_validity(), values@.len())[positions[a] as int] by {
        assert(r@[a] == values@[positions[a] as int]);
    }
    assert forall|a: int| 0 <= a < positions.len() implies r.scalars()[a] == gather(
        values.scalars(),
        as_positions(positions),
    )[a] by {
        assert(r@[a] == values@[positions[a] as int]);
    }
    assert(r.scalars() =~= gather(values.scalars(), as_positions(positions)));
}

/// An array of booleans that holds the values of another at `positions`
/// holds the same scalars there, with the same validity.
proof fn lemma_taken_boolean(r: BooleanArray, values: BooleanArray, positions: Seq<usize>)
    requires
        within(positions, values@.len()),
        r@ == Seq::new(positions.len(), |a: int| values@[positions[a] as int]),
    ensures
        r.scalars() == gather(values.scalars(), as_positions(positions)),
        forall|a: int|
            0 <= a < positions.len() ==> #[trigger] validity_bits(r.spec_validity(), r@.len())[a]
                == validity_bits(values.spec_validity(), values@.len())[positions[a] as int],
{
    assert(r@.len() == positions.len());
    assert(r.scalars().len() == positions.len());
    assert forall|a: int| 0 <= a < positions.len() implies #[trigger] validity_bits(
        r.spec_validity(),
        r@.len(),
    )[a] == validity_bits(values.spec_validity(), values@.len())[positions[a] as int] by {
        assert(r@[a] == values@[positions[a] as int]);
    }
    assert forall|a: int| 0 <= a < positions.len() implies r.scalars()[a] == gather(
        values.scalars(),
        as_positions(positions),
    )[a] by {
        assert(r@[a] == values@[positions[a] as int]);
    }
    assert(r.scalars() =~= gather(values.scalars(), as_positions(positions)));
}

/// An array of strings that holds the strings of another at `positions`
/// holds the same scalars there, with the same validity.
proof fn lemma_taken_binary(r: BinaryArray, values: BinaryArray, positions: Seq<usize>)
    requires
        within(positions, values@.len()),
        r@ == Seq::new(positions.len(), |a: int| values@[positions[a] as int]),
    ensures
        r.scalars() == gather(values.scalars(), as_positions(positions)),
        forall|a: int|
            0 <= a < positions.len() ==> #[trigger] validity_bits(r.spec_validity(), r@.len())[a]
                == validity_bits(values.spec_validity(), values@.len())[positions[a] as int],
{
    assert(r@.len() == positions.len());
    assert(r.scalars().len() == positions.len());
    assert forall|a: int| 0 <= a < positions.len() implies #[trigger] validity_bits(
        r.spec_validity(),
        r@.len(),
    )[a] == validity_bits(values.spec_validity(), values@.len())[positions[a] as int] by {
        assert(r@[a] == values@[positions[a] as int]);
    }
    assert forall|a: int| 0 <= a < positions.len() implies r.scalars()[a] == gather(
        values.scalars(),
        as_positions(positions),
    )[a] by {
        assert(r@[a] == values@[positions[a] as int]);
    }
    assert(r.scalars() =~= gather(values.scalars(), as_positions(positions)));
}

/// Returns the values of `values` at `positions`.
fn take_boolean(values: &BooleanArray, positions: &Vec<usize>) -> (r: BooleanArray)
    requires
        within(positions@, values@.len()),
    ensures
        r.spec_data_type() == values.spec_data_type(),
        r@ == Seq::new(positions@.len(), |a: int| values@[positions@[a] as int]),
{
    let n = positions.len();
    let data_type = values.data_type();
    let mut out: Vec<Option<bool>> = Vec::with_capacity(n);
    let mut a: usize = 0;
    while a < n
        invariant
            a <= n,
            n == positions@.len(),
            within(positions@, values@.len()),
            out@ == Seq::new(a as nat, |t: int| values@[positions@[t] as int]),
        decreases n - a,
    {
        out.push(values.get(positions[a]));
        assert(out@ =~= Seq::new((a + 1) as nat, |t: int| values@[positions@[t] as int]));
        a += 1;
    }
    BooleanArray::from(out)
}

/// Returns the strings of `values` at `positions`.
fn take_binary(values: &BinaryArray, positions: &Vec<usize>) -> (r: BinaryArray)
    requires
        within(positions@, values@.len()),
    ensures
        r.spec_data_type() == values.spec_data_type(),
        r@ == Seq::new(positions@.len(), |a: int| values@[positions@[a] as int]),
{
    let n = positions.len();
    let mut out: Vec<Option<&[u8]>> = Vec::with_capacity(n);
    let mut a: usize = 0;
    while a < n
        invariant
            a <= n,
            n == positions@.len(),
            within(positions@, values@.len()),
            out@.len() == a,
            forall|t: int|
                0 <= t < a ==> values@[positions@[t] as int] == match #[trigger] out@[t] {
                    Some(bytes) => Some(bytes@),
                    None => None,
                },
        decreases n - a,
    {
        if values.is_valid(positions[a]) {
            out.push(Some(values.value(positions[a])));
        } else {
            out.push(None);
        }
        a += 1;
    }
    let r = BinaryArray::from_bytes(values.data_type().clone(), &out);
    assert(r@ =~= Seq::new(positions@.len(), |a: int| values@[positions@[a] as int]));
    r
}

/// Returns the validity of `length` values at `positions`: a bitmap of
/// their validity bits where one of them is null, and none where all are
/// valid.
fn take_validity(validity: &Option<Bitmap>, length: usize, positions: &Vec<usize>) -> (r: Option<
    Bitmap,
>)
    requires
        validity matches Some(bitmap) ==> bitmap@.len() == length,
        within(positions@, length as nat),
    ensures
        r matches Some(bitmap) ==> bitmap@.len() == positions@.len(),
        forall|a: int|
            0 <= a < positions@.len() ==> #[trigger] validity_bits(
                crate::bitmap::optional_bits(r),
                positions@.len(),
            )[a] == validity_bits(
                crate::bitmap::optional_bits(*validity),
                length as nat,
            )[positions@[a] as int],
{
    match validity {
        None => None,
        Some(bitmap) => {
            let n = positions.len();
            let mut bits = MutableBitmap::with_capacity(n);
            let mut a: usize = 0;
            while a < n
                invariant
                    a <= n,
                    n == positions@.len(),
                    bitmap@.len() == length,
                    within(positions@, length as nat),
                    bits@.len() == a,
                    forall|t: int| 0 <= t < a ==> #[trigger] bits@[t] == bitmap@[positions@[t] as int],
                decreases n - a,
            {
                bits.push(bitmap.get_bit(positions[a]));
                a += 1;
            }
            let ghost held = bits@;
            let r: Option<Bitmap> = bits.into();
            proof {
                assert forall|a: int| 0 <= a < positions@.len() implies #[trigger] validity_bits(
                    crate::bitmap::optional_bits(r),
                    positions@.len(),
                )[a] == bitmap@[positions@[a] as int] by {
                    if r is None {
                        assert(held[a]);
                    }
                }
            }
            r
        },
    }
}

/// Returns the lists of `values` at `positions`, with the items of each
/// in a new child array.
fn take_fixed_size_list(values: &FixedSizeListArray, positions: &Vec<usize>) -> (r:
    FixedSizeListArray)
    requires
        within(positions@, values.spec_len()),
        positions@.len() * values.spec_size() <= usize::MAX,
        values.spec_values().flat(),
    ensures
        taken(Array::FixedSizeList(r), Array::FixedSizeList(*values), as_positions(positions@)),
    decreases 2nat, 0nat,
{
    let n = positions.len();
    let size = values.size();
    let count = values.len();
    let child = values.values();
    let total = child.len();
    let mut items: Vec<usize> = Vec::with_capacity(n * size);
    let mut a: usize = 0;
    while a < n
        invariant
            a <= n,
            n == positions@.len(),
            size > 0,
            n * size <= usize::MAX,
            total == count * size,
            within(positions@, count as nat),
            items@.len() == a * size,
            forall|q: int|
                0 <= q < a * size ==> #[trigger] items@[q] == positions@[q / (size as int)] * size
                    + q % (size as int),
        decreases n - a,
    {
        let start = positions[a];
        proof {
            assert(start * size + size <= count * size) by (nonlinear_arith)
                requires
                    start < count,
                    size > 0,
            ;
            assert((a + 1) * size <= n * size) by (nonlinear_arith)
                requires
                    a < n,
                    size > 0,
            ;
            assert((a + 1) * size == a * size + size) by (nonlinear_arith);
        }
        let mut t: usize = 0;
        while t < size
            invariant
                t <= size,
                a < n,
                size > 0,
                start == positions@[a as int],
                start * size + size <= usize::MAX,
                a * size + size <= usize::MAX,
                items@.len() == a * size + t,
                forall|q: int|
                    0 <= q < a * size + t ==> #[trigger] items@[q] == positions@[q / (
                    size as int)] * size + q % (size as int),
            decreases size - t,
        {
            items.push(start * size + t);
            proof {
                let q = a * size + t;
                vstd::arithmetic::div_mod::lemma_fundamental_div_mod_converse(
                    q as int,
                    size as int,
                    a as int,
                    t as int,
                );
            }
            t += 1;
        }
        a += 1;
    }
    proof {
        assert forall|q: int| 0 <= q < items@.len() implies (#[trigger] items@[q]) < total by {
            let b = q / (size as int);
            let u = q % (size as int);
            vstd::arithmetic::div_mod::lemma_fundamental_div_mod(q, size as int);
            assert(0 <= b < n) by (nonlinear_arith)
                requires
                    0 <= q < n * size,
                    size > 0,
                    q == size * b + u,
                    0 <= u < size,
            ;
            let p = positions@[b];
            assert(p * size + u < count * size) by (nonlinear_arith)
                requires
                    p < count,
                    0 <= u < size,
            ;
        }
    }
    let taken_items = take_positions(child, &items);
    let validity = take_validity(values.validity(), count, positions);
    proof {
        crate::array::fixed_size_list::lemma_whole(n as int, size as int);
    }
    let r = FixedSizeListArray::from_data(values.data_type().clone(), Arc::new(taken_items), validity);
    proof {
        let before = Array::FixedSizeList(*values);
        let after = Array::FixedSizeList(r);
        let places = as_positions(positions@);
        assert forall|a: int| 0 <= a < n implies after.scalars()[a] == gather(
            before.scalars(),
            places,
        )[a] by {
            let p = positions@[a] as int;
            assert(validity_bits(r.spec_validity(), n as nat)[a] == validity_bits(
                values.spec_validity(),
                count as nat,
            )[p]);
            let x = taken_items.scalars().subrange(a * size, (a + 1) * size);
            let y = child.scalars().subrange(p * size, (p + 1) * size);
            assert((a + 1) * size == a * size + size) by (nonlinear_arith);
            assert((p + 1) * size == p * size + size) by (nonlinear_arith);
            assert((a + 1) * size <= n * size) by (nonlinear_arith)
                requires
                    a < n,
                    size > 0,
            ;
            assert(p * size + size <= count * size) by (nonlinear_arith)
                requires
                    p < count,
                    size > 0,
            ;
            assert(0 <= a * size) by (nonlinear_arith)
                requires
                    0 <= a,
                    size > 0,
            ;
            assert(0 <= p * size) by (nonlinear_arith)
                requires
                    0 <= p,
                    size > 0,
            ;
            assert forall|u: int| 0 <= u < size implies x[u] == y[u] by {
                let q = a * size + u;
                vstd::arithmetic::div_mod::lemma_fundamental_div_mod_converse(
                    q,
                    size as int,
                    a,
                    u,
                );
                assert(items@[q] == p * size + u);
                assert(as_positions(items@)[q] == p * size + u);
            }
            assert(x =~= y);
        }
        assert(after.scalars() =~= gather(before.scalars(), places));
        assert forall|a: int|
            0 <= a < places.len() && validity_bits(
                after.spec_validity(),
                after.spec_len(),
            )[a] implies #[trigger] after.spec_ranks()[a] == before.spec_ranks()[places[a]] by {
            assert(places[a] == positions@[a]);
        }
    }
    r
}

/// The items of the lists at the first `a + 1` of `positions` are those of
/// the lists at the first `a` and those of the list at `positions[a]`.
proof fn lemma_total_step(offsets: Seq<usize>, positions: Seq<usize>, a: int)
    requires
        0 <= a < positions.len(),
    ensures
        total_items(offsets, positions.take(a + 1)) == total_items(offsets, positions.take(a))
            + offsets[positions[a] + 1] - offsets[positions[a] as int],
{
    assert(positions.take(a + 1).drop_last() =~= positions.take(a));
}

/// The lists at the first `a` of `positions` have no more items than those
/// at all of them.
proof fn lemma_total_monotone(offsets: Seq<usize>, positions: Seq<usize>, a: int)
    requires
        cuts(offsets, offsets.last() as nat),
        within(positions, (offsets.len() - 1) as nat),
        0 <= a <= positions.len(),
    ensures
        0 <= total_items(offsets, positions.take(a)) <= total_items(offsets, positions),
    decreases positions.len() - a,
{
    if a == positions.len() {
        assert(positions.take(a) =~= positions);
        lemma_total_nonnegative(offsets, positions);
    } else {
        lemma_total_monotone(offsets, positions, a + 1);
        lemma_total_step(offsets, positions, a);
        assert(offsets[positions[a] as int] <= offsets[positions[a] + 1]);
        lemma_total_nonnegative(offsets, positions.take(a));
    }
}

/// Lists have no fewer than no items.
proof fn lemma_total_nonnegative(offsets: Seq<usize>, positions: Seq<usize>)
    requires
        cuts(offsets, offsets.last() as nat),
        within(positions, (offsets.len() - 1) as nat),
    ensures
        0 <= total_items(offsets, positions),
    decreases positions.len(),
{
    if positions.len() > 0 {
        assert(positions.last() == positions[positions.len() - 1]);
        lemma_total_nonnegative(offsets, positions.drop_last());
        assert(offsets[positions.last() as int] <= offsets[positions.last() + 1]);
    }
}

/// Without the list at `positions[i]` the lists have its items fewer.
proof fn lemma_total_remove(offsets: Seq<usize>, positions: Seq<usize>, i: int)
    requires
        0 <= i < positions.len(),
    ensures
        total_items(offsets, positions.remove(i)) == total_items(offsets, positions) - (
        offsets[positions[i] + 1] - offsets[positions[i] as int]),
    decreases positions.len(),
{
    if i == positions.len() - 1 {
        assert(positions.remove(i) =~= positions.drop_last());
    } else {
        assert(positions.remove(i).drop_last() =~= positions.drop_last().remove(i));
        assert(positions.remove(i).last() == positions.last());
        lemma_total_remove(offsets, positions.drop_last(), i);
    }
}

/// Lists at different positions below `n` have no more items than the
/// first `n` lists together.
pub proof fn lemma_total_distinct(offsets: Seq<usize>, positions: Seq<usize>, n: int)
    requires
        cuts(offsets, offsets.last() as nat),
        0 <= n < offsets.len(),
        within(positions, n as nat),
        positions.no_duplicates(),
    ensures
        total_items(offsets, positions) <= offsets[n] - offsets[0],
    decreases n,
{
    if positions.len() == 0 {
        assert(offsets[0] <= offsets[n]);
    } else if n == 0 {
        assert(positions[0] < 0);
    } else {
        assert(offsets[n - 1] <= offsets[n]);
        if exists|i: int| 0 <= i < positions.len() && positions[i] == n - 1 {
            let i = choose|i: int| 0 <= i < positions.len() && positions[i] == n - 1;
            let rest = positions.remove(i);
            lemma_total_remove(offsets, positions, i);
            assert forall|a: int| 0 <= a < rest.len() implies (#[trigger] rest[a]) < n - 1 by {
                if a < i {
                    assert(rest[a] == positions[a]);
                } else {
                    assert(rest[a] == positions[a + 1]);
                }
            }
            assert forall|a: int, b: int| 0 <= a < rest.len() && 0 <= b < rest.len() && a
                != b implies rest[a] != rest[b] by {
                let x = if a < i {
                    a
                } else {
                    a + 1
                };
                let y = if b < i {
                    b
                } else {
                    b + 1
                };
                assert(rest[a] == positions[x]);
                assert(rest[b] == positions[y]);
            }
            lemma_total_distinct(offsets, rest, n - 1);
        } else {
            assert forall|a: int| 0 <= a < positions.len() implies (#[trigger] positions[a]) < n
                - 1 by {
                assert(positions[a] != n - 1);
            }
            lemma_total_distinct(offsets, positions, n - 1);
        }
    }
}

/// Returns the lists of `values` at `positions`, with the items of each in
/// a new child array.
fn take_list(values: &ListArray, positions: &Vec<usize>) -> (r: ListArray)
    requires
        within(positions@, values.spec_len()),
        total_items(values.spec_offsets(), positions@) <= usize::MAX,
        values.spec_values().flat(),
    ensures
        taken(Array::List(r), Array::List(*values), as_positions(positions@)),
    decreases 2nat, 0nat,
{
    let n = positions.len();
    let count = values.len();
    let child = values.values();
    let total = child.len();
    let ghost marks = values.spec_offsets();
    let mut offsets: Vec<usize> = Vec::with_capacity(n);
    let mut items: Vec<usize> = Vec::new();
    offsets.push(0);
    let cut = values.offsets();
    proof {
        assert(positions@.take(0) =~= Seq::<usize>::empty());
    }
    let mut a: usize = 0;
    while a < n
        invariant
            a <= n,
            n == positions@.len(),
            marks == values.spec_offsets(),
            marks.len() == count + 1,
            cuts(marks, marks.last() as nat),
            marks.last() <= total,
            total == values.spec_values().spec_len(),
            within(positions@, count as nat),
            total_items(marks, positions@) <= usize::MAX,
            offsets@.len() == a + 1,
            offsets@[0] == 0,
            offsets@[a as int] == items@.len(),
            items@.len() == total_items(marks, positions@.take(a as int)),
            forall|i: int, j: int| 0 <= i <= j <= a ==> #[trigger] offsets@[i] <= #[trigger] offsets@[j],
            forall|b: int|
                0 <= b < a ==> #[trigger] offsets@[b + 1] - offsets@[b] == marks[positions@[b] + 1]
                    - marks[positions@[b] as int],
            forall|b: int, q: int|
                0 <= b < a && offsets@[b] <= q < offsets@[b + 1] ==> #[trigger] items@[q] == marks[(
                #[trigger] positions@[b]) as int] + q - offsets@[b],
            forall|q: int| 0 <= q < items@.len() ==> (#[trigger] items@[q]) < total,
        decreases n - a,
    {
        let (start, end) = values.bounds(positions[a]);
        let ghost held = items@;
        let ghost cut = offsets@;
        proof {
            lemma_total_step(marks, positions@, a as int);
            lemma_total_monotone(marks, positions@, a + 1);
        }
        let mut q: usize = start;
        while q < end
            invariant
                start <= q <= end <= total,
                items@.len() == held.len() + (q - start),
                held.len() + (end - start) <= usize::MAX,
                forall|t: int| 0 <= t < held.len() ==> items@[t] == held[t],
                forall|t: int| held.len() <= t < items@.len() ==> #[trigger] items@[t] == start + t
                    - held.len(),
            decreases end - q,
        {
            items.push(q);
            q += 1;
        }
        offsets.push(items.len());
        proof {
            assert forall|i: int, j: int| 0 <= i <= j <= a + 1 implies #[trigger] offsets@[i]
                <= #[trigger] offsets@[j] by {
                if j <= a {
                    assert(cut[i] <= cut[j]);
                } else if i <= a {
                    assert(cut[i] <= cut[a as int]);
                }
            }
            assert forall|b: int| 0 <= b < a + 1 implies #[trigger] offsets@[b + 1] - offsets@[b]
                == marks[positions@[b] + 1] - marks[positions@[b] as int] by {
                if b < a {
                    assert(cut[b + 1] - cut[b] == marks[positions@[b] + 1] - marks[positions@[b] as int]);
                }
            }
            assert forall|b: int, t: int|
                0 <= b < a + 1 && offsets@[b] <= t < offsets@[b + 1] implies #[trigger] items@[t]
                == marks[(#[trigger] positions@[b]) as int] + t - offsets@[b] by {
                if b < a {
                    assert(cut[b + 1] <= cut[a as int]);
                    assert(held[t] == marks[positions@[b] as int] + t - cut[b]);
                }
            }
            assert forall|t: int| 0 <= t < items@.len() implies (#[trigger] items@[t]) < total by {
                if t < held.len() {
                    assert(held[t] < total);
                }
            }
        }
        a += 1;
    }
    proof {
        assert(positions@.take(n as int) =~= positions@);
    }
    let taken_items = take_positions(child, &items);
    let validity = take_validity(values.validity(), count, positions);
    let ghost cut = offsets@;
    let r = ListArray::from_data(
        values.data_type().clone(),
        Buffer::from_vec(offsets),
        Arc::new(taken_items),
        validity,
    );
    proof {
        let before = Array::List(*values);
        let after = Array::List(r);
        let places = as_positions(positions@);
        assert forall|a: int| 0 <= a < n implies after.scalars()[a] == gather(
            before.scalars(),
            places,
        )[a] by {
            let p = positions@[a] as int;
            assert(validity_bits(r.spec_validity(), n as nat)[a] == validity_bits(
                values.spec_validity(),
                count as nat,
            )[p]);
            let x = taken_items.scalars().subrange(cut[a] as int, cut[a + 1] as int);
            let y = child.scalars().subrange(marks[p] as int, marks[p + 1] as int);
            assert(cut[a + 1] - cut[a] == marks[p + 1] - marks[p]);
            assert(cut[a] <= cut[a + 1]);
            assert(cut[a + 1] <= cut[n as int]);
            assert(marks[p] <= marks[p + 1]);
            assert(marks[p + 1] <= marks[marks.len() - 1]);
            assert forall|u: int| 0 <= u < x.len() implies x[u] == y[u] by {
                let q = cut[a] + u;
                assert(items@[q] == marks[positions@[a] as int] + q - cut[a]);
                assert(as_positions(items@)[q] == marks[p] + u);
            }
            assert(x =~= y);
        }
        assert(after.scalars() =~= gather(before.scalars(), places));
        assert forall|a: int|
            0 <= a < places.len() && validity_bits(
                after.spec_validity(),
                after.spec_len(),
            )[a] implies #[trigger] after.spec_ranks()[a] == before.spec_ranks()[places[a]] by {
            assert(places[a] == positions@[a]);
        }
    }
    r
}

/// Returns the values of `values` at `positions`, in a new array of the
/// same logical type. Lists are taken with their items, which are no lists
/// themselves.
pub fn take_positions(values: &Array, positions: &Vec<usize>) -> (r: Array)
    requires
        within(positions@, values.spec_len()),
        gather_fits(*values, positions@),
    ensures
        taken(r, *values, as_positions(positions@)),
    decreases values.level(), 1nat,
{
    let ghost places = as_positions(positions@);
    match values {
        Array::Null(a) => {
            let r = Array::Null(NullArray::new_null(positions.len()));
            let data_type = a.data_type();
            assert(r.scalars() =~= gather(values.scalars(), places));
            r
        },
        Array::Boolean(a) => {
            let r = take_boolean(a, positions);
            proof {
                lemma_taken_boolean(r, *a, positions@);
            }
            Array::Boolean(r)
        },
        Array::Int8(a) => {
            let r = take_primitive(a, positions);
            proof {
                lemma_taken_primitive(r, *a, positions@);
            }
            Array::Int8(r)
        },
        Array::Int16(a) => {
            let r = take_primitive(a, positions);
            proof {
                lemma_taken_primitive(r, *a, positions@);
            }
            Array::Int16(r)
        },
        Array::Int32(a) => {
            let r = take_primitive(a, positions);
            proof {
                lemma_taken_primitive(r, *a, positions@);
            }
            Array::Int32(r)
        },
        Array::Int64(a) => {
            let r = take_primitive(a, positions);
            proof {
                lemma_taken_primitive(r, *a, positions@);
            }
            Array::Int64(r)
        },
        Array::UInt8(a) => {
            let r = take_primitive(a, positions);
            proof {
                lemma_taken_primitive(r, *a, positions@);
            }
            Array::UInt8(r)
        },
        Array::UInt16(a) => {
            let r = take_primitive(a, positions);
            proof {
                lemma_taken_primitive(r, *a, positions@);
            }
            Array::UInt16(r)
        },
        Array::UInt32(a) => {
            let r = take_primitive(a, positions);
            proof {
                lemma_taken_primitive(r, *a, positions@);
            }
            Array::UInt32(r)
        },
        Array::UInt64(a) => {
            let r = take_primitive(a, positions);
            proof {
                lemma_taken_primitive(r, *a, positions@);
            }
            Array::UInt64(r)
        },
        Array::Float32(a) => {
            let r = take_primitive(a, positions);
            proof {
                lemma_taken_primitive(r, *a, positions@);
            }
            Array::Float32(r)
        },
        Array::Float64(a) => {
            let r = take_primitive(a, positions);
            proof {
                lemma_taken_primitive(r, *a, positions@);
            }
            Array::Float64(r)
        },
        Array::DaysMs(a) => {
            let r = take_primitive(a, positions);
            proof {
                lemma_taken_primitive(r, *a, positions@);
            }
            Array::DaysMs(r)
        },
        Array::Binary(a) => {
            let r = take_binary(a, positions);
            proof {
                lemma_taken_binary(r, *a, positions@);
            }
            Array::Binary(r)
        },
        Array::FixedSizeList(a) => Array::FixedSizeList(take_fixed_size_list(a, positions)),
        Array::List(a) => Array::List(take_list(a, positions)),
        Array::Dictionary(a) => {
            let count = a.len();
            let data_type = a.data_type();
            let validity = a.validity();
            let flat = a.keys().is_flat();
            let keys = take_positions(a.keys(), positions);
            let r = DictionaryArray::from_data(keys, share(a.values()));
            proof {
                let after = Array::Dictionary(r);
                assert forall|t: int| 0 <= t < places.len() implies after.scalars()[t] == gather(
                    values.scalars(),
                    places,
                )[t] by {
                    let p = places[t];
                    assert(validity_bits(keys.spec_validity(), keys.spec_len())[t] == validity_bits(
                        a.spec_keys().spec_validity(),
                        a.spec_keys().spec_len(),
                    )[p]);
                    if validity_bits(keys.spec_validity(), keys.spec_len())[t] {
                        assert(keys.spec_ranks()[t] == a.spec_keys().spec_ranks()[p]);
                    }
                }
                assert(after.scalars() =~= gather(values.scalars(), places));
            }
            Array::Dictionary(r)
        },
    }
}

/// The positions that the indices `values` stand for, as positions of an
/// array.
pub open spec fn index_places<I: Index>(values: Seq<I>) -> Seq<usize> {
    values.map_values(|v: I| v.spec_position() as usize)
}

/// Returns the values of `values` at the positions that `indices` holds,
/// none of which is null, in a new array of the same logical type. Lists
/// are taken with their items, which are no lists themselves.
pub fn take<I: Index>(values: &Array, indices: &PrimitiveArray<I>) -> (r: Array)
    requires
        indices.spec_validity() is None,
        forall|a: int|
            0 <= a < indices.spec_values().len() ==> 0 <= (
            #[trigger] indices.spec_values()[a]).spec_position() < values.spec_len(),
        gather_fits(*values, index_places(indices.spec_values())),
    ensures
        taken(r, *values, index_positions(indices.spec_values())),
{
    let positions = to_positions(values.len(), indices);
    proof {
        let places = index_places(indices.spec_values());
        assert(as_positions(positions@).len() == positions@.len());
        assert forall|a: int| 0 <= a < places.len() implies places[a] == positions@[a] by {
            assert(as_positions(positions@)[a] == positions@[a] as int);
            assert(index_positions(indices.spec_values())[a]
                == indices.spec_values()[a].spec_position());
        }
        assert(places =~= positions@);
    }
    take_positions(values, &positions)
}

/// Returns the positions that `indices` holds, each of which is a position
/// of an array of `length` values.
pub fn to_positions<I: Index>(length: usize, indices: &PrimitiveArray<I>) -> (r: Vec<usize>)
    requires
        forall|a: int|
            0 <= a < indices.spec_values().len() ==> 0 <= (
            #[trigger] indices.spec_values()[a]).spec_position() < length,
    ensures
        as_positions(r@) == index_positions(indices.spec_values()),
        within(r@, length as nat),
{
    let n = indices.len();
    let mut positions: Vec<usize> = Vec::with_capacity(n);
    let mut a: usize = 0;
    while a < n
        invariant
            a <= n,
            n == indices.spec_values().len(),
            forall|t: int|
                0 <= t < indices.spec_values().len() ==> 0 <= (
                #[trigger] indices.spec_values()[t]).spec_position() < length,
            positions@.len() == a,
            forall|t: int|
                0 <= t < a ==> #[trigger] positions@[t] == indices.spec_values()[t].spec_position(),
        decreases n - a,
    {
        let index = indices.value(a);
        positions.push(index.to_usize());
        a += 1;
    }
    assert(as_positions(positions@) =~= index_positions(indices.spec_values()));
    positions
}

} // verus!
