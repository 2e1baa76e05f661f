//! What the sorts of all array kinds share: splitting the positions into
//! valid ones and nulls, sorting the valid ones by their keys, and putting
//! the two together.

use crate::bitmap::{optional_bits, Bitmap};
use crate::array::PrimitiveArray;
use crate::buffer::Buffer;
use crate::compute::sort::order::{
    as_positions, lemma_lex_asymmetric, lemma_lex_irreflexive, lemma_lex_total,
    lemma_precedes_total, lemma_precedes_transitive, lex_lt, precedes, Order,
};
use crate::types::Index;
use vstd::multiset::Multiset;
use vstd::prelude::*;

verus! {

/// A column whose positions have keys by which they are sorted.
pub trait SortKeys {
    /// The key of each position.
    spec fn keys(&self) -> Seq<Seq<int>>;

    /// Returns whether the key of position `i` comes before that of
    /// position `j` in the lexicographic order.
    fn key_lt(&self, i: usize, j: usize) -> (r: bool)
        requires
            i < self.keys().len(),
            j < self.keys().len(),
        ensures
            r == lex_lt(self.keys()[i as int], self.keys()[j as int]),
    ;
}

/// Whether the positions of `s` are positions of a column of `n` keys, each
/// before those behind it.
pub open spec fn ascending(keys: Seq<Seq<int>>, descending: bool, s: Seq<usize>) -> bool {
    &&& forall|a: int| 0 <= a < s.len() ==> (#[trigger] s[a]) < keys.len()
    &&& forall|a: int, b: int|
        0 <= a < b < s.len() ==> #[trigger] precedes(keys, descending, s[a] as int, s[b] as int)
}

/// Returns whether position `i` comes before position `j` among the valid
/// positions of `column`.
pub fn comes_first<K: SortKeys>(column: &K, descending: bool, i: usize, j: usize) -> (r: bool)
    requires
        i < column.keys().len(),
        j < column.keys().len(),
    ensures
        r == precedes(column.keys(), descending, i as int, j as int),
{
    let ghost a = column.keys()[i as int];
    let ghost b = column.keys()[j as int];
    proof {
        lemma_lex_irreflexive(a, 0);
        if lex_lt(a, b) {
            lemma_lex_asymmetric(a, b, 0);
        }
        if lex_lt(b, a) {
            lemma_lex_asymmetric(b, a, 0);
        }
        if !lex_lt(a, b) && !lex_lt(b, a) {
            lemma_lex_total(a, b, 0);
        }
    }
    if descending {
        if column.key_lt(j, i) {
            true
        } else if column.key_lt(i, j) {
            false
        } else {
            i < j
        }
    } else {
        if column.key_lt(i, j) {
            true
        } else if column.key_lt(j, i) {
            false
        } else {
            i < j
        }
    }
}

/// Merges two sorted runs of positions, which share no position, into one.
fn merge<K: SortKeys>(column: &K, descending: bool, left: &Vec<usize>, right: &Vec<usize>) -> (r:
    Vec<usize>)
    requires
        ascending(column.keys(), descending, left@),
        ascending(column.keys(), descending, right@),
        forall|a: int, b: int|
            0 <= a < left@.len() && 0 <= b < right@.len() ==> #[trigger] left@[a] != #[trigger] right@[b],
        left@.len() + right@.len() <= usize::MAX,
    ensures
        ascending(column.keys(), descending, r@),
        r@.len() == left@.len() + right@.len(),
        r@.to_multiset() == left@.to_multiset().add(right@.to_multiset()),
{
    let ghost keys = column.keys();
    let mut out: Vec<usize> = Vec::with_capacity(left.len() + right.len());
    let mut i: usize = 0;
    let mut j: usize = 0;
    proof {
        assert(left@.subrange(0, 0) =~= Seq::<usize>::empty());
        assert(right@.subrange(0, 0) =~= Seq::<usize>::empty());
        assert(out@.to_multiset() =~= Multiset::<usize>::empty()) by {
            out@.to_multiset_ensures();
        }
        assert(Seq::<usize>::empty().to_multiset() =~= Multiset::<usize>::empty()) by {
            Seq::<usize>::empty().to_multiset_ensures();
        }
        assert(out@.to_multiset() =~= left@.subrange(0, 0).to_multiset().add(
            right@.subrange(0, 0).to_multiset(),
        ));
    }
    while i < left.len() || j < right.len()
        invariant
            i <= left@.len(),
            j <= right@.len(),
            keys == column.keys(),
            ascending(keys, descending, left@),
            ascending(keys, descending, right@),
            forall|a: int, b: int|
                0 <= a < left@.len() && 0 <= b < right@.len() ==> #[trigger] left@[a] != #[trigger] right@[b],
            left@.len() + right@.len() <= usize::MAX,
            out@.len() == i + j,
            ascending(keys, descending, out@),
            forall|a: int|
                0 <= a < out@.len() && i < left@.len() ==> #[trigger] precedes(
                    keys,
                    descending,
                    out@[a] as int,
                    left@[i as int] as int,
                ),
            forall|a: int|
                0 <= a < out@.len() && j < right@.len() ==> #[trigger] precedes(
                    keys,
                    descending,
                    out@[a] as int,
                    right@[j as int] as int,
                ),
            out@.to_multiset() == left@.subrange(0, i as int).to_multiset().add(
                right@.subrange(0, j as int).to_multiset(),
            ),
        decreases left@.len() - i + right@.len() - j,
    {
        let ghost before = out@;
        let from_left = if i == left.len() {
            false
        } else if j == right.len() {
            true
        } else {
            comes_first(column, descending, left[i], right[j])
        };
        if from_left {
            let x = left[i];
            out.push(x);
            proof {
                assert(left@.subrange(0, i + 1) =~= left@.subrange(0, i as int).push(x));
                left@.subrange(0, i as int).to_multiset_ensures();
                before.to_multiset_ensures();
                assert(out@.to_multiset() =~= left@.subrange(0, i + 1).to_multiset().add(
                    right@.subrange(0, j as int).to_multiset(),
                ));
                assert forall|a: int, b: int| 0 <= a < b < out@.len() implies #[trigger] precedes(
                    keys,
                    descending,
                    out@[a] as int,
                    out@[b] as int,
                ) by {
                    if b == before.len() {
                        assert(precedes(keys, descending, before[a] as int, left@[i as int] as int));
                    } else {
                        assert(precedes(keys, descending, before[a] as int, before[b] as int));
                    }
                }
                if i + 1 < left@.len() {
                    assert(precedes(keys, descending, x as int, left@[i + 1] as int));
                    assert forall|a: int| 0 <= a < out@.len() implies #[trigger] precedes(
                        keys,
                        descending,
                        out@[a] as int,
                        left@[i + 1] as int,
                    ) by {
                        if a < before.len() {
                            assert(precedes(keys, descending, before[a] as int, x as int));
                            lemma_precedes_transitive(
                                keys,
                                descending,
                                before[a] as int,
                                x as int,
                                left@[i + 1] as int,
                            );
                        }
                    }
                }
                if j < right@.len() {
                    assert forall|a: int| 0 <= a < out@.len() implies #[trigger] precedes(
                        keys,
                        descending,
                        out@[a] as int,
                        right@[j as int] as int,
                    ) by {
                        if a < before.len() {
                            assert(precedes(
                                keys,
                                descending,
                                before[a] as int,
                                right@[j as int] as int,
                            ));
                        }
                    }
                }
            }
            i += 1;
        } else {
            let x = right[j];
            out.push(x);
            proof {
                assert(right@.subrange(0, j + 1) =~= right@.subrange(0, j as int).push(x));
                right@.subrange(0, j as int).to_multiset_ensures();
                before.to_multiset_ensures();
                assert(out@.to_multiset() =~= left@.subrange(0, i as int).to_multiset().add(
                    right@.subrange(0, j + 1).to_multiset(),
                ));
                assert forall|a: int, b: int| 0 <= a < b < out@.len() implies #[trigger] precedes(
                    keys,
                    descending,
                    out@[a] as int,
                    out@[b] as int,
                ) by {
                    if b == before.len() {
                        assert(precedes(keys, descending, before[a] as int, right@[j as int] as int));
                    } else {
                        assert(precedes(keys, descending, before[a] as int, before[b] as int));
                    }
                }
                if j + 1 < right@.len() {
                    assert(precedes(keys, descending, x as int, right@[j + 1] as int));
                    assert forall|a: int| 0 <= a < out@.len() implies #[trigger] precedes(
                        keys,
                        descending,
                        out@[a] as int,
                        right@[j + 1] as int,
                    ) by {
                        if a < before.len() {
                            assert(precedes(keys, descending, before[a] as int, x as int));
                            lemma_precedes_transitive(
                                keys,
                                descending,
                                before[a] as int,
                                x as int,
                                right@[j + 1] as int,
                            );
                        }
                    }
                }
                if i < left@.len() {
                    assert(left@[i as int] != right@[j as int]);
                    lemma_precedes_total(keys, descending, left@[i as int] as int, x as int);
                    assert forall|a: int| 0 <= a < out@.len() implies #[trigger] precedes(
                        keys,
                        descending,
                        out@[a] as int,
                        left@[i as int] as int,
                    ) by {
                        if a < before.len() {
                            assert(precedes(
                                keys,
                                descending,
                                before[a] as int,
                                left@[i as int] as int,
                            ));
                        }
                    }
                }
            }
            j += 1;
        }
    }
    proof {
        assert(left@.subrange(0, i as int) =~= left@);
        assert(right@.subrange(0, j as int) =~= right@);
    }
    out
}

/// Sorts the positions `positions[lo..hi]`, no two of which are equal, by
/// merging its sorted halves.
fn merge_sort<K: SortKeys>(
    column: &K,
    descending: bool,
    positions: &Vec<usize>,
    lo: usize,
    hi: usize,
) -> (r: Vec<usize>)
    requires
        lo <= hi <= positions@.len(),
        forall|a: int|
            0 <= a < positions@.len() ==> (#[trigger] positions@[a]) < column.keys().len(),
        positions@.no_duplicates(),
    ensures
        ascending(column.keys(), descending, r@),
        r@.len() == hi - lo,
        r@.to_multiset() == positions@.subrange(lo as int, hi as int).to_multiset(),
    decreases hi - lo,
{
    let ghost part = positions@.subrange(lo as int, hi as int);
    if hi - lo <= 1 {
        let mut out: Vec<usize> = Vec::new();
        if hi - lo == 1 {
            out.push(positions[lo]);
        }
        assert(out@ =~= part);
        out
    } else {
        let mid = lo + (hi - lo) / 2;
        let left = merge_sort(column, descending, positions, lo, mid);
        let right = merge_sort(column, descending, positions, mid, hi);
        let ghost first = positions@.subrange(lo as int, mid as int);
        let ghost second = positions@.subrange(mid as int, hi as int);
        proof {
            assert forall|a: int, b: int|
                0 <= a < left@.len() && 0 <= b < right@.len() implies #[trigger] left@[a]
                != #[trigger] right@[b] by {
                let x = left@[a];
                let y = right@[b];
                assert(left@.contains(x));
                assert(right@.contains(y));
                vstd::seq_lib::to_multiset_contains(left@, x);
                vstd::seq_lib::to_multiset_contains(first, x);
                vstd::seq_lib::to_multiset_contains(right@, y);
                vstd::seq_lib::to_multiset_contains(second, y);
                let s = choose|s: int| 0 <= s < first.len() && first[s] == x;
                let t = choose|t: int| 0 <= t < second.len() && second[t] == y;
                assert(positions@[lo + s] == x);
                assert(positions@[mid + t] == y);
            }
        }
        let out = merge(column, descending, &left, &right);
        proof {
            assert(part =~= first + second);
            vstd::seq_lib::lemma_multiset_commutative(first, second);
        }
        out
    }
}

/// Sorts the positions `positions`, no two of which are equal, by the keys
/// of `column`: each comes before those behind it.
pub fn sort_positions<K: SortKeys>(column: &K, descending: bool, positions: &Vec<usize>) -> (r: Vec<
    usize,
>)
    requires
        forall|a: int|
            0 <= a < positions@.len() ==> (#[trigger] positions@[a]) < column.keys().len(),
        positions@.no_duplicates(),
    ensures
        ascending(column.keys(), descending, r@),
        r@.len() == positions@.len(),
        forall|p: usize| r@.contains(p) <==> positions@.contains(p),
{
    let out = merge_sort(column, descending, positions, 0, positions.len());
    proof {
        assert(positions@.subrange(0, positions@.len() as int) =~= positions@);
        assert forall|p: usize| out@.contains(p) <==> positions@.contains(p) by {
            vstd::seq_lib::to_multiset_contains(out@, p);
            vstd::seq_lib::to_multiset_contains(positions@, p);
        }
    }
    out
}

/// Whether each position of the array is valid: the bits of `validity`, or
/// `length` times `true` where the array has no bitmap.
pub open spec fn validity_bits(validity: Option<Seq<bool>>, length: nat) -> Seq<bool> {
    Seq::new(length, |i: int| validity is None || validity->0[i])
}

/// Whether `s` holds the positions of `valid` at which it has the value
/// `wanted`, each once and in rising order.
pub open spec fn selects(valid: Seq<bool>, wanted: bool, s: Seq<usize>) -> bool {
    &&& forall|a: int|
        0 <= a < s.len() ==> (#[trigger] s[a]) < valid.len() && valid[s[a] as int] == wanted
    &&& forall|a: int, b: int| 0 <= a < b < s.len() ==> #[trigger] s[a] < #[trigger] s[b]
    &&& forall|p: int| 0 <= p < valid.len() && valid[p] == wanted ==> s.contains(p as usize)
}

/// Splits the positions of an array of `length` values into the valid ones
/// and the nulls, each in rising order. Without a bitmap all positions are
/// valid.
pub fn partition_validity(validity: &Option<Bitmap>, length: usize) -> (r: (Vec<usize>, Vec<usize>))
    requires
        validity matches Some(bitmap) ==> bitmap@.len() == length,
    ensures
        selects(
            validity_bits(
                optional_bits(*validity),
                length as nat,
            ),
            true,
            r.0@,
        ),
        selects(
            validity_bits(
                optional_bits(*validity),
                length as nat,
            ),
            false,
            r.1@,
        ),
        r.0@.len() + r.1@.len() == length,
{
    let ghost valid = validity_bits(
        optional_bits(*validity),
        length as nat,
    );
    let mut valids: Vec<usize> = Vec::new();
    let mut nulls: Vec<usize> = Vec::new();
    let mut i: usize = 0;
    while i < length
        invariant
            i <= length,
            valid.len() == length,
            validity matches Some(bitmap) ==> bitmap@.len() == length,
            valid == validity_bits(
                optional_bits(*validity),
                length as nat,
            ),
            valids@.len() + nulls@.len() == i,
            forall|a: int|
                0 <= a < valids@.len() ==> (#[trigger] valids@[a]) < i && valid[valids@[a] as int],
            forall|a: int|
                0 <= a < nulls@.len() ==> (#[trigger] nulls@[a]) < i && !valid[nulls@[a] as int],
            forall|a: int, b: int|
                0 <= a < b < valids@.len() ==> #[trigger] valids@[a] < #[trigger] valids@[b],
            forall|a: int, b: int|
                0 <= a < b < nulls@.len() ==> #[trigger] nulls@[a] < #[trigger] nulls@[b],
            forall|p: int| 0 <= p < i && valid[p] ==> valids@.contains(p as usize),
            forall|p: int| 0 <= p < i && !valid[p] ==> nulls@.contains(p as usize),
        decreases length - i,
    {
        let is_valid = match validity {
            Some(bitmap) => bitmap.get_bit(i),
            None => true,
        };
        let ghost before_valids = valids@;
        let ghost before_nulls = nulls@;
        if is_valid {
            valids.push(i);
            proof {
                assert(valids@[before_valids.len() as int] == i);
                assert forall|p: int| 0 <= p < i + 1 && valid[p] implies valids@.contains(
                    p as usize,
                ) by {
                    if p < i {
                        let a = choose|a: int|
                            0 <= a < before_valids.len() && before_valids[a] == p as usize;
                        assert(valids@[a] == p as usize);
                    }
                }
            }
        } else {
            nulls.push(i);
            proof {
                assert(nulls@[before_nulls.len() as int] == i);
                assert forall|p: int| 0 <= p < i + 1 && !valid[p] implies nulls@.contains(
                    p as usize,
                ) by {
                    if p < i {
                        let a = choose|a: int|
                            0 <= a < before_nulls.len() && before_nulls[a] == p as usize;
                        assert(nulls@[a] == p as usize);
                    }
                }
            }
        }
        i += 1;
    }
    (valids, nulls)
}

/// The positions that the indices `values` stand for.
pub open spec fn index_positions<I: Index>(values: Seq<I>) -> Seq<int> {
    values.map_values(|v: I| v.spec_position())
}

/// The number of positions that a sort of `n` positions hands out under the
/// limit `limit`.
pub open spec fn limited(n: nat, limit: Option<usize>) -> nat {
    match limit {
        Some(k) => if k <= n {
            k as nat
        } else {
            n
        },
        None => n,
    }
}

/// The positions that the sort in the order `order` hands out under the
/// limit `limit`: the first positions in that order, as many as the limit
/// admits. There is one such sequence and no other.
pub open spec fn sorted_positions(order: Order, limit: Option<usize>) -> Seq<int> {
    choose|s: Seq<int>| s.len() == limited(order.len(), limit) && order.sorted_prefix(s)
}

/// A sequence of the first positions in the order `order`, as many as the
/// limit `limit` admits, is the sequence that the sort hands out.
pub proof fn lemma_sorted_positions(order: Order, limit: Option<usize>, s: Seq<int>)
    requires
        s.len() == limited(order.len(), limit),
        order.sorted_prefix(s),
    ensures
        s == sorted_positions(order, limit),
{
    order.lemma_unique(s, sorted_positions(order, limit));
}

/// Whether `r` is the array of indices that the sort in the order `order`
/// hands out under the limit `limit`: an array without nulls, of the logical
/// type of its indices, that holds the first positions in that order, as
/// many as the limit admits, and each position once where it admits all.
pub open spec fn sorted_indices<I: Index>(
    r: PrimitiveArray<I>,
    order: Order,
    limit: Option<usize>,
) -> bool {
    let positions = index_positions(r.spec_values());
    &&& r.spec_data_type() == I::spec_data_type()
    &&& r.spec_validity() is None
    &&& positions.len() == limited(order.len(), limit)
    &&& order.sorted_prefix(positions)
    &&& positions == sorted_positions(order, limit)
    &&& positions.len() == order.len() ==> order.covered_by(positions)
}

/// Whether `s` holds the nulls of `valid`, each once, in rising order of
/// their positions or, where `reversed` holds, in falling order.
pub open spec fn null_block(valid: Seq<bool>, reversed: bool, s: Seq<usize>) -> bool {
    &&& forall|a: int| 0 <= a < s.len() ==> (#[trigger] s[a]) < valid.len() && !valid[s[a] as int]
    &&& forall|a: int, b: int|
        0 <= a < b < s.len() ==> if reversed {
            #[trigger] s[a] > #[trigger] s[b]
        } else {
            s[a] < s[b]
        }
    &&& forall|p: int| 0 <= p < valid.len() && !valid[p] ==> s.contains(p as usize)
}

/// The nulls and the sorted valid positions, put together as the order asks,
/// hold each position once, in that order.
proof fn lemma_blocks(order: Order, nulls: Seq<usize>, valids: Seq<usize>, full: Seq<usize>)
    requires
        order.keys.len() == order.valid.len(),
        order.valid.len() <= usize::MAX,
        null_block(order.valid, order.nulls_reversed, nulls),
        ascending(order.keys, order.descending, valids),
        forall|p: usize| valids.contains(p) <==> p < order.valid.len() && order.valid[p as int],
        nulls.len() + valids.len() == order.valid.len(),
        full == if order.nulls_first {
            nulls + valids
        } else {
            valids + nulls
        },
    ensures
        order.sorted_prefix(as_positions(full)),
        order.covered_by(as_positions(full)),
{
    let s = as_positions(full);
    let split = if order.nulls_first {
        nulls.len()
    } else {
        valids.len()
    };
    assert forall|a: int| 0 <= a < valids.len() implies order.valid[(#[trigger] valids[a]) as int] by {
        assert(valids.contains(valids[a]));
    }
    assert forall|a: int, b: int| 0 <= a < b < s.len() implies #[trigger] order.before(
        s[a],
        s[b],
    ) by {
        if order.nulls_first {
            if b < split {
                assert(nulls[a] != nulls[b]);
            } else if a >= split {
                assert(precedes(
                    order.keys,
                    order.descending,
                    valids[a - split] as int,
                    valids[b - split] as int,
                ));
            } else {
                assert(!order.valid[nulls[a] as int]);
                assert(order.valid[valids[b - split] as int]);
            }
        } else {
            if b < split {
                assert(precedes(order.keys, order.descending, valids[a] as int, valids[b] as int));
            } else if a >= split {
                assert(nulls[a - split] != nulls[b - split]);
            } else {
                assert(order.valid[valids[a] as int]);
                assert(!order.valid[nulls[b - split] as int]);
            }
        }
    }
    assert forall|p: int| 0 <= p < order.len() implies s.contains(p) by {
        if order.valid[p] {
            assert(valids.contains(p as usize));
            let a = choose|a: int| 0 <= a < valids.len() && valids[a] == p as usize;
            if order.nulls_first {
                assert(s[split + a] == p);
            } else {
                assert(s[a] == p);
            }
        } else {
            assert(nulls.contains(p as usize));
            let a = choose|a: int| 0 <= a < nulls.len() && nulls[a] == p as usize;
            if order.nulls_first {
                assert(s[a] == p);
            } else {
                assert(s[split + a] == p);
            }
        }
    }
}

/// Returns `positions` from the last to the first.
fn turned_round(positions: &Vec<usize>) -> (r: Vec<usize>)
    ensures
        r@ == positions@.reverse(),
{
    let n = positions.len();
    let mut out: Vec<usize> = Vec::with_capacity(n);
    let mut i: usize = 0;
    while i < n
        invariant
            i <= n,
            n == positions@.len(),
            out@.len() == i,
            forall|a: int| 0 <= a < i ==> #[trigger] out@[a] == positions@[n - 1 - a],
        decreases n - i,
    {
        out.push(positions[n - 1 - i]);
        i += 1;
    }
    assert(out@ =~= positions@.reverse());
    out
}

/// Sorts the positions of a column of `length` values: the valid ones by
/// their keys, turned round where `descending` holds, and by their
/// positions where the keys are equal; the nulls before them or behind
/// them, in rising order of their positions or, where `nulls_reversed`
/// holds, in falling order. Hands out the first of them, as many as
/// `limit` admits.
pub fn indices_sorted<I: Index, K: SortKeys>(
    column: &K,
    validity: &Option<Bitmap>,
    length: usize,
    descending: bool,
    nulls_first: bool,
    nulls_reversed: bool,
    limit: Option<usize>,
) -> (r: PrimitiveArray<I>)
    requires
        column.keys().len() == length,
        validity matches Some(bitmap) ==> bitmap@.len() == length,
        length <= I::spec_max() + 1,
    ensures
        sorted_indices(
            r,
            Order {
                valid: validity_bits(optional_bits(*validity), length as nat),
                keys: column.keys(),
                descending,
                nulls_first,
                nulls_reversed,
            },
            limit,
        ),
{
    let ghost order = Order {
        valid: validity_bits(optional_bits(*validity), length as nat),
        keys: column.keys(),
        descending,
        nulls_first,
        nulls_reversed,
    };
    let (valids, nulls) = partition_validity(validity, length);
    let sorted = sort_positions(column, descending, &valids);
    let nulls = if nulls_reversed {
        let turned = turned_round(&nulls);
        proof {
            assert forall|p: int| 0 <= p < order.valid.len() && !order.valid[p] implies turned@.contains(
                p as usize,
            ) by {
                assert(nulls@.contains(p as usize));
                let a = choose|a: int| 0 <= a < nulls@.len() && nulls@[a] == p as usize;
                assert(turned@[nulls@.len() - 1 - a] == p as usize);
            }
        }
        turned
    } else {
        nulls
    };
    let mut full: Vec<usize> = Vec::with_capacity(length);
    let (first, second) = if nulls_first {
        (&nulls, &sorted)
    } else {
        (&sorted, &nulls)
    };
    let mut i: usize = 0;
    while i < first.len()
        invariant
            i <= first@.len(),
            full@ == first@.subrange(0, i as int),
        decreases first@.len() - i,
    {
        full.push(first[i]);
        assert(full@ =~= first@.subrange(0, i as int + 1));
        i += 1;
    }
    let mut j: usize = 0;
    while j < second.len()
        invariant
            j <= second@.len(),
            full@ == first@ + second@.subrange(0, j as int),
        decreases second@.len() - j,
    {
        full.push(second[j]);
        assert(full@ =~= first@ + second@.subrange(0, j as int + 1));
        j += 1;
    }
    proof {
        assert(full@ =~= first@ + second@);
        assert forall|p: usize| sorted@.contains(p) <==> p < order.valid.len() && order.valid[p as int] by {
            if valids@.contains(p) {
                let a = choose|a: int| 0 <= a < valids@.len() && valids@[a] == p;
                assert(valids@[a] < order.valid.len());
            }
            if p < order.valid.len() && order.valid[p as int] {
                assert(valids@.contains((p as int) as usize));
            }
        }
        lemma_blocks(order, nulls@, sorted@, full@);
    }
    let kept = match limit {
        Some(k) => if k <= length {
            k
        } else {
            length
        },
        None => length,
    };
    let mut out: Vec<I> = Vec::with_capacity(kept);
    let mut t: usize = 0;
    while t < kept
        invariant
            t <= kept <= length,
            full@.len() == length,
            length <= I::spec_max() + 1,
            forall|a: int| 0 <= a < full@.len() ==> 0 <= #[trigger] as_positions(full@)[a] < length,
            out@.len() == t,
            forall|a: int| 0 <= a < t ==> (#[trigger] out@[a]).spec_position() == full@[a],
        decreases kept - t,
    {
        assert(0 <= as_positions(full@)[t as int] < length);
        match I::from_usize(full[t]) {
            Some(index) => {
                out.push(index);
            },
            None => {
                assert(false);
            },
        }
        t += 1;
    }
    let r = PrimitiveArray::from_data(I::data_type(), Buffer::from_vec(out), None);
    proof {
        assert(index_positions(r.spec_values()) =~= as_positions(full@).take(kept as int));
        order.lemma_prefix(as_positions(full@), kept as int);
        lemma_sorted_positions(order, limit, as_positions(full@).take(kept as int));
        if kept == length {
            assert(as_positions(full@).take(kept as int) =~= as_positions(full@));
        }
    }
    r
}

} // verus!
