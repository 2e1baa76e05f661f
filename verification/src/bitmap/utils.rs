//! Reading and writing single bits of a byte slice, least significant bit
//! first, and the mathematical model of a byte slice as a sequence of bits.

use vstd::prelude::*;

verus! {

/// Bit `i` of `byte`, counted from the least significant one.
pub open spec fn bit_of(byte: u8, i: int) -> bool {
    (byte >> (i as u8)) & 1u8 == 1u8
}

/// Bit `i` of a byte sequence: bit `i % 8` of byte `i / 8`.
pub open spec fn bit_at(bytes: Seq<u8>, i: int) -> bool {
    bit_of(bytes[i / 8], i % 8)
}

/// The `len` bits of `bytes` that start at bit `offset`.
pub open spec fn bits_of(bytes: Seq<u8>, offset: int, len: int) -> Seq<bool> {
    Seq::new(len as nat, |i: int| bit_at(bytes, offset + i))
}

/// The number of `false` entries of `bits`.
pub open spec fn count_zeros(bits: Seq<bool>) -> nat
    decreases bits.len(),
{
    if bits.len() == 0 {
        0
    } else {
        count_zeros(bits.drop_last()) + if bits.last() {
            0nat
        } else {
            1nat
        }
    }
}

/// The number of bytes that hold `bits` bits.
pub open spec fn bytes_needed(bits: int) -> int {
    (bits + 7) / 8
}

/// `bytes` as it is after bit `i` was written to `value`.
pub open spec fn with_bit(bytes: Seq<u8>, i: int, value: bool) -> Seq<u8> {
    bytes.update(i / 8, byte_with_bit(bytes[i / 8], i % 8, value))
}

/// `byte` as it is after bit `i` was written to `value`.
pub open spec fn byte_with_bit(byte: u8, i: int, value: bool) -> u8 {
    if value {
        byte | (1u8 << (i as u8))
    } else {
        byte & !(1u8 << (i as u8))
    }
}

/// No bit of `bytes` from bit `length` on is set.
pub open spec fn trailing_clear(bytes: Seq<u8>, length: int) -> bool {
    forall|i: int| length <= i < bytes.len() * 8 ==> !#[trigger] bit_at(bytes, i)
}

/// `bytes` are as many as `length` bits need and hold no set bit beyond them.
pub open spec fn canonical(bytes: Seq<u8>, length: int) -> bool {
    &&& bytes.len() == bytes_needed(length)
    &&& trailing_clear(bytes, length)
}

/// The byte of the eight bits `b0` to `b7`, the least significant one first.
pub open spec fn byte_of_bits(
    b0: bool,
    b1: bool,
    b2: bool,
    b3: bool,
    b4: bool,
    b5: bool,
    b6: bool,
    b7: bool,
) -> u8 {
    (if b0 {
        1u8
    } else {
        0u8
    }) | (if b1 {
        2u8
    } else {
        0u8
    }) | (if b2 {
        4u8
    } else {
        0u8
    }) | (if b3 {
        8u8
    } else {
        0u8
    }) | (if b4 {
        16u8
    } else {
        0u8
    }) | (if b5 {
        32u8
    } else {
        0u8
    }) | (if b6 {
        64u8
    } else {
        0u8
    }) | (if b7 {
        128u8
    } else {
        0u8
    })
}

/// Entry `i` of `bits`, and `false` where `bits` has no such entry.
pub open spec fn bit_or_unset(bits: Seq<bool>, i: int) -> bool {
    0 <= i < bits.len() && bits[i]
}

/// The bytes that hold `bits`, eight to a byte and the first in the least
/// significant bit: as many bytes as the bits need, with no bit set beyond
/// them.
pub open spec fn pack(bits: Seq<bool>) -> Seq<u8> {
    Seq::new(
        bytes_needed(bits.len() as int) as nat,
        |k: int|
            byte_of_bits(
                bit_or_unset(bits, 8 * k),
                bit_or_unset(bits, 8 * k + 1),
                bit_or_unset(bits, 8 * k + 2),
                bit_or_unset(bits, 8 * k + 3),
                bit_or_unset(bits, 8 * k + 4),
                bit_or_unset(bits, 8 * k + 5),
                bit_or_unset(bits, 8 * k + 6),
                bit_or_unset(bits, 8 * k + 7),
            ),
    )
}

/// A byte is the byte of its eight bits.
pub proof fn lemma_byte_of_bits(x: u8)
    ensures
        x == byte_of_bits(
            bit_of(x, 0),
            bit_of(x, 1),
            bit_of(x, 2),
            bit_of(x, 3),
            bit_of(x, 4),
            bit_of(x, 5),
            bit_of(x, 6),
            bit_of(x, 7),
        ),
{
    assert(x == (if (x >> 0u8) & 1u8 == 1u8 {
        1u8
    } else {
        0u8
    }) | (if (x >> 1u8) & 1u8 == 1u8 {
        2u8
    } else {
        0u8
    }) | (if (x >> 2u8) & 1u8 == 1u8 {
        4u8
    } else {
        0u8
    }) | (if (x >> 3u8) & 1u8 == 1u8 {
        8u8
    } else {
        0u8
    }) | (if (x >> 4u8) & 1u8 == 1u8 {
        16u8
    } else {
        0u8
    }) | (if (x >> 5u8) & 1u8 == 1u8 {
        32u8
    } else {
        0u8
    }) | (if (x >> 6u8) & 1u8 == 1u8 {
        64u8
    } else {
        0u8
    }) | (if (x >> 7u8) & 1u8 == 1u8 {
        128u8
    } else {
        0u8
    })) by (bit_vector);
}

/// Bytes that are as many as their first `length` bits need, and hold no
/// set bit beyond them, are the bytes that hold those bits: there are no
/// two ways to hold the same bits.
pub proof fn lemma_canonical_is_packed(bytes: Seq<u8>, length: int)
    requires
        0 <= length,
        canonical(bytes, length),
    ensures
        bytes == pack(bits_of(bytes, 0, length)),
{
    let bits = bits_of(bytes, 0, length);
    assert forall|k: int| 0 <= k < bytes.len() implies bytes[k] == pack(bits)[k] by {
        lemma_byte_of_bits(bytes[k]);
        assert forall|t: int| 0 <= t < 8 implies bit_of(bytes[k], t) == bit_or_unset(
            bits,
            8 * k + t,
        ) by {
            let i = 8 * k + t;
            assert(i / 8 == k && i % 8 == t);
            assert(bit_at(bytes, i) == bit_of(bytes[k], t));
            if i < length {
                assert(bits[i] == bit_at(bytes, 0 + i));
            }
        }
        assert(bit_of(bytes[k], 0) == bit_or_unset(bits, 8 * k + 0));
        assert(bit_of(bytes[k], 1) == bit_or_unset(bits, 8 * k + 1));
        assert(bit_of(bytes[k], 2) == bit_or_unset(bits, 8 * k + 2));
        assert(bit_of(bytes[k], 3) == bit_or_unset(bits, 8 * k + 3));
        assert(bit_of(bytes[k], 4) == bit_or_unset(bits, 8 * k + 4));
        assert(bit_of(bytes[k], 5) == bit_or_unset(bits, 8 * k + 5));
        assert(bit_of(bytes[k], 6) == bit_or_unset(bits, 8 * k + 6));
        assert(bit_of(bytes[k], 7) == bit_or_unset(bits, 8 * k + 7));
    }
    assert(bytes =~= pack(bits));
}

/// Appending a byte leaves the bits before it as they are and adds its own.
pub proof fn lemma_push_byte(bytes: Seq<u8>, byte: u8)
    ensures
        forall|j: int|
            0 <= j < (bytes.len() + 1) * 8 ==> #[trigger] bit_at(bytes.push(byte), j) == if j
                < bytes.len() * 8 {
                bit_at(bytes, j)
            } else {
                bit_of(byte, j % 8)
            },
{
    assert forall|j: int| 0 <= j < (bytes.len() + 1) * 8 implies #[trigger] bit_at(
        bytes.push(byte),
        j,
    ) == if j < bytes.len() * 8 {
        bit_at(bytes, j)
    } else {
        bit_of(byte, j % 8)
    } by {
        if j < bytes.len() * 8 {
            assert(j / 8 < bytes.len());
        } else {
            assert(j / 8 == bytes.len());
        }
    }
}

/// Replacing byte `k` changes the bits of that byte and no other.
pub proof fn lemma_update_byte(bytes: Seq<u8>, k: int, byte: u8)
    requires
        0 <= k < bytes.len(),
    ensures
        forall|j: int|
            0 <= j < bytes.len() * 8 ==> #[trigger] bit_at(bytes.update(k, byte), j) == if j / 8
                == k {
                bit_of(byte, j % 8)
            } else {
                bit_at(bytes, j)
            },
{
}

/// Writing bit `i` of a byte changes that bit and no other.
pub proof fn lemma_byte_with_bit(byte: u8, i: int, value: bool)
    requires
        0 <= i < 8,
    ensures
        forall|j: int|
            0 <= j < 8 ==> #[trigger] bit_of(byte_with_bit(byte, i, value), j) == if j == i {
                value
            } else {
                bit_of(byte, j)
            },
{
    let s = i as u8;
    assert forall|j: int| 0 <= j < 8 implies #[trigger] bit_of(byte_with_bit(byte, i, value), j)
        == if j == i {
        value
    } else {
        bit_of(byte, j)
    } by {
        let t = j as u8;
        if value {
            assert((((byte | (1u8 << s)) >> t) & 1u8 == 1u8) == if t == s {
                true
            } else {
                (byte >> t) & 1u8 == 1u8
            }) by (bit_vector)
                requires
                    s < 8u8,
                    t < 8u8,
            ;
        } else {
            assert((((byte & !(1u8 << s)) >> t) & 1u8 == 1u8) == if t == s {
                false
            } else {
                (byte >> t) & 1u8 == 1u8
            }) by (bit_vector)
                requires
                    s < 8u8,
                    t < 8u8,
            ;
        }
    }
}

/// Writing bit `i` of a byte sequence changes that bit and no other.
pub proof fn lemma_with_bit(bytes: Seq<u8>, i: int, value: bool)
    requires
        0 <= i < bytes.len() * 8,
    ensures
        with_bit(bytes, i, value).len() == bytes.len(),
        forall|j: int|
            0 <= j < bytes.len() * 8 ==> #[trigger] bit_at(with_bit(bytes, i, value), j) == if j
                == i {
                value
            } else {
                bit_at(bytes, j)
            },
{
    lemma_byte_with_bit(bytes[i / 8], i % 8, value);
    assert forall|j: int| 0 <= j < bytes.len() * 8 implies #[trigger] bit_at(
        with_bit(bytes, i, value),
        j,
    ) == if j == i {
        value
    } else {
        bit_at(bytes, j)
    } by {
        if j / 8 == i / 8 {
            assert(bit_of(byte_with_bit(bytes[i / 8], i % 8, value), j % 8) == if j % 8 == i % 8 {
                value
            } else {
                bit_of(bytes[i / 8], j % 8)
            });
        }
    }
}

/// No bit of the zero byte is set.
pub proof fn lemma_zero_byte(i: int)
    requires
        0 <= i < 8,
    ensures
        !bit_of(0u8, i),
{
    let s = i as u8;
    assert(!((0u8 >> s) & 1u8 == 1u8)) by (bit_vector);
}

/// Counting the zeros of a sequence that ends in `b`.
pub proof fn lemma_count_zeros_push(bits: Seq<bool>, b: bool)
    ensures
        count_zeros(bits.push(b)) == count_zeros(bits) + if b {
            0nat
        } else {
            1nat
        },
{
    assert(bits.push(b).drop_last() =~= bits);
}

/// A sequence has no more zeros than entries.
pub proof fn lemma_count_zeros_bound(bits: Seq<bool>)
    ensures
        count_zeros(bits) <= bits.len(),
    decreases bits.len(),
{
    if bits.len() > 0 {
        lemma_count_zeros_bound(bits.drop_last());
    }
}

/// A sequence has no zero exactly when each of its entries is `true`.
pub proof fn lemma_count_zeros_none(bits: Seq<bool>)
    ensures
        count_zeros(bits) == 0 <==> forall|i: int| 0 <= i < bits.len() ==> bits[i],
    decreases bits.len(),
{
    if bits.len() > 0 {
        lemma_count_zeros_none(bits.drop_last());
        if count_zeros(bits) == 0 {
            assert forall|i: int| 0 <= i < bits.len() implies bits[i] by {
                if i < bits.len() - 1 {
                    assert(bits.drop_last()[i] == bits[i]);
                }
            }
        }
        if forall|i: int| 0 <= i < bits.len() ==> bits[i] {
            assert forall|i: int| 0 <= i < bits.drop_last().len() implies bits.drop_last()[i] by {
                assert(bits.drop_last()[i] == bits[i]);
            }
        }
    }
}

/// Returns the number of bytes that hold `bits` bits.
pub fn bytes_for(bits: usize) -> (r: usize)
    ensures
        r == bytes_needed(bits as int),
        r * 8 >= bits,
        r * 8 < bits + 8,
{
    bits / 8 + if bits % 8 == 0 {
        0
    } else {
        1
    }
}

/// Returns whether bit `i` of `byte` is set.
pub fn is_set(byte: u8, i: usize) -> (r: bool)
    requires
        i < 8,
    ensures
        r == bit_of(byte, i as int),
{
    let shift: u8 = i as u8;
    assert((byte & (1u8 << shift) != 0u8) == ((byte >> shift) & 1u8 == 1u8)) by (bit_vector)
        requires
            shift < 8u8,
    ;
    (byte & (1u8 << shift)) != 0
}

/// Returns `byte` with bit `i` written to `value`.
pub fn set(byte: u8, i: usize, value: bool) -> (r: u8)
    requires
        i < 8,
    ensures
        r == byte_with_bit(byte, i as int, value),
        forall|j: int|
            0 <= j < 8 ==> #[trigger] bit_of(r, j) == if j == i {
                value
            } else {
                bit_of(byte, j)
            },
{
    proof {
        lemma_byte_with_bit(byte, i as int, value);
    }
    let shift: u8 = i as u8;
    if value {
        byte | (1u8 << shift)
    } else {
        byte & !(1u8 << shift)
    }
}

/// Returns `byte` with its first `n` bits kept and the others unset.
pub fn keep_low(byte: u8, n: usize) -> (r: u8)
    requires
        n < 8,
    ensures
        forall|t: int| 0 <= t < 8 ==> #[trigger] bit_of(r, t) == (t < n && bit_of(byte, t)),
{
    let shift: u8 = n as u8;
    assert((1u8 << shift) >= 1u8) by (bit_vector)
        requires
            shift < 8u8,
    ;
    let mask: u8 = (1u8 << shift) - 1;
    let r = byte & mask;
    proof {
        assert forall|t: int| 0 <= t < 8 implies #[trigger] bit_of(r, t) == (t < n && bit_of(
            byte,
            t,
        )) by {
            let u = t as u8;
            assert((((byte & (((1u8 << shift) - 1u8) as u8)) >> u) & 1u8 == 1u8) == (u < shift && (
            byte >> u) & 1u8 == 1u8)) by (bit_vector)
                requires
                    shift < 8u8,
                    u < 8u8,
            ;
        }
    }
    r
}

/// Returns bit `i` of `data`.
pub fn get_bit(data: &[u8], i: usize) -> (r: bool)
    requires
        i < data@.len() * 8,
    ensures
        r == bit_at(data@, i as int),
{
    is_set(data[i / 8], i % 8)
}

/// Writes bit `i` of `data` to `value`.
pub fn set_bit(data: &mut Vec<u8>, i: usize, value: bool)
    requires
        i < old(data)@.len() * 8,
    ensures
        final(data)@ == with_bit(old(data)@, i as int, value),
        final(data)@.len() == old(data)@.len(),
        forall|j: int|
            0 <= j < old(data)@.len() * 8 ==> #[trigger] bit_at(final(data)@, j) == if j == i {
                value
            } else {
                bit_at(old(data)@, j)
            },
{
    proof {
        lemma_with_bit(data@, i as int, value);
    }
    let byte = set(data[i / 8], i % 8, value);
    data.set(i / 8, byte);
}

/// Returns the number of unset bits among the `len` bits of `slice` that
/// start at bit `offset`.
pub fn null_count(slice: &[u8], offset: usize, len: usize) -> (r: usize)
    requires
        offset + len <= slice@.len() * 8,
        offset + len <= usize::MAX,
    ensures
        r == count_zeros(bits_of(slice@, offset as int, len as int)),
        r <= len,
{
    let mut count: usize = 0;
    let mut i: usize = 0;
    assert(bits_of(slice@, offset as int, 0) =~= Seq::<bool>::empty());
    while i < len
        invariant
            i <= len,
            offset + len <= slice@.len() * 8,
            offset + len <= usize::MAX,
            count == count_zeros(bits_of(slice@, offset as int, i as int)),
            count <= i,
        decreases len - i,
    {
        let bit = get_bit(slice, offset + i);
        proof {
            assert(bits_of(slice@, offset as int, i as int + 1) =~= bits_of(
                slice@,
                offset as int,
                i as int,
            ).push(bit));
            lemma_count_zeros_push(bits_of(slice@, offset as int, i as int), bit);
        }
        if !bit {
            count += 1;
        }
        i += 1;
    }
    count
}

} // verus!
