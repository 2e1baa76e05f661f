//! What the builders of all array kinds share.

use crate::bitmap::{optional_bits, Bitmap, MutableBitmap};
use vstd::prelude::*;

verus! {

/// The bits that `len` values of a source, from `start` on, add to the
/// validity of an output: the source's own bits, or set bits where it has no
/// bitmap and the output keeps one.
pub open spec fn added_validity(
    validity: Option<Seq<bool>>,
    start: int,
    len: int,
    use_validity: bool,
) -> Seq<bool> {
    match validity {
        Some(bits) => bits.subrange(start, start + len),
        None => if use_validity {
            Seq::new(len as nat, |i: int| true)
        } else {
            Seq::empty()
        },
    }
}

/// Appends to `mutable_validity` the validity of `len` values of a source,
/// from `start` on: the bits of the source's bitmap, or set bits where it
/// has none and `use_validity` holds.
pub fn extend_validity(
    mutable_validity: &mut MutableBitmap,
    validity: &Option<Bitmap>,
    start: usize,
    len: usize,
    use_validity: bool,
)
    requires
        validity matches Some(bitmap) ==> start + len <= bitmap@.len(),
        old(mutable_validity)@.len() + len <= usize::MAX,
    ensures
        final(mutable_validity)@ == old(mutable_validity)@ + added_validity(
            optional_bits(*validity),
            start as int,
            len as int,
            use_validity,
        ),
{
    match validity {
        Some(bitmap) => {
            let slice = bitmap.as_slice();
            let offset = bitmap.offset();
            let ghost before = mutable_validity@;
            mutable_validity.extend_from_slice(slice, start + offset, len);
            assert(mutable_validity@ =~= before + bitmap@.subrange(start as int, start + len));
        },
        None => {
            if use_validity {
                mutable_validity.extend_constant(len, true);
            } else {
                assert(mutable_validity@ + Seq::<bool>::empty() =~= mutable_validity@);
            }
        },
    }
}

} // verus!
