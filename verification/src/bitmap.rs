//! The value codec: values are serialized bounded integer sets.
//!
//! The set library is an external collaborator: the library trusts its
//! serialization round trip and models a bitmap by the set of 32-bit
//! integers it holds. Serialized bytes are a function of the in-memory
//! container layout, not of the held set alone, so byte-level purity is
//! only claimed of `encode_sorted_values`, which fixes the layout by
//! always building the bitmap freshly from the sorted values.

use vstd::prelude::*;

verus! {

#[verifier::external_type_specification]
#[verifier::external_body]
pub struct ExRoaringBitmap(roaring::RoaringBitmap);

/// The set of 32-bit integers a bitmap holds.
pub uninterp spec fn bitmap_elems(b: roaring::RoaringBitmap) -> Set<u32>;

/// The bytes the codec writes for a bitmap freshly built from the set's
/// ascending values.
pub uninterp spec fn blob_of(s: Set<u32>) -> Seq<u8>;

/// The set the codec recovers from the given bytes, or nothing when they
/// are not a valid serialized set.
pub uninterp spec fn blob_elems(bytes: Seq<u8>) -> Option<Set<u32>>;

/// A value blob that decodes, with a cardinality within the configured
/// bound.
pub open spec fn valid_value(v: Seq<u8>, max_card: nat) -> bool {
    &&& blob_elems(v) is Some
    &&& blob_elems(v)->Some_0.finite()
    &&& blob_elems(v)->Some_0.len() <= max_card
}

/// Relies on `roaring::RoaringBitmap::from_sorted_iter` and
/// `serialize_into`: on strictly ascending values the first returns a
/// bitmap holding exactly those values (it only fails when a value is
/// not above its predecessor), and the second writes it into a byte
/// vector, which cannot fail. Built freshly from the ascending values,
/// the container layout — and so the bytes — is a pure function of the
/// held set, and deserializing recovers that set.
#[verifier::external_body]
pub(crate) fn encode_sorted_values(elems: &Vec<u32>) -> (r: Vec<u8>)
    requires
        forall|i: int, j: int| 0 <= i < j < elems@.len() ==> elems@[i] < elems@[j],
    ensures
        r@ == blob_of(elems@.to_set()),
        blob_elems(r@) == Some(elems@.to_set()),
{
    let bitmap = roaring::RoaringBitmap::from_sorted_iter(elems.iter().copied()).unwrap();
    let mut buf = Vec::new();
    bitmap.serialize_into(&mut buf).unwrap();
    buf
}

/// Relies on `roaring::RoaringBitmap::deserialize_from`: on bytes the
/// codec wrote it recovers the held set; on malformed bytes it fails.
#[verifier::external_body]
pub(crate) fn deserialize_bitmap(bytes: &[u8]) -> (r: Option<roaring::RoaringBitmap>)
    ensures
        match r {
            Some(b) => blob_elems(bytes@) == Some(bitmap_elems(b)) && bitmap_elems(b).finite(),
            None => blob_elems(bytes@) is None,
        },
{
    roaring::RoaringBitmap::deserialize_from(bytes).ok()
}

/// Relies on `roaring::RoaringBitmap::len`: the number of integers in
/// the set.
#[verifier::external_body]
pub(crate) fn bitmap_len(b: &roaring::RoaringBitmap) -> (r: u64)
    requires
        bitmap_elems(*b).finite(),
    ensures
        r == bitmap_elems(*b).len(),
{
    b.len()
}

} // verus!
