//! The stored values: `bytes::Bytes`, an immutable buffer whose clones share
//! their storage, so a value read from a partition stays valid after the
//! entry it came from is overwritten.

use vstd::prelude::*;

verus! {

/// `bytes::Bytes`, carried through the library as an opaque value.
#[verifier::external_type_specification]
#[verifier::external_body]
pub struct ExBytes(bytes::Bytes);

/// The bytes that a `Bytes` value holds, in order.
pub uninterp spec fn content_of(b: bytes::Bytes) -> Seq<u8>;

/// Relies on `<bytes::Bytes as Clone>::clone`: the clone points at the same
/// bytes, with the same length, as the value it was made from (the buffer is
/// shared, not copied), so it holds the
/// same content.
pub assume_specification[ <bytes::Bytes as Clone>::clone ](b: &bytes::Bytes) -> (r: bytes::Bytes)
    ensures
        content_of(r) == content_of(*b),
;

} // verus!
