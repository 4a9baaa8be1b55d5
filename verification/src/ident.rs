//! Resource identifiers: what the library relies on from the `uuid` crate.

use vstd::prelude::*;
use uuid::Uuid;

verus! {

/// `uuid::Uuid`, a 128-bit identifier. The library carries such values
/// through and learns their bytes only from the functions specified below.
#[verifier::external_type_specification]
#[verifier::external_body]
pub struct ExUuid(uuid::Uuid);

/// The sixteen bytes that an identifier holds, in the order it stores them.
pub uninterp spec fn uuid_bytes(id: Uuid) -> Seq<u8>;

/// `Uuid::from_bytes` wraps the array it is given: the identifier holds
/// exactly those sixteen bytes, in the same order.
pub assume_specification[ Uuid::from_bytes ](bytes: uuid::Bytes) -> (id: Uuid)
    ensures
        uuid_bytes(id) == bytes@,
;

/// `Uuid::as_bytes` borrows the array that the identifier holds.
pub assume_specification[ Uuid::as_bytes ](id: &Uuid) -> (bytes: &uuid::Bytes)
    ensures
        bytes@ == uuid_bytes(*id),
;

/// `Uuid` is `Copy`, and its derived `clone` returns the value itself.
pub assume_specification[ <Uuid as Clone>::clone ](id: &Uuid) -> (copy: Uuid)
    ensures
        copy == *id,
;

} // verus!
