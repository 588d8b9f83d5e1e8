use vstd::prelude::*;

use uuid::Uuid;

use crate::ulid::ULID;

verus! {

#[verifier::external_type_specification]
#[verifier::external_body]
pub struct ExUuid(Uuid);

/// The 128-bit value of a UUID, as `Uuid::as_u128` reads it.
pub uninterp spec fn uuid_bits(u: Uuid) -> u128;

/// The UUID that `Uuid::from_u128` builds from a 128-bit value.
pub uninterp spec fn uuid_of(v: u128) -> Uuid;

/// Relies on `uuid::Uuid::as_u128`: the UUID's 16 bytes read as one
/// big-endian 128-bit value, from which `Uuid::from_u128` rebuilds the same
/// UUID.
pub assume_specification[ Uuid::as_u128 ](u: &Uuid) -> (r: u128)
    ensures
        r == uuid_bits(*u),
        uuid_of(r) == *u,
;

/// Relies on `uuid::Uuid::from_u128`: stores the value's bytes big-endian,
/// so that `as_u128` reads the same value back.
pub assume_specification[ Uuid::from_u128 ](v: u128) -> (r: Uuid)
    ensures
        r == uuid_of(v),
        uuid_bits(r) == v,
;

impl From<Uuid> for ULID {
    fn from(uuid: Uuid) -> (r: Self)
        ensures
            r.0 == uuid_bits(uuid),
            uuid_of(r.0) == uuid,
    {
        ULID(uuid.as_u128())
    }
}

impl vstd::std_specs::convert::FromSpecImpl<Uuid> for ULID {
    open spec fn obeys_from_spec() -> bool {
        true
    }

    open spec fn from_spec(v: Uuid) -> Self {
        ULID(uuid_bits(v))
    }
}

impl From<ULID> for Uuid {
    fn from(ulid: ULID) -> (r: Self)
        ensures
            r == uuid_of(ulid.0),
            uuid_bits(r) == ulid.0,
    {
        Uuid::from_u128(ulid.0)
    }
}

impl vstd::std_specs::convert::FromSpecImpl<ULID> for Uuid {
    open spec fn obeys_from_spec() -> bool {
        true
    }

    open spec fn from_spec(v: ULID) -> Self {
        uuid_of(v.0)
    }
}

} // verus!
