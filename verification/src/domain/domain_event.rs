use vstd::prelude::*;

verus! {

/// A moment in time: the whole seconds since the start of 1970 in UTC, and the
/// nanoseconds since the last whole second.
#[derive(Clone, Copy, Debug, PartialEq, Eq, Structural)]
pub struct Timestamp {
    pub seconds: i64,
    pub nanoseconds: u32,
}

/// A domain event: an immutable record of something that happened in the
/// domain.
pub trait DomainEvent {
    /// The unique identifier of the event, as the 128 bits of a UUID.
    fn id(&self) -> u128;

    /// The moment at which the event was created, in UTC.
    fn at(&self) -> Timestamp;
}

/// The event of an aggregate that has nothing to report.
#[derive(Clone, Copy, Debug)]
pub struct UnitDomainEvent;

/// `uuid::Uuid::default`, read through `Uuid::as_u128`: the default
/// identifier is the nil UUID, whose 128 bits are all zero.
#[verifier::external_body]
fn default_uuid() -> (bits: u128)
    ensures
        bits == 0,
{
    uuid::Uuid::default().as_u128()
}

/// `chrono::DateTime::<Utc>::default`, read through `DateTime::timestamp` and
/// `DateTime::timestamp_subsec_nanos`: the default moment is the start of
/// 1970 in UTC.
#[verifier::external_body]
fn default_moment() -> (moment: Timestamp)
    ensures
        moment.seconds == 0,
        moment.nanoseconds == 0,
{
    let moment = chrono::DateTime::<chrono::Utc>::default();
    Timestamp { seconds: moment.timestamp(), nanoseconds: moment.timestamp_subsec_nanos() }
}

impl DomainEvent for UnitDomainEvent {
    /// The nil identifier.
    fn id(&self) -> (id: u128)
        ensures
            id == 0,
    {
        default_uuid()
    }

    /// The start of 1970 in UTC.
    fn at(&self) -> (moment: Timestamp)
        ensures
            moment == (Timestamp { seconds: 0, nanoseconds: 0 }),
    {
        default_moment()
    }
}

} // verus!
