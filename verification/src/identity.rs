//! Who a client is and where it stands.

use vstd::prelude::*;

verus! {

/// Coarse position of a client in the room, used to target broadcasts.
#[derive(Clone, Copy, Debug, PartialEq, Eq, Hash, Structural)]
pub enum RelativeLocation {
    Left,
    Center,
    Right,
}

/// The services a client can subscribe to.
#[derive(Clone, Copy, Debug, PartialEq, Eq, Hash, Structural)]
pub enum Service {
    Subtitle,
    Colour,
    AudioPlayer,
    Midi,
}

/// A 128-bit client identifier, most significant byte first on the wire.
pub type Uuid = u128;

/// What a client presents to identify itself: its identifier, chosen by the
/// client, and its location if it has one.
#[derive(Clone, Copy, Debug, PartialEq, Eq, Structural)]
pub struct ClientIdAndLocation {
    pub uuid: Uuid,
    pub location: Option<RelativeLocation>,
}

impl ClientIdAndLocation {
    /// The identity with the given identifier and location.
    pub fn new(uuid: Uuid, location: Option<RelativeLocation>) -> (r: Self)
        ensures
            r == (ClientIdAndLocation { uuid, location }),
    {
        Self { uuid, location }
    }
}

/// The bits every version-4 identifier has: version nibble 4, variant `10`.
pub open spec fn is_version4(u: Uuid) -> bool {
    u & 0x0000_0000_0000_f000_c000_0000_0000_0000 == 0x0000_0000_0000_4000_8000_0000_0000_0000
}

/// The version-4 identifier made of 128 random bits: the version and variant
/// bits are set, every other bit is kept.
pub open spec fn version4_of(random: u128) -> Uuid {
    (random & 0xffff_ffff_ffff_0fff_3fff_ffff_ffff_ffff) | 0x0000_0000_0000_4000_8000_0000_0000_0000
}

/// Builds a version-4 identifier from random bits with
/// `uuid::Builder::from_random_bytes`, which overwrites the version nibble
/// and the two variant bits and keeps the rest.
#[verifier::external_body]
fn uuid_from_random_bytes(random: u128) -> (r: Uuid)
    ensures
        r == version4_of(random),
{
    uuid::Builder::from_random_bytes(random.to_be_bytes()).into_uuid().as_u128()
}

/// Draws a fresh random identifier with `uuid::Uuid::new_v4`. Only its
/// version and variant bits are known.
#[verifier::external_body]
fn uuid_new_v4() -> (r: Uuid)
    ensures
        is_version4(r),
{
    uuid::Uuid::new_v4().as_u128()
}

/// Identity of a client that brings its own randomness, with no location.
pub fn identity_from_random(random: u128) -> (r: ClientIdAndLocation)
    ensures
        r.uuid == version4_of(random),
        is_version4(r.uuid),
        r.location is None,
{
    let uuid = uuid_from_random_bytes(random);
    assert(is_version4(version4_of(random))) by (bit_vector);
    ClientIdAndLocation { uuid, location: None }
}

/// Identity of a client that draws its identifier from the operating system.
pub fn fresh_identity(location: Option<RelativeLocation>) -> (r: ClientIdAndLocation)
    ensures
        is_version4(r.uuid),
        r.location == location,
{
    ClientIdAndLocation { uuid: uuid_new_v4(), location }
}

} // verus!
