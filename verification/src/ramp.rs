//! The ramp's vocabulary: which way the light is going, how far each dial may travel, and the
//! order the dials are spent in.
//!
//! The arithmetic of the ramp itself works in fractional stops and lives with the application;
//! what is here is the part that is plain.

use vstd::prelude::*;

use crate::camera::model::Dial;

verus! {

/// Which way the light is going: the sign of the expected drift. At sunset the scene darkens
/// and exposure opens up over time; at sunrise the opposite.
#[derive(Debug, Clone, Copy, PartialEq, Eq, Structural)]
pub enum RampMode {
    Sunset,
    Sunrise,
}

/// How far the ramp may take one dial, and whether it may touch it at all.
#[derive(Debug, Clone, PartialEq, Eq)]
pub struct DialRamp {
    /// Whether the ramp may move this dial.
    pub enabled: bool,
    /// The far end of the travel, as a token the camera itself reported; `None` until one is
    /// chosen. Not validated on write: what a dial offers changes with mode and lens.
    pub limit: Option<String>,
}

/// How the darkening is spread across the event. All three start and end in the same place
/// and differ only in where the change is concentrated.
#[derive(Debug, Clone, Copy, PartialEq, Eq, Structural)]
pub enum DaylightShape {
    /// Proportional to the progress through the event.
    Linear,
    /// Little at first, most of it towards the end.
    SlowThenFast,
    /// Most of it at the start, tapering off.
    FastThenSlow,
}

/// Where the sun stands, in the terms a photographer uses.
#[derive(Debug, Clone, Copy, PartialEq, Eq, Structural)]
pub enum SkyPhase {
    /// Sun well up.
    Day,
    /// Sun low but still above the horizon.
    GoldenHour,
    /// Sun just below the horizon. Civil twilight.
    BlueHour,
    NauticalTwilight,
    AstronomicalTwilight,
    /// Sun more than 18° down: as dark as it gets.
    Night,
}

pub open spec fn spec_dial_order(mode: RampMode) -> Seq<Dial> {
    match mode {
        RampMode::Sunset => seq![Dial::Shutter, Dial::Aperture, Dial::Iso],
        RampMode::Sunrise => seq![Dial::Iso, Dial::Aperture, Dial::Shutter],
    }
}

/// The order dials are spent in, and therefore the priority: at sunset the shutter first,
/// because opening it costs only motion blur, and ISO last, because it costs noise.
pub fn dial_order(mode: RampMode) -> (r: [Dial; 3])
    ensures
        r@ == spec_dial_order(mode),
{
    let r = match mode {
        RampMode::Sunset => [Dial::Shutter, Dial::Aperture, Dial::Iso],
        RampMode::Sunrise => [Dial::Iso, Dial::Aperture, Dial::Shutter],
    };
    assert(r@ =~= spec_dial_order(mode));
    r
}

/// Every dial is in each order exactly once, and a sunrise spends them in the reverse of a
/// sunset's order: the light runs the other way, and so does the priority.
pub proof fn dial_orders_are_permutations_and_mirror(dial: Dial)
    ensures
        spec_dial_order(RampMode::Sunset).contains(dial),
        spec_dial_order(RampMode::Sunrise).contains(dial),
        spec_dial_order(RampMode::Sunset).len() == 3,
        spec_dial_order(RampMode::Sunrise) == spec_dial_order(RampMode::Sunset).reverse(),
{
    let sunset = spec_dial_order(RampMode::Sunset);
    let sunrise = spec_dial_order(RampMode::Sunrise);
    match dial {
        Dial::Shutter => assert(sunset[0] == dial && sunrise[2] == dial),
        Dial::Aperture => assert(sunset[1] == dial && sunrise[1] == dial),
        Dial::Iso => assert(sunset[2] == dial && sunrise[0] == dial),
    }
    assert(sunrise =~= sunset.reverse());
}

} // verus!
