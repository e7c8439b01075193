//! Physical constants of the Earth-Moon system, in integers.

use vstd::prelude::*;

verus! {

/// Earth's equatorial radius, in metres.
pub const EARTH_RADIUS_M: u64 = 6_378_137;

/// Earth's gravitational parameter, in ten-thousandths of km^3/s^2.
pub const EARTH_MU_E4: u64 = 3_986_004_418;

/// The Moon's mean radius, in metres.
pub const MOON_RADIUS_M: u64 = 1_737_400;

/// The Moon's gravitational parameter, in ten-thousandths of km^3/s^2.
pub const MOON_MU_E4: u64 = 49_027_990;

/// The Moon's mean distance from Earth, in metres.
pub const MOON_SEMI_MAJOR_AXIS_M: u64 = 384_400_000;

/// Seconds of a minute.
pub const MINUTE: u32 = 60;

/// Seconds of an hour.
pub const HOUR: u32 = 3600;

/// Seconds of a day.
pub const DAY: u32 = 86_400;

/// A minute has 60 seconds, an hour 60 minutes, and a day 24 hours.
pub proof fn lemma_units_of_time()
    ensures
        MINUTE == 60,
        HOUR == 60 * MINUTE,
        DAY == 24 * HOUR,
{
}

/// Seen from the surface of Earth the Moon is about sixty radii away; it has a bit
/// more than a quarter of the radius of Earth, and less than an eightieth of its pull.
pub proof fn lemma_moon_and_earth()
    ensures
        60 * EARTH_RADIUS_M < MOON_SEMI_MAJOR_AXIS_M < 61 * EARTH_RADIUS_M,
        EARTH_RADIUS_M < 4 * MOON_RADIUS_M && 3 * MOON_RADIUS_M < EARTH_RADIUS_M,
        81 * MOON_MU_E4 < EARTH_MU_E4 < 82 * MOON_MU_E4,
{
}

} // verus!
