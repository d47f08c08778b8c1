//! Sunrise and sunset.
use vstd::prelude::*;

verus! {

/// When the sun rises and sets on some day, in seconds since the epoch.
#[derive(Debug, Clone, Copy, PartialEq, Eq, Structural)]
pub struct SunTimes {
    pub sunrise: i64,
    pub sunset: i64,
}

} // verus!
