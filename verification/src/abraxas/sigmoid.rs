//! Transition windows: when the temperature moves, and between which values.
//!
//! Dusk runs from day to night, centred before sunset; dawn from night to day, centred after
//! sunrise; a manual override from its start over its duration.
use vstd::prelude::*;

use crate::abraxas::solar::SunTimes;

verus! {

/// Temperature bounds of a manual override, in kelvin.
pub const TEMP_MIN: i32 = 1000;

pub const TEMP_MAX: i32 = 25000;

/// Temperature targets, in kelvin.
pub const TEMP_DAY_CLEAR: i32 = 6500;

pub const TEMP_DAY_DARK: i32 = 4500;

pub const TEMP_NIGHT: i32 = 2900;

/// Transition windows and the distance of their midpoints from sunrise and sunset, in seconds.
pub const DAWN_DURATION_SEC: i64 = 5400;

pub const DUSK_DURATION_SEC: i64 = 10800;

pub const DAWN_OFFSET_SEC: i64 = 1800;

pub const DUSK_OFFSET_SEC: i64 = 1800;

pub const SECONDS_PER_DAY: i64 = 86400;

/// The part of the day that the temperature follows.
#[derive(Debug, Clone, Copy, PartialEq, Eq, Structural)]
pub enum SolarPhase {
    /// Within the dawn window.
    Dawn,
    /// Within the dusk window.
    Dusk,
    /// After dawn and before dusk.
    Day,
    /// Any other time.
    Night,
}

/// The distance of two instants.
pub open spec fn distance(a: int, b: int) -> int {
    if a <= b {
        b - a
    } else {
        a - b
    }
}

/// The phase `from_sunrise` seconds after sunrise and `to_sunset` seconds before sunset. Where the
/// two windows overlap, it is dawn.
pub open spec fn phase(from_sunrise: int, to_sunset: int) -> SolarPhase {
    if distance(from_sunrise, DAWN_OFFSET_SEC as int) < DAWN_DURATION_SEC / 2 {
        SolarPhase::Dawn
    } else if distance(to_sunset, DUSK_OFFSET_SEC as int) < DUSK_DURATION_SEC / 2 {
        SolarPhase::Dusk
    } else if from_sunrise > DAWN_OFFSET_SEC && to_sunset > DUSK_OFFSET_SEC {
        SolarPhase::Day
    } else {
        SolarPhase::Night
    }
}

pub fn solar_phase(from_sunrise: i64, to_sunset: i64) -> (r: SolarPhase)
    ensures
        r == phase(from_sunrise as int, to_sunset as int),
{
    let dawn_half = DAWN_DURATION_SEC / 2;
    let dusk_half = DUSK_DURATION_SEC / 2;
    if DAWN_OFFSET_SEC - dawn_half < from_sunrise && from_sunrise < DAWN_OFFSET_SEC + dawn_half {
        return SolarPhase::Dawn;
    }
    if DUSK_OFFSET_SEC - dusk_half < to_sunset && to_sunset < DUSK_OFFSET_SEC + dusk_half {
        return SolarPhase::Dusk;
    }
    if from_sunrise >= DAWN_OFFSET_SEC + dawn_half && to_sunset >= DUSK_OFFSET_SEC + dusk_half {
        return SolarPhase::Day;
    }
    SolarPhase::Night
}

/// The solar temperature. `day_temp` is the day's own, as the clouds leave it; `dawn_temp` and
/// `dusk_temp` are the points of the two curves at this instant.
pub open spec fn solar_temp(
    from_sunrise: int,
    to_sunset: int,
    day_temp: int,
    dawn_temp: int,
    dusk_temp: int,
) -> int {
    match phase(from_sunrise, to_sunset) {
        SolarPhase::Dawn => dawn_temp,
        SolarPhase::Dusk => dusk_temp,
        SolarPhase::Day => day_temp,
        SolarPhase::Night => TEMP_NIGHT as int,
    }
}

pub fn calculate_solar_temp(
    from_sunrise: i64,
    to_sunset: i64,
    day_temp: i32,
    dawn_temp: i32,
    dusk_temp: i32,
) -> (r: i32)
    ensures
        r == solar_temp(
            from_sunrise as int,
            to_sunset as int,
            day_temp as int,
            dawn_temp as int,
            dusk_temp as int,
        ),
{
    match solar_phase(from_sunrise, to_sunset) {
        SolarPhase::Dawn => dawn_temp,
        SolarPhase::Dusk => dusk_temp,
        SolarPhase::Day => day_temp,
        SolarPhase::Night => TEMP_NIGHT,
    }
}

/// Seconds since sunrise and until sunset; both 0 on a day without them.
pub open spec fn sun_distances(now: int, sun: Option<SunTimes>) -> (int, int) {
    match sun {
        Some(t) => (now - t.sunrise, t.sunset - now),
        None => (0, 0),
    }
}

pub fn distances(now: i64, sun: Option<SunTimes>) -> (r: (i64, i64))
    requires
        sun matches Some(t) ==> i64::MIN <= now - t.sunrise <= i64::MAX && i64::MIN <= t.sunset
            - now <= i64::MAX,
    ensures
        (r.0 as int, r.1 as int) == sun_distances(now as int, sun),
{
    match sun {
        Some(t) => (now - t.sunrise, t.sunset - now),
        None => (0, 0),
    }
}

/// Whether a manual transition of `duration_min` minutes that began at `start_time` is over.
pub open spec fn transition_over(start_time: int, duration_min: int, now: int) -> bool {
    now - start_time >= 60 * duration_min
}

pub fn is_transition_over(start_time: i64, duration_min: i32, now: i64) -> (r: bool)
    requires
        i64::MIN <= now - start_time <= i64::MAX,
    ensures
        r == transition_over(start_time as int, duration_min as int, now as int),
{
    now - start_time >= 60 * (duration_min as i64)
}

/// The temperature of a manual override: its target where it has no duration or is over, else the
/// point `ramp_temp` of its curve at this instant.
pub open spec fn manual_temp(
    target_temp: int,
    start_time: int,
    duration_min: int,
    now: int,
    ramp_temp: int,
) -> int {
    if duration_min <= 0 || transition_over(start_time, duration_min, now) {
        target_temp
    } else {
        ramp_temp
    }
}

pub fn calculate_manual_temp(
    target_temp: i32,
    start_time: i64,
    duration_min: i32,
    now: i64,
    ramp_temp: i32,
) -> (r: i32)
    requires
        i64::MIN <= now - start_time <= i64::MAX,
    ensures
        r == manual_temp(
            target_temp as int,
            start_time as int,
            duration_min as int,
            now as int,
            ramp_temp as int,
        ),
{
    if duration_min <= 0 {
        return target_temp;
    }
    if is_transition_over(start_time, duration_min, now) {
        return target_temp;
    }
    ramp_temp
}

/// When the window opens in which the sun's curve moves: towards night where `darkened`, else
/// towards day.
pub open spec fn window_start(sun: SunTimes, darkened: bool) -> int {
    if darkened {
        sun.sunset - (DUSK_DURATION_SEC / 2 + DUSK_OFFSET_SEC)
    } else {
        sun.sunrise - (DAWN_DURATION_SEC / 2 - DAWN_OFFSET_SEC)
    }
}

/// The next opening of that window: today's where it lies ahead, else tomorrow's; a day from now
/// where the sun does not rise and set.
pub open spec fn next_window(
    now: int,
    today: Option<SunTimes>,
    tomorrow: Option<SunTimes>,
    darkened: bool,
) -> int {
    match today {
        None => now + SECONDS_PER_DAY,
        Some(t) => if window_start(t, darkened) > now {
            window_start(t, darkened)
        } else {
            match tomorrow {
                Some(u) => window_start(u, darkened),
                None => now + SECONDS_PER_DAY,
            }
        },
    }
}

/// Times far enough from the ends of the clock that a day can be added to them and taken away.
pub open spec fn clock_in_range(t: i64) -> bool {
    -0x4000_0000_0000_0000 <= t <= 0x4000_0000_0000_0000
}

pub open spec fn sun_in_range(sun: Option<SunTimes>) -> bool {
    sun matches Some(t) ==> clock_in_range(t.sunrise) && clock_in_range(t.sunset)
}

fn window_start_of(sun: SunTimes, darkened: bool) -> (r: i64)
    requires
        clock_in_range(sun.sunrise),
        clock_in_range(sun.sunset),
    ensures
        r == window_start(sun, darkened),
{
    if darkened {
        sun.sunset - (DUSK_DURATION_SEC / 2 + DUSK_OFFSET_SEC)
    } else {
        sun.sunrise - (DAWN_DURATION_SEC / 2 - DAWN_OFFSET_SEC)
    }
}

/// The next opening of the window, from the sun's times today and tomorrow.
pub fn next_solar_window_start(
    now: i64,
    today: Option<SunTimes>,
    tomorrow: Option<SunTimes>,
    darkened: bool,
) -> (r: i64)
    requires
        clock_in_range(now),
        sun_in_range(today),
        sun_in_range(tomorrow),
    ensures
        r == next_window(now as int, today, tomorrow, darkened),
{
    let st = match today {
        Some(st) => st,
        None => return now + SECONDS_PER_DAY,
    };
    let want = window_start_of(st, darkened);
    if want > now {
        return want;
    }
    match tomorrow {
        Some(st2) => window_start_of(st2, darkened),
        None => now + SECONDS_PER_DAY,
    }
}

/// Where tomorrow's window opens a day after today's or later than now, the next opening lies
/// ahead.
pub proof fn law_next_window_is_ahead(
    now: int,
    today: Option<SunTimes>,
    tomorrow: Option<SunTimes>,
    darkened: bool,
)
    requires
        tomorrow matches Some(u) ==> window_start(u, darkened) > now,
    ensures
        next_window(now, today, tomorrow, darkened) > now,
{
}

/// Before its window opens, the solar curve stands still: outside the dawn and dusk windows the
/// solar temperature is the day's or the night's, whatever the curves say.
pub proof fn law_curve_constant_outside_windows(
    now: int,
    sun: SunTimes,
    day_temp: int,
    dawn_temp: int,
    dusk_temp: int,
)
    requires
        distance(now - sun.sunrise, DAWN_OFFSET_SEC as int) >= DAWN_DURATION_SEC / 2,
        distance(sun.sunset - now, DUSK_OFFSET_SEC as int) >= DUSK_DURATION_SEC / 2,
    ensures
        ({
            let t = solar_temp(
                now - sun.sunrise,
                sun.sunset - now,
                day_temp,
                dawn_temp,
                dusk_temp,
            );
            t == day_temp || t == TEMP_NIGHT
        }),
{
}

/// Outside the two windows the solar temperature is the day's exactly where the dawn window is past
/// and the dusk window lies ahead; before dawn's window and after dusk's it is the night's.
pub proof fn law_day_lies_between_the_windows(
    now: int,
    sun: SunTimes,
    day_temp: int,
    dawn_temp: int,
    dusk_temp: int,
)
    requires
        day_temp != TEMP_NIGHT,
    ensures
        ({
            let dawn_opens = sun.sunrise + DAWN_OFFSET_SEC - DAWN_DURATION_SEC / 2;
            let dawn_closes = sun.sunrise + DAWN_OFFSET_SEC + DAWN_DURATION_SEC / 2;
            let dusk_opens = sun.sunset - DUSK_OFFSET_SEC - DUSK_DURATION_SEC / 2;
            let dusk_closes = sun.sunset - DUSK_OFFSET_SEC + DUSK_DURATION_SEC / 2;
            let in_dawn = dawn_opens < now < dawn_closes;
            let in_dusk = dusk_opens < now < dusk_closes;
            let t = solar_temp(
                now - sun.sunrise,
                sun.sunset - now,
                day_temp,
                dawn_temp,
                dusk_temp,
            );
            &&& !in_dawn && !in_dusk ==> (t == day_temp <==> dawn_closes <= now <= dusk_opens)
            &&& !in_dawn && !in_dusk && !(dawn_closes <= now <= dusk_opens) ==> t == TEMP_NIGHT
            &&& now <= dawn_opens && now <= dusk_opens ==> t == TEMP_NIGHT
            &&& now >= dusk_closes && now >= dawn_closes ==> t == TEMP_NIGHT
            &&& in_dawn ==> t == dawn_temp
            &&& in_dusk && !in_dawn ==> t == dusk_temp
        }),
{
}

/// Each part of a day comes in turn: whoever looks later on the same day, whose windows do not
/// overlap, sees the night, the dawn, the day, the dusk and the night again, and never an earlier
/// one of them after a later one.
pub proof fn law_parts_of_a_day_follow_each_other(sun: SunTimes, early: int, late: int)
    requires
        early <= late,
        sun.sunrise + DAWN_OFFSET_SEC + DAWN_DURATION_SEC / 2 <= sun.sunset - DUSK_OFFSET_SEC
            - DUSK_DURATION_SEC / 2,
    ensures
        ({
            let a = phase(early - sun.sunrise, sun.sunset - early);
            let b = phase(late - sun.sunrise, sun.sunset - late);
            &&& a == SolarPhase::Day ==> b != SolarPhase::Dawn
            &&& a == SolarPhase::Dusk ==> b == SolarPhase::Dusk || b == SolarPhase::Night
            &&& b == SolarPhase::Dawn ==> a == SolarPhase::Dawn || a == SolarPhase::Night
            &&& b == SolarPhase::Day ==> a != SolarPhase::Dusk
            &&& a == SolarPhase::Night && early > sun.sunrise ==> b == SolarPhase::Night
            &&& b == SolarPhase::Night && late < sun.sunset - DUSK_OFFSET_SEC ==> a
                == SolarPhase::Night
        }),
{
}

/// The windows stand where their offsets and durations put them: dawn's is centred behind sunrise,
/// dusk's before sunset, and the opening that an override waits for is that of the window.
pub proof fn law_window_opens_the_curve(sun: SunTimes, now: int, darkened: bool)
    ensures
        ({
            let opens = window_start(sun, darkened);
            let p = phase(now - sun.sunrise, sun.sunset - now);
            &&& darkened ==> opens < sun.sunset && (p == SolarPhase::Dusk ==> now > opens)
            &&& darkened && opens < now < opens + DUSK_DURATION_SEC ==> p == SolarPhase::Dusk || p
                == SolarPhase::Dawn
            &&& !darkened ==> opens < sun.sunrise + DAWN_OFFSET_SEC && (p == SolarPhase::Dawn <==>
                opens < now < opens + DAWN_DURATION_SEC)
        }),
{
}

/// The opening that is waited for is today's where that lies ahead, and only else tomorrow's; where
/// the sun does not rise and set, it is a day from now.
pub proof fn law_next_window_is_an_opening(
    now: int,
    today: SunTimes,
    tomorrow: SunTimes,
    darkened: bool,
)
    ensures
        ({
            let dusk = today.sunset - DUSK_OFFSET_SEC - DUSK_DURATION_SEC / 2;
            let dawn = today.sunrise + DAWN_OFFSET_SEC - DAWN_DURATION_SEC / 2;
            let next_dusk = tomorrow.sunset - DUSK_OFFSET_SEC - DUSK_DURATION_SEC / 2;
            let next_dawn = tomorrow.sunrise + DAWN_OFFSET_SEC - DAWN_DURATION_SEC / 2;
            let next = next_window(now, Some(today), Some(tomorrow), darkened);
            &&& darkened && now < dusk ==> next == dusk
            &&& darkened && now >= dusk ==> next == next_dusk
            &&& !darkened && now < dawn ==> next == dawn
            &&& !darkened && now >= dawn ==> next == next_dawn
            &&& next > now ==> next_window(now, Some(today), None, darkened) > now
        }),
        forall|t: Option<SunTimes>| #[trigger]
            next_window(now, None, t, darkened) == now + 86400,
{
}

/// A manual transition ends at its target: from `duration_min` minutes behind its start on, and
/// for any duration that is none, the temperature is the target; before that it is the ramp's.
pub proof fn law_manual_transition_ends_at_target(
    target_temp: int,
    start_time: int,
    duration_min: int,
    now: int,
    ramp_temp: int,
)
    requires
        ramp_temp != target_temp,
    ensures
        manual_temp(target_temp, start_time, duration_min, now, ramp_temp) == target_temp <==>
            duration_min <= 0 || now >= start_time + duration_min * 60,
        manual_temp(target_temp, start_time, duration_min, now, ramp_temp) == ramp_temp <==>
            duration_min > 0 && now < start_time + duration_min * 60,
{
}

/// The two distances are of one instant: together they are the length of the day, the one is zero at
/// sunrise and grows, the other is zero at sunset and shrinks. Without a sunrise both are zero.
pub proof fn law_distances_are_of_one_instant(now: int, sun: SunTimes)
    ensures
        ({
            let (from_sunrise, to_sunset) = sun_distances(now, Some(sun));
            &&& from_sunrise + to_sunset == sun.sunset - sun.sunrise
            &&& from_sunrise >= 0 <==> now >= sun.sunrise
            &&& to_sunset >= 0 <==> now <= sun.sunset
            &&& sun_distances(now + 1, Some(sun)) == (from_sunrise + 1, to_sunset - 1)
            &&& sun_distances(now, None) == (0int, 0int)
        }),
{
}

} // verus!
