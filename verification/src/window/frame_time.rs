//! Frame pacing: how long the last frame took, and how long to sleep so
//! that frames come at the pace that was asked for.
//!
//! Durations are whole nanoseconds. The clock is the system clock, which
//! may be set back while the program runs; a reading that lies before the
//! previous one is reported, not hidden.

use std::time::SystemTime;
use vstd::prelude::*;

verus! {

/// `std::time::SystemTime`: a reading of the system clock. It is carried
/// around as it is; nothing is known of what is inside.
#[verifier::external_type_specification]
#[verifier::external_body]
pub struct ExSystemTime(std::time::SystemTime);

/// Nanoseconds in a millisecond.
pub const NANOS_PER_MILLI: u128 = 1_000_000;

/// The clock was set back: the reading lies this far before the frame it
/// is compared with.
#[derive(Clone, Copy, Debug, PartialEq, Eq, Structural)]
pub struct ClockError {
    pub behind_nanos: u128,
}

/// `SystemTime::now`: reads the system clock. Nothing is claimed of the
/// reading.
#[verifier::external_body]
fn clock_now() -> SystemTime {
    SystemTime::now()
}

/// `SystemTime::duration_since`: the time from `earlier` to `later` in
/// nanoseconds, or, where `later` lies before `earlier`, how far before.
/// Nothing is claimed of either number.
#[verifier::external_body]
fn nanos_between(later: &SystemTime, earlier: &SystemTime) -> Result<u128, u128> {
    match later.duration_since(*earlier) {
        Ok(elapsed) => Ok(elapsed.as_nanos()),
        Err(error) => Err(error.duration().as_nanos()),
    }
}

/// When the last frame began, how long the frame before it took, and the
/// frame time that is aimed at, in milliseconds, if any.
pub struct FrameTime {
    frame_time: SystemTime,
    duration_since_last_frame: u128,
    target_frame_time: Option<u64>,
}

/// How long to sleep when a frame has taken `elapsed` nanoseconds: what is
/// left of the target, provided that a target is set, the frame did not
/// overrun it, and at least one whole millisecond is left.
pub open spec fn sleep_for(target_frame_time: Option<u64>, elapsed: u128) -> Option<u128> {
    match target_frame_time {
        Some(target) => if elapsed <= target * NANOS_PER_MILLI && target * NANOS_PER_MILLI
            - elapsed >= NANOS_PER_MILLI {
            Some((target * NANOS_PER_MILLI - elapsed) as u128)
        } else {
            None
        },
        None => None,
    }
}

impl FrameTime {
    /// The frame time that is aimed at, in milliseconds.
    pub closed spec fn target(&self) -> Option<u64> {
        self.target_frame_time
    }

    /// How long the frame before the last one took, in nanoseconds.
    pub closed spec fn since_last_frame(&self) -> u128 {
        self.duration_since_last_frame
    }

    /// When the last frame began.
    pub closed spec fn last_frame(&self) -> SystemTime {
        self.frame_time
    }

    /// Starts the clock: the first frame begins now.
    pub fn new(target_frame_time: Option<u64>) -> (frames: Self)
        ensures
            frames.target() == target_frame_time,
            frames.since_last_frame() == 0,
    {
        Self { frame_time: clock_now(), duration_since_last_frame: 0, target_frame_time }
    }

    /// Begins a frame at `now`, `elapsed` nanoseconds after the last one
    /// began, and returns the whole milliseconds in `elapsed`.
    pub fn begin_frame(&mut self, now: SystemTime, elapsed: u128) -> (millis: u128)
        ensures
            final(self).last_frame() == now,
            final(self).since_last_frame() == elapsed,
            final(self).target() == old(self).target(),
            millis == elapsed / NANOS_PER_MILLI,
    {
        self.duration_since_last_frame = elapsed;
        self.frame_time = now;
        elapsed / NANOS_PER_MILLI
    }

    /// Begins a frame now and returns the whole milliseconds that the last
    /// one took. If the clock reads earlier than when the last frame
    /// began, nothing changes and the error says by how much.
    pub fn update(&mut self) -> (r: Result<u128, ClockError>)
        ensures
            final(self).target() == old(self).target(),
            match r {
                Ok(millis) => millis == final(self).since_last_frame() / NANOS_PER_MILLI,
                Err(_) => *final(self) == *old(self),
            },
    {
        let now = clock_now();
        match nanos_between(&now, &self.frame_time) {
            Ok(elapsed) => Ok(self.begin_frame(now, elapsed)),
            Err(behind_nanos) => Err(ClockError { behind_nanos }),
        }
    }

    /// How long to sleep, given that `elapsed` nanoseconds of the frame
    /// have passed; see [`sleep_for`].
    pub fn sleep_after(&self, elapsed: u128) -> (sleep: Option<u128>)
        ensures
            sleep == sleep_for(self.target(), elapsed),
    {
        match self.target_frame_time {
            Some(target_frame_time) => {
                let target: u128 = target_frame_time as u128 * NANOS_PER_MILLI;
                if elapsed > target {
                    return None;
                }
                let duration_to_sleep = target - elapsed;
                if duration_to_sleep / NANOS_PER_MILLI > 0 {
                    Some(duration_to_sleep)
                } else {
                    None
                }
            },
            None => None,
        }
    }

    /// How long to sleep now so that the frame lasts as long as is aimed
    /// at. Without a target the clock is not read and the answer is not to
    /// sleep. If the clock reads earlier than when the frame began, the
    /// error says by how much.
    pub fn calc_sleep_duration(&self) -> (r: Result<Option<u128>, ClockError>)
        ensures
            self.target() is None ==> r == Ok::<Option<u128>, ClockError>(None),
            r matches Ok(sleep) ==> exists|elapsed: u128| sleep == sleep_for(self.target(), elapsed),
    {
        if self.target_frame_time.is_none() {
            assert(sleep_for(self.target(), 0) == None::<u128>);
            return Ok(None);
        }
        let now = clock_now();
        match nanos_between(&now, &self.frame_time) {
            Ok(elapsed) => Ok(self.sleep_after(elapsed)),
            Err(behind_nanos) => Err(ClockError { behind_nanos }),
        }
    }
}

} // verus!
