//! Basic value types: timestamps, planar vectors and the per-player state.

use std::time::Duration;
use std::time::SystemTime;
use std::time::UNIX_EPOCH;
use vstd::prelude::*;

use crate::fixed::saturate;
use crate::fixed::saturate_to_i64;
use crate::fixed::scale_component;
use crate::fixed::scaled;

verus! {

/// The whole microseconds that a `Duration` spans, as `Duration::as_micros`
/// reports them.
pub uninterp spec fn duration_micros(d: Duration) -> nat;

/// Calls `Duration::from_millis`. The contract claims that the duration made
/// spans exactly the milliseconds given, that is a thousand microseconds each.
#[verifier::external_body]
pub(crate) fn duration_from_millis(millis: u64) -> (d: Duration)
    ensures
        duration_micros(d) == millis * 1000,
{
    Duration::from_millis(millis)
}

/// Calls `Duration::as_micros`. The contract claims that the number returned
/// is the count of whole microseconds in the duration.
#[verifier::external_body]
pub(crate) fn duration_as_micros(d: Duration) -> (micros: u128)
    ensures
        micros == duration_micros(d),
{
    d.as_micros()
}

/// The system's clock reading, opaque to the library.
#[verifier::external_type_specification]
#[verifier::external_body]
pub struct ExSystemTime(SystemTime);

/// Calls `SystemTime::now`. Nothing is claimed of the reading: it depends on
/// when the call is made.
#[verifier::external_body]
fn system_time_now() -> (reading: SystemTime) {
    SystemTime::now()
}

/// Calls `SystemTime::duration_since` with the Unix epoch as the earlier
/// time, and gives the duration back where the call succeeds. Nothing is
/// claimed of the result: the reading is opaque.
#[verifier::external_body]
fn time_since_epoch(reading: SystemTime) -> (since: Option<Duration>) {
    match reading.duration_since(UNIX_EPOCH) {
        Ok(duration) => Some(duration),
        Err(_) => None,
    }
}

/// The milliseconds since the epoch that a clock reading stands for: the
/// whole milliseconds of the time past the epoch, held to the range of 64
/// bits, and zero for a reading before the epoch.
pub open spec fn millis_of_reading(since: Option<Duration>) -> nat {
    match since {
        Some(duration) => {
            let millis = duration_micros(duration) / 1000;
            if millis > u64::MAX {
                u64::MAX as nat
            } else {
                millis
            }
        },
        None => 0,
    }
}

/// Milliseconds since the Unix epoch.
#[derive(Clone, Copy, Debug, Default)]
pub struct Timestamp(u64);

impl View for Timestamp {
    type V = nat;

    closed spec fn view(&self) -> nat {
        self.0 as nat
    }
}

impl Timestamp {
    /// The current wall-clock time: the timestamp of what the clock reads.
    /// The reading is the clock's; how it becomes a timestamp is
    /// `millis_of_reading`.
    pub fn now() -> (t: Self)
        ensures
            exists|since: Option<Duration>| t@ == #[trigger] millis_of_reading(since),
    {
        let since = time_since_epoch(system_time_now());
        let t = Timestamp::from_reading(since);
        assert(t@ == millis_of_reading(since));
        t
    }

    /// The timestamp of a clock reading, given as the time that the clock
    /// is past the epoch, or as nothing where it reads a time before the
    /// epoch.
    pub fn from_reading(since: Option<Duration>) -> (t: Self)
        ensures
            t@ == millis_of_reading(since),
    {
        match since {
            Some(since) => {
                let millis = duration_as_micros(since) / 1000;
                if millis > u64::MAX as u128 {
                    Timestamp(u64::MAX)
                } else {
                    Timestamp(millis as u64)
                }
            },
            None => Timestamp(0),
        }
    }

    /// The timestamp that lies `millis` milliseconds after the epoch.
    pub fn from_millis(millis: u64) -> (t: Self)
        ensures
            t@ == millis,
    {
        Timestamp(millis)
    }

    /// Milliseconds since the epoch.
    pub fn as_millis(&self) -> (millis: u64)
        ensures
            millis == self@,
    {
        self.0
    }

    /// The time that has passed from `other` to `self`, zero if `other` is the later one.
    pub fn duration_since(&self, other: &Timestamp) -> (d: Duration)
        ensures
            duration_micros(d) == 1000 * (if self@ >= other@ {
                self@ - other@
            } else {
                0
            }),
    {
        duration_from_millis(self.0.saturating_sub(other.0))
    }
}

impl Timestamp {
    /// The time that has passed since `self`, by the wall clock: a whole
    /// number of milliseconds, which the clock decides.
    pub fn elapsed(&self) -> (d: Duration)
        ensures
            exists|now: Timestamp|
                duration_micros(d) == 1000 * (if now@ >= self@ {
                    now@ - self@
                } else {
                    0
                }),
    {
        let now = Timestamp::now();
        now.duration_since(self)
    }
}

/// A point or a displacement in the plane, in fixed-point sub-units.
#[derive(Clone, Copy, Debug, Default, PartialEq, Eq, Structural)]
pub struct Vector2 {
    pub x: i64,
    pub y: i64,
}

impl Vector2 {
    /// The componentwise sum, each component saturating at the range of `i64`.
    pub fn add(&self, other: &Vector2) -> (sum: Vector2)
        ensures
            sum.x == saturate(self.x + other.x),
            sum.y == saturate(self.y + other.y),
    {
        Vector2 {
            x: saturate_to_i64(self.x as i128 + other.x as i128),
            y: saturate_to_i64(self.y as i128 + other.y as i128),
        }
    }

    /// Each component multiplied by the fixed-point `factor`, rounded toward
    /// zero and saturating at the range of `i64`.
    pub fn scale(&self, factor: i64) -> (product: Vector2)
        ensures
            product.x == saturate(scaled(self.x as int, factor as int)),
            product.y == saturate(scaled(self.y as int, factor as int)),
    {
        Vector2 { x: scale_component(self.x, factor), y: scale_component(self.y, factor) }
    }
}

/// Where a player is, how fast it moves, and when that was last computed.
#[derive(Clone, Copy, Debug, Default)]
pub struct PlayerState {
    pub position: Vector2,
    pub velocity: Vector2,
    pub last_update: Timestamp,
}

impl View for PlayerState {
    type V = PlayerState;

    /// A player's state is plain data: it stands for itself.
    open spec fn view(&self) -> PlayerState {
        *self
    }
}

} // verus!
