//! Client-local time baseline, the rolling 24-hour display window, and the
//! vertical positions of instants inside it. All positions are exact: they are
//! expressed in seconds of the 86400-second window, so that a percentage is
//! `100 * seconds / 86400`.

use vstd::arithmetic::div_mod::{
    lemma_fundamental_div_mod, lemma_mod_add_multiples_vanish, lemma_mod_multiples_vanish,
    lemma_small_mod,
};
use vstd::prelude::*;

verus! {

/// Seconds in one display day.
pub const SECONDS_PER_DAY: i64 = 86400;

/// Seconds in one hour.
pub const SECONDS_PER_HOUR: i64 = 3600;

/// A whole number of days larger than any `i64` timestamp plus any `i32` offset.
const DAY_SHIFT_DAYS: i128 = 1125899906842624;

const DAY_SHIFT: i128 = 97277751951202713600;

/// An absolute instant in whole seconds since the Unix epoch (UTC), together with
/// the fixed UTC offset, in seconds east of UTC, under which it is read locally.
#[derive(Clone, Copy, Debug, PartialEq, Eq, Structural)]
pub struct LocalTime {
    pub timestamp: i64,
    pub offset_seconds: i32,
}

/// Why a baseline or a window could not be computed.
#[derive(Clone, Copy, Debug, PartialEq, Eq, Structural)]
pub enum TimeError {
    /// The hour offset cannot be applied: it is not below 24, or the shifted
    /// instant leaves the representable range.
    InvalidBaseline,
    /// The window bounds leave the representable range.
    WindowOutOfRange,
}

/// Seconds elapsed since local midnight of `t` (0 ..= 86399).
pub open spec fn local_seconds(t: LocalTime) -> int {
    (t.timestamp + t.offset_seconds) % 86400
}

/// How far before `t` its baseline lies: back to local midnight, and one day
/// further when the local time is still before the offset hour.
pub open spec fn baseline_shift(t: LocalTime, offset_hours: int) -> int {
    if local_seconds(t) < offset_hours * 3600 {
        86400 + local_seconds(t)
    } else {
        local_seconds(t)
    }
}

/// The baseline of `t`: the local midnight at which the active display day's date began.
pub open spec fn baseline_of(t: LocalTime, offset_hours: int) -> LocalTime {
    LocalTime {
        timestamp: (t.timestamp - baseline_shift(t, offset_hours)) as i64,
        offset_seconds: t.offset_seconds,
    }
}

/// First instant (UTC seconds) of the display window of `baseline`.
pub open spec fn window_start(baseline: LocalTime, offset_hours: int) -> int {
    baseline.timestamp + offset_hours * 3600
}

/// End (exclusive, UTC seconds) of the display window of `baseline`.
pub open spec fn window_end(baseline: LocalTime, offset_hours: int) -> int {
    window_start(baseline, offset_hours) + 86400
}

/// Distance of the "now" marker from the bottom of the window, in seconds.
pub open spec fn timebar_seconds(t: LocalTime, offset_hours: int) -> int {
    if local_seconds(t) < offset_hours * 3600 {
        offset_hours * 3600 - local_seconds(t)
    } else {
        86400 - (local_seconds(t) - offset_hours * 3600)
    }
}

/// Seconds of the window elapsed at `t`, saturated at 0 and at 86400.
pub open spec fn elapsed_in_window(t: LocalTime, baseline: LocalTime, offset_hours: int) -> int {
    let raw = t.timestamp - window_start(baseline, offset_hours);
    if raw > 86400 {
        86400
    } else if raw < 0 {
        0
    } else {
        raw
    }
}

impl LocalTime {
    /// Seconds since local midnight.
    pub fn seconds_from_midnight(&self) -> (r: u32)
        ensures
            r == local_seconds(*self),
            r < 86400,
    {
        // Shift by a whole number of days so that the unsigned remainder can be used.
        let shifted: i128 = self.timestamp as i128 + self.offset_seconds as i128 + DAY_SHIFT;
        let r: u128 = (shifted as u128) % 86400;
        proof {
            lemma_mod_multiples_vanish(
                DAY_SHIFT_DAYS as int,
                self.timestamp + self.offset_seconds,
                86400,
            );
            assert(86400 * DAY_SHIFT_DAYS == DAY_SHIFT);
        }
        r as u32
    }
}

/// Distance of the "now" marker from the bottom of the display window, in
/// seconds out of 86400 (the percentage is `100 * r / 86400`). It falls as the
/// day advances and wraps back to the top at the offset hour.
pub fn calculate_timebar_bottom(t: LocalTime, offset: usize) -> (r: u32)
    requires
        offset < 24,
    ensures
        r == timebar_seconds(t, offset as int),
        0 < r <= 86400,
{
    let s = t.seconds_from_midnight();
    let offset_secs: u32 = offset as u32 * 3600;
    if s < offset_secs {
        offset_secs - s
    } else {
        86400 - (s - offset_secs)
    }
}

/// Seconds of the display window of `baseline` elapsed at `time`, saturated to
/// the window: 0 for instants before it, 86400 for instants after it (the
/// fraction of the window is `r / 86400`).
pub fn calculate_time_pct(time: LocalTime, baseline: LocalTime, offset: usize) -> (r: i64)
    ensures
        r == elapsed_in_window(time, baseline, offset as int),
        0 <= r <= 86400,
        time.timestamp <= window_start(baseline, offset as int) ==> r == 0,
        time.timestamp >= window_end(baseline, offset as int) ==> r == 86400,
{
    let raw: i128 = time.timestamp as i128 - baseline.timestamp as i128 - offset as i128 * 3600;
    if raw > 86400 {
        86400
    } else if raw < 0 {
        0
    } else {
        raw as i64
    }
}

/// The baseline of `time`: its local midnight when the local time has reached the
/// offset hour, else the local midnight one day earlier. The display window of the
/// baseline then holds `time`.
pub fn create_baseline(time: LocalTime, offset: usize) -> (r: Result<LocalTime, TimeError>)
    ensures
        r is Err <==> offset >= 24 || time.timestamp - baseline_shift(time, offset as int)
            < i64::MIN,
        r is Err ==> r == Err::<LocalTime, TimeError>(TimeError::InvalidBaseline),
        r matches Ok(b) ==> {
            &&& b == baseline_of(time, offset as int)
            &&& local_seconds(b) == 0
            &&& window_start(b, offset as int) <= time.timestamp < window_end(b, offset as int)
        },
{
    if offset >= 24 {
        return Err(TimeError::InvalidBaseline);
    }
    let s = time.seconds_from_midnight();
    let shift: i64 = if s < offset as u32 * 3600 {
        86400 + s as i64
    } else {
        s as i64
    };
    match time.timestamp.checked_sub(shift) {
        Some(ts) => {
            proof {
                lemma_baseline_window_holds(time, offset as int);
            }
            Ok(LocalTime { timestamp: ts, offset_seconds: time.offset_seconds })
        },
        None => Err(TimeError::InvalidBaseline),
    }
}

/// The display window `[start, end)` of `baseline`, in UTC seconds: it starts
/// `offset` hours after the baseline and lasts one day.
pub fn window_bounds(baseline: LocalTime, offset: usize) -> (r: Result<(i64, i64), TimeError>)
    ensures
        r is Err <==> window_end(baseline, offset as int) > i64::MAX,
        r is Err ==> r == Err::<(i64, i64), TimeError>(TimeError::WindowOutOfRange),
        r matches Ok(w) ==> w.0 == window_start(baseline, offset as int) && w.1 == window_end(
            baseline,
            offset as int,
        ),
{
    let start: i128 = baseline.timestamp as i128 + offset as i128 * 3600;
    if start + 86400 > i64::MAX as i128 {
        Err(TimeError::WindowOutOfRange)
    } else {
        Ok((start as i64, (start + 86400) as i64))
    }
}

/// Inside the display window of a baseline that lies at local midnight, the
/// "now" marker stands exactly as far above the bottom as the window has left
/// to run: `timebar == window_end - t`.
pub proof fn lemma_timebar_within_window(t: LocalTime, baseline: LocalTime, offset_hours: int)
    requires
        0 <= offset_hours < 24,
        t.offset_seconds == baseline.offset_seconds,
        local_seconds(baseline) == 0,
        window_start(baseline, offset_hours) <= t.timestamp < window_end(baseline, offset_hours),
    ensures
        timebar_seconds(t, offset_hours) == window_end(baseline, offset_hours) - t.timestamp,
{
    let x = baseline.timestamp + baseline.offset_seconds;
    let d = t.timestamp - baseline.timestamp;
    lemma_fundamental_div_mod(x, 86400);
    lemma_mod_multiples_vanish(x / 86400, d, 86400);
    assert(t.timestamp + t.offset_seconds == 86400 * (x / 86400) + d);
    if d >= 86400 {
        lemma_mod_add_multiples_vanish(d - 86400, 86400);
        lemma_small_mod((d - 86400) as nat, 86400);
    } else {
        lemma_small_mod(d as nat, 86400);
    }
}

/// Within one display day the "now" marker is continuous and strictly
/// decreasing: between two instants of the same window it falls by exactly the
/// number of seconds between them.
pub proof fn lemma_timebar_decreases_within_window(
    t1: LocalTime,
    t2: LocalTime,
    baseline: LocalTime,
    offset_hours: int,
)
    requires
        0 <= offset_hours < 24,
        t1.offset_seconds == baseline.offset_seconds,
        t2.offset_seconds == baseline.offset_seconds,
        local_seconds(baseline) == 0,
        window_start(baseline, offset_hours) <= t1.timestamp,
        t1.timestamp < t2.timestamp,
        t2.timestamp < window_end(baseline, offset_hours),
    ensures
        timebar_seconds(t1, offset_hours) - timebar_seconds(t2, offset_hours) == t2.timestamp
            - t1.timestamp,
        timebar_seconds(t1, offset_hours) > timebar_seconds(t2, offset_hours),
{
    lemma_timebar_within_window(t1, baseline, offset_hours);
    lemma_timebar_within_window(t2, baseline, offset_hours);
}

/// The one jump of the "now" marker is at the offset hour: there it stands at
/// the top of the window (86400), while one second earlier it stood at the
/// bottom (1).
pub proof fn lemma_timebar_wraps_at_offset(t: LocalTime, offset_hours: int)
    requires
        0 <= offset_hours < 24,
        local_seconds(t) == offset_hours * 3600,
        t.timestamp > i64::MIN,
    ensures
        timebar_seconds(t, offset_hours) == 86400,
        timebar_seconds(
            LocalTime { timestamp: (t.timestamp - 1) as i64, offset_seconds: t.offset_seconds },
            offset_hours,
        ) == 1,
{
    let x = t.timestamp + t.offset_seconds;
    let prev = LocalTime { timestamp: (t.timestamp - 1) as i64, offset_seconds: t.offset_seconds };
    lemma_fundamental_div_mod(x, 86400);
    lemma_mod_multiples_vanish(x / 86400, offset_hours * 3600 - 1, 86400);
    if offset_hours == 0 {
        lemma_mod_add_multiples_vanish(-1, 86400);
        lemma_small_mod(86399, 86400);
    } else {
        lemma_small_mod((offset_hours * 3600 - 1) as nat, 86400);
    }
}

/// The baseline of an instant lies at a local midnight, and the display window
/// that starts `offset_hours` after it holds the instant.
pub proof fn lemma_baseline_window_holds(t: LocalTime, offset_hours: int)
    requires
        0 <= offset_hours < 24,
        t.timestamp - baseline_shift(t, offset_hours) >= i64::MIN,
    ensures
        baseline_of(t, offset_hours).offset_seconds == t.offset_seconds,
        local_seconds(baseline_of(t, offset_hours)) == 0,
        window_start(baseline_of(t, offset_hours), offset_hours) <= t.timestamp < window_end(
            baseline_of(t, offset_hours),
            offset_hours,
        ),
{
    lemma_mod_multiples_vanish(-1, t.timestamp + t.offset_seconds - local_seconds(t), 86400);
    lemma_mod_multiples_vanish((t.timestamp + t.offset_seconds) / 86400, 0, 86400);
}

/// The "now" marker stands exactly as far above the bottom as the current
/// display day has left to run.
pub proof fn lemma_timebar_is_time_left_in_day(t: LocalTime, offset_hours: int)
    requires
        0 <= offset_hours < 24,
        t.timestamp - baseline_shift(t, offset_hours) >= i64::MIN,
    ensures
        timebar_seconds(t, offset_hours) == window_end(baseline_of(t, offset_hours), offset_hours)
            - t.timestamp,
{
    lemma_baseline_window_holds(t, offset_hours);
    lemma_timebar_within_window(t, baseline_of(t, offset_hours), offset_hours);
}

} // verus!
