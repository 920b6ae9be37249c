use gaming_calendar::time_window::{
    calculate_time_pct, calculate_timebar_bottom, create_baseline, window_bounds, LocalTime,
    TimeError,
};

const PST: i32 = -8 * 3600;

fn pst(timestamp: i64) -> LocalTime {
    LocalTime { timestamp, offset_seconds: PST }
}

#[test]
fn seconds_from_midnight_reads_local_time() {
    // 1996-12-19T16:39:57-08:00
    assert_eq!(pst(851042397).seconds_from_midnight(), 16 * 3600 + 39 * 60 + 57);
    // Before the epoch the local day is still counted forward from midnight.
    let t = LocalTime { timestamp: -1, offset_seconds: 0 };
    assert_eq!(t.seconds_from_midnight(), 86399);
}

#[test]
fn timebar_after_offset_hour() {
    // 16:39:57 local with a 6am day: 86400 - (59997 - 21600)
    assert_eq!(calculate_timebar_bottom(pst(851042397), 6), 48003);
}

#[test]
fn timebar_before_offset_hour() {
    // 03:00 local with a 6am day: 21600 - 10800
    assert_eq!(calculate_timebar_bottom(pst(850993200), 6), 10800);
}

#[test]
fn timebar_wraps_at_offset_hour() {
    // 06:00 local is the top of the window, one second earlier the bottom.
    let six = 850982400 + 6 * 3600;
    assert_eq!(calculate_timebar_bottom(pst(six), 6), 86400);
    assert_eq!(calculate_timebar_bottom(pst(six - 1), 6), 1);
}

#[test]
fn timebar_decreases_within_one_day() {
    let start = 850982400 + 6 * 3600;
    let mut previous = calculate_timebar_bottom(pst(start), 6);
    for step in 1..48 {
        let now = calculate_timebar_bottom(pst(start + step * 1800), 6);
        assert_eq!(previous - now, 1800);
        previous = now;
    }
}

#[test]
fn baseline_after_offset_is_same_midnight() {
    let b = create_baseline(pst(851042397), 6).unwrap();
    assert_eq!(b, pst(850982400));
    assert_eq!(b.seconds_from_midnight(), 0);
}

#[test]
fn baseline_before_offset_is_previous_midnight() {
    let b = create_baseline(pst(850993200), 6).unwrap();
    assert_eq!(b, pst(850896000));
}

#[test]
fn baseline_window_holds_the_instant() {
    for t in [850982400, 850993200, 851042397, 851068799] {
        let b = create_baseline(pst(t), 6).unwrap();
        let (start, end) = window_bounds(b, 6).unwrap();
        assert!(start <= t && t < end);
        assert_eq!(end - start, 86400);
    }
}

#[test]
fn baseline_rejects_offset_of_a_full_day() {
    assert_eq!(create_baseline(pst(851042397), 24), Err(TimeError::InvalidBaseline));
}

#[test]
fn baseline_rejects_instant_out_of_range() {
    let t = LocalTime { timestamp: i64::MIN, offset_seconds: 0 };
    assert_eq!(create_baseline(t, 6), Err(TimeError::InvalidBaseline));
}

#[test]
fn window_bounds_values_and_overflow() {
    assert_eq!(window_bounds(pst(850982400), 6), Ok((851004000, 851090400)));
    let late = LocalTime { timestamp: i64::MAX - 1000, offset_seconds: 0 };
    assert_eq!(window_bounds(late, 0), Err(TimeError::WindowOutOfRange));
}

#[test]
fn time_pct_inside_window() {
    let b = pst(850982400);
    // 18:00 local is 12 hours into a 6am window.
    assert_eq!(calculate_time_pct(pst(850982400 + 18 * 3600), b, 6), 43200);
}

#[test]
fn time_pct_saturates_outside_window() {
    let b = pst(850982400);
    assert_eq!(calculate_time_pct(pst(850982400 + 3600), b, 6), 0);
    assert_eq!(calculate_time_pct(pst(850982400 + 6 * 3600), b, 6), 0);
    assert_eq!(calculate_time_pct(pst(850982400 + 30 * 3600), b, 6), 86400);
    assert_eq!(calculate_time_pct(pst(850982400 + 40 * 3600), b, 6), 86400);
    assert_eq!(calculate_time_pct(pst(i64::MIN), pst(i64::MAX), 6), 0);
}
