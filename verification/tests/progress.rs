use espresso::progress::{format_progress_line, progress_snapshot};
use std::time::Duration;

#[test]
fn progress_bar_uses_reference_fill_style() {
    let snapshot =
        progress_snapshot(Duration::from_secs(35).as_secs(), Duration::from_secs(100).as_secs(), 10);

    assert_eq!(snapshot.bar, "████░░░░░░");
    assert_eq!(snapshot.percentage_label, "35%");
    assert_eq!(snapshot.remaining_label, "1m 5s remaining");
}

#[test]
fn progress_clamps_at_complete() {
    let snapshot =
        progress_snapshot(Duration::from_secs(120).as_secs(), Duration::from_secs(100).as_secs(), 10);

    assert_eq!(snapshot.bar, "██████████");
    assert_eq!(snapshot.percentage_label, "100%");
    assert_eq!(snapshot.remaining_label, "0s remaining");
}

#[test]
fn progress_width_is_at_least_one() {
    let snapshot =
        progress_snapshot(Duration::from_secs(0).as_secs(), Duration::from_secs(10).as_secs(), 0);

    assert_eq!(snapshot.bar, "░");
}

#[test]
fn formats_hours_minutes_and_seconds_remaining() {
    let snapshot =
        progress_snapshot(Duration::from_secs(0).as_secs(), Duration::from_secs(3661).as_secs(), 10);

    assert_eq!(snapshot.remaining_label, "1h 1m 1s remaining");
}

#[test]
fn formats_single_line_progress() {
    let snapshot =
        progress_snapshot(Duration::from_secs(35).as_secs(), Duration::from_secs(100).as_secs(), 10);

    assert_eq!(
        format_progress_line(&snapshot),
        "████░░░░░░  35%  1m 5s remaining"
    );
}

// ---- more ----

#[test]
fn zero_total_is_complete() {
    let s = progress_snapshot(0, 0, 4);
    assert_eq!(s.bar, "████");
    assert_eq!(s.percentage_label, "100%");
    assert_eq!(s.remaining_label, "0s remaining");
}

#[test]
fn ratios_round_half_up() {
    // 1/8 = 12.5% -> 13%; 1/8 of 4 cells = 0.5 -> 1 cell.
    let s = progress_snapshot(1, 8, 4);
    assert_eq!(s.percentage_label, "13%");
    assert_eq!(s.bar, "█░░░");
    // 1/3 = 33.3% -> 33%.
    assert_eq!(progress_snapshot(1, 3, 3).percentage_label, "33%");
}

#[test]
fn progress_never_goes_backwards() {
    let mut last_filled = 0;
    let mut last_pct = 0;
    for e in 0..=130u64 {
        let s = progress_snapshot(e, 120, 17);
        let filled = s.bar.chars().filter(|c| *c == '█').count();
        let pct: u64 = s.percentage_label.trim_end_matches('%').parse().unwrap();
        assert!(filled >= last_filled);
        assert!(pct >= last_pct);
        assert_eq!(s.bar.chars().count(), 17);
        last_filled = filled;
        last_pct = pct;
    }
    assert_eq!(last_pct, 100);
}
