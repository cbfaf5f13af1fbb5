use espresso::refcount::Action::{
    CancelGraceTimer, Exit, SetSleepDisabled, StartGraceTimer, StartLidWatch, StopLidWatch,
};
use espresso::refcount::RefcountState;

#[test]
fn first_hold_enables_and_watches() {
    let mut s = RefcountState::new();
    assert_eq!(s.on_hold_open(), vec![SetSleepDisabled(true), StartLidWatch]);
    assert_eq!(s.count(), 1);
}

#[test]
fn second_hold_is_noop() {
    let mut s = RefcountState::new();
    s.on_hold_open();
    assert_eq!(s.on_hold_open(), vec![]);
    assert_eq!(s.count(), 2);
}

#[test]
fn last_close_disables_and_starts_grace() {
    let mut s = RefcountState::new();
    s.on_hold_open();
    assert_eq!(
        s.on_hold_close(),
        vec![SetSleepDisabled(false), StopLidWatch, StartGraceTimer]
    );
    assert_eq!(s.count(), 0);
}

#[test]
fn non_last_close_is_noop() {
    let mut s = RefcountState::new();
    s.on_hold_open();
    s.on_hold_open();
    assert_eq!(s.on_hold_close(), vec![]);
    assert_eq!(s.count(), 1);
}

#[test]
fn grace_elapsed_at_zero_exits() {
    let mut s = RefcountState::new();
    s.on_hold_open();
    s.on_hold_close();
    assert_eq!(s.on_grace_elapsed(), vec![Exit]);
}

#[test]
fn hold_during_grace_cancels_and_reenables() {
    let mut s = RefcountState::new();
    s.on_hold_open();
    s.on_hold_close(); // enters grace
    assert_eq!(
        s.on_hold_open(),
        vec![CancelGraceTimer, SetSleepDisabled(true), StartLidWatch]
    );
    // A stale grace-elapsed after re-enable must be ignored.
    assert_eq!(s.on_grace_elapsed(), vec![]);
}

#[test]
fn over_close_from_zero_is_noop() {
    let mut s = RefcountState::new();
    assert_eq!(s.on_hold_close(), vec![]);
    assert_eq!(s.count(), 0);
}

#[test]
fn double_close_after_last_is_noop() {
    let mut s = RefcountState::new();
    s.on_hold_open();
    assert_eq!(
        s.on_hold_close(),
        vec![SetSleepDisabled(false), StopLidWatch, StartGraceTimer]
    );
    assert_eq!(s.on_hold_close(), vec![]);
    assert_eq!(s.count(), 0);
}

#[test]
fn grace_elapsed_then_reopen_is_clean() {
    let mut s = RefcountState::new();
    s.on_hold_open();
    s.on_hold_close(); // enters grace
    assert_eq!(s.on_grace_elapsed(), vec![Exit]);
    assert_eq!(s.on_grace_elapsed(), vec![]);
}

#[test]
fn begin_idle_then_grace_exits() {
    let mut s = RefcountState::new();
    assert_eq!(s.begin_idle(), vec![StartGraceTimer]);
    assert_eq!(s.count(), 0);
    assert_eq!(s.on_grace_elapsed(), vec![Exit]);
}

#[test]
fn begin_idle_then_hold_cancels() {
    let mut s = RefcountState::new();
    s.begin_idle();
    assert_eq!(
        s.on_hold_open(),
        vec![CancelGraceTimer, SetSleepDisabled(true), StartLidWatch]
    );
    // A stale grace-elapsed from the startup timer must be ignored.
    assert_eq!(s.on_grace_elapsed(), vec![]);
}

// ---- laws on concrete values ----

#[test]
fn open_then_close_restores_the_count() {
    let mut s = RefcountState::new();
    s.on_hold_open();
    s.on_hold_open();
    s.on_hold_open();
    s.on_hold_close();
    assert_eq!(s.count(), 2);
}

#[test]
fn new_state_is_quiet() {
    let mut s = RefcountState::new();
    assert_eq!(s.count(), 0);
    assert_eq!(s.on_grace_elapsed(), vec![]);
    let d = RefcountState::default();
    assert_eq!(d.count(), 0);
}

#[test]
fn sleep_disabled_exactly_while_holds_are_open() {
    // Every enable is matched by one disable over a sequence of holds.
    let mut s = RefcountState::new();
    let mut enabled = false;
    for step in [true, true, false, true, false, false, true, false] {
        let actions = if step { s.on_hold_open() } else { s.on_hold_close() };
        for a in actions {
            if let SetSleepDisabled(v) = a {
                assert_ne!(v, enabled);
                enabled = v;
            }
        }
        assert_eq!(enabled, s.count() > 0);
    }
}
