use espresso::daemon::{Coordinator, DaemonEffect, DaemonEvent, LidWatch};
use espresso::ipc::{SessionInfo, StatusInfo};

/// One second on the daemon clock, which counts nanoseconds.
const S: u64 = 1_000_000_000;

fn hold(id: u64, pid: u32, command: &str) -> DaemonEvent {
    DaemonEvent::HoldOpened { id, pid, command: command.to_string() }
}

#[test]
fn start_arms_the_idle_clock() {
    let (c, effects) = Coordinator::start(77, "0.2.2".into());
    assert_eq!(effects, vec![DaemonEffect::StartGraceTimer { generation: 1 }]);
    assert_eq!(c.hold_count(), 0);
    assert_eq!(c.generation(), 1);
    assert_eq!(c.clock(), 0);
}

#[test]
fn idle_daemon_exits_after_grace() {
    let (mut c, _) = Coordinator::start(77, "0.2.2".into());
    assert_eq!(c.step(DaemonEvent::GraceElapsed { generation: 1 }, 60 * S), vec![DaemonEffect::Exit]);
}

#[test]
fn a_hold_cancels_the_startup_timer() {
    let (mut c, _) = Coordinator::start(77, "0.2.2".into());
    assert_eq!(
        c.step(hold(1, 100, "espresso -t 60"), 5 * S),
        vec![DaemonEffect::SetSleepDisabled(true), DaemonEffect::StartLidWatch]
    );
    assert_eq!(c.generation(), 2);
    // The startup timer fires later: stale, ignored.
    assert_eq!(c.step(DaemonEvent::GraceElapsed { generation: 1 }, 60 * S), vec![]);
    assert_eq!(c.hold_count(), 1);
}

#[test]
fn query_reports_sessions_oldest_first_with_uptime() {
    let (mut c, _) = Coordinator::start(77, "0.2.2".into());
    c.step(hold(1, 100, "espresso -t 60"), 5 * S);
    c.step(hold(2, 200, "espresso -- make"), 8 * S);
    let effects = c.step(DaemonEvent::Query, 10 * S);
    assert_eq!(
        effects,
        vec![DaemonEffect::Reply(StatusInfo {
            sessions: vec![
                SessionInfo { pid: 100, command: "espresso -t 60".into(), uptime_secs: 5 },
                SessionInfo { pid: 200, command: "espresso -- make".into(), uptime_secs: 2 },
            ],
            pid: 77,
            version: "0.2.2".into(),
        })]
    );
    assert_eq!(c.hold_count(), 2);
}

#[test]
fn closing_a_hold_drops_its_session() {
    let (mut c, _) = Coordinator::start(77, "0.2.2".into());
    c.step(hold(1, 100, "a"), 1 * S);
    c.step(hold(2, 200, "b"), 2 * S);
    assert_eq!(c.step(DaemonEvent::HoldClosed { id: 1 }, 3 * S), vec![]);
    let effects = c.step(DaemonEvent::Query, 4 * S);
    assert_eq!(
        effects,
        vec![DaemonEffect::Reply(StatusInfo {
            sessions: vec![SessionInfo { pid: 200, command: "b".into(), uptime_secs: 2 }],
            pid: 77,
            version: "0.2.2".into(),
        })]
    );
}

#[test]
fn last_close_starts_a_new_grace_generation_then_exits() {
    let (mut c, _) = Coordinator::start(77, "0.2.2".into());
    c.step(hold(1, 100, "a"), 1 * S);
    assert_eq!(
        c.step(DaemonEvent::HoldClosed { id: 1 }, 2 * S),
        vec![
            DaemonEffect::SetSleepDisabled(false),
            DaemonEffect::StopLidWatch,
            DaemonEffect::StartGraceTimer { generation: 3 },
        ]
    );
    assert_eq!(c.step(DaemonEvent::GraceElapsed { generation: 3 }, 62 * S), vec![DaemonEffect::Exit]);
}

#[test]
fn reopen_during_grace_makes_the_timer_stale() {
    let (mut c, _) = Coordinator::start(77, "0.2.2".into());
    c.step(hold(1, 100, "a"), 1 * S);
    c.step(DaemonEvent::HoldClosed { id: 1 }, 2 * S);
    assert_eq!(
        c.step(hold(2, 101, "b"), 3 * S),
        vec![DaemonEffect::SetSleepDisabled(true), DaemonEffect::StartLidWatch]
    );
    assert_eq!(c.step(DaemonEvent::GraceElapsed { generation: 3 }, 62 * S), vec![]);
    assert_eq!(c.hold_count(), 1);
}

#[test]
fn query_changes_nothing() {
    let (mut c, _) = Coordinator::start(77, "0.2.2".into());
    c.step(hold(1, 100, "a"), 1 * S);
    let g = c.generation();
    c.step(DaemonEvent::Query, 2 * S);
    assert_eq!(c.generation(), g);
    assert_eq!(c.hold_count(), 1);
}

#[test]
fn lid_watch_sleeps_the_display_once_per_close() {
    let mut w = LidWatch::new();
    assert!(!w.observe(false));
    assert!(w.observe(true));
    assert!(!w.observe(true));
    assert!(!w.observe(false));
    assert!(w.observe(true));
}

#[test]
fn uptime_counts_whole_seconds_elapsed() {
    let (mut c, _) = Coordinator::start(77, "0.2.2".into());
    c.step(hold(1, 100, "a"), 900_000_000);
    let effects = c.step(DaemonEvent::Query, 1_800_000_000);
    assert_eq!(
        effects,
        vec![DaemonEffect::Reply(StatusInfo {
            sessions: vec![SessionInfo { pid: 100, command: "a".into(), uptime_secs: 0 }],
            pid: 77,
            version: "0.2.2".into(),
        })]
    );
    let effects = c.step(DaemonEvent::Query, 1_900_000_000);
    assert!(matches!(&effects[0], DaemonEffect::Reply(i) if i.sessions[0].uptime_secs == 1));
}

#[test]
fn effects_alternate_over_a_run_and_only_the_latest_timer_counts() {
    let (mut c, first) = Coordinator::start(77, "0.2.2".into());
    let mut all = first;
    let events = vec![
        hold(1, 10, "a"),
        hold(2, 11, "b"),
        DaemonEvent::HoldClosed { id: 1 },
        DaemonEvent::HoldClosed { id: 2 },
        hold(3, 12, "c"),
        DaemonEvent::HoldClosed { id: 3 },
        DaemonEvent::Query,
    ];
    for (k, e) in events.into_iter().enumerate() {
        all.extend(c.step(e, k as u64 * S));
    }
    let mut sleep = false;
    let mut lid = false;
    let mut gens = Vec::new();
    for e in &all {
        match e {
            DaemonEffect::SetSleepDisabled(v) => {
                assert_ne!(*v, sleep);
                sleep = *v;
            }
            DaemonEffect::StartLidWatch => {
                assert!(!lid);
                lid = true;
            }
            DaemonEffect::StopLidWatch => {
                assert!(lid);
                lid = false;
            }
            DaemonEffect::StartGraceTimer { generation } => gens.push(*generation),
            DaemonEffect::Exit => assert!(!sleep),
            DaemonEffect::Reply(_) => {}
        }
    }
    assert!(!sleep && !lid);
    assert!(gens.windows(2).all(|w| w[0] < w[1]));
    let latest = *gens.last().unwrap();
    for g in gens.iter().filter(|g| **g != latest) {
        assert_eq!(c.step(DaemonEvent::GraceElapsed { generation: *g }, 100 * S), vec![]);
    }
    assert_eq!(
        c.step(DaemonEvent::GraceElapsed { generation: latest }, 160 * S),
        vec![DaemonEffect::Exit]
    );
}
