use espresso::install::{
    info_row, is_affirmative, launchd_facts, parse_launchd_print, plist_contents, should_query,
    status_report, LaunchdState, StatusFacts, LABEL, PLIST_PATH,
};
use espresso::ipc::{SessionInfo, StatusInfo};
use espresso::ui::display_width;

#[test]
fn plist_runs_the_program_as_daemon_over_the_socket() {
    let expected = r#"<?xml version="1.0" encoding="UTF-8"?>
<!DOCTYPE plist PUBLIC "-//Apple//DTD PLIST 1.0//EN" "http://www.apple.com/DTDs/PropertyList-1.0.dtd">
<plist version="1.0">
<dict>
    <key>Label</key>
    <string>local.espresso.daemon</string>
    <key>ProgramArguments</key>
    <array>
        <string>/usr/local/bin/espresso</string>
        <string>__daemon</string>
    </array>
    <key>Sockets</key>
    <dict>
        <key>Listener</key>
        <dict>
            <key>SockPathName</key>
            <string>/var/run/espresso.sock</string>
            <key>SockPathMode</key>
            <integer>438</integer>
        </dict>
    </dict>
    <key>KeepAlive</key>
    <dict>
        <key>SuccessfulExit</key>
        <false/>
    </dict>
</dict>
</plist>
"#;
    assert_eq!(plist_contents("/usr/local/bin/espresso"), expected);
    assert_eq!(LABEL, "local.espresso.daemon");
    assert_eq!(PLIST_PATH, "/Library/LaunchDaemons/local.espresso.daemon.plist");
}

#[test]
fn launchctl_print_with_pid_is_running() {
    let text = "system/local.espresso.daemon = {\n\tstate = running\n\tpid = 4242\n}\n";
    let s = parse_launchd_print(text);
    assert!(s.registered);
    assert!(s.running);
    assert_eq!(s.pid, Some(4242));
}

#[test]
fn launchctl_print_waiting_is_not_running() {
    let s = parse_launchd_print("system/x = {\n\tstate = waiting\n\tpid = abc\n}\n");
    assert!(s.registered);
    assert!(!s.running);
    assert_eq!(s.pid, None);
}

#[test]
fn launchctl_print_state_line_alone_is_running() {
    let s = parse_launchd_print("  state = running  \r\n");
    assert!(s.running);
    assert_eq!(s.pid, None);
}

#[test]
fn install_prompt_answers() {
    assert!(is_affirmative("y\n"));
    assert!(is_affirmative(" YES \n"));
    assert!(is_affirmative("Yes"));
    assert!(!is_affirmative("no\n"));
    assert!(!is_affirmative(""));
    assert!(!is_affirmative("yess"));
    assert!(!is_affirmative("y e s"));
}

#[test]
fn info_row_truncates_the_value_to_the_budget() {
    let c = info_row(10, "Installed", true, Some(PLIST_PATH.to_string()), false, 40);
    // 10 + 3 + "yes" + 3 leaves 21 columns of 40 for the path.
    assert_eq!(c.plain, "Installed    yes   /Library/LaunchDaemo…");
    assert_eq!(c.width(), 40);
    let n = info_row(10, "Registered", false, None, false, 40);
    assert_eq!(n.plain, "Registered   no");
    let m = info_row(10, "Registered", false, Some("system/x".into()), false, 40);
    assert_eq!(m.plain, "Registered   no    system/x");
}

fn facts() -> StatusFacts {
    StatusFacts {
        installed: false,
        registered: false,
        running: false,
        launchd_pid: None,
        info: None,
        sleep_disabled: false,
        use_color: false,
        term_width: 80,
        cli_version: "0.2.2".into(),
    }
}

#[test]
fn status_when_not_installed() {
    let out = status_report(&facts());
    let expected = format!(
        "╭─ Status {}╮\n│ SleepDisabled   no     │\n│ Running         no     │\n╰{}╯\n\
         ╭─ Infos {}╮\n│ Version      cli 0.2.2 │\n│ Installed    no        │\n╰{}╯\n\
         → run `espresso daemon install` (needs sudo) to enable lid-closed keep-awake\n",
        "─".repeat(15),
        "─".repeat(24),
        "─".repeat(16),
        "─".repeat(24),
    );
    assert_eq!(out, expected);
}

#[test]
fn status_with_sessions_aligns_every_box() {
    let mut f = facts();
    f.installed = true;
    f.registered = true;
    f.running = true;
    f.launchd_pid = Some(123);
    f.sleep_disabled = true;
    f.info = Some(StatusInfo {
        sessions: vec![
            SessionInfo { pid: 4821, command: "espresso -- sleep 100".into(), uptime_secs: 192 },
            SessionInfo { pid: 7, command: "espresso -- echo 你好 世界".into(), uptime_secs: 45 },
        ],
        pid: 700,
        version: "0.2.2".into(),
    });
    let out = status_report(&f);
    let widths: Vec<usize> = out.lines().map(display_width).collect();
    assert!(widths.windows(2).all(|w| w[0] == w[1]), "widths={widths:?}");
    assert!(out.contains("Running         yes   pid 123"));
    assert!(out.contains("╭─ Active Sessions (2) "));
    assert!(out.contains("│ 4821  espresso -- sleep 100"));
    assert!(out.contains("3m12s │"));
    assert!(out.contains("daemon 0.2.2 / cli 0.2.2"));
    assert!(out.contains("Registered   yes   system/local.espresso.daemon"));
    assert!(!out.contains("→ run"));
}

#[test]
fn status_rows_are_cut_to_a_narrow_terminal() {
    let mut f = facts();
    f.installed = true;
    f.term_width = 30;
    let out = status_report(&f);
    for line in out.lines() {
        assert_eq!(display_width(line), 30);
    }
    assert!(out.contains("…"));
}

#[test]
fn launchd_facts_need_the_plist_and_a_report() {
    let text = "\tstate = running\n\tpid = 9\n";
    let s = launchd_facts(true, Some(text));
    assert!(s.registered && s.running);
    assert_eq!(s.pid, Some(9));
    let n = launchd_facts(false, Some(text));
    assert!(!n.registered && !n.running && n.pid.is_none());
    let f = launchd_facts(true, None);
    assert!(!f.registered && !f.running && f.pid.is_none());
}

#[test]
fn colored_status_still_shows_the_words() {
    let mut f = facts();
    f.use_color = true;
    f.sleep_disabled = true;
    let out = status_report(&f);
    assert!(out.contains("yes"));
    assert!(out.contains("no"));
    assert!(out.contains("SleepDisabled"));
}

#[test]
fn status_queries_only_a_running_daemon() {
    assert!(should_query(&LaunchdState { registered: true, running: true, pid: Some(1) }));
    assert!(!should_query(&LaunchdState { registered: true, running: false, pid: None }));
}
