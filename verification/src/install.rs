//! The LaunchDaemon side: the plist that gives `launchd` socket activation
//! over `/var/run/espresso.sock`, reading `launchctl print`, the
//! install prompt's answer, and the `daemon status` report, laid out as
//! rounded boxes (Status, Active Sessions when there are any, Infos) that
//! share one inner width.
use vstd::prelude::*;
use crate::ipc::{SessionInfo, SessionModel, StatusInfo, StatusModel};
use crate::text::{
    chars_of, dec, extend, extend_str, lines, match_at, parse_u32, parse_unsigned_chars, push_dec, split_lines,
    string_of, strip_prefix, strip_prefix_str, trim, trim_chars,
};
use crate::ui::{
    box_rows, box_text, displays, cell_models, painted, display_width, joined, monus, render_box, repeat, str_width, truncate,
    truncated, uptime_text, yesno, yesno_word, Cell, CellModel, format_uptime,
};

verus! {

pub const LABEL: &'static str = "local.espresso.daemon";

pub const PLIST_PATH: &'static str = "/Library/LaunchDaemons/local.espresso.daemon.plist";

// ---------------------------------------------------------------------------
// The plist
// ---------------------------------------------------------------------------

pub open spec fn plist_head() -> Seq<char> {
    "<?xml version=\"1.0\" encoding=\"UTF-8\"?>
<!DOCTYPE plist PUBLIC \"-//Apple//DTD PLIST 1.0//EN\" \"http://www.apple.com/DTDs/PropertyList-1.0.dtd\">
<plist version=\"1.0\">
<dict>
    <key>Label</key>
    <string>local.espresso.daemon</string>
    <key>ProgramArguments</key>
    <array>
        <string>"@
}

pub open spec fn plist_tail() -> Seq<char> {
    "</string>
        <string>__daemon</string>
    </array>
    <key>Sockets</key>
    <dict>
        <key>Listener</key>
        <dict>
            <key>SockPathName</key>
            <string>/var/run/espresso.sock</string>
            <key>SockPathMode</key>
            <integer>438</integer>
        </dict>
    </dict>
    <key>KeepAlive</key>
    <dict>
        <key>SuccessfulExit</key>
        <false/>
    </dict>
</dict>
</plist>
"@
}

/// The LaunchDaemon plist that runs `<program> __daemon` on demand.
pub fn plist_contents(program: &str) -> (r: String)
    ensures
        r@ == plist_head() + program@ + plist_tail(),
{
    let mut out: Vec<char> = Vec::new();
    extend_str(
        &mut out,
        "<?xml version=\"1.0\" encoding=\"UTF-8\"?>
<!DOCTYPE plist PUBLIC \"-//Apple//DTD PLIST 1.0//EN\" \"http://www.apple.com/DTDs/PropertyList-1.0.dtd\">
<plist version=\"1.0\">
<dict>
    <key>Label</key>
    <string>local.espresso.daemon</string>
    <key>ProgramArguments</key>
    <array>
        <string>",
    );
    extend_str(&mut out, program);
    extend_str(
        &mut out,
        "</string>
        <string>__daemon</string>
    </array>
    <key>Sockets</key>
    <dict>
        <key>Listener</key>
        <dict>
            <key>SockPathName</key>
            <string>/var/run/espresso.sock</string>
            <key>SockPathMode</key>
            <integer>438</integer>
        </dict>
    </dict>
    <key>KeepAlive</key>
    <dict>
        <key>SuccessfulExit</key>
        <false/>
    </dict>
</dict>
</plist>
",
    );
    string_of(&out)
}

// ---------------------------------------------------------------------------
// launchctl print
// ---------------------------------------------------------------------------

/// What `launchctl print system/<LABEL>` tells of a registered job.
#[derive(Debug, Clone, Copy, PartialEq, Eq)]
pub struct LaunchdState {
    pub registered: bool,
    pub running: bool,
    pub pid: Option<u32>,
}

/// Folds the lines of the report: a `pid = <n>` line gives the pid and
/// means running, as does a `state = running` line (lines are trimmed).
pub open spec fn launchd_scan(ls: Seq<Seq<char>>, running: bool, pid: Option<u32>) -> (bool, Option<u32>)
    decreases ls.len(),
{
    if ls.len() == 0 {
        (running, pid)
    } else {
        let line = trim(ls[0]);
        let rest = ls.drop_first();
        match strip_prefix(line, "pid = "@) {
            Some(v) => match parse_u32(trim(v)) {
                Some(n) => launchd_scan(rest, true, Some(n)),
                None => launchd_scan(rest, running, pid),
            },
            None => if line == "state = running"@ {
                launchd_scan(rest, true, pid)
            } else {
                launchd_scan(rest, running, pid)
            },
        }
    }
}

/// The state read from the output of a successful `launchctl print`.
pub fn parse_launchd_print(text: &str) -> (s: LaunchdState)
    ensures
        s.registered,
        (s.running, s.pid) == launchd_scan(lines(text@), false, None),
{
    let v = chars_of(text);
    let ls = split_lines(&v);
    let mut running = false;
    let mut pid: Option<u32> = None;
    let mut i: usize = 0;
    let ghost lv = crate::text::views(ls@);
    assert(lv.skip(0) =~= lv);
    while i < ls.len()
        invariant
            i <= ls.len(),
            lv == crate::text::views(ls@),
            launchd_scan(lv, false, None) == launchd_scan(lv.skip(i as int), running, pid),
        decreases ls.len() - i,
    {
        let ghost rest = lv.skip(i as int);
        assert(rest[0] == ls@[i as int]@);
        assert(rest.drop_first() =~= lv.skip(i + 1));
        let line = trim_chars(&ls[i]);
        match strip_prefix_str(&line, "pid = ") {
            Some(value) => {
                let value = trim_chars(&value);
                match parse_unsigned_chars(&value, 0xffff_ffffu64) {
                    Some(n) => {
                        pid = Some(n as u32);
                        running = true;
                    },
                    None => {},
                }
            },
            None => {
                if crate::text::same_str(&line, "state = running") {
                    running = true;
                }
            },
        }
        i = i + 1;
    }
    assert(lv.skip(i as int) =~= Seq::<Seq<char>>::empty());
    LaunchdState { registered: true, running, pid }
}

/// Whether `daemon status` asks the daemon for its sessions: only when
/// launchd already reports a running instance, so the query reaches that
/// daemon and never socket-activates a new one.
pub fn should_query(s: &LaunchdState) -> (r: bool)
    ensures
        r == s.running,
{
    s.running
}

/// The launchd facts `daemon status` shows: nothing is registered or
/// running when the plist is absent or `launchctl print` failed (`None`);
/// otherwise they are read from its output.
pub fn launchd_facts(installed: bool, print_output: Option<&str>) -> (s: LaunchdState)
    ensures
        match print_output {
            Some(text) if installed => s.registered && (s.running, s.pid) == launchd_scan(
                lines(text@),
                false,
                None,
            ),
            _ => !s.registered && !s.running && s.pid is None,
        },
{
    match print_output {
        Some(text) if installed => parse_launchd_print(text),
        _ => LaunchdState { registered: false, running: false, pid: None },
    }
}

// ---------------------------------------------------------------------------
// The install prompt
// ---------------------------------------------------------------------------

pub open spec fn ascii_lower(c: char) -> char {
    if 'A' <= c && c <= 'Z' {
        ((c as int) + 32) as char
    } else {
        c
    }
}

/// Whether the answer to the install prompt is yes: `y` or `yes`, in any
/// case, surrounded by any whitespace.
pub open spec fn affirmative(answer: Seq<char>) -> bool {
    let t = trim(answer).map_values(|c: char| ascii_lower(c));
    t == "y"@ || t == "yes"@
}

pub fn is_affirmative(answer: &str) -> (r: bool)
    ensures
        r == affirmative(answer@),
{
    let v = chars_of(answer);
    let t = trim_chars(&v);
    let mut lower: Vec<char> = Vec::new();
    let mut i: usize = 0;
    while i < t.len()
        invariant
            i <= t.len(),
            lower@ == t@.take(i as int).map_values(|c: char| ascii_lower(c)),
        decreases t.len() - i,
    {
        let c = t[i];
        let l = if 'A' <= c && c <= 'Z' {
            match c {
                'A' => 'a', 'B' => 'b', 'C' => 'c', 'D' => 'd', 'E' => 'e', 'F' => 'f', 'G' => 'g',
                'H' => 'h', 'I' => 'i', 'J' => 'j', 'K' => 'k', 'L' => 'l', 'M' => 'm', 'N' => 'n',
                'O' => 'o', 'P' => 'p', 'Q' => 'q', 'R' => 'r', 'S' => 's', 'T' => 't', 'U' => 'u',
                'V' => 'v', 'W' => 'w', 'X' => 'x', 'Y' => 'y', _ => 'z',
            }
        } else {
            c
        };
        assert(l == ascii_lower(c));
        lower.push(l);
        i = i + 1;
        assert(lower@ =~= t@.take(i as int).map_values(|c: char| ascii_lower(c)));
    }
    assert(t@.take(i as int) =~= t@);
    crate::text::same_str(&lower, "y") || crate::text::same_str(&lower, "yes")
}

// ---------------------------------------------------------------------------
// The status report
// ---------------------------------------------------------------------------

/// What `daemon status` reports: the install and launchd facts, the daemon's
/// reply if it was queried, the system `SleepDisabled` flag, whether to use
/// color, the terminal width and the CLI's version.
pub struct StatusFacts {
    pub installed: bool,
    pub registered: bool,
    pub running: bool,
    pub launchd_pid: Option<u32>,
    pub info: Option<StatusInfo>,
    pub sleep_disabled: bool,
    pub use_color: bool,
    pub term_width: usize,
    pub cli_version: String,
}

pub open spec fn pad_to(s: Seq<char>, w: nat) -> Seq<char> {
    s + repeat(' ', monus(w, s.len()))
}

pub open spec fn plain_cell(s: Seq<char>) -> CellModel {
    CellModel { plain: s, display: s }
}

pub open spec fn token(v: bool, yes: CellModel, no: CellModel) -> CellModel {
    if v {
        yes
    } else {
        no
    }
}

pub open spec fn width_of(s: Seq<char>) -> nat {
    str_width(s) as nat
}

/// One Infos row: the label padded to `label_col`, the yes/no token, then
/// the value, if any, cut to what is left of `max_inner`.
pub open spec fn info_row_model(
    label_col: nat,
    label: Seq<char>,
    flag: bool,
    value: Option<Seq<char>>,
    tok: CellModel,
    max_inner: nat,
) -> CellModel {
    let base = seq![plain_cell(pad_to(label, label_col)), plain_cell("   "@), tok];
    match value {
        None => joined(base),
        Some(v) => {
            let gap = if flag {
                "   "@
            } else {
                "    "@
            };
            let prefix_w = label_col + 3 + (if flag {
                3nat
            } else {
                2nat
            }) + gap.len();
            joined(base + seq![plain_cell(gap), plain_cell(truncated(v, monus(max_inner, prefix_w)))])
        },
    }
}

pub open spec fn status_rows(
    sleep_disabled: bool,
    running: bool,
    pid: Option<u32>,
    yes: CellModel,
    no: CellModel,
) -> Seq<CellModel> {
    let running_parts = seq![
        plain_cell(pad_to("Running"@, 13)),
        plain_cell("   "@),
        token(running, yes, no),
    ];
    seq![
        joined(
            seq![
                plain_cell(pad_to("SleepDisabled"@, 13)),
                plain_cell("   "@),
                token(sleep_disabled, yes, no),
            ],
        ),
        joined(
            if running && pid is Some {
                running_parts + seq![plain_cell("   pid "@ + dec(pid->0 as nat))]
            } else {
                running_parts
            },
        ),
    ]
}

pub open spec fn version_text(daemon_version: Option<Seq<char>>, cli_version: Seq<char>) -> Seq<char> {
    match daemon_version {
        Some(v) => "daemon "@ + v + " / cli "@ + cli_version,
        None => "cli "@ + cli_version,
    }
}

pub open spec fn infos_rows(
    installed: bool,
    registered: bool,
    version: Seq<char>,
    yes: CellModel,
    no: CellModel,
    max_inner: nat,
) -> Seq<CellModel> {
    let first = seq![
        joined(seq![plain_cell(pad_to("Version"@, 10)), plain_cell("   "@), plain_cell(version)]),
        info_row_model(
            10,
            "Installed"@,
            installed,
            if installed {
                Some(PLIST_PATH@)
            } else {
                None
            },
            token(installed, yes, no),
            max_inner,
        ),
    ];
    if installed {
        first.push(
            info_row_model(
                10,
                "Registered"@,
                registered,
                Some("system/"@ + LABEL@),
                token(registered, yes, no),
                max_inner,
            ),
        )
    } else {
        first
    }
}

/// The widest of some widths (0 for none).
pub open spec fn max_of(ws: Seq<nat>) -> nat
    decreases ws.len(),
{
    if ws.len() == 0 {
        0
    } else {
        let m = max_of(ws.drop_last());
        if ws.last() > m {
            ws.last()
        } else {
            m
        }
    }
}

pub open spec fn row_widths(rows: Seq<CellModel>) -> Seq<nat> {
    rows.map_values(|c: CellModel| width_of(c.plain))
}

pub open spec fn pid_column(ss: Seq<SessionModel>) -> nat {
    max_of(ss.map_values(|s: SessionModel| width_of(dec(s.pid as nat))))
}

pub open spec fn session_natural(ss: Seq<SessionModel>, pid_col: nat) -> nat {
    max_of(
        ss.map_values(
            |s: SessionModel|
                pid_col + 2 + width_of(s.command) + 2 + width_of(uptime_text(s.uptime_secs as nat)),
        ),
    )
}

pub open spec fn sessions_title(n: nat) -> Seq<char> {
    "Active Sessions ("@ + dec(n) + ")"@
}

pub open spec fn max_inner_for(term: nat) -> nat {
    let m = monus(term, 4);
    if m > 20 {
        m
    } else {
        20
    }
}

pub open spec fn session_row(s: SessionModel, pid_col: nat, inner: nat) -> CellModel {
    let prefix = pad_to(dec(s.pid as nat), pid_col) + "  "@;
    let up = uptime_text(s.uptime_secs as nat);
    let budget = monus(inner, width_of(prefix) + width_of(up) + 1);
    let cmd = truncated(s.command, budget);
    let gap = monus(inner, width_of(prefix) + width_of(cmd) + width_of(up));
    plain_cell(prefix + cmd + repeat(' ', gap) + up)
}

pub open spec fn install_hint() -> Seq<char> {
    "→ run `espresso daemon install` (needs sudo) to enable lid-closed keep-awake\n"@
}

/// The `daemon status` text, given the two yes/no tokens.
pub open spec fn status_text(
    installed: bool,
    registered: bool,
    running: bool,
    launchd_pid: Option<u32>,
    info: Option<StatusModel>,
    sleep_disabled: bool,
    term_width: nat,
    cli_version: Seq<char>,
    yes: CellModel,
    no: CellModel,
) -> Seq<char> {
    let max_inner = max_inner_for(term_width);
    let status = status_rows(sleep_disabled, running, launchd_pid, yes, no);
    let ss = match info {
        Some(i) => i.sessions,
        None => seq![],
    };
    let pid_col = pid_column(ss);
    let version = version_text(
        match info {
            Some(i) => Some(i.version),
            None => None,
        },
        cli_version,
    );
    let infos = infos_rows(installed, registered, version, yes, no, max_inner);
    let title = sessions_title(ss.len());
    let natural = max_of(
        row_widths(status + infos) + seq![
            session_natural(ss, pid_col),
            width_of("Status"@) + 1,
            width_of("Infos"@) + 1,
            width_of(title) + 1,
        ],
    );
    let inner = if natural <= max_inner {
        natural
    } else {
        max_inner
    };
    let rows = ss.map_values(|s: SessionModel| session_row(s, pid_col, inner));
    box_text("Status"@, status, inner) + (if ss.len() > 0 {
        box_text(title, rows, inner)
    } else {
        seq![]
    }) + box_text("Infos"@, infos, inner) + (if installed {
        seq![]
    } else {
        install_hint()
    })
}

/// `w` occurs somewhere in `s`.
pub open spec fn contains_text(s: Seq<char>, w: Seq<char>) -> bool {
    exists|i: int| match_at(s, w, i)
}

proof fn lemma_match_within(a: Seq<char>, b: Seq<char>, c: Seq<char>, w: Seq<char>, i: int)
    requires
        match_at(b, w, i),
    ensures
        match_at(a + b + c, w, a.len() + i),
{
    assert((a + b + c).subrange(a.len() + i, a.len() + i + w.len()) =~= b.subrange(i, i + w.len()));
}

proof fn lemma_rows_prefix(lines: Seq<CellModel>, k: int, inner: nat, w: Seq<char>, i: int)
    requires
        0 <= k <= lines.len(),
        match_at(box_rows(lines.take(k), inner), w, i),
    ensures
        match_at(box_rows(lines, inner), w, i),
    decreases lines.len() - k,
{
    if k == lines.len() {
        assert(lines.take(k) =~= lines);
    } else {
        assert(lines.take(k + 1).drop_last() =~= lines.take(k));
        assert(lines.take(k + 1).last() == lines[k]);
        let head = box_rows(lines.take(k), inner);
        let next = box_rows(lines.take(k + 1), inner);
        assert(next == head + ("│ "@ + lines[k].display + crate::ui::repeat(
            ' ',
            monus(inner, str_width(lines[k].plain) as nat),
        ) + " │\n"@));
        lemma_match_within(Seq::<char>::empty(), head, "│ "@ + lines[k].display + crate::ui::repeat(
            ' ',
            monus(inner, str_width(lines[k].plain) as nat),
        ) + " │\n"@, w, i);
        assert(Seq::<char>::empty() + head + ("│ "@ + lines[k].display + crate::ui::repeat(
            ' ',
            monus(inner, str_width(lines[k].plain) as nat),
        ) + " │\n"@) =~= next);
        lemma_rows_prefix(lines, k + 1, inner, w, i);
    }
}

/// A box shows the display text of its first row.
proof fn lemma_box_shows_first(title: Seq<char>, lines: Seq<CellModel>, inner: nat)
    requires
        lines.len() > 0,
    ensures
        contains_text(box_text(title, lines, inner), lines[0].display),
{
    reveal_strlit("│ ");
    let d = lines[0].display;
    let tail = crate::ui::repeat(' ', monus(inner, str_width(lines[0].plain) as nat)) + " │\n"@;
    assert(lines.take(0) =~= Seq::<CellModel>::empty());
    assert(lines.take(1).drop_last() =~= lines.take(0));
    assert(lines.take(1).last() == lines[0]);
    let first = box_rows(lines.take(1), inner);
    assert(box_rows(lines.take(0), inner) =~= Seq::<char>::empty());
    assert(first == box_rows(lines.take(0), inner) + crate::ui::box_row(
        d,
        str_width(lines[0].plain) as nat,
        inner,
    ));
    assert(first =~= "│ "@ + d + tail);
    assert(match_at(d, d, 0)) by {
        assert(d.subrange(0, d.len() as int) =~= d);
    }
    lemma_match_within("│ "@, d, tail, d, 0);
    lemma_rows_prefix(lines, 1, inner, d, 2);
    let top = crate::ui::box_top(title, str_width(title) as nat, inner);
    let bottom = crate::ui::box_bottom(inner);
    lemma_match_within(top, box_rows(lines, inner), bottom, d, 2);
}

/// When the daemon answered, the Infos box shows its version beside the
/// CLI's: the report holds `Version      daemon <daemon version> / cli <cli
/// version>`, whatever else the facts say.
pub proof fn law_report_shows_versions(
    installed: bool,
    registered: bool,
    running: bool,
    launchd_pid: Option<u32>,
    info: StatusModel,
    sleep_disabled: bool,
    term_width: nat,
    cli_version: Seq<char>,
    yes: CellModel,
    no: CellModel,
)
    ensures
        contains_text(
            status_text(
                installed,
                registered,
                running,
                launchd_pid,
                Some(info),
                sleep_disabled,
                term_width,
                cli_version,
                yes,
                no,
            ),
            "Version      daemon "@ + info.version + " / cli "@ + cli_version,
        ),
{
    reveal_strlit("Version      daemon ");
    reveal_strlit("Version");
    reveal_strlit("   ");
    reveal_strlit("daemon ");
    reveal_with_fuel(displays, 4);
    let max_inner = max_inner_for(term_width);
    let status = status_rows(sleep_disabled, running, launchd_pid, yes, no);
    let ss = info.sessions;
    let pid_col = pid_column(ss);
    let version = version_text(Some(info.version), cli_version);
    let infos = infos_rows(installed, registered, version, yes, no, max_inner);
    let title = sessions_title(ss.len());
    let natural = max_of(
        row_widths(status + infos) + seq![
            session_natural(ss, pid_col),
            width_of("Status"@) + 1,
            width_of("Infos"@) + 1,
            width_of(title) + 1,
        ],
    );
    let inner = if natural <= max_inner {
        natural
    } else {
        max_inner
    };
    let rows = ss.map_values(|s: SessionModel| session_row(s, pid_col, inner));
    let before = box_text("Status"@, status, inner) + (if ss.len() > 0 {
        box_text(title, rows, inner)
    } else {
        seq![]
    });
    let after = if installed {
        Seq::<char>::empty()
    } else {
        install_hint()
    };
    let w = "Version      daemon "@ + info.version + " / cli "@ + cli_version;
    let row0 = seq![plain_cell(pad_to("Version"@, 10)), plain_cell("   "@), plain_cell(version)];
    assert(infos[0] == joined(row0));
    assert(row0.drop_last().drop_last().drop_last() =~= Seq::<CellModel>::empty());
    assert(row0.drop_last() =~= seq![plain_cell(pad_to("Version"@, 10)), plain_cell("   "@)]);
    assert(row0.drop_last().drop_last() =~= seq![plain_cell(pad_to("Version"@, 10))]);
    assert(infos[0].display =~= w);
    lemma_box_shows_first("Infos"@, infos, inner);
    let k = choose|k: int| match_at(box_text("Infos"@, infos, inner), w, k);
    lemma_match_within(before, box_text("Infos"@, infos, inner), after, w, k);
    assert(status_text(
        installed,
        registered,
        running,
        launchd_pid,
        Some(info),
        sleep_disabled,
        term_width,
        cli_version,
        yes,
        no,
    ) == before + box_text("Infos"@, infos, inner) + after);
}

pub open spec fn opt_text(v: Option<String>) -> Option<Seq<char>> {
    match v {
        Some(s) => Some(s@),
        None => None,
    }
}

pub open spec fn facts_info(f: StatusFacts) -> Option<StatusModel> {
    match f.info {
        Some(i) => Some(i@),
        None => None,
    }
}

// ---------------------------------------------------------------------------
// Executable layout
// ---------------------------------------------------------------------------

fn copy_cell(c: &Cell) -> (r: Cell)
    ensures
        r@ == c@,
{
    Cell { plain: c.plain.clone(), display: c.display.clone() }
}

fn plain_of(v: &Vec<char>) -> (c: Cell)
    ensures
        c@ == plain_cell(v@),
{
    Cell { plain: string_of(v), display: string_of(v) }
}

fn padded(s: &str, w: usize) -> (r: Vec<char>)
    ensures
        r@ == pad_to(s@, w as nat),
{
    let mut out = chars_of(s);
    let n = out.len();
    let mut k: usize = if w > n {
        w - n
    } else {
        0
    };
    let ghost base = out@;
    let ghost total = k;
    while k > 0
        invariant
            k <= total,
            out@ == base + repeat(' ', (total - k) as nat),
        decreases k,
    {
        out.push(' ');
        k = k - 1;
        assert(out@ =~= base + repeat(' ', (total - k) as nat));
    }
    out
}

fn pad_dec(n: u32, w: usize) -> (r: Vec<char>)
    ensures
        r@ == pad_to(dec(n as nat), w as nat),
{
    let mut out: Vec<char> = Vec::new();
    push_dec(&mut out, n as u64);
    let len = out.len();
    let mut k: usize = if w > len {
        w - len
    } else {
        0
    };
    let ghost base = out@;
    let ghost total = k;
    assert(base =~= dec(n as nat));
    while k > 0
        invariant
            k <= total,
            out@ == base + repeat(' ', (total - k) as nat),
        decreases k,
    {
        out.push(' ');
        k = k - 1;
        assert(out@ =~= base + repeat(' ', (total - k) as nat));
    }
    out
}

fn info_row_tok(
    label_col: usize,
    label: &str,
    flag: bool,
    value: Option<&str>,
    tok: Cell,
    max_inner: usize,
) -> (c: Cell)
    requires
        label_col <= usize::MAX - 10,
    ensures
        c@ == info_row_model(
            label_col as nat,
            label@,
            flag,
            match value {
                Some(v) => Some(v@),
                None => None,
            },
            tok@,
            max_inner as nat,
        ),
{
    let lab = padded(label, label_col);
    let mut parts: Vec<Cell> = Vec::new();
    parts.push(plain_of(&lab));
    parts.push(Cell::plain("   "));
    let ghost tokm = tok@;
    parts.push(tok);
    let ghost base = cell_models(parts@);
    assert(base =~= seq![plain_cell(pad_to(label@, label_col as nat)), plain_cell("   "@), tokm]);
    match value {
        Some(v) => {
            // yesno is "yes"(3)/"no"(2); pad so the value column starts evenly.
            let gap = if flag {
                "   "
            } else {
                "    "
            };
            proof {
                reveal_strlit("   ");
                reveal_strlit("    ");
            }
            let prefix_w = label_col + 3 + (if flag {
                3
            } else {
                2
            }) + if flag {
                3
            } else {
                4
            };
            let budget = if max_inner >= prefix_w {
                max_inner - prefix_w
            } else {
                0
            };
            parts.push(Cell::plain(gap));
            let t = truncate(v, budget);
            parts.push(Cell::plain(t.as_str()));
            assert(cell_models(parts@) =~= base + seq![
                plain_cell(gap@),
                plain_cell(truncated(v@, budget as nat)),
            ]);
        },
        None => {},
    }
    crate::ui::join(parts.as_slice())
}

/// One Infos row: `label` padded to `label_col`, a yes/no token, then an
/// optional path/value truncated to fit the terminal budget.
pub fn info_row(
    label_col: usize,
    label: &str,
    flag: bool,
    value: Option<String>,
    use_color: bool,
    max_inner: usize,
) -> (c: Cell)
    requires
        label_col <= usize::MAX - 10,
    ensures
        exists|tok: CellModel|
            tok.plain == yesno_word(flag) && (!use_color ==> tok.display == yesno_word(flag))
                && (use_color ==> painted(flag, yesno_word(flag), tok.display)) && c@
                == #[trigger] info_row_model(
                label_col as nat,
                label@,
                flag,
                opt_text(value),
                tok,
                max_inner as nat,
            ),
{
    let tok = yesno(flag, use_color);
    let ghost t = tok@;
    match value {
        Some(v) => info_row_tok(label_col, label, flag, Some(v.as_str()), tok, max_inner),
        None => info_row_tok(label_col, label, flag, None, tok, max_inner),
    }
}

fn widest(cells: &Vec<Cell>) -> (w: u128)
    ensures
        w == max_of(row_widths(cell_models(cells@))),
{
    let mut m: u128 = 0;
    let mut i: usize = 0;
    let ghost ws = row_widths(cell_models(cells@));
    while i < cells.len()
        invariant
            i <= cells.len(),
            ws == row_widths(cell_models(cells@)),
            m == max_of(ws.take(i as int)),
            m <= usize::MAX,
        decreases cells.len() - i,
    {
        let w = cells[i].width();
        assert(ws.take(i + 1).drop_last() =~= ws.take(i as int));
        assert(ws.take(i + 1).last() == w as nat);
        if w as u128 > m {
            m = w as u128;
        }
        i = i + 1;
    }
    assert(ws.take(i as int) =~= ws);
    m
}

proof fn lemma_max_of_append(a: Seq<nat>, b: Seq<nat>)
    ensures
        max_of(a + b) == if max_of(a) >= max_of(b) {
            max_of(a)
        } else {
            max_of(b)
        },
    decreases b.len(),
{
    if b.len() == 0 {
        assert(a + b =~= a);
    } else {
        assert((a + b).drop_last() =~= a + b.drop_last());
        lemma_max_of_append(a, b.drop_last());
    }
}

/// The yes or the no token, as `v` says.
fn token_cell(v: bool, yes: &Cell, no: &Cell) -> (c: Cell)
    ensures
        c@ == token(v, yes@, no@),
{
    if v {
        copy_cell(yes)
    } else {
        copy_cell(no)
    }
}

/// The two Status rows.
fn status_lines_of(
    sleep_disabled: bool,
    running: bool,
    pid: Option<u32>,
    yes: &Cell,
    no: &Cell,
) -> (v: Vec<Cell>)
    ensures
        cell_models(v@) == status_rows(sleep_disabled, running, pid, yes@, no@),
{
    let mut first: Vec<Cell> = Vec::new();
    let l1 = padded("SleepDisabled", 13);
    first.push(plain_of(&l1));
    first.push(Cell::plain("   "));
    first.push(token_cell(sleep_disabled, yes, no));
    let mut second: Vec<Cell> = Vec::new();
    let l2 = padded("Running", 13);
    second.push(plain_of(&l2));
    second.push(Cell::plain("   "));
    second.push(token_cell(running, yes, no));
    let ghost running_parts = cell_models(second@);
    assert(running_parts =~= seq![
        plain_cell(pad_to("Running"@, 13)),
        plain_cell("   "@),
        token(running, yes@, no@),
    ]);
    if running {
        if let Some(p) = pid {
            let mut t = chars_of("   pid ");
            push_dec(&mut t, p as u64);
            second.push(plain_of(&t));
            assert(cell_models(second@) =~= running_parts + seq![plain_cell("   pid "@ + dec(p as nat))]);
        }
    }
    let mut lines: Vec<Cell> = Vec::new();
    lines.push(crate::ui::join(first.as_slice()));
    lines.push(crate::ui::join(second.as_slice()));
    assert(cell_models(first@) =~= seq![
        plain_cell(pad_to("SleepDisabled"@, 13)),
        plain_cell("   "@),
        token(sleep_disabled, yes@, no@),
    ]);
    assert(cell_models(lines@) =~= status_rows(sleep_disabled, running, pid, yes@, no@));
    lines
}

/// The Infos rows.
fn infos_lines_of(
    installed: bool,
    registered: bool,
    version: &Vec<char>,
    yes: &Cell,
    no: &Cell,
    max_inner: usize,
) -> (v: Vec<Cell>)
    ensures
        cell_models(v@) == infos_rows(installed, registered, version@, yes@, no@, max_inner as nat),
{
    let mut vparts: Vec<Cell> = Vec::new();
    let lv = padded("Version", 10);
    vparts.push(plain_of(&lv));
    vparts.push(Cell::plain("   "));
    vparts.push(plain_of(version));
    assert(cell_models(vparts@) =~= seq![
        plain_cell(pad_to("Version"@, 10)),
        plain_cell("   "@),
        plain_cell(version@),
    ]);
    let mut infos: Vec<Cell> = Vec::new();
    infos.push(crate::ui::join(vparts.as_slice()));
    let inst_tok = token_cell(installed, yes, no);
    if installed {
        infos.push(info_row_tok(10, "Installed", true, Some(PLIST_PATH), inst_tok, max_inner));
        let mut reg = chars_of("system/");
        extend_str(&mut reg, LABEL);
        let regs = string_of(&reg);
        let reg_tok = token_cell(registered, yes, no);
        infos.push(info_row_tok(10, "Registered", registered, Some(regs.as_str()), reg_tok, max_inner));
    } else {
        infos.push(info_row_tok(10, "Installed", false, None, inst_tok, max_inner));
    }
    assert(cell_models(infos@) =~= infos_rows(installed, registered, version@, yes@, no@, max_inner as nat));
    infos
}

/// The widest pid among the sessions.
fn pid_column_of(sessions: &Vec<SessionInfo>) -> (w: usize)
    ensures
        w == pid_column(crate::ipc::session_models(sessions@)),
{
    let ghost ss = crate::ipc::session_models(sessions@);
    let mut pid_col: usize = 0;
    let mut i: usize = 0;
    let ghost pws = ss.map_values(|s: SessionModel| width_of(dec(s.pid as nat)));
    while i < sessions.len()
        invariant
            i <= sessions.len(),
            ss == crate::ipc::session_models(sessions@),
            pws == ss.map_values(|s: SessionModel| width_of(dec(s.pid as nat))),
            pid_col == max_of(pws.take(i as int)),
        decreases sessions.len() - i,
    {
        let mut d: Vec<char> = Vec::new();
        push_dec(&mut d, sessions[i].pid as u64);
        let ds = string_of(&d);
        let w = display_width(ds.as_str());
        assert(pws.take(i + 1).drop_last() =~= pws.take(i as int));
        assert(pws.take(i + 1).last() == w as nat);
        if w > pid_col {
            pid_col = w;
        }
        i = i + 1;
    }
    assert(pws.take(i as int) =~= pws);
    pid_col
}

/// The widest untruncated session row.
fn session_natural_of(sessions: &Vec<SessionInfo>, pid_col: usize) -> (n: u128)
    ensures
        n == session_natural(crate::ipc::session_models(sessions@), pid_col as nat),
        n <= 4 * usize::MAX as nat + 4,
{
    let ghost ss = crate::ipc::session_models(sessions@);
    let mut natural: u128 = 0;
    let mut i: usize = 0;
    let ghost nws = ss.map_values(
        |s: SessionModel|
            pid_col as nat + 2 + width_of(s.command) + 2 + width_of(uptime_text(s.uptime_secs as nat)),
    );
    while i < sessions.len()
        invariant
            i <= sessions.len(),
            ss == crate::ipc::session_models(sessions@),
            nws == ss.map_values(
                |s: SessionModel|
                    pid_col as nat + 2 + width_of(s.command) + 2 + width_of(
                        uptime_text(s.uptime_secs as nat),
                    ),
            ),
            natural == max_of(nws.take(i as int)),
            natural <= 4 * usize::MAX as nat + 4,
        decreases sessions.len() - i,
    {
        let s = &sessions[i];
        let up = format_uptime(s.uptime_secs);
        let n: u128 = pid_col as u128 + 2 + display_width(s.command.as_str()) as u128 + 2
            + display_width(up.as_str()) as u128;
        assert(nws.take(i + 1).drop_last() =~= nws.take(i as int));
        assert(nws.take(i + 1).last() == n as nat);
        if n > natural {
            natural = n;
        }
        i = i + 1;
    }
    assert(nws.take(i as int) =~= nws);
    natural
}

/// The shared inner width: the widest row or title (plus one), capped at
/// `max_inner`.
fn shared_inner(
    status: &Vec<Cell>,
    infos: &Vec<Cell>,
    natural: u128,
    title: &str,
    max_inner: usize,
) -> (inner: usize)
    ensures
        inner as nat == ({
            let n = max_of(
                row_widths(cell_models(status@) + cell_models(infos@)) + seq![
                    natural as nat,
                    width_of("Status"@) + 1,
                    width_of("Infos"@) + 1,
                    width_of(title@) + 1,
                ],
            );
            if n <= max_inner as nat {
                n
            } else {
                max_inner as nat
            }
        }),
{
    let w_status = widest(status);
    let w_infos = widest(infos);
    let t1 = display_width("Status") as u128 + 1;
    let t2 = display_width("Infos") as u128 + 1;
    let t3 = display_width(title) as u128 + 1;
    let mut wide = if w_status >= w_infos {
        w_status
    } else {
        w_infos
    };
    if natural > wide {
        wide = natural;
    }
    if t1 > wide {
        wide = t1;
    }
    if t2 > wide {
        wide = t2;
    }
    if t3 > wide {
        wide = t3;
    }
    proof {
        let a = row_widths(cell_models(status@));
        let b = row_widths(cell_models(infos@));
        let rw = row_widths(cell_models(status@) + cell_models(infos@));
        assert(rw =~= a + b);
        lemma_max_of_append(a, b);
        let tail = seq![natural as nat, t1 as nat, t2 as nat, t3 as nat];
        lemma_max_of_append(rw, tail);
        assert(tail.drop_last() =~= seq![natural as nat, t1 as nat, t2 as nat]);
        assert(tail.drop_last().drop_last() =~= seq![natural as nat, t1 as nat]);
        assert(tail.drop_last().drop_last().drop_last() =~= seq![natural as nat]);
        assert(tail.drop_last().drop_last().drop_last().drop_last() =~= Seq::<nat>::empty());
        reveal_with_fuel(max_of, 5);
        let m1 = max_of(seq![natural as nat]);
        assert(m1 == natural as nat);
        let m2 = max_of(seq![natural as nat, t1 as nat]);
        assert(m2 == if t1 as nat > m1 { t1 as nat } else { m1 });
        let m3 = max_of(seq![natural as nat, t1 as nat, t2 as nat]);
        assert(m3 == if t2 as nat > m2 { t2 as nat } else { m2 });
        assert(max_of(tail) == if t3 as nat > m3 { t3 as nat } else { m3 });
        assert(wide as nat == max_of(rw + tail));
    }
    if wide <= max_inner as u128 {
        wide as usize
    } else {
        max_inner
    }
}

/// One Active Sessions row laid out to `inner`.
fn session_line(s: &SessionInfo, pid_col: usize, inner: usize) -> (c: Cell)
    ensures
        c@ == session_row(s@, pid_col as nat, inner as nat),
{
    let mut prefix = pad_dec(s.pid, pid_col);
    extend_str(&mut prefix, "  ");
    let prefix_s = string_of(&prefix);
    let up = format_uptime(s.uptime_secs);
    let wp = display_width(prefix_s.as_str()) as u128;
    let wu = display_width(up.as_str()) as u128;
    let reserved = wp + wu + 1;
    let cmd_budget: usize = if (inner as u128) >= reserved {
        (inner as u128 - reserved) as usize
    } else {
        0
    };
    let cmd = truncate(s.command.as_str(), cmd_budget);
    let used = wp + display_width(cmd.as_str()) as u128 + wu;
    let gap: usize = if (inner as u128) >= used {
        (inner as u128 - used) as usize
    } else {
        0
    };
    let mut line: Vec<char> = Vec::new();
    extend(&mut line, &prefix);
    extend_str(&mut line, cmd.as_str());
    let mut k: usize = 0;
    let ghost base = line@;
    while k < gap
        invariant
            k <= gap,
            line@ == base + repeat(' ', k as nat),
        decreases gap - k,
    {
        line.push(' ');
        k = k + 1;
        assert(line@ =~= base + repeat(' ', k as nat));
    }
    extend_str(&mut line, up.as_str());
    plain_of(&line)
}

fn session_lines_of(sessions: &Vec<SessionInfo>, pid_col: usize, inner: usize) -> (v: Vec<Cell>)
    ensures
        cell_models(v@) == crate::ipc::session_models(sessions@).map_values(
            |s: SessionModel| session_row(s, pid_col as nat, inner as nat),
        ),
{
    let ghost ss = crate::ipc::session_models(sessions@);
    let mut lines: Vec<Cell> = Vec::new();
    let mut i: usize = 0;
    while i < sessions.len()
        invariant
            i <= sessions.len(),
            ss == crate::ipc::session_models(sessions@),
            cell_models(lines@) == ss.take(i as int).map_values(
                |s: SessionModel| session_row(s, pid_col as nat, inner as nat),
            ),
        decreases sessions.len() - i,
    {
        let ghost before = cell_models(lines@);
        let cell = session_line(&sessions[i], pid_col, inner);
        lines.push(cell);
        proof {
            assert(ss[i as int] == sessions@[i as int]@);
            assert(cell_models(lines@) =~= before.push(cell@));
            assert(ss.take(i + 1).map_values(|s: SessionModel| session_row(s, pid_col as nat, inner as nat))
                =~= ss.take(i as int).map_values(
                |s: SessionModel| session_row(s, pid_col as nat, inner as nat),
            ).push(session_row(ss[i as int], pid_col as nat, inner as nat)));
        }
        i = i + 1;
    }
    assert(ss.take(i as int) =~= ss);
    lines
}

fn version_of(info: &Option<StatusInfo>, cli_version: &str) -> (v: Vec<char>)
    ensures
        v@ == version_text(
            match info {
                Some(i) => Some(i.version@),
                None => None,
            },
            cli_version@,
        ),
{
    let mut out: Vec<char> = Vec::new();
    match info {
        Some(inf) => {
            extend_str(&mut out, "daemon ");
            extend_str(&mut out, inf.version.as_str());
            extend_str(&mut out, " / cli ");
            extend_str(&mut out, cli_version);
        },
        None => {
            extend_str(&mut out, "cli ");
            extend_str(&mut out, cli_version);
        },
    }
    out
}

/// The `daemon status` report: a Status box, an Active Sessions box when
/// the daemon reported sessions, an Infos box, and the install hint when the
/// helper is not installed.
pub fn status_report(f: &StatusFacts) -> (r: String)
    ensures
        exists|yes: CellModel, no: CellModel|
            yes.plain == "yes"@ && no.plain == "no"@ && (!f.use_color ==> yes.display == "yes"@
                && no.display == "no"@) && (f.use_color ==> painted(true, "yes"@, yes.display) && painted(
                false,
                "no"@,
                no.display,
            ))
                && r@ == #[trigger] status_text(
                f.installed,
                f.registered,
                f.running,
                f.launchd_pid,
                facts_info(*f),
                f.sleep_disabled,
                f.term_width as nat,
                f.cli_version@,
                yes,
                no,
            ),
        f.info matches Some(i) ==> contains_text(
            r@,
            "Version      daemon "@ + i.version@ + " / cli "@ + f.cli_version@,
        ),
{
    let yes = yesno(true, f.use_color);
    let no = yesno(false, f.use_color);
    let ghost ym = yes@;
    let ghost nm = no@;
    let max_inner: usize = if f.term_width >= 24 {
        f.term_width - 4
    } else {
        20
    };
    assert(max_inner as nat == max_inner_for(f.term_width as nat));
    let status_lines = status_lines_of(f.sleep_disabled, f.running, f.launchd_pid, &yes, &no);
    let ghost status = status_rows(f.sleep_disabled, f.running, f.launchd_pid, ym, nm);
    let empty: Vec<SessionInfo> = Vec::new();
    let sessions: &Vec<SessionInfo> = match &f.info {
        Some(i) => &i.sessions,
        None => &empty,
    };
    let ghost ss = match facts_info(*f) {
        Some(i) => i.sessions,
        None => Seq::<SessionModel>::empty(),
    };
    assert(crate::ipc::session_models(sessions@) =~= ss);
    let session_count = sessions.len();
    let pid_col = pid_column_of(sessions);
    let version_value = version_of(&f.info, f.cli_version.as_str());
    let ghost version = version_text(
        match facts_info(*f) {
            Some(i) => Some(i.version),
            None => None,
        },
        f.cli_version@,
    );
    assert(version_value@ =~= version);
    let infos = infos_lines_of(f.installed, f.registered, &version_value, &yes, &no, max_inner);
    let ghost infos_m = infos_rows(f.installed, f.registered, version, ym, nm, max_inner as nat);
    let natural = session_natural_of(sessions, pid_col);
    let mut title: Vec<char> = chars_of("Active Sessions (");
    push_dec(&mut title, session_count as u64);
    extend_str(&mut title, ")");
    let title = string_of(&title);
    assert(title@ =~= sessions_title(ss.len()));
    let inner = shared_inner(&status_lines, &infos, natural, title.as_str(), max_inner);
    assert(cell_models(status_lines@) + cell_models(infos@) =~= status + infos_m);
    let session_lines = session_lines_of(sessions, pid_col, inner);
    let ghost rows = ss.map_values(|s: SessionModel| session_row(s, pid_col as nat, inner as nat));
    let ghost mid = if ss.len() > 0 {
        box_text(title@, rows, inner as nat)
    } else {
        Seq::<char>::empty()
    };
    let mut out: Vec<char> = Vec::new();
    let b1 = render_box("Status", status_lines.as_slice(), inner);
    extend_str(&mut out, b1.as_str());
    if session_count > 0 {
        let b2 = render_box(title.as_str(), session_lines.as_slice(), inner);
        extend_str(&mut out, b2.as_str());
    }
    assert(out@ =~= box_text("Status"@, status, inner as nat) + mid);
    let b3 = render_box("Infos", infos.as_slice(), inner);
    extend_str(&mut out, b3.as_str());
    if !f.installed {
        extend_str(
            &mut out,
            "→ run `espresso daemon install` (needs sudo) to enable lid-closed keep-awake\n",
        );
    }
    let r = string_of(&out);
    proof {
        assert(r@ =~= status_text(
            f.installed,
            f.registered,
            f.running,
            f.launchd_pid,
            facts_info(*f),
            f.sleep_disabled,
            f.term_width as nat,
            f.cli_version@,
            ym,
            nm,
        ));
        if f.info is Some {
            let i = f.info->0;
            law_report_shows_versions(
                f.installed,
                f.registered,
                f.running,
                f.launchd_pid,
                i@,
                f.sleep_disabled,
                f.term_width as nat,
                f.cli_version@,
                ym,
                nm,
            );
        }
    }
    r
}

} // verus!
