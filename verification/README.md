# espresso

Keep a Mac awake from the command line: for a countdown, until a clock
time, or while a command runs; with an optional `launchd` helper that also
keeps it awake with the lid closed.

The library (`src/`) holds the logic, each function with a contract proved
by Verus:

- `ipc` — the line protocol between the CLI and the helper daemon, with its
  round-trip laws;
- `refcount` and `daemon` — the daemon's reference-count state machine and
  the coordinator that answers each event with the effects to carry out
  (toggle `SleepDisabled`, watch the lid, arm or cancel the idle timer,
  reply to a status query, exit), plus the lid watch's edge detector;
- `time` and `cli` — the `-t` argument (countdown seconds or a future local
  time, parsed by chrono) and the choice of run mode;
- `progress` and `session` — the timer's progress line;
- `ui` and `install` — the rounded boxes of `daemon status`, the LaunchDaemon
  plist, `launchctl print` and the install prompt;
- `text` — the character-level helpers the others share.

`app/` is the program around it: argument parsing with clap, IOKit calls,
sockets, threads, the terminal and the file system.
