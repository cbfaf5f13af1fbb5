//! The line-oriented wire protocol spoken over the daemon's Unix socket.
//!
//! Client to daemon, one line: `HOLD pid=<pid> cmd=<command>` (a bare `HOLD`
//! from an older client is still accepted) or `QUERY`.  Daemon to client:
//! `OK`, or a `STATUS pid=<pid> sessions=<n> version=<v>` header followed by
//! `n` lines `SESSION pid=<pid> uptime=<secs> cmd=<command>`.  `version` and
//! `cmd` are the last field of their line and may hold spaces.
use vstd::prelude::*;
use crate::text::{
    lemma_dec_plain, lemma_lines_append, lemma_lines_cons, lemma_match_at_concat,
    lemma_no_match_before, lemma_no_match_pair, lemma_parse_dec, lemma_sanitize_no_break,
    lemma_split_once_at, lemma_strip_prefix_concat, lemma_trim_end_noop, lemma_without_suffix_absent,
    lemma_without_suffix_push, lemma_words_two, no_char, no_ws, is_ws, unbreak, chars_of, dec, drop_suffix_char, extend, extend_str, parse_u32, parse_u64,
    parse_unsigned_chars, parse_usize, push_dec, same_str, sanitize, sanitize_chars, split_first_str,
    split_lines, split_once, split_words, string_of, strip_prefix, strip_prefix_str, trim_end,
    trim_end_chars, views, without_suffix, words, lines,
};

verus! {

pub const SOCKET_PATH: &'static str = "/var/run/espresso.sock";

/// The version a daemon reports and the command line prints.
pub const VERSION: &'static str = "0.2.2";

#[derive(Debug, Clone, PartialEq, Eq)]
pub enum ClientMsg {
    Hold { pid: u32, command: String },
    Query,
}

#[derive(Debug, Clone, PartialEq, Eq)]
pub struct SessionInfo {
    pub pid: u32,
    pub command: String,
    pub uptime_secs: u64,
}

#[derive(Debug, Clone, PartialEq, Eq)]
pub struct StatusInfo {
    pub sessions: Vec<SessionInfo>,
    pub pid: u32,
    pub version: String,
}

#[derive(Debug, Clone, PartialEq, Eq)]
pub enum ServerMsg {
    Ack,
    Status(StatusInfo),
}

#[derive(Debug, Clone, PartialEq, Eq)]
pub enum IpcError {
    Malformed(String),
}

// ---------------------------------------------------------------------------
// Mathematical models of the messages
// ---------------------------------------------------------------------------

pub enum ClientModel {
    Hold { pid: u32, command: Seq<char> },
    Query,
}

pub struct SessionModel {
    pub pid: u32,
    pub command: Seq<char>,
    pub uptime_secs: u64,
}

pub struct StatusModel {
    pub sessions: Seq<SessionModel>,
    pub pid: u32,
    pub version: Seq<char>,
}

pub enum ServerModel {
    Ack,
    Status(StatusModel),
}

impl View for ClientMsg {
    type V = ClientModel;

    open spec fn view(&self) -> ClientModel {
        match self {
            ClientMsg::Hold { pid, command } => ClientModel::Hold { pid: *pid, command: command@ },
            ClientMsg::Query => ClientModel::Query,
        }
    }
}

impl View for SessionInfo {
    type V = SessionModel;

    open spec fn view(&self) -> SessionModel {
        SessionModel { pid: self.pid, command: self.command@, uptime_secs: self.uptime_secs }
    }
}

pub open spec fn session_models(v: Seq<SessionInfo>) -> Seq<SessionModel> {
    v.map_values(|s: SessionInfo| s@)
}

impl View for StatusInfo {
    type V = StatusModel;

    open spec fn view(&self) -> StatusModel {
        StatusModel {
            sessions: session_models(self.sessions@),
            pid: self.pid,
            version: self.version@,
        }
    }
}

impl View for ServerMsg {
    type V = ServerModel;

    open spec fn view(&self) -> ServerModel {
        match self {
            ServerMsg::Ack => ServerModel::Ack,
            ServerMsg::Status(s) => ServerModel::Status(s@),
        }
    }
}

impl View for IpcError {
    type V = Seq<char>;

    /// The offending text carried by the error.
    open spec fn view(&self) -> Seq<char> {
        match self {
            IpcError::Malformed(s) => s@,
        }
    }
}

/// A decoding outcome, with the offending text in place of the error.
pub open spec fn outcome<T: View>(r: Result<T, IpcError>) -> Result<T::V, Seq<char>> {
    match r {
        Ok(m) => Ok(m@),
        Err(e) => Err(e@),
    }
}

// ---------------------------------------------------------------------------
// The protocol, stated over the models
// ---------------------------------------------------------------------------

pub open spec fn client_line(m: ClientModel) -> Seq<char> {
    match m {
        ClientModel::Hold { pid, command } => "HOLD pid="@ + dec(pid as nat) + " cmd="@ + sanitize(
            command,
        ) + "\n"@,
        ClientModel::Query => "QUERY\n"@,
    }
}

pub open spec fn decode_client_spec(line: Seq<char>) -> Result<ClientModel, Seq<char>> {
    let l = without_suffix(without_suffix(line, seq!['\n']), seq!['\r']);
    if l == "QUERY"@ {
        Ok(ClientModel::Query)
    } else if l == "HOLD"@ {
        Ok(ClientModel::Hold { pid: 0, command: seq![] })
    } else {
        match strip_prefix(l, "HOLD "@) {
            None => Err(l),
            Some(rest) => match split_once(rest, " cmd="@) {
                None => Err(l),
                Some((pid_part, cmd)) => match strip_prefix(pid_part, "pid="@) {
                    None => Err(l),
                    Some(v) => match parse_u32(v) {
                        None => Err(l),
                        Some(pid) => Ok(ClientModel::Hold { pid, command: cmd }),
                    },
                },
            },
        }
    }
}

pub open spec fn session_line(s: SessionModel) -> Seq<char> {
    "SESSION pid="@ + dec(s.pid as nat) + " uptime="@ + dec(s.uptime_secs as nat) + " cmd="@
        + sanitize(s.command) + "\n"@
}

pub open spec fn session_block(ss: Seq<SessionModel>) -> Seq<char>
    decreases ss.len(),
{
    if ss.len() == 0 {
        seq![]
    } else {
        session_block(ss.drop_last()) + session_line(ss.last())
    }
}

pub open spec fn status_header(s: StatusModel) -> Seq<char> {
    "STATUS pid="@ + dec(s.pid as nat) + " sessions="@ + dec(s.sessions.len()) + " version="@
        + sanitize(s.version) + "\n"@
}

pub open spec fn server_text(m: ServerModel) -> Seq<char> {
    match m {
        ServerModel::Ack => "OK\n"@,
        ServerModel::Status(s) => status_header(s) + session_block(s.sessions),
    }
}

/// The `key=value` fields of the `STATUS` header, folded left to right: a
/// later occurrence of a key overrides an earlier one, and a field without
/// `=` or with an unknown key is rejected.
pub open spec fn header_fields(fields: Seq<Seq<char>>, pid: Option<u32>, count: Option<usize>)
    -> Result<(Option<u32>, Option<usize>), Seq<char>>
    decreases fields.len(),
{
    if fields.len() == 0 {
        Ok((pid, count))
    } else {
        let f = fields[0];
        match split_once(f, "="@) {
            None => Err(f),
            Some((k, v)) => if k == "pid"@ {
                header_fields(fields.drop_first(), parse_u32(v), count)
            } else if k == "sessions"@ {
                header_fields(fields.drop_first(), pid, parse_usize(v))
            } else {
                Err(f)
            },
        }
    }
}

/// The `key=value` fields of a `SESSION` line, folded as for the header.
pub open spec fn session_fields(fields: Seq<Seq<char>>, pid: Option<u32>, uptime: Option<u64>)
    -> Result<(Option<u32>, Option<u64>), Seq<char>>
    decreases fields.len(),
{
    if fields.len() == 0 {
        Ok((pid, uptime))
    } else {
        let f = fields[0];
        match split_once(f, "="@) {
            None => Err(f),
            Some((k, v)) => if k == "pid"@ {
                session_fields(fields.drop_first(), parse_u32(v), uptime)
            } else if k == "uptime"@ {
                session_fields(fields.drop_first(), pid, parse_u64(v))
            } else {
                Err(f)
            },
        }
    }
}

pub open spec fn decode_session_spec(line: Seq<char>) -> Result<SessionModel, Seq<char>> {
    match strip_prefix(line, "SESSION "@) {
        None => Err(line),
        Some(sl) => match split_once(sl, " cmd="@) {
            None => Err(line),
            Some((sf, cmd)) => match session_fields(words(sf), None, None) {
                Err(f) => Err(f),
                Ok((spid, up)) => match spid {
                    None => Err(line),
                    Some(p) => match up {
                        None => Err(line),
                        Some(u) => Ok(SessionModel { pid: p, command: cmd, uptime_secs: u }),
                    },
                },
            },
        },
    }
}

/// The session lines decoded in order; the first bad one is reported.
pub open spec fn decode_sessions_spec(ls: Seq<Seq<char>>) -> Result<Seq<SessionModel>, Seq<char>>
    decreases ls.len(),
{
    if ls.len() == 0 {
        Ok(seq![])
    } else {
        match decode_sessions_spec(ls.drop_last()) {
            Err(e) => Err(e),
            Ok(ss) => match decode_session_spec(ls.last()) {
                Err(e) => Err(e),
                Ok(s) => Ok(ss.push(s)),
            },
        }
    }
}

/// A bad line among the first `k` session lines is the one reported for all.
pub proof fn lemma_sessions_prefix_err(ls: Seq<Seq<char>>, k: int)
    requires
        0 <= k <= ls.len(),
        decode_sessions_spec(ls.take(k)) is Err,
    ensures
        decode_sessions_spec(ls) == decode_sessions_spec(ls.take(k)),
    decreases ls.len(),
{
    if k == ls.len() {
        assert(ls.take(k) =~= ls);
    } else {
        assert(ls.drop_last().take(k) =~= ls.take(k));
        lemma_sessions_prefix_err(ls.drop_last(), k);
    }
}

pub open spec fn count_mismatch_text(count: nat, found: nat) -> Seq<char> {
    "session count "@ + dec(count) + " != "@ + dec(found) + " SESSION lines"@
}

pub open spec fn first_line(ls: Seq<Seq<char>>) -> Seq<char> {
    trim_end(
        if ls.len() > 0 {
            ls[0]
        } else {
            seq![]
        },
    )
}

pub open spec fn later_lines(ls: Seq<Seq<char>>) -> Seq<Seq<char>> {
    if ls.len() > 0 {
        ls.skip(1)
    } else {
        seq![]
    }
}

pub open spec fn decode_server_spec(input: Seq<char>) -> Result<ServerModel, Seq<char>> {
    let ls = lines(input);
    let first = first_line(ls);
    if first == "OK"@ {
        Ok(ServerModel::Ack)
    } else {
        match strip_prefix(first, "STATUS "@) {
            None => Err(first),
            Some(rest) => match split_once(rest, " version="@) {
                None => Err(first),
                Some((fields, version)) => match header_fields(words(fields), None, None) {
                    Err(f) => Err(f),
                    Ok((pid, count)) => match pid {
                        None => Err(first),
                        Some(pid) => match count {
                            None => Err(first),
                            Some(count) => match decode_sessions_spec(later_lines(ls)) {
                                Err(e) => Err(e),
                                Ok(sessions) => if sessions.len() != count {
                                    Err(count_mismatch_text(count as nat, sessions.len()))
                                } else {
                                    Ok(
                                        ServerModel::Status(
                                            StatusModel { sessions, pid, version },
                                        ),
                                    )
                                },
                            },
                        },
                    },
                },
            },
        }
    }
}

pub open spec fn text_err<T>(r: Result<T, Vec<char>>) -> Result<T, Seq<char>> {
    match r {
        Ok(x) => Ok(x),
        Err(e) => Err(e@),
    }
}

// ---------------------------------------------------------------------------
// Executable codec
// ---------------------------------------------------------------------------

impl IpcError {
    /// The human-readable message: `malformed IPC message: <text>`.
    pub fn message(&self) -> (r: String)
        ensures
            r@ == "malformed IPC message: "@ + self@,
    {
        match self {
            IpcError::Malformed(s) => {
                let mut out: Vec<char> = Vec::new();
                extend_str(&mut out, "malformed IPC message: ");
                extend_str(&mut out, s.as_str());
                string_of(&out)
            },
        }
    }
}

fn malformed(v: &Vec<char>) -> (e: IpcError)
    ensures
        e@ == v@,
{
    IpcError::Malformed(string_of(v))
}

/// Replace line-breaking characters so a value stays on its own IPC line.
fn sanitize_line(s: &str) -> (r: Vec<char>)
    ensures
        r@ == sanitize(s@),
{
    let v = chars_of(s);
    sanitize_chars(&v)
}

pub fn encode_client(m: &ClientMsg) -> (r: String)
    ensures
        r@ == client_line(m@),
{
    match m {
        ClientMsg::Hold { pid, command } => {
            let mut out: Vec<char> = Vec::new();
            extend_str(&mut out, "HOLD pid=");
            push_dec(&mut out, *pid as u64);
            extend_str(&mut out, " cmd=");
            let c = sanitize_line(command.as_str());
            extend(&mut out, &c);
            extend_str(&mut out, "\n");
            string_of(&out)
        },
        ClientMsg::Query => {
            let out = chars_of("QUERY\n");
            string_of(&out)
        },
    }
}

pub fn decode_client(line: &str) -> (r: Result<ClientMsg, IpcError>)
    ensures
        outcome(r) == decode_client_spec(line@),
{
    let v = chars_of(line);
    let v = drop_suffix_char(v, '\n');
    let l = drop_suffix_char(v, '\r');
    if same_str(&l, "QUERY") {
        return Ok(ClientMsg::Query);
    }
    if same_str(&l, "HOLD") {
        // Bare HOLD from an older client: no metadata available.
        let command = String::new();
        return Ok(ClientMsg::Hold { pid: 0, command });
    }
    match strip_prefix_str(&l, "HOLD ") {
        None => Err(malformed(&l)),
        Some(rest) => match split_first_str(&rest, " cmd=") {
            None => Err(malformed(&l)),
            Some((pid_part, cmd)) => match strip_prefix_str(&pid_part, "pid=") {
                None => Err(malformed(&l)),
                Some(digits) => match parse_unsigned_chars(&digits, 0xffff_ffffu64) {
                    None => Err(malformed(&l)),
                    Some(pid) => Ok(ClientMsg::Hold { pid: pid as u32, command: string_of(&cmd) }),
                },
            },
        },
    }
}

fn session_line_chars(s: &SessionInfo, out: &mut Vec<char>)
    ensures
        final(out)@ == old(out)@ + session_line(s@),
{
    extend_str(out, "SESSION pid=");
    push_dec(out, s.pid as u64);
    extend_str(out, " uptime=");
    push_dec(out, s.uptime_secs);
    extend_str(out, " cmd=");
    let c = sanitize_line(s.command.as_str());
    extend(out, &c);
    extend_str(out, "\n");
    assert(out@ =~= old(out)@ + session_line(s@));
}

pub fn encode_server(m: &ServerMsg) -> (r: String)
    ensures
        r@ == server_text(m@),
{
    match m {
        ServerMsg::Ack => {
            let out = chars_of("OK\n");
            string_of(&out)
        },
        ServerMsg::Status(s) => {
            let mut out: Vec<char> = Vec::new();
            extend_str(&mut out, "STATUS pid=");
            push_dec(&mut out, s.pid as u64);
            extend_str(&mut out, " sessions=");
            push_dec(&mut out, s.sessions.len() as u64);
            extend_str(&mut out, " version=");
            let v = sanitize_line(s.version.as_str());
            extend(&mut out, &v);
            extend_str(&mut out, "\n");
            assert(out@ =~= status_header(s@));
            let mut i: usize = 0;
            while i < s.sessions.len()
                invariant
                    i <= s.sessions.len(),
                    out@ == status_header(s@) + session_block(
                        session_models(s.sessions@).take(i as int),
                    ),
                decreases s.sessions.len() - i,
            {
                let ghost before = out@;
                session_line_chars(&s.sessions[i], &mut out);
                proof {
                    let ms = session_models(s.sessions@);
                    assert(ms.take(i + 1).drop_last() =~= ms.take(i as int));
                    assert(ms.take(i + 1).last() == s.sessions@[i as int]@);
                }
                i = i + 1;
                assert(out@ =~= status_header(s@) + session_block(
                    session_models(s.sessions@).take(i as int),
                ));
            }
            assert(session_models(s.sessions@).take(i as int) =~= session_models(s.sessions@));
            string_of(&out)
        },
    }
}

fn header_fields_exec(fields: &Vec<Vec<char>>) -> (r: Result<(Option<u32>, Option<usize>), Vec<char>>)
    ensures
        text_err(r) == header_fields(views(fields@), None, None),
{
    let mut pid: Option<u32> = None;
    let mut count: Option<usize> = None;
    let mut i: usize = 0;
    assert(views(fields@).skip(0) =~= views(fields@));
    while i < fields.len()
        invariant
            i <= fields.len(),
            header_fields(views(fields@), None, None) == header_fields(
                views(fields@).skip(i as int),
                pid,
                count,
            ),
        decreases fields.len() - i,
    {
        let ghost fs = views(fields@).skip(i as int);
        assert(fs.drop_first() =~= views(fields@).skip(i + 1));
        assert(fs[0] == fields@[i as int]@);
        let f = &fields[i];
        match split_first_str(f, "=") {
            None => {
                return Err(f.clone());
            },
            Some((k, v)) => {
                if same_str(&k, "pid") {
                    pid = match parse_unsigned_chars(&v, 0xffff_ffffu64) {
                        Some(n) => Some(n as u32),
                        None => None,
                    };
                } else if same_str(&k, "sessions") {
                    count = match parse_unsigned_chars(&v, usize::MAX as u64) {
                        Some(n) => Some(n as usize),
                        None => None,
                    };
                } else {
                    return Err(f.clone());
                }
            },
        }
        i = i + 1;
    }
    assert(views(fields@).skip(i as int) =~= Seq::<Seq<char>>::empty());
    Ok((pid, count))
}

fn session_fields_exec(fields: &Vec<Vec<char>>) -> (r: Result<(Option<u32>, Option<u64>), Vec<char>>)
    ensures
        text_err(r) == session_fields(views(fields@), None, None),
{
    let mut pid: Option<u32> = None;
    let mut uptime: Option<u64> = None;
    let mut i: usize = 0;
    assert(views(fields@).skip(0) =~= views(fields@));
    while i < fields.len()
        invariant
            i <= fields.len(),
            session_fields(views(fields@), None, None) == session_fields(
                views(fields@).skip(i as int),
                pid,
                uptime,
            ),
        decreases fields.len() - i,
    {
        let ghost fs = views(fields@).skip(i as int);
        assert(fs.drop_first() =~= views(fields@).skip(i + 1));
        assert(fs[0] == fields@[i as int]@);
        let f = &fields[i];
        match split_first_str(f, "=") {
            None => {
                return Err(f.clone());
            },
            Some((k, v)) => {
                if same_str(&k, "pid") {
                    pid = match parse_unsigned_chars(&v, 0xffff_ffffu64) {
                        Some(n) => Some(n as u32),
                        None => None,
                    };
                } else if same_str(&k, "uptime") {
                    uptime = match parse_unsigned_chars(&v, u64::MAX) {
                        Some(n) => Some(n),
                        None => None,
                    };
                } else {
                    return Err(f.clone());
                }
            },
        }
        i = i + 1;
    }
    assert(views(fields@).skip(i as int) =~= Seq::<Seq<char>>::empty());
    Ok((pid, uptime))
}

fn decode_session(line: &Vec<char>) -> (r: Result<SessionInfo, Vec<char>>)
    ensures
        decode_session_spec(line@) == match r {
            Ok(s) => Ok(s@),
            Err(e) => Err(e@),
        },
{
    let sl = match strip_prefix_str(line, "SESSION ") {
        Some(x) => x,
        None => return Err(line.clone()),
    };
    let (sf, cmd) = match split_first_str(&sl, " cmd=") {
        Some(x) => x,
        None => return Err(line.clone()),
    };
    let ws = split_words(&sf);
    match session_fields_exec(&ws) {
        Err(f) => Err(f),
        Ok((spid, up)) => match spid {
            None => Err(line.clone()),
            Some(p) => match up {
                None => Err(line.clone()),
                Some(u) => Ok(SessionInfo { pid: p, command: string_of(&cmd), uptime_secs: u }),
            },
        },
    }
}

#[verifier::loop_isolation(false)]
pub fn decode_server(input: &str) -> (r: Result<ServerMsg, IpcError>)
    ensures
        outcome(r) == decode_server_spec(input@),
{
    let chars = chars_of(input);
    let ls = split_lines(&chars);
    let ghost lsv = views(ls@);
    let empty: Vec<char> = Vec::new();
    let first = if ls.len() > 0 {
        trim_end_chars(&ls[0])
    } else {
        trim_end_chars(&empty)
    };
    assert(first@ == first_line(lsv));
    if same_str(&first, "OK") {
        return Ok(ServerMsg::Ack);
    }
    let rest = match strip_prefix_str(&first, "STATUS ") {
        Some(x) => x,
        None => return Err(malformed(&first)),
    };
    // `version` is the last field on the header line and may contain spaces.
    let (fields, version) = match split_first_str(&rest, " version=") {
        Some(x) => x,
        None => return Err(malformed(&first)),
    };
    let ws = split_words(&fields);
    let (pid, count) = match header_fields_exec(&ws) {
        Ok(x) => x,
        Err(f) => return Err(malformed(&f)),
    };
    let pid = match pid {
        Some(p) => p,
        None => return Err(malformed(&first)),
    };
    let count = match count {
        Some(c) => c,
        None => return Err(malformed(&first)),
    };
    let ghost later = later_lines(lsv);
    let mut sessions: Vec<SessionInfo> = Vec::new();
    let mut i: usize = 1;
    proof {
        if ls.len() > 0 {
            assert(later.take(0) =~= Seq::<Seq<char>>::empty());
        }
    }
    assert(session_models(sessions@) =~= Seq::<SessionModel>::empty());
    while i < ls.len()
        invariant
            1 <= i,
            ls.len() > 0 ==> i <= ls.len(),
            ls.len() == 0 ==> sessions@.len() == 0,
            lsv == views(ls@),
            later == later_lines(lsv),
            ls.len() > 0 ==> decode_sessions_spec(later.take(i - 1)) == Ok::<
                Seq<SessionModel>,
                Seq<char>,
            >(session_models(sessions@)),
        decreases ls.len() - i,
    {
        let ghost before = session_models(sessions@);
        assert(later.take(i as int).drop_last() =~= later.take(i - 1));
        assert(later.take(i as int).last() == ls@[i as int]@);
        match decode_session(&ls[i]) {
            Ok(s) => {
                sessions.push(s);
                assert(session_models(sessions@) =~= before.push(s@));
            },
            Err(e) => {
                proof {
                    lemma_sessions_prefix_err(later, i as int);
                }
                return Err(malformed(&e));
            },
        }
        i = i + 1;
    }
    proof {
        if ls.len() > 0 {
            assert(later.len() == ls.len() - 1);
            assert(later.take(i - 1) =~= later);
        } else {
            assert(later =~= Seq::<Seq<char>>::empty());
            assert(session_models(sessions@) =~= Seq::<SessionModel>::empty());
        }
        assert(decode_sessions_spec(later) == Ok::<Seq<SessionModel>, Seq<char>>(
            session_models(sessions@),
        ));
        assert(session_models(sessions@).len() == sessions@.len());
    }
    if sessions.len() != count {
        let mut msg: Vec<char> = Vec::new();
        extend_str(&mut msg, "session count ");
        push_dec(&mut msg, count as u64);
        extend_str(&mut msg, " != ");
        push_dec(&mut msg, sessions.len() as u64);
        extend_str(&mut msg, " SESSION lines");
        assert(msg@ =~= count_mismatch_text(count as nat, sessions@.len()));
        return Err(malformed(&msg));
    }
    Ok(ServerMsg::Status(StatusInfo { sessions, pid, version: string_of(&version) }))
}


// ---------------------------------------------------------------------------
// Laws: decoding what was encoded gives the message back
// ---------------------------------------------------------------------------

pub open spec fn sanitized_client(m: ClientModel) -> ClientModel {
    match m {
        ClientModel::Hold { pid, command } => ClientModel::Hold { pid, command: sanitize(command) },
        ClientModel::Query => ClientModel::Query,
    }
}

pub open spec fn sanitized_session(s: SessionModel) -> SessionModel {
    SessionModel { pid: s.pid, command: sanitize(s.command), uptime_secs: s.uptime_secs }
}

pub open spec fn sanitized_server(m: ServerModel) -> ServerModel {
    match m {
        ServerModel::Ack => ServerModel::Ack,
        ServerModel::Status(s) => ServerModel::Status(
            StatusModel {
                sessions: s.sessions.map_values(|x: SessionModel| sanitized_session(x)),
                pid: s.pid,
                version: sanitize(s.version),
            },
        ),
    }
}

/// The version text does not end in whitespace once line breaks are replaced
/// (the header line is trimmed at its end when it is read back).
pub open spec fn version_round_trips(m: ServerModel) -> bool {
    match m {
        ServerModel::Ack => true,
        ServerModel::Status(s) => s.version.len() == 0 || !is_ws(unbreak(s.version.last())),
    }
}

/// The daemon's status from its reply to `QUERY`: present only when the
/// reply decodes as a status block.
pub fn status_from_reply(reply: &str) -> (r: Option<StatusInfo>)
    ensures
        match decode_server_spec(reply@) {
            Ok(ServerModel::Status(s)) => r matches Some(info) && info@ == s,
            _ => r is None,
        },
{
    match decode_server(reply) {
        Ok(ServerMsg::Status(info)) => Some(info),
        _ => None,
    }
}

/// Decoding the line `encode_client` writes for a message gives that message
/// back; a line break inside the command comes back as a space.
pub proof fn law_client_round_trip(m: ClientMsg)
    ensures
        decode_client_spec(client_line(m@)) == Ok::<ClientModel, Seq<char>>(sanitized_client(m@)),
{
    reveal_strlit("HOLD pid=");
    reveal_strlit(" cmd=");
    reveal_strlit("\n");
    reveal_strlit("QUERY\n");
    reveal_strlit("QUERY");
    reveal_strlit("HOLD");
    reveal_strlit("HOLD ");
    reveal_strlit("pid=");
    match m@ {
        ClientModel::Query => {
            let line = client_line(m@);
            assert(line =~= "QUERY"@.push('\n'));
            lemma_without_suffix_push("QUERY"@, '\n');
            lemma_without_suffix_absent("QUERY"@, '\r');
        },
        ClientModel::Hold { pid, command } => {
            let d = dec(pid as nat);
            let c = sanitize(command);
            lemma_dec_plain(pid as nat);
            lemma_sanitize_no_break(command);
            let p1 = "pid="@ + d;
            let rest = p1 + " cmd="@ + c;
            let body = "HOLD "@ + rest;
            assert(client_line(m@) =~= body.push('\n'));
            lemma_without_suffix_push(body, '\n');
            if c.len() > 0 {
                assert(body.last() == c.last());
                assert(c.last() != '\r');
            } else {
                assert(body.last() == '=');
            }
            lemma_without_suffix_absent(body, '\r');
            assert(body[0] == 'H');
            assert(body != "QUERY"@);
            assert(body.len() > 4);
            assert(body != "HOLD"@);
            lemma_strip_prefix_concat("HOLD "@, rest);
            lemma_match_at_concat(p1, " cmd="@, c);
            assert forall|j: int| 0 <= j < p1.len() implies rest[j] != " cmd="@[0] by {
                assert(rest[j] == p1[j]);
                if j >= 4 {
                    assert(p1[j] == d[j - 4]);
                }
            }
            lemma_no_match_before(rest, " cmd="@, p1.len() as int);
            lemma_split_once_at(rest, " cmd="@, p1.len() as int);
            lemma_strip_prefix_concat("pid="@, d);
            lemma_parse_dec(pid as nat, u32::MAX as nat);
        },
    }
}

pub open spec fn session_body(s: SessionModel) -> Seq<char> {
    "SESSION pid="@ + dec(s.pid as nat) + " uptime="@ + dec(s.uptime_secs as nat) + " cmd="@
        + sanitize(s.command)
}

/// Splits `"<p1>=<value>"` for a key `p1` holding no `=`.
proof fn lemma_key_value(key: Seq<char>, value: Seq<char>)
    requires
        no_char(key, '='),
    ensures
        split_once(key + "="@ + value, "="@) == Some((key, value)),
{
    reveal_strlit("=");
    let s = key + "="@ + value;
    lemma_match_at_concat(key, "="@, value);
    assert forall|j: int| 0 <= j < key.len() implies s[j] != "="@[0] by {
        assert(s[j] == key[j]);
    }
    lemma_no_match_before(s, "="@, key.len() as int);
    lemma_split_once_at(s, "="@, key.len() as int);
}

proof fn lemma_decode_session_body(s: SessionModel)
    ensures
        decode_session_spec(session_body(s)) == Ok::<SessionModel, Seq<char>>(sanitized_session(s)),
{
    reveal_strlit("SESSION pid=");
    reveal_strlit("SESSION ");
    reveal_strlit("pid=");
    reveal_strlit("pid");
    reveal_strlit(" uptime=");
    reveal_strlit("uptime=");
    reveal_strlit("uptime");
    reveal_strlit(" cmd=");
    reveal_strlit("=");
    let dp = dec(s.pid as nat);
    let du = dec(s.uptime_secs as nat);
    let c = sanitize(s.command);
    lemma_dec_plain(s.pid as nat);
    lemma_dec_plain(s.uptime_secs as nat);
    let b1 = "pid="@ + dp;
    let b2 = "uptime="@ + du;
    let sf = b1 + seq![' '] + b2;
    let r = sf + " cmd="@ + c;
    assert(session_body(s) =~= "SESSION "@ + r);
    lemma_strip_prefix_concat("SESSION "@, r);
    // the first " cmd=" is the one written before the command
    lemma_match_at_concat(sf, " cmd="@, c);
    assert forall|j: int| 0 <= j < sf.len() && j + 1 < r.len() implies #[trigger] r[j]
        != " cmd="@[0] || r[j + 1] != " cmd="@[1] by {
        if j < b1.len() {
            assert(r[j] == b1[j]);
            if j >= 4 {
                assert(b1[j] == dp[j - 4]);
            }
        } else if j == b1.len() {
            assert(r[j + 1] == b2[0]);
        } else {
            assert(r[j] == b2[j - b1.len() - 1]);
            if j - b1.len() - 1 >= 7 {
                assert(b2[j - b1.len() - 1] == du[j - b1.len() - 1 - 7]);
            }
        }
    }
    lemma_no_match_pair(r, " cmd="@, sf.len() as int);
    lemma_split_once_at(r, " cmd="@, sf.len() as int);
    assert(no_ws(b1)) by {
        assert forall|j: int| 0 <= j < b1.len() implies !is_ws(#[trigger] b1[j]) by {
            if j >= 4 {
                assert(b1[j] == dp[j - 4]);
            }
        }
    }
    assert(no_ws(b2)) by {
        assert forall|j: int| 0 <= j < b2.len() implies !is_ws(#[trigger] b2[j]) by {
            if j >= 7 {
                assert(b2[j] == du[j - 7]);
            }
        }
    }
    lemma_words_two(b1, b2);
    assert(b1 =~= "pid"@ + "="@ + dp);
    assert(b2 =~= "uptime"@ + "="@ + du);
    lemma_key_value("pid"@, dp);
    lemma_key_value("uptime"@, du);
    lemma_parse_dec(s.pid as nat, u32::MAX as nat);
    lemma_parse_dec(s.uptime_secs as nat, u64::MAX as nat);
    let ws = seq![b1, b2];
    assert(ws.drop_first() =~= seq![b2]);
    assert(seq![b2].drop_first() =~= Seq::<Seq<char>>::empty());
    assert(strip_prefix(session_body(s), "SESSION "@) == Some(r));
    assert(split_once(r, " cmd="@) == Some((sf, c)));
    assert(words(sf) == ws);
    assert(split_once(b1, "="@) == Some(("pid"@, dp)));
    assert(split_once(b2, "="@) == Some(("uptime"@, du)));
    assert(parse_u32(dp) == Some(s.pid));
    assert(parse_u64(du) == Some(s.uptime_secs));
    assert(session_fields(seq![b2], Some(s.pid), None) == session_fields(
        Seq::<Seq<char>>::empty(),
        Some(s.pid),
        Some(s.uptime_secs),
    ));
    assert(session_fields(ws, None, None) == Ok::<(Option<u32>, Option<u64>), Seq<char>>(
        (Some(s.pid), Some(s.uptime_secs)),
    ));
}

proof fn lemma_session_line_parts(s: SessionModel)
    ensures
        session_line(s) == session_body(s) + seq!['\n'],
        no_char(session_body(s), '\n'),
        session_body(s).last() != '\r',
        session_body(s).len() > 0,
{
    reveal_strlit("SESSION pid=");
    reveal_strlit(" uptime=");
    reveal_strlit(" cmd=");
    reveal_strlit("\n");
    let dp = dec(s.pid as nat);
    let du = dec(s.uptime_secs as nat);
    let c = sanitize(s.command);
    lemma_dec_plain(s.pid as nat);
    lemma_dec_plain(s.uptime_secs as nat);
    lemma_sanitize_no_break(s.command);
    let b = session_body(s);
    assert(session_line(s) =~= b + seq!['\n']);
    let p = "SESSION pid="@ + dp + " uptime="@ + du + " cmd="@;
    assert(b =~= p + c);
    assert forall|j: int| 0 <= j < b.len() implies b[j] != '\n' by {
        if j >= p.len() {
            assert(b[j] == c[j - p.len()]);
        } else if j >= 12 + dp.len() + 8 {
            assert(p[j] == (("SESSION pid="@ + dp + " uptime="@ + du) + " cmd="@)[j]);
        }
        if j < 12 {
            assert(b[j] == "SESSION pid="@[j]);
        } else if j < 12 + dp.len() {
            assert(b[j] == dp[j - 12]);
        } else if j < 12 + dp.len() + 8 {
            assert(b[j] == " uptime="@[j - 12 - dp.len()]);
        } else if j < 12 + dp.len() + 8 + du.len() {
            assert(b[j] == du[j - 12 - dp.len() - 8]);
        } else if j < p.len() {
            assert(b[j] == " cmd="@[j - 12 - dp.len() - 8 - du.len()]);
        }
    }
    if c.len() > 0 {
        assert(b.last() == c.last());
    } else {
        assert(b.last() == '=');
    }
}

proof fn lemma_block_lines(ss: Seq<SessionModel>)
    ensures
        lines(session_block(ss)) == ss.map_values(|x: SessionModel| session_body(x)),
        session_block(ss).len() == 0 || session_block(ss).last() == '\n',
    decreases ss.len(),
{
    if ss.len() == 0 {
        assert(ss.map_values(|x: SessionModel| session_body(x)) =~= Seq::<Seq<char>>::empty());
    } else {
        let prev = ss.drop_last();
        lemma_block_lines(prev);
        let s = ss.last();
        lemma_session_line_parts(s);
        lemma_lines_append(session_block(prev), session_line(s));
        assert(session_body(s) + seq!['\n'] =~= session_body(s) + seq!['\n'] + Seq::<char>::empty());
        lemma_lines_cons(session_body(s), Seq::<char>::empty());
        lemma_without_suffix_absent(session_body(s), '\r');
        assert(lines(Seq::<char>::empty()) =~= Seq::<Seq<char>>::empty());
        assert(ss.map_values(|x: SessionModel| session_body(x)) =~= prev.map_values(
            |x: SessionModel| session_body(x),
        ) + seq![session_body(s)]);
        assert(session_block(ss).last() == session_line(s).last());
    }
}

proof fn lemma_decode_bodies(ss: Seq<SessionModel>)
    ensures
        decode_sessions_spec(ss.map_values(|x: SessionModel| session_body(x))) == Ok::<
            Seq<SessionModel>,
            Seq<char>,
        >(ss.map_values(|x: SessionModel| sanitized_session(x))),
    decreases ss.len(),
{
    let bs = ss.map_values(|x: SessionModel| session_body(x));
    if ss.len() == 0 {
        assert(bs =~= Seq::<Seq<char>>::empty());
        assert(ss.map_values(|x: SessionModel| sanitized_session(x)) =~= Seq::<SessionModel>::empty());
    } else {
        let prev = ss.drop_last();
        lemma_decode_bodies(prev);
        assert(bs.drop_last() =~= prev.map_values(|x: SessionModel| session_body(x)));
        lemma_decode_session_body(ss.last());
        assert(ss.map_values(|x: SessionModel| sanitized_session(x)) =~= prev.map_values(
            |x: SessionModel| sanitized_session(x),
        ).push(sanitized_session(ss.last())));
    }
}

pub open spec fn header_body(pid: u32, n: nat, version: Seq<char>) -> Seq<char> {
    "STATUS pid="@ + dec(pid as nat) + " sessions="@ + dec(n) + " version="@ + sanitize(version)
}

proof fn lemma_header_shape(pid: u32, n: nat, version: Seq<char>)
    requires
        version.len() == 0 || !is_ws(unbreak(version.last())),
    ensures
        no_char(header_body(pid, n, version), '\n'),
        trim_end(without_suffix(header_body(pid, n, version), seq!['\r'])) == header_body(
            pid,
            n,
            version,
        ),
        header_body(pid, n, version) != "OK"@,
{
    reveal_strlit("STATUS pid=");
    reveal_strlit(" sessions=");
    reveal_strlit(" version=");
    reveal_strlit("OK");
    let dp = dec(pid as nat);
    let dn = dec(n);
    let v = sanitize(version);
    lemma_dec_plain(pid as nat);
    lemma_dec_plain(n);
    lemma_sanitize_no_break(version);
    let h0 = header_body(pid, n, version);
    let pre = "STATUS pid="@ + dp + " sessions="@ + dn + " version="@;
    assert(h0 =~= pre + v);
    assert forall|j: int| 0 <= j < h0.len() implies h0[j] != '\n' by {
        if j >= pre.len() {
            assert(h0[j] == v[j - pre.len()]);
        } else if j < 11 {
            assert(h0[j] == "STATUS pid="@[j]);
        } else if j < 11 + dp.len() {
            assert(h0[j] == dp[j - 11]);
        } else if j < 11 + dp.len() + 10 {
            assert(h0[j] == " sessions="@[j - 11 - dp.len()]);
        } else if j < 11 + dp.len() + 10 + dn.len() {
            assert(h0[j] == dn[j - 21 - dp.len()]);
        } else {
            assert(h0[j] == " version="@[j - 21 - dp.len() - dn.len()]);
        }
    }
    if v.len() > 0 {
        assert(h0.last() == v.last());
        assert(v.last() == unbreak(version.last()));
    } else {
        assert(h0.last() == '=');
    }
    lemma_without_suffix_absent(h0, '\r');
    lemma_trim_end_noop(h0);
    assert(h0[0] == 'S');
}

proof fn lemma_header_parse(pid: u32, n: usize, version: Seq<char>)
    ensures
        ({
            let h0 = header_body(pid, n as nat, version);
            &&& strip_prefix(h0, "STATUS "@) matches Some(rest) && split_once(rest, " version="@)
                matches Some((fields, v)) && v == sanitize(version) && header_fields(
                words(fields),
                None,
                None,
            ) == Ok::<(Option<u32>, Option<usize>), Seq<char>>((Some(pid), Some(n)))
        }),
{
    reveal_strlit("STATUS pid=");
    reveal_strlit("STATUS ");
    reveal_strlit("pid=");
    reveal_strlit("pid");
    reveal_strlit(" sessions=");
    reveal_strlit("sessions=");
    reveal_strlit("sessions");
    reveal_strlit(" version=");
    reveal_strlit("=");
    let dp = dec(pid as nat);
    let dn = dec(n as nat);
    let v = sanitize(version);
    lemma_dec_plain(pid as nat);
    lemma_dec_plain(n as nat);
    let p1 = "pid="@ + dp;
    let p2 = "sessions="@ + dn;
    let fields = p1 + seq![' '] + p2;
    let rest = fields + " version="@ + v;
    let h0 = header_body(pid, n as nat, version);
    assert(h0 =~= "STATUS "@ + rest);
    lemma_strip_prefix_concat("STATUS "@, rest);
    lemma_match_at_concat(fields, " version="@, v);
    assert forall|j: int| 0 <= j < fields.len() && j + 1 < rest.len() implies #[trigger] rest[j]
        != " version="@[0] || rest[j + 1] != " version="@[1] by {
        if j < p1.len() {
            assert(rest[j] == p1[j]);
            if j >= 4 {
                assert(p1[j] == dp[j - 4]);
            }
        } else if j == p1.len() {
            assert(rest[j + 1] == p2[0]);
        } else {
            assert(rest[j] == p2[j - p1.len() - 1]);
            if j - p1.len() - 1 >= 9 {
                assert(p2[j - p1.len() - 1] == dn[j - p1.len() - 10]);
            }
        }
    }
    lemma_no_match_pair(rest, " version="@, fields.len() as int);
    lemma_split_once_at(rest, " version="@, fields.len() as int);
    assert(no_ws(p1)) by {
        assert forall|j: int| 0 <= j < p1.len() implies !is_ws(#[trigger] p1[j]) by {
            if j >= 4 {
                assert(p1[j] == dp[j - 4]);
            }
        }
    }
    assert(no_ws(p2)) by {
        assert forall|j: int| 0 <= j < p2.len() implies !is_ws(#[trigger] p2[j]) by {
            if j >= 9 {
                assert(p2[j] == dn[j - 9]);
            }
        }
    }
    lemma_words_two(p1, p2);
    assert(p1 =~= "pid"@ + "="@ + dp);
    assert(p2 =~= "sessions"@ + "="@ + dn);
    lemma_key_value("pid"@, dp);
    lemma_key_value("sessions"@, dn);
    lemma_parse_dec(pid as nat, u32::MAX as nat);
    lemma_parse_dec(n as nat, usize::MAX as nat);
    assert(parse_u32(dp) == Some(pid));
    assert(parse_usize(dn) == Some(n));
    let hs = seq![p1, p2];
    assert(hs.drop_first() =~= seq![p2]);
    assert(seq![p2].drop_first() =~= Seq::<Seq<char>>::empty());
    assert(header_fields(seq![p2], Some(pid), None) == header_fields(
        Seq::<Seq<char>>::empty(),
        Some(pid),
        Some(n),
    ));
}

/// Decoding the text `encode_server` writes for a message gives that message
/// back, line breaks inside the version and the commands coming back as
/// spaces, provided the version does not end in whitespace.
pub proof fn law_server_round_trip(m: ServerMsg)
    requires
        version_round_trips(m@),
    ensures
        decode_server_spec(server_text(m@)) == Ok::<ServerModel, Seq<char>>(sanitized_server(m@)),
{
    reveal_strlit("OK\n");
    reveal_strlit("OK");
    reveal_strlit("\n");
    match m {
        ServerMsg::Ack => {
            let t = server_text(m@);
            assert(t =~= "OK"@ + seq!['\n'] + Seq::<char>::empty());
            lemma_lines_cons("OK"@, Seq::<char>::empty());
            lemma_without_suffix_absent("OK"@, '\r');
            assert(lines(t)[0] == "OK"@);
            lemma_trim_end_noop("OK"@);
        },
        ServerMsg::Status(st) => {
            let sm = st@;
            let n = st.sessions.len();
            assert(sm.sessions.len() == n);
            let h0 = header_body(sm.pid, n as nat, sm.version);
            let block = session_block(sm.sessions);
            assert(status_header(sm) =~= h0 + seq!['\n']);
            assert(server_text(m@) =~= h0 + seq!['\n'] + block);
            lemma_header_shape(sm.pid, n as nat, sm.version);
            lemma_lines_cons(h0, block);
            let ls = lines(server_text(m@));
            assert(first_line(ls) == h0);
            lemma_header_parse(sm.pid, n, sm.version);
            lemma_block_lines(sm.sessions);
            assert(later_lines(ls) =~= sm.sessions.map_values(|x: SessionModel| session_body(x)));
            lemma_decode_bodies(sm.sessions);
            assert(sm.sessions.map_values(|x: SessionModel| sanitized_session(x)).len() == n);
        },
    }
}

} // verus!
