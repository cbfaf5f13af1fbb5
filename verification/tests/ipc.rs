use espresso::ipc::{
    decode_client, decode_server, encode_client, encode_server, status_from_reply, ClientMsg,
    IpcError, ServerMsg, SessionInfo, StatusInfo,
};

#[test]
fn client_round_trip() {
    for m in [
        ClientMsg::Hold { pid: 4821, command: "espresso -- sleep 100".into() },
        ClientMsg::Hold { pid: 7, command: "espresso -- echo 你好 世界".into() },
        ClientMsg::Query,
    ] {
        let line = encode_client(&m);
        assert_eq!(decode_client(&line), Ok(m));
    }
}

#[test]
fn bare_hold_still_decodes() {
    assert_eq!(
        decode_client("HOLD"),
        Ok(ClientMsg::Hold { pid: 0, command: String::new() })
    );
}

#[test]
fn ok_round_trip() {
    let line = encode_server(&ServerMsg::Ack);
    assert_eq!(decode_server(line.trim_end()), Ok(ServerMsg::Ack));
}

#[test]
fn malformed_client_rejected() {
    assert!(matches!(decode_client("NONSENSE"), Err(IpcError::Malformed(_))));
    assert!(matches!(decode_client("HOLD cmd=x"), Err(IpcError::Malformed(_))));
}

#[test]
fn status_round_trip_no_sessions() {
    let info = StatusInfo {
        sessions: vec![],
        pid: 4821,
        version: "0.2.2".into(),
    };
    let line = encode_server(&ServerMsg::Status(info.clone()));
    assert_eq!(decode_server(&line), Ok(ServerMsg::Status(info)));
}

#[test]
fn status_round_trip_with_sessions_incl_spaces_and_cjk() {
    let info = StatusInfo {
        sessions: vec![
            SessionInfo { pid: 12346, command: "espresso -- sleep 100".into(), uptime_secs: 192 },
            SessionInfo { pid: 12888, command: "espresso -- echo 你好 世界".into(), uptime_secs: 45 },
        ],
        pid: 700,
        version: "0.2.2 debug build".into(),
    };
    let line = encode_server(&ServerMsg::Status(info.clone()));
    assert_eq!(decode_server(&line), Ok(ServerMsg::Status(info)));
}

#[test]
fn status_session_count_mismatch_rejected() {
    // Header claims 1 session but no SESSION line follows.
    assert!(matches!(
        decode_server("STATUS pid=1 sessions=1 version=0.1"),
        Err(IpcError::Malformed(_))
    ));
}

#[test]
fn status_missing_prefix_rejected() {
    assert!(matches!(
        decode_server("pid=1 sessions=0 version=0.1"),
        Err(IpcError::Malformed(_))
    ));
}

#[test]
fn status_missing_field_rejected() {
    assert!(matches!(
        decode_server("STATUS sessions=0 version=0.1"),
        Err(IpcError::Malformed(_))
    ));
}

#[test]
fn status_unknown_field_rejected() {
    assert!(matches!(
        decode_server("STATUS pid=1 sessions=0 bogus=1 version=0.1"),
        Err(IpcError::Malformed(_))
    ));
}

// ---- the exact wire text ----

#[test]
fn client_lines_are_exact() {
    assert_eq!(
        encode_client(&ClientMsg::Hold { pid: 42, command: "espresso -t 60".into() }),
        "HOLD pid=42 cmd=espresso -t 60\n"
    );
    assert_eq!(encode_client(&ClientMsg::Query), "QUERY\n");
}

#[test]
fn line_breaks_in_a_command_become_spaces() {
    let line = encode_client(&ClientMsg::Hold { pid: 1, command: "a\nb\rc".into() });
    assert_eq!(line, "HOLD pid=1 cmd=a b c\n");
    assert_eq!(
        decode_client(&line),
        Ok(ClientMsg::Hold { pid: 1, command: "a b c".into() })
    );
}

#[test]
fn server_text_is_exact() {
    assert_eq!(encode_server(&ServerMsg::Ack), "OK\n");
    let info = StatusInfo {
        sessions: vec![SessionInfo { pid: 9, command: "espresso -- make".into(), uptime_secs: 5 }],
        pid: 3,
        version: "1.0".into(),
    };
    assert_eq!(
        encode_server(&ServerMsg::Status(info)),
        "STATUS pid=3 sessions=1 version=1.0\nSESSION pid=9 uptime=5 cmd=espresso -- make\n"
    );
}

#[test]
fn query_with_trailing_newline_decodes() {
    assert_eq!(decode_client("QUERY\n"), Ok(ClientMsg::Query));
}

#[test]
fn malformed_error_carries_the_text() {
    assert_eq!(decode_client("NONSENSE"), Err(IpcError::Malformed("NONSENSE".into())));
    assert_eq!(
        IpcError::Malformed("x".into()).message(),
        "malformed IPC message: x"
    );
}

#[test]
fn unknown_server_reply_rejected() {
    assert!(matches!(decode_server("NOPE"), Err(IpcError::Malformed(_))));
}

#[test]
fn status_reply_gives_the_status() {
    let info = StatusInfo {
        sessions: vec![SessionInfo { pid: 5, command: "espresso -t 9".into(), uptime_secs: 1 }],
        pid: 2,
        version: "0.2.2".into(),
    };
    let reply = encode_server(&ServerMsg::Status(info.clone()));
    assert_eq!(status_from_reply(&reply), Some(info));
    assert_eq!(status_from_reply("OK\n"), None);
    assert_eq!(status_from_reply(""), None);
    assert_eq!(status_from_reply("STATUS pid=1 sessions=1 version=0.1"), None);
}
